//! The texts on the screen.

#![verifier::loop_isolation(false)]

use vstd::prelude::*;

use crate::commands::order::paths_of;
use crate::commands::selection::opt_record;
use crate::commands::show::{tags_text, write_tags};
use crate::config::model::{HostEntry, ManagedEntry, ManagedView};
use crate::config::state::{EntryMetadata, MetadataView, changed};
use crate::strings::{
    chars_of, concat2, concat3, concat4, concat5, decimal_text, joined, string_of, text_or_dash,
};
use crate::text::{decimal, join, lines, opt_str, or_dash, pairs, views};
use crate::tui::forms::{DetailMode, InputMode, PaneFocus};
use crate::tui::state::{TuiState, TuiView, content_title, list_position, loaded};
use crate::tui::viewport::window_text;

verus! {

broadcast use crate::text::group_text;

// ---------------------------------------------------------------------------
// Short texts
// ---------------------------------------------------------------------------

/// `n` dots.
pub open spec fn dots(n: nat) -> Seq<char> {
    Seq::new(n, |i: int| '.')
}

/// A text that is no longer than `width`: of a longer one the beginning, with dots behind it.
pub open spec fn fitted(value: Seq<char>, width: int) -> Seq<char> {
    if value.len() <= width {
        value
    } else if width <= 3 {
        dots(width as nat)
    } else {
        value.take(width - 3) + dots(3)
    }
}

/// A fitted text is as wide as it may be, or it is the text itself.
pub proof fn law_fitted_text_fits(value: Seq<char>, width: int)
    requires
        0 <= width,
    ensures
        fitted(value, width).len() <= width,
        value.len() <= width ==> fitted(value, width) == value,
        value.len() > width ==> fitted(value, width).len() == width,
{
}

pub fn truncate_text(value: &str, max_width: usize) -> (r: String)
    ensures
        r@ == fitted(value@, max_width as int),
{
    let v: Vec<char> = chars_of(value);
    if v.len() <= max_width {
        return value.to_string();
    }
    let kept: usize = if max_width <= 3 {
        0
    } else {
        max_width - 3
    };
    let mut r: String = string_of(&v, 0, kept);
    let ghost head = r@;
    assert(head =~= value@.take(kept as int));
    let mut n: usize = kept;
    while n < max_width
        invariant
            kept <= n <= max_width,
            r@ =~= head + dots((n - kept) as nat),
        decreases max_width - n,
    {
        r.push('.');
        n += 1;
    }
    assert(r@ =~= fitted(value@, max_width as int));
    r
}

// ---------------------------------------------------------------------------
// The status line
// ---------------------------------------------------------------------------

pub open spec fn or_question(o: Option<Seq<char>>) -> Seq<char> {
    match o {
        Some(v) => v,
        None => "?"@,
    }
}

fn write_or_question(o: Option<&str>) -> (r: String)
    ensures
        r@ == or_question(opt_str(o)),
{
    match o {
        Some(v) => v.to_string(),
        None => "?".to_string(),
    }
}

/// What is said where there is nothing else to say.
pub open spec fn default_status(s: TuiView) -> Seq<char> {
    let host = match s.selected_host() {
        Some(h) => h,
        None => "<none>"@,
    };
    if s.entries.len() == 0 {
        "Quick start | run `sshcfg init`, then press `a` to add an entry. `?` opens the full guide."@
    } else if s.filtered.len() == 0 {
        "No visible entries | press `x` to clear filters, `f` to edit filters, or `/` to refine the search."@
    } else if s.focus == PaneFocus::HostList {
        "Selected `"@ + host
            + "` | Tab switches to detail, `a/e/d/r` manage entries, `v` toggles raw / merged, `?` opens full help."@
    } else {
        "Inspecting `"@ + host
            + "` | use `j/k` or PgUp/PgDn to scroll, Tab returns to the host list, `v` toggles raw / merged."@
    }
}

pub fn default_status_message(state: &TuiState) -> (r: String)
    ensures
        r@ == default_status(state@),
{
    if state.entry_count() == 0 {
        return "Quick start | run `sshcfg init`, then press `a` to add an entry. `?` opens the full guide.".to_string();
    }
    if state.filtered_count() == 0 {
        return "No visible entries | press `x` to clear filters, `f` to edit filters, or `/` to refine the search.".to_string();
    }
    let host: String = match state.selected_host() {
        Some(h) => h,
        None => "<none>".to_string(),
    };
    if state.list_is_focused() {
        concat3(
            "Selected `",
            &host,
            "` | Tab switches to detail, `a/e/d/r` manage entries, `v` toggles raw / merged, `?` opens full help.",
        )
    } else {
        concat3(
            "Inspecting `",
            &host,
            "` | use `j/k` or PgUp/PgDn to scroll, Tab returns to the host list, `v` toggles raw / merged.",
        )
    }
}

/// The status line of a mode.
pub open spec fn status_of(s: TuiView) -> Seq<char> {
    match s.mode {
        InputMode::Inspect => match s.report {
            Some(x) => x.summary,
            None => "No diagnostics loaded"@,
        },
        InputMode::BackupCatalog => match s.catalog {
            Some(c) => c.summary_text(),
            None => "No backup catalog loaded"@,
        },
        InputMode::ConfirmDelete => "Delete `"@ + or_question(s.deleting)
            + "`? This removes the managed file and updates metadata."@,
        InputMode::ConfirmRestore => "Restore `"@ + or_question(
            match s.restoring {
                Some(x) => Some(x.label),
                None => None,
            },
        ) + "`? Current config will be backed up first, then replaced."@,
        InputMode::Reorder => "Reordering `"@ + or_question(
            match s.reorder {
                Some(r) => Some(r.host),
                None => None,
            },
        ) + "`"@ + (if s.reorder matches Some(r) && paths_of(s.entries) != paths_of(r.entries) {
            " | draft order changed"@
        } else {
            " | no saved changes yet"@
        }),
        InputMode::Search =>
            "Search mode | type to narrow the host list live, Enter keeps it, Esc clears it."@,
        InputMode::Filter =>
            "Filter mode | set query, tags, note, and template filters here, then press Enter."@,
        InputMode::Edit =>
            "Form mode | edit fields directly here, Enter saves, Esc cancels, Left/Right cycles Template."@,
        InputMode::Normal => match s.status {
            Some(m) => m,
            None => default_status(s),
        },
    }
}

pub fn status_text(state: &TuiState) -> (r: String)
    ensures
        r@ == status_of(state@),
{
    match state.input_mode() {
        InputMode::Inspect => match state.inspection_report() {
            Some(x) => x.summary().to_string(),
            None => "No diagnostics loaded".to_string(),
        },
        InputMode::BackupCatalog => match state.backup_catalog() {
            Some(c) => c.summary(),
            None => "No backup catalog loaded".to_string(),
        },
        InputMode::ConfirmDelete => concat3(
            "Delete `",
            &write_or_question(state.pending_delete_host()),
            "`? This removes the managed file and updates metadata.",
        ),
        InputMode::ConfirmRestore => {
            let label: String = match state.pending_restore_snapshot() {
                Some(x) => x.label.clone(),
                None => "?".to_string(),
            };
            concat3(
                "Restore `",
                &label,
                "`? Current config will be backed up first, then replaced.",
            )
        },
        InputMode::Reorder => {
            let note: &str = if state.reorder_dirty() {
                " | draft order changed"
            } else {
                " | no saved changes yet"
            };
            concat4("Reordering `", &write_or_question(state.reorder_host()), "`", note)
        },
        InputMode::Search => "Search mode | type to narrow the host list live, Enter keeps it, Esc clears it.".to_string(),
        InputMode::Filter => "Filter mode | set query, tags, note, and template filters here, then press Enter.".to_string(),
        InputMode::Edit => "Form mode | edit fields directly here, Enter saves, Esc cancels, Left/Right cycles Template.".to_string(),
        InputMode::Normal => match state.status_message() {
            Some(m) => m.to_string(),
            None => default_status_message(state),
        },
    }
}

// ---------------------------------------------------------------------------
// Titles
// ---------------------------------------------------------------------------

/// The pairs of the header line.
pub open spec fn header_of(s: TuiView) -> Seq<(Seq<char>, Seq<char>)> {
    seq![
        ("MODE"@, s.mode.spec_label()),
        ("FOCUS"@, s.focus.spec_label()),
        ("VIEW"@, s.detail.spec_short_label()),
        (
            "VISIBLE"@,
            fitted(decimal(s.filtered.len()) + "/"@ + decimal(s.entries.len()), 24),
        ),
        (
            "HOST"@,
            match s.selected_host() {
                Some(h) => fitted(h, 20),
                None => "none"@,
            },
        ),
        (
            "FILTERS"@,
            match s.filter_summary() {
                Some(t) => fitted(t, 24),
                None => "none"@,
            },
        ),
        ("HELP"@, "?"@),
    ]
}

pub fn header_pairs(state: &TuiState) -> (r: Vec<(String, String)>)
    ensures
        pairs(r@) == header_of(state@),
{
    let host: String = match state.selected_host() {
        Some(h) => truncate_text(&h, 20),
        None => "none".to_string(),
    };
    let filters: String = match state.active_filter_summary() {
        Some(t) => truncate_text(&t, 24),
        None => "none".to_string(),
    };
    let visible: String = concat3(
        &decimal_text(state.filtered_count()),
        "/",
        &decimal_text(state.entry_count()),
    );
    let mut r: Vec<(String, String)> = Vec::new();
    r.push(("MODE".to_string(), state.input_mode().label().to_string()));
    r.push(("FOCUS".to_string(), state.pane_focus().label().to_string()));
    r.push(("VIEW".to_string(), state.detail_mode().short_label().to_string()));
    r.push(("VISIBLE".to_string(), truncate_text(&visible, 24)));
    r.push(("HOST".to_string(), host));
    r.push(("FILTERS".to_string(), filters));
    r.push(("HELP".to_string(), "?".to_string()));
    assert(pairs(r@) =~= header_of(state@));
    r
}

/// The title over the list.
pub open spec fn list_title_of(s: TuiView) -> Seq<char> {
    " Hosts "@ + decimal(s.filtered.len()) + "/"@ + decimal(s.entries.len()) + " "@ + (
    match s.filter_summary() {
        Some(t) => "| "@ + t + " "@,
        None => Seq::empty(),
    }) + (match list_position(s) {
        Some(p) => "| "@ + p + " "@,
        None => Seq::empty(),
    }) + (match s.mode {
        InputMode::Normal => "[focus:"@ + s.focus.spec_label() + "] "@,
        InputMode::Reorder => "[reordering] "@,
        _ => Seq::empty(),
    })
}

pub fn list_title(state: &TuiState) -> (r: String)
    requires
        state@.wf(),
    ensures
        r@ == list_title_of(state@),
{
    let counts: String = concat5(
        " Hosts ",
        &decimal_text(state.filtered_count()),
        "/",
        &decimal_text(state.entry_count()),
        " ",
    );
    let filters: String = match state.active_filter_summary() {
        Some(t) => concat3("| ", &t, " "),
        None => String::new(),
    };
    let position: String = match state.list_position_label() {
        Some(p) => concat3("| ", &p, " "),
        None => String::new(),
    };
    let mode: String = match state.input_mode() {
        InputMode::Normal => concat3("[focus:", state.pane_focus().label(), "] "),
        InputMode::Reorder => "[reordering] ".to_string(),
        _ => String::new(),
    };
    concat4(&counts, &filters, &position, &mode)
}

/// The title over the text of an entry.
pub open spec fn detail_title_of(s: TuiView) -> Seq<char> {
    let title = content_title(s) + " | "@ + window_text(
        "lines"@,
        s.detail_lines,
        s.scroll,
        s.detail_viewport,
    );
    if s.mode == InputMode::Normal {
        title + " | focus:"@ + s.focus.spec_label()
    } else {
        title
    }
}

pub fn detail_title(state: &TuiState) -> (r: String)
    ensures
        r@ == detail_title_of(state@),
{
    let title: String = concat3(
        &state.selected_content_title(),
        " | ",
        &state.detail_position_label(),
    );
    if state.input_mode() == InputMode::Normal {
        concat3(&title, " | focus:", state.pane_focus().label())
    } else {
        title
    }
}

// ---------------------------------------------------------------------------
// The selected entry
// ---------------------------------------------------------------------------

/// What is told of an entry, with a label for each thing.
pub open spec fn summary_of(e: ManagedView, m: Option<MetadataView>) -> Seq<
    (Seq<char>, Seq<char>),
> {
    seq![
        ("Host"@, e.entry.primary()),
        ("HostName"@, or_dash(e.entry.hostname)),
        (
            "Order"@,
            decimal(e.order as nat) + "   kind="@ + e.entry.kind().spec_label() + "   file="@
                + e.path,
        ),
        ("Patterns"@, join(e.entry.host_patterns, ","@)),
        (
            "Template"@,
            or_dash(
                match m {
                    Some(r) => r.template_source,
                    None => None,
                },
            ),
        ),
        ("SSH Tag"@, or_dash(e.entry.tag)),
        (
            "Tags"@,
            match m {
                Some(r) => tags_text(r.tags),
                None => "-"@,
            },
        ),
        (
            "Note"@,
            or_dash(
                match m {
                    Some(r) => r.note,
                    None => None,
                },
            ),
        ),
        (
            "Updated"@,
            match m {
                Some(r) => r.updated_at,
                None => "-"@,
            },
        ),
    ]
}

pub fn summary_rows(entry: &ManagedEntry, metadata: Option<&EntryMetadata>) -> (r: Vec<
    (String, String),
>)
    ensures
        pairs(r@) == summary_of(entry@, opt_record(metadata)),
{
    let e: &HostEntry = &entry.entry;
    let template: String = match metadata {
        Some(m) => text_or_dash(&m.template_source),
        None => "-".to_string(),
    };
    let tags: String = match metadata {
        Some(m) => write_tags(&m.tags),
        None => "-".to_string(),
    };
    let note: String = match metadata {
        Some(m) => text_or_dash(&m.note),
        None => "-".to_string(),
    };
    let updated: String = match metadata {
        Some(m) => m.updated_at.clone(),
        None => "-".to_string(),
    };
    let order: String = concat5(
        &decimal_text(entry.order as usize),
        "   kind=",
        e.kind().label(),
        "   file=",
        &entry.path,
    );
    let mut r: Vec<(String, String)> = Vec::new();
    r.push(("Host".to_string(), e.primary_pattern().to_string()));
    r.push(("HostName".to_string(), text_or_dash(&e.hostname)));
    r.push(("Order".to_string(), order));
    r.push(("Patterns".to_string(), joined(&e.host_patterns, ",")));
    r.push(("Template".to_string(), template));
    r.push(("SSH Tag".to_string(), text_or_dash(&e.tag)));
    r.push(("Tags".to_string(), tags));
    r.push(("Note".to_string(), note));
    r.push(("Updated".to_string(), updated));
    assert(pairs(r@) =~= summary_of(entry@, opt_record(metadata)));
    r
}

/// The title and the text that stand where no entry is selected.
pub open spec fn empty_summary_of(s: TuiView) -> (Seq<char>, Seq<char>) {
    if s.entries.len() == 0 {
        (
            " Quick Start "@,
            "This workspace has no managed entries yet.\n\nRun `sshcfg init`, then press `a` to create one.\nUse `?` any time for the full key guide."@,
        )
    } else if s.filtered.len() == 0 {
        (
            " Filters "@,
            "No entry is currently visible.\n\nPress `x` to clear filters, `f` to edit filters, or `/` to change the search query."@,
        )
    } else {
        (
            " Entry "@,
            "Select an entry from the left list.\n\nUse Tab to switch panes and `?` for the full key guide."@,
        )
    }
}

pub fn empty_summary(state: &TuiState) -> (r: (&'static str, &'static str))
    ensures
        (r.0@, r.1@) == empty_summary_of(state@),
{
    if state.entry_count() == 0 {
        (
            " Quick Start ",
            "This workspace has no managed entries yet.\n\nRun `sshcfg init`, then press `a` to create one.\nUse `?` any time for the full key guide.",
        )
    } else if state.filtered_count() == 0 {
        (
            " Filters ",
            "No entry is currently visible.\n\nPress `x` to clear filters, `f` to edit filters, or `/` to change the search query.",
        )
    } else {
        (
            " Entry ",
            "Select an entry from the left list.\n\nUse Tab to switch panes and `?` for the full key guide.",
        )
    }
}

// ---------------------------------------------------------------------------
// The footer
// ---------------------------------------------------------------------------

/// A line of the footer: keys, and what they do.
#[derive(Debug, PartialEq, Eq)]
pub struct Legend {
    pub label: String,
    pub items: Vec<(String, String)>,
}

/// What a [`Legend`] holds.
#[verifier::ext_equal]
pub struct LegendView {
    pub label: Seq<char>,
    pub items: Seq<(Seq<char>, Seq<char>)>,
}

impl View for Legend {
    type V = LegendView;

    open spec fn view(&self) -> LegendView {
        LegendView { label: self.label@, items: pairs(self.items@) }
    }
}

impl Legend {
    fn new(label: &str) -> (r: Legend)
        ensures
            r@ == (LegendView { label: label@, items: Seq::empty() }),
    {
        Legend { label: label.to_string(), items: Vec::new() }
    }

    fn item(self, key: &str, what: &str) -> (r: Legend)
        ensures
            r@ == (LegendView { label: self@.label, items: self@.items.push((key@, what@)) }),
    {
        let mut items: Vec<(String, String)> = self.items;
        items.push((key.to_string(), what.to_string()));
        Legend { label: self.label, items }
    }
}

pub open spec fn legend(label: Seq<char>, items: Seq<(Seq<char>, Seq<char>)>) -> LegendView {
    LegendView { label, items }
}

pub open spec fn nav_action(focus: PaneFocus) -> Seq<char> {
    if focus == PaneFocus::HostList {
        "move list"@
    } else {
        "scroll detail"@
    }
}

pub open spec fn normal_legends(focus: PaneFocus, detail: DetailMode) -> Seq<LegendView> {
    seq![
        legend(
            "NAV"@,
            seq![
                ("Tab"@, "switch pane"@),
                ("j/k ↑↓"@, nav_action(focus)),
                ("PgUp/PgDn"@, "page"@),
                ("Home/End g/G"@, "jump"@),
            ],
        ),
        legend(
            "ACT"@,
            seq![
                ("/"@, "search"@),
                ("f"@, "filters"@),
                ("x"@, "clear"@),
                ("v"@, "view:"@ + detail.spec_short_label()),
                ("a"@, "add"@),
                ("e"@, "edit"@),
                ("d"@, "delete"@),
                ("r"@, "reorder"@),
                ("V/D"@, "diagnose"@),
                ("t/b"@, "catalogs"@),
                ("Ctrl+R"@, "reload"@),
                ("?"@, "help"@),
                ("q"@, "quit"@),
            ],
        ),
    ]
}

fn write_normal_legends(focus: PaneFocus, detail: DetailMode) -> (r: Vec<Legend>)
    ensures
        views(r@) == normal_legends(focus, detail),
{
    let nav_action: &str = if focus == PaneFocus::HostList {
        "move list"
    } else {
        "scroll detail"
    };
    let view: String = concat2("view:", detail.short_label());
    let first: Legend = Legend::new("NAV").item("Tab", "switch pane").item("j/k ↑↓", nav_action).item("PgUp/PgDn", "page").item("Home/End g/G", "jump");
    let second: Legend = Legend::new("ACT").item("/", "search").item("f", "filters").item("x", "clear").item("v", &view).item("a", "add").item("e", "edit").item("d", "delete").item("r", "reorder").item("V/D", "diagnose").item("t/b", "catalogs").item("Ctrl+R", "reload").item("?", "help").item("q", "quit");
    assert(first@.items =~= normal_legends(focus, detail)[0].items);
    assert(second@.items =~= normal_legends(focus, detail)[1].items);
    let mut r: Vec<Legend> = Vec::new();
    r.push(first);
    r.push(second);
    assert(views(r@) =~= normal_legends(focus, detail));
    r
}

pub open spec fn search_legends() -> Seq<LegendView> {
    seq![
        legend(
            "SEARCH"@,
            seq![
                ("type"@, "filter live"@),
                ("Enter"@, "keep query"@),
                ("Esc"@, "clear + exit"@),
                ("Ctrl+U"@, "clear input"@),
            ],
        ),
        legend(
            "NEXT"@,
            seq![
                ("Tab"@, "return after exit"@),
                ("?"@, "full help later"@),
            ],
        ),
    ]
}

fn write_search_legends() -> (r: Vec<Legend>)
    ensures
        views(r@) == search_legends(),
{
    let first: Legend = Legend::new("SEARCH").item("type", "filter live").item("Enter", "keep query").item("Esc", "clear + exit").item("Ctrl+U", "clear input");
    let second: Legend = Legend::new("NEXT").item("Tab", "return after exit").item("?", "full help later");
    assert(first@.items =~= search_legends()[0].items);
    assert(second@.items =~= search_legends()[1].items);
    let mut r: Vec<Legend> = Vec::new();
    r.push(first);
    r.push(second);
    assert(views(r@) =~= search_legends());
    r
}

pub open spec fn filter_legends() -> Seq<LegendView> {
    seq![
        legend(
            "FILTER"@,
            seq![
                ("Tab/Shift+Tab"@, "move fields"@),
                ("type"@, "query/tags/template"@),
                ("Space/←→"@, "toggle or cycle"@),
                ("Enter"@, "apply"@),
                ("Esc"@, "cancel"@),
            ],
        ),
        legend(
            "EDIT"@,
            seq![
                ("Backspace"@, "delete char"@),
                ("Ctrl+U"@, "clear field"@),
            ],
        ),
    ]
}

fn write_filter_legends() -> (r: Vec<Legend>)
    ensures
        views(r@) == filter_legends(),
{
    let first: Legend = Legend::new("FILTER").item("Tab/Shift+Tab", "move fields").item("type", "query/tags/template").item("Space/←→", "toggle or cycle").item("Enter", "apply").item("Esc", "cancel");
    let second: Legend = Legend::new("EDIT").item("Backspace", "delete char").item("Ctrl+U", "clear field");
    assert(first@.items =~= filter_legends()[0].items);
    assert(second@.items =~= filter_legends()[1].items);
    let mut r: Vec<Legend> = Vec::new();
    r.push(first);
    r.push(second);
    assert(views(r@) =~= filter_legends());
    r
}

pub open spec fn inspect_legends() -> Seq<LegendView> {
    seq![
        legend(
            "INSPECT"@,
            seq![
                ("Esc/q"@, "close"@),
                ("j/k ↑↓"@, "scroll"@),
                ("PgUp/PgDn"@, "page"@),
                ("Home/End"@, "jump"@),
                ("g/G"@, "top/bottom"@),
            ],
        ),
        legend(
            "RETURN"@,
            seq![
                ("close report"@, "resume normal mode"@),
            ],
        ),
    ]
}

fn write_inspect_legends() -> (r: Vec<Legend>)
    ensures
        views(r@) == inspect_legends(),
{
    let first: Legend = Legend::new("INSPECT").item("Esc/q", "close").item("j/k ↑↓", "scroll").item("PgUp/PgDn", "page").item("Home/End", "jump").item("g/G", "top/bottom");
    let second: Legend = Legend::new("RETURN").item("close report", "resume normal mode");
    assert(first@.items =~= inspect_legends()[0].items);
    assert(second@.items =~= inspect_legends()[1].items);
    let mut r: Vec<Legend> = Vec::new();
    r.push(first);
    r.push(second);
    assert(views(r@) =~= inspect_legends());
    r
}

pub open spec fn catalog_legends() -> Seq<LegendView> {
    seq![
        legend(
            "BACKUPS"@,
            seq![
                ("j/k ↑↓"@, "select snapshot"@),
                ("PgUp/PgDn"@, "page"@),
                ("Home/End g/G"@, "jump"@),
                ("Enter/r"@, "restore selected"@),
                ("Esc/q"@, "close"@),
            ],
        ),
        legend(
            "SAFE"@,
            seq![
                ("restore"@, "creates a fresh backup before apply"@),
            ],
        ),
    ]
}

fn write_catalog_legends() -> (r: Vec<Legend>)
    ensures
        views(r@) == catalog_legends(),
{
    let first: Legend = Legend::new("BACKUPS").item("j/k ↑↓", "select snapshot").item("PgUp/PgDn", "page").item("Home/End g/G", "jump").item("Enter/r", "restore selected").item("Esc/q", "close");
    let second: Legend = Legend::new("SAFE").item("restore", "creates a fresh backup before apply");
    assert(first@.items =~= catalog_legends()[0].items);
    assert(second@.items =~= catalog_legends()[1].items);
    let mut r: Vec<Legend> = Vec::new();
    r.push(first);
    r.push(second);
    assert(views(r@) =~= catalog_legends());
    r
}

pub open spec fn delete_legends() -> Seq<LegendView> {
    seq![
        legend(
            "DELETE"@,
            seq![
                ("y/Enter"@, "confirm"@),
                ("n/Esc"@, "cancel"@),
            ],
        ),
        legend(
            "SAFE"@,
            seq![
                ("backup"@, "created before delete"@),
            ],
        ),
    ]
}

fn write_delete_legends() -> (r: Vec<Legend>)
    ensures
        views(r@) == delete_legends(),
{
    let first: Legend = Legend::new("DELETE").item("y/Enter", "confirm").item("n/Esc", "cancel");
    let second: Legend = Legend::new("SAFE").item("backup", "created before delete");
    assert(first@.items =~= delete_legends()[0].items);
    assert(second@.items =~= delete_legends()[1].items);
    let mut r: Vec<Legend> = Vec::new();
    r.push(first);
    r.push(second);
    assert(views(r@) =~= delete_legends());
    r
}

pub open spec fn restore_legends() -> Seq<LegendView> {
    seq![
        legend(
            "RESTORE"@,
            seq![
                ("y/Enter"@, "confirm"@),
                ("n/Esc"@, "cancel"@),
            ],
        ),
        legend(
            "SAFE"@,
            seq![
                ("backup"@, "current state saved first"@),
            ],
        ),
    ]
}

fn write_restore_legends() -> (r: Vec<Legend>)
    ensures
        views(r@) == restore_legends(),
{
    let first: Legend = Legend::new("RESTORE").item("y/Enter", "confirm").item("n/Esc", "cancel");
    let second: Legend = Legend::new("SAFE").item("backup", "current state saved first");
    assert(first@.items =~= restore_legends()[0].items);
    assert(second@.items =~= restore_legends()[1].items);
    let mut r: Vec<Legend> = Vec::new();
    r.push(first);
    r.push(second);
    assert(views(r@) =~= restore_legends());
    r
}

pub open spec fn edit_legends() -> Seq<LegendView> {
    seq![
        legend(
            "FORM"@,
            seq![
                ("type"@, "change value"@),
                ("Tab/Shift+Tab"@, "move fields"@),
                ("Enter"@, "save"@),
                ("Esc"@, "cancel"@),
                ("←→/Space"@, "cycle Template"@),
            ],
        ),
        legend(
            "EDIT"@,
            seq![
                ("Backspace"@, "delete char"@),
                ("Ctrl+U"@, "clear field"@),
            ],
        ),
    ]
}

fn write_edit_legends() -> (r: Vec<Legend>)
    ensures
        views(r@) == edit_legends(),
{
    let first: Legend = Legend::new("FORM").item("type", "change value").item("Tab/Shift+Tab", "move fields").item("Enter", "save").item("Esc", "cancel").item("←→/Space", "cycle Template");
    let second: Legend = Legend::new("EDIT").item("Backspace", "delete char").item("Ctrl+U", "clear field");
    assert(first@.items =~= edit_legends()[0].items);
    assert(second@.items =~= edit_legends()[1].items);
    let mut r: Vec<Legend> = Vec::new();
    r.push(first);
    r.push(second);
    assert(views(r@) =~= edit_legends());
    r
}

pub open spec fn reorder_legends() -> Seq<LegendView> {
    seq![
        legend(
            "REORDER"@,
            seq![
                ("j/k ↑↓"@, "move item"@),
                ("Enter"@, "save order"@),
                ("Esc"@, "cancel"@),
            ],
        ),
        legend(
            "NOTE"@,
            seq![
                ("clear filters"@, "required before reorder"@),
            ],
        ),
    ]
}

fn write_reorder_legends() -> (r: Vec<Legend>)
    ensures
        views(r@) == reorder_legends(),
{
    let first: Legend = Legend::new("REORDER").item("j/k ↑↓", "move item").item("Enter", "save order").item("Esc", "cancel");
    let second: Legend = Legend::new("NOTE").item("clear filters", "required before reorder");
    assert(first@.items =~= reorder_legends()[0].items);
    assert(second@.items =~= reorder_legends()[1].items);
    let mut r: Vec<Legend> = Vec::new();
    r.push(first);
    r.push(second);
    assert(views(r@) =~= reorder_legends());
    r
}

/// The lines of the footer.
pub open spec fn footer_of(s: TuiView) -> Seq<LegendView> {
    match s.mode {
        InputMode::Normal => normal_legends(s.focus, s.detail),
        InputMode::Search => search_legends(),
        InputMode::Filter => filter_legends(),
        InputMode::Inspect => inspect_legends(),
        InputMode::BackupCatalog => catalog_legends(),
        InputMode::ConfirmDelete => delete_legends(),
        InputMode::ConfirmRestore => restore_legends(),
        InputMode::Edit => edit_legends(),
        InputMode::Reorder => reorder_legends(),
    }
}

pub fn footer_legends(state: &TuiState) -> (r: Vec<Legend>)
    ensures
        views(r@) == footer_of(state@),
{
    match state.input_mode() {
        InputMode::Normal => write_normal_legends(state.pane_focus(), state.detail_mode()),
        InputMode::Search => write_search_legends(),
        InputMode::Filter => write_filter_legends(),
        InputMode::Inspect => write_inspect_legends(),
        InputMode::BackupCatalog => write_catalog_legends(),
        InputMode::ConfirmDelete => write_delete_legends(),
        InputMode::ConfirmRestore => write_restore_legends(),
        InputMode::Edit => write_edit_legends(),
        InputMode::Reorder => write_reorder_legends(),
    }
}

} // verus!
