//! The catalog of snapshots and the reports that are read page by page.

#![verifier::loop_isolation(false)]

use vstd::prelude::*;

use crate::backup::{BackupSnapshot, SnapshotView, retention_limit};
use crate::commands::doctor::{DoctorReport, doctor_lines, doctor_summary};
use crate::commands::validate::{ValidationReport, report_lines, report_summary};
use crate::config::describe::push_all;
use crate::config::template::{TemplateInfo, TemplateKind, all_kinds, str_pairs, template_infos};
use crate::strings::{concat2, concat3, concat4, concat5, decimal_text, joined};
use crate::text::{decimal, join, lines, strs, views};
use crate::tui::viewport::{
    at_least_one, block_viewport_lines, clamp_window, format_visible_window, less_by, lesser,
    lines_in, max_scroll, max_scroll_offset, page_of, page_step, shows, window_start, window_text,
};

verus! {

broadcast use crate::text::group_text;

// ---------------------------------------------------------------------------
// Snapshots
// ---------------------------------------------------------------------------

/// The snapshots, one of them selected, and the window that is shown of them.
#[derive(Debug, PartialEq, Eq)]
pub struct BackupCatalogState {
    pub snapshots: Vec<BackupSnapshot>,
    pub selected_index: usize,
    pub list_offset: usize,
    pub viewport_items: usize,
}

/// What a [`BackupCatalogState`] holds.
#[verifier::ext_equal]
pub struct CatalogView {
    pub snapshots: Seq<SnapshotView>,
    pub selected: int,
    pub offset: int,
    pub viewport: int,
}

impl View for BackupCatalogState {
    type V = CatalogView;

    open spec fn view(&self) -> CatalogView {
        CatalogView {
            snapshots: views(self.snapshots@),
            selected: self.selected_index as int,
            offset: self.list_offset as int,
            viewport: self.viewport_items as int,
        }
    }
}

impl CatalogView {
    /// The selected snapshot is one of those that are shown.
    pub open spec fn wf(self) -> bool {
        if self.snapshots.len() == 0 {
            self.selected == 0 && self.offset == 0
        } else {
            &&& 0 <= self.selected < self.snapshots.len()
            &&& shows(self.selected, self.offset, self.viewport, self.snapshots.len() as int)
        }
    }

    /// With the snapshot at `i` selected, or the last one where there is none there.
    pub open spec fn select(self, i: int) -> CatalogView {
        if self.snapshots.len() == 0 {
            self
        } else {
            let at = lesser(i, self.snapshots.len() - 1);
            CatalogView {
                selected: at,
                offset: window_start(
                    at,
                    self.offset,
                    self.viewport,
                    self.snapshots.len() as int,
                ),
                ..self
            }
        }
    }

    pub open spec fn selected_snapshot(self) -> Option<SnapshotView> {
        if self.selected < self.snapshots.len() {
            Some(self.snapshots[self.selected])
        } else {
            None
        }
    }

    pub open spec fn with_height(self, height: int) -> CatalogView {
        CatalogView { viewport: lines_in(height), ..self }.select(self.selected)
    }

    pub open spec fn position_text(self) -> Seq<char> {
        let n = self.snapshots.len();
        window_text("snapshots"@, n as int, self.offset, self.viewport) + " | sel "@ + decimal(
            if n == 0 {
                0
            } else {
                (self.selected + 1) as nat
            },
        ) + "/"@ + decimal(n)
    }

    pub open spec fn summary_text(self) -> Seq<char> {
        match self.selected_snapshot() {
            Some(s) => "Backup catalog | "@ + decimal(self.snapshots.len())
                + " snapshot(s) | selected "@ + s.label,
            None => "Backup catalog | 0 snapshot(s) | keep latest "@ + decimal(30),
        }
    }
}

/// A catalog with the first snapshot selected.
pub open spec fn catalog_of(snapshots: Seq<SnapshotView>) -> CatalogView {
    CatalogView { snapshots, selected: 0, offset: 0, viewport: 1 }
}

pub open spec fn retention_lines() -> Seq<Seq<char>> {
    seq![
        "Retention: keep latest "@ + decimal(30)
            + " snapshot(s). Older backups are pruned automatically when a new snapshot is created."@,
        Seq::<char>::empty(),
    ]
}

pub open spec fn no_snapshot_lines() -> Seq<Seq<char>> {
    seq![
        "No backups found."@,
        Seq::<char>::empty(),
        "Backups are created before write operations that change root config or managed entries."@,
    ]
}

pub open spec fn snapshot_lines(s: SnapshotView) -> Seq<Seq<char>> {
    seq![
        "Selected snapshot "@ + s.label,
        "  path: "@ + s.path,
        "  root config: "@ + (if s.has_root_config {
            "yes"@
        } else {
            "no"@
        }),
        "  managed files: "@ + decimal(s.managed_file_count as nat),
        Seq::<char>::empty(),
        "Restore behavior"@,
        "  - create a fresh backup of the current state first"@,
        "  - replace root config and config.d from the selected snapshot"@,
        "  - reload entries and resync state.toml metadata"@,
    ]
}

/// What is told of the selected snapshot.
pub open spec fn catalog_lines(c: CatalogView) -> Seq<Seq<char>> {
    retention_lines() + (match c.selected_snapshot() {
        Some(s) => snapshot_lines(s),
        None => no_snapshot_lines(),
    })
}

fn write_snapshot_lines(s: &BackupSnapshot) -> (r: Vec<String>)
    ensures
        strs(r@) == snapshot_lines(s@),
{
    let root: &str = if s.has_root_config {
        "yes"
    } else {
        "no"
    };
    let mut lines: Vec<String> = Vec::new();
    lines.push(concat2("Selected snapshot ", &s.label));
    lines.push(concat2("  path: ", &s.path));
    lines.push(concat2("  root config: ", root));
    lines.push(concat2("  managed files: ", &decimal_text(s.managed_file_count)));
    lines.push(String::new());
    lines.push("Restore behavior".to_string());
    lines.push("  - create a fresh backup of the current state first".to_string());
    lines.push("  - replace root config and config.d from the selected snapshot".to_string());
    lines.push("  - reload entries and resync state.toml metadata".to_string());
    assert(strs(lines@) =~= snapshot_lines(s@));
    lines
}

impl BackupCatalogState {
    pub fn new(snapshots: Vec<BackupSnapshot>) -> (r: BackupCatalogState)
        ensures
            r@ == catalog_of(views(snapshots@)),
            r@.wf(),
    {
        BackupCatalogState { snapshots, selected_index: 0, list_offset: 0, viewport_items: 1 }
    }

    pub fn snapshots(&self) -> (r: &[BackupSnapshot])
        ensures
            views(r@) == self@.snapshots,
    {
        self.snapshots.as_slice()
    }

    pub fn selected_snapshot(&self) -> (r: Option<&BackupSnapshot>)
        ensures
            self@.selected_snapshot() == (match r {
                Some(s) => Some(s@),
                None => None,
            }),
    {
        assert(views(self.snapshots@).len() == self.snapshots@.len());
        if self.selected_index < self.snapshots.len() {
            Some(&self.snapshots[self.selected_index])
        } else {
            None
        }
    }

    pub fn selected_visible_index(&self) -> (r: Option<usize>)
        ensures
            match r {
                Some(i) => self@.snapshots.len() > 0 && i == self@.selected,
                None => self@.snapshots.len() == 0,
            },
    {
        assert(views(self.snapshots@).len() == self.snapshots@.len());
        if self.snapshots.len() == 0 {
            None
        } else {
            Some(self.selected_index)
        }
    }

    pub fn list_offset(&self) -> (r: usize)
        ensures
            r == self@.offset,
    {
        self.list_offset
    }

    pub fn page_step(&self) -> (r: usize)
        ensures
            r == page_of(self@.viewport),
    {
        page_step(self.viewport_items)
    }

    pub fn position_label(&self) -> (r: String)
        requires
            self@.wf(),
        ensures
            r@ == self@.position_text(),
    {
        assert(views(self.snapshots@).len() == self.snapshots@.len());
        let n: usize = self.snapshots.len();
        let place: usize = if n == 0 {
            0
        } else {
            self.selected_index + 1
        };
        concat5(
            &format_visible_window("snapshots", n, self.list_offset, self.viewport_items),
            " | sel ",
            &decimal_text(place),
            "/",
            &decimal_text(n),
        )
    }

    pub fn detail_lines(&self) -> (r: Vec<String>)
        ensures
            strs(r@) == catalog_lines(self@),
    {
        let mut lines: Vec<String> = Vec::new();
        lines.push(
            concat3(
                "Retention: keep latest ",
                &decimal_text(retention_limit()),
                " snapshot(s). Older backups are pruned automatically when a new snapshot is created.",
            ),
        );
        lines.push(String::new());
        assert(strs(lines@) =~= retention_lines());
        match self.selected_snapshot() {
            Some(s) => {
                push_all(&mut lines, write_snapshot_lines(s));
            },
            None => {
                lines.push("No backups found.".to_string());
                lines.push(String::new());
                lines.push(
                    "Backups are created before write operations that change root config or managed entries.".to_string(),
                );
                assert(strs(lines@) =~= retention_lines() + no_snapshot_lines());
            },
        }
        lines
    }

    pub fn summary(&self) -> (r: String)
        ensures
            r@ == self@.summary_text(),
    {
        assert(views(self.snapshots@).len() == self.snapshots@.len());
        match self.selected_snapshot() {
            Some(s) => concat4(
                "Backup catalog | ",
                &decimal_text(self.snapshots.len()),
                " snapshot(s) | selected ",
                &s.label,
            ),
            None => concat2(
                "Backup catalog | 0 snapshot(s) | keep latest ",
                &decimal_text(retention_limit()),
            ),
        }
    }

    /// Selects the snapshot at `i`, or the last one.
    fn select(&mut self, i: usize)
        ensures
            final(self)@ == old(self)@.select(i as int),
            old(self)@.wf() ==> final(self)@.wf(),
    {
        assert(views(self.snapshots@).len() == self.snapshots@.len());
        let n: usize = self.snapshots.len();
        if n == 0 {
            return;
        }
        self.selected_index = if i < n - 1 {
            i
        } else {
            n - 1
        };
        self.list_offset =
        clamp_window(self.selected_index, self.list_offset, self.viewport_items, n);
    }

    pub fn sync_viewport(&mut self, area_height: u16)
        requires
            old(self)@.wf(),
        ensures
            final(self)@ == old(self)@.with_height(area_height as int),
            final(self)@.wf(),
    {
        self.viewport_items = block_viewport_lines(area_height);
        assert(views(self.snapshots@).len() == self.snapshots@.len());
        let n: usize = self.snapshots.len();
        if n > 0 {
            self.list_offset =
            clamp_window(self.selected_index, self.list_offset, self.viewport_items, n);
        }
    }

    pub fn select_next(&mut self)
        requires
            old(self)@.wf(),
        ensures
            final(self)@ == old(self)@.select(old(self)@.selected + 1),
            final(self)@.wf(),
    {
        assert(views(self.snapshots@).len() == self.snapshots@.len());
        if self.selected_index < self.snapshots.len() {
            self.select(self.selected_index + 1);
        }
    }

    pub fn select_previous(&mut self)
        requires
            old(self)@.wf(),
        ensures
            final(self)@ == old(self)@.select(less_by(old(self)@.selected, 1)),
            final(self)@.wf(),
    {
        let at: usize = if self.selected_index > 0 {
            self.selected_index - 1
        } else {
            0
        };
        self.select(at);
    }

    pub fn select_next_page(&mut self)
        requires
            old(self)@.wf(),
        ensures
            final(self)@ == old(self)@.select(
                old(self)@.selected + page_of(old(self)@.viewport),
            ),
            final(self)@.wf(),
    {
        assert(views(self.snapshots@).len() == self.snapshots@.len());
        let step: usize = self.page_step();
        let at: usize = if self.snapshots.len() > 0 && step < usize::MAX - self.selected_index {
            self.selected_index + step
        } else {
            usize::MAX
        };
        self.select(at);
    }

    pub fn select_previous_page(&mut self)
        requires
            old(self)@.wf(),
        ensures
            final(self)@ == old(self)@.select(
                less_by(old(self)@.selected, page_of(old(self)@.viewport)),
            ),
            final(self)@.wf(),
    {
        let step: usize = self.page_step();
        let at: usize = if self.selected_index > step {
            self.selected_index - step
        } else {
            0
        };
        self.select(at);
    }

    pub fn select_first(&mut self)
        requires
            old(self)@.wf(),
        ensures
            final(self)@ == old(self)@.select(0),
            final(self)@.wf(),
    {
        self.select(0);
    }

    pub fn select_last(&mut self)
        requires
            old(self)@.wf(),
        ensures
            final(self)@ == old(self)@.select(old(self)@.snapshots.len() - 1),
            final(self)@.wf(),
    {
        assert(views(self.snapshots@).len() == self.snapshots@.len());
        let n: usize = self.snapshots.len();
        if n > 0 {
            self.select(n - 1);
        }
    }
}

// ---------------------------------------------------------------------------
// Reports
// ---------------------------------------------------------------------------

/// A report, and how far it is scrolled.
#[derive(Debug, PartialEq, Eq)]
pub struct InspectionReport {
    pub title: String,
    pub summary: String,
    pub lines: Vec<String>,
    pub scroll: u16,
    pub viewport_lines: usize,
    pub is_alert: bool,
}

/// What an [`InspectionReport`] holds.
#[verifier::ext_equal]
pub struct InspectionView {
    pub title: Seq<char>,
    pub summary: Seq<char>,
    pub lines: Seq<Seq<char>>,
    pub scroll: int,
    pub viewport: int,
    pub is_alert: bool,
}

impl View for InspectionReport {
    type V = InspectionView;

    open spec fn view(&self) -> InspectionView {
        InspectionView {
            title: self.title@,
            summary: self.summary@,
            lines: strs(self.lines@),
            scroll: self.scroll as int,
            viewport: self.viewport_lines as int,
            is_alert: self.is_alert,
        }
    }
}

impl InspectionView {
    pub open spec fn line_count(self) -> int {
        at_least_one(self.lines.len() as int)
    }

    pub open spec fn max_scroll(self) -> int {
        max_scroll(self.line_count(), self.viewport)
    }

    /// The text is not scrolled beyond its end, and the window is one of a screen.
    pub open spec fn wf(self) -> bool {
        &&& 0 <= self.scroll <= self.max_scroll()
        &&& 1 <= self.viewport <= u16::MAX
    }

    pub open spec fn scrolled(self, to: int) -> InspectionView {
        InspectionView { scroll: lesser(to, self.max_scroll()), ..self }
    }

    pub open spec fn with_height(self, height: int) -> InspectionView {
        InspectionView { viewport: lines_in(height), ..self }.scrolled(self.scroll)
    }
}

/// A report at its beginning.
pub open spec fn fresh_report(
    title: Seq<char>,
    summary: Seq<char>,
    lines: Seq<Seq<char>>,
    is_alert: bool,
) -> InspectionView {
    InspectionView { title, summary, lines, scroll: 0, viewport: 1, is_alert }
}

pub open spec fn help_quick_start() -> Seq<Seq<char>> {
    seq![
        "Quick Start"@,
        "  1. Use Up / Down (or j / k) to pick a managed host entry."@,
        "  2. Press Tab to switch between the host list and the detail pane."@,
        "  3. Press / to search, f to edit filters, and x to clear filters."@,
        "  4. Press a / e / d / r to add, edit, delete, or reorder entries."@,
        "  5. Press v to switch raw / merged view, and V / D for diagnostics."@,
        Seq::<char>::empty(),
    ]
}

pub open spec fn help_global() -> Seq<Seq<char>> {
    seq![
        "Global"@,
        "  q / Ctrl+C          quit TUI"@,
        "  Tab                 switch focus between host list and detail"@,
        "  ?                   open this help"@,
        "  /                   start inline search"@,
        "  f                   edit filters"@,
        "  x                   clear all filters"@,
        "  t                   open template catalog"@,
        "  b                   open backup catalog (Enter/r restores selected)"@,
        "  V                   open validate report"@,
        "  D                   open doctor report"@,
        "  Ctrl+R              reload managed entries"@,
        Seq::<char>::empty(),
    ]
}

pub open spec fn help_host_list() -> Seq<Seq<char>> {
    seq![
        "Host List Focus"@,
        "  j / k, Up / Down    move selection"@,
        "  PgUp / PgDn         jump selection by page"@,
        "  Home / End          first / last entry"@,
        "  g / G               first / last entry"@,
        "  a                   create entry"@,
        "  e                   edit selected entry"@,
        "  d                   delete selected entry"@,
        "  r                   reorder entries (requires clear filters)"@,
        "  v                   toggle raw / merged detail"@,
        Seq::<char>::empty(),
    ]
}

pub open spec fn help_detail() -> Seq<Seq<char>> {
    seq![
        "Detail Focus"@,
        "  j / k, Up / Down    scroll content"@,
        "  PgUp / PgDn         page scroll"@,
        "  Home / End          top / bottom"@,
        "  g / G               top / bottom"@,
        "  v                   toggle raw / merged detail"@,
        Seq::<char>::empty(),
    ]
}

pub open spec fn help_modals() -> Seq<Seq<char>> {
    seq![
        "Modals"@,
        "  Inspect: Esc / q closes, j/k or arrows scroll, PgUp/PgDn page"@,
        "  Filter: Enter applies, Esc cancels, Tab moves fields"@,
        "  Form: Enter saves, Esc cancels, Tab moves fields"@,
        "  Delete: y / Enter confirms, n / Esc cancels"@,
        "  Reorder: j/k moves item, Enter saves, Esc cancels"@,
    ]
}

/// The guide to the keys.
pub open spec fn help_lines() -> Seq<Seq<char>> {
    help_quick_start() + help_global() + help_host_list() + help_detail() + help_modals()
}

fn write_help_quick_start() -> (r: Vec<String>)
    ensures
        strs(r@) == help_quick_start(),
{
    let mut lines: Vec<String> = Vec::new();
    lines.push("Quick Start".to_string());
    lines.push("  1. Use Up / Down (or j / k) to pick a managed host entry.".to_string());
    lines.push("  2. Press Tab to switch between the host list and the detail pane.".to_string());
    lines.push("  3. Press / to search, f to edit filters, and x to clear filters.".to_string());
    lines.push("  4. Press a / e / d / r to add, edit, delete, or reorder entries.".to_string());
    lines.push("  5. Press v to switch raw / merged view, and V / D for diagnostics.".to_string());
    lines.push(String::new());
    assert(strs(lines@) =~= help_quick_start());
    lines
}

fn write_help_global() -> (r: Vec<String>)
    ensures
        strs(r@) == help_global(),
{
    let mut lines: Vec<String> = Vec::new();
    lines.push("Global".to_string());
    lines.push("  q / Ctrl+C          quit TUI".to_string());
    lines.push("  Tab                 switch focus between host list and detail".to_string());
    lines.push("  ?                   open this help".to_string());
    lines.push("  /                   start inline search".to_string());
    lines.push("  f                   edit filters".to_string());
    lines.push("  x                   clear all filters".to_string());
    lines.push("  t                   open template catalog".to_string());
    lines.push("  b                   open backup catalog (Enter/r restores selected)".to_string());
    lines.push("  V                   open validate report".to_string());
    lines.push("  D                   open doctor report".to_string());
    lines.push("  Ctrl+R              reload managed entries".to_string());
    lines.push(String::new());
    assert(strs(lines@) =~= help_global());
    lines
}

fn write_help_host_list() -> (r: Vec<String>)
    ensures
        strs(r@) == help_host_list(),
{
    let mut lines: Vec<String> = Vec::new();
    lines.push("Host List Focus".to_string());
    lines.push("  j / k, Up / Down    move selection".to_string());
    lines.push("  PgUp / PgDn         jump selection by page".to_string());
    lines.push("  Home / End          first / last entry".to_string());
    lines.push("  g / G               first / last entry".to_string());
    lines.push("  a                   create entry".to_string());
    lines.push("  e                   edit selected entry".to_string());
    lines.push("  d                   delete selected entry".to_string());
    lines.push("  r                   reorder entries (requires clear filters)".to_string());
    lines.push("  v                   toggle raw / merged detail".to_string());
    lines.push(String::new());
    assert(strs(lines@) =~= help_host_list());
    lines
}

fn write_help_detail() -> (r: Vec<String>)
    ensures
        strs(r@) == help_detail(),
{
    let mut lines: Vec<String> = Vec::new();
    lines.push("Detail Focus".to_string());
    lines.push("  j / k, Up / Down    scroll content".to_string());
    lines.push("  PgUp / PgDn         page scroll".to_string());
    lines.push("  Home / End          top / bottom".to_string());
    lines.push("  g / G               top / bottom".to_string());
    lines.push("  v                   toggle raw / merged detail".to_string());
    lines.push(String::new());
    assert(strs(lines@) =~= help_detail());
    lines
}

fn write_help_modals() -> (r: Vec<String>)
    ensures
        strs(r@) == help_modals(),
{
    let mut lines: Vec<String> = Vec::new();
    lines.push("Modals".to_string());
    lines.push("  Inspect: Esc / q closes, j/k or arrows scroll, PgUp/PgDn page".to_string());
    lines.push("  Filter: Enter applies, Esc cancels, Tab moves fields".to_string());
    lines.push("  Form: Enter saves, Esc cancels, Tab moves fields".to_string());
    lines.push("  Delete: y / Enter confirms, n / Esc cancels".to_string());
    lines.push("  Reorder: j/k moves item, Enter saves, Esc cancels".to_string());
    assert(strs(lines@) =~= help_modals());
    lines
}

fn write_help_lines() -> (r: Vec<String>)
    ensures
        strs(r@) == help_lines(),
{
    let mut lines: Vec<String> = write_help_quick_start();
    push_all(&mut lines, write_help_global());
    push_all(&mut lines, write_help_host_list());
    push_all(&mut lines, write_help_detail());
    push_all(&mut lines, write_help_modals());
    lines
}

/// A preset of a template on a line.
pub open spec fn preset_line(p: (Seq<char>, Seq<char>)) -> Seq<char> {
    "    - "@ + p.0 + " "@ + p.1
}

pub open spec fn default_lines(k: TemplateKind) -> Seq<Seq<char>> {
    if k.presets().len() == 0 {
        seq!["  defaults: -"@]
    } else {
        seq!["  defaults:"@] + k.presets().map_values(
            |p: (Seq<char>, Seq<char>)| preset_line(p),
        )
    }
}

/// What is told of a template.
pub open spec fn template_card(k: TemplateKind) -> Seq<Seq<char>> {
    seq![
        k.name() + " ["@ + (if k.presets().len() == 0 {
            "placeholder"@
        } else {
            "available"@
        }) + "]"@,
        "  "@ + k.summary(),
    ] + default_lines(k)
}

/// The templates with an empty line between them.
pub open spec fn template_cards(ks: Seq<TemplateKind>) -> Seq<Seq<char>>
    decreases ks.len(),
{
    if ks.len() == 0 {
        Seq::empty()
    } else if ks.len() == 1 {
        template_card(ks[0])
    } else {
        template_cards(ks.drop_last()) + seq![Seq::<char>::empty()] + template_card(ks.last())
    }
}

fn write_template_card(info: &TemplateInfo, kind: Ghost<TemplateKind>) -> (r: Vec<String>)
    requires
        info.describes(kind@),
    ensures
        strs(r@) == template_card(kind@),
{
    let status: &str = if info.directives.len() == 0 {
        "placeholder"
    } else {
        "available"
    };
    let mut lines: Vec<String> = Vec::new();
    lines.push(concat4(info.kind.cli_name(), " [", status, "]"));
    lines.push(concat2("  ", info.summary));
    if info.directives.len() == 0 {
        lines.push("  defaults: -".to_string());
    } else {
        lines.push("  defaults:".to_string());
        let ghost head = strs(lines@);
        let ghost all = str_pairs(info.directives@);
        let mut i: usize = 0;
        while i < info.directives.len()
            invariant
                i <= info.directives.len(),
                all == str_pairs(info.directives@),
                strs(lines@) =~= head + all.take(i as int).map_values(
                    |p: (Seq<char>, Seq<char>)| preset_line(p),
                ),
            decreases info.directives.len() - i,
        {
            let d: &(&'static str, &'static str) = &info.directives[i];
            lines.push(concat4("    - ", d.0, " ", d.1));
            i += 1;
        }
        assert(all.take(all.len() as int) =~= all);
    }
    assert(strs(lines@) =~= template_card(kind@));
    lines
}

fn write_template_cards() -> (r: Vec<String>)
    ensures
        strs(r@) == template_cards(all_kinds()),
{
    let infos: Vec<TemplateInfo> = template_infos();
    let mut lines: Vec<String> = Vec::new();
    let ghost ks = all_kinds();
    let mut i: usize = 0;
    while i < infos.len()
        invariant
            i <= infos.len(),
            ks == all_kinds(),
            infos@.len() == ks.len(),
            strs(lines@) == template_cards(ks.take(i as int)),
        decreases infos.len() - i,
    {
        assert(infos@[i as int].describes(ks[i as int]));
        assert(ks.take(i + 1).drop_last() =~= ks.take(i as int));
        if i > 0 {
            lines.push(String::new());
        }
        push_all(&mut lines, write_template_card(&infos[i], Ghost(ks[i as int])));
        assert(strs(lines@) =~= template_cards(ks.take(i + 1)));
        i += 1;
    }
    assert(ks.take(ks.len() as int) =~= ks);
    lines
}

impl InspectionReport {
    fn fresh(title: &str, summary: String, lines: Vec<String>, is_alert: bool) -> (r:
        InspectionReport)
        ensures
            r@ == fresh_report(title@, summary@, strs(lines@), is_alert),
            r@.wf(),
    {
        InspectionReport {
            title: title.to_string(),
            summary,
            lines,
            scroll: 0,
            viewport_lines: 1,
            is_alert,
        }
    }

    pub fn from_help() -> (r: InspectionReport)
        ensures
            r@ == fresh_report(
                "Help"@,
                "Keyboard help | Tab switches focus between hosts and detail"@,
                help_lines(),
                false,
            ),
            r@.wf(),
    {
        InspectionReport::fresh(
            "Help",
            "Keyboard help | Tab switches focus between hosts and detail".to_string(),
            write_help_lines(),
            false,
        )
    }

    pub fn from_validation(report: &ValidationReport) -> (r: InspectionReport)
        ensures
            r@ == fresh_report(
                "Validate"@,
                report_summary(report@),
                report_lines(report@),
                report@.issues.len() > 0,
            ),
            r@.wf(),
    {
        InspectionReport::fresh(
            "Validate",
            report.summary(),
            report.detail_lines(),
            !report.is_ok(),
        )
    }

    pub fn from_doctor(report: &DoctorReport) -> (r: InspectionReport)
        ensures
            r@ == fresh_report("Doctor"@, doctor_summary(report@), doctor_lines(report@), false),
            r@.wf(),
    {
        InspectionReport::fresh("Doctor", report.summary(), report.detail_lines(), false)
    }

    pub fn from_template_catalog() -> (r: InspectionReport)
        ensures
            r@ == fresh_report(
                "Templates"@,
                "Template catalog | "@ + decimal(all_kinds().len()) + " built-in template(s)"@,
                template_cards(all_kinds()),
                false,
            ),
            r@.wf(),
    {
        InspectionReport::fresh(
            "Templates",
            concat3(
                "Template catalog | ",
                &decimal_text(template_infos().len()),
                " built-in template(s)",
            ),
            write_template_cards(),
            false,
        )
    }

    pub fn title(&self) -> (r: &str)
        ensures
            r@ == self@.title,
    {
        self.title.as_str()
    }

    pub fn summary(&self) -> (r: &str)
        ensures
            r@ == self@.summary,
    {
        self.summary.as_str()
    }

    pub fn body(&self) -> (r: String)
        ensures
            r@ == join(self@.lines, "\n"@),
    {
        joined(&self.lines, "\n")
    }

    pub fn scroll(&self) -> (r: u16)
        ensures
            r == self@.scroll,
    {
        self.scroll
    }

    fn line_count(&self) -> (r: usize)
        ensures
            r == self@.line_count(),
    {
        assert(strs(self.lines@).len() == self.lines@.len());
        if self.lines.len() < 1 {
            1
        } else {
            self.lines.len()
        }
    }

    pub fn position_label(&self) -> (r: String)
        ensures
            r@ == window_text("lines"@, self@.line_count(), self@.scroll, self@.viewport),
    {
        format_visible_window(
            "lines",
            self.line_count(),
            self.scroll as usize,
            self.viewport_lines,
        )
    }

    pub fn page_step(&self) -> (r: u16)
        requires
            self@.wf(),
        ensures
            r == page_of(self@.viewport),
    {
        page_step(self.viewport_lines) as u16
    }

    pub fn is_alert(&self) -> (r: bool)
        ensures
            r == self@.is_alert,
    {
        self.is_alert
    }

    pub fn set_viewport_height(&mut self, area_height: u16)
        requires
            old(self)@.wf(),
        ensures
            final(self)@ == old(self)@.with_height(area_height as int),
            final(self)@.wf(),
    {
        self.viewport_lines = block_viewport_lines(area_height);
        let last: u16 = self.max_scroll();
        if self.scroll > last {
            self.scroll = last;
        }
    }

    pub fn scroll_up(&mut self, amount: u16)
        requires
            old(self)@.wf(),
        ensures
            final(self)@ == old(self)@.scrolled(less_by(old(self)@.scroll, amount as int)),
            final(self)@.wf(),
    {
        self.scroll = if self.scroll > amount {
            self.scroll - amount
        } else {
            0
        };
    }

    pub fn scroll_down(&mut self, amount: u16)
        requires
            old(self)@.wf(),
        ensures
            final(self)@ == old(self)@.scrolled(old(self)@.scroll + amount),
            final(self)@.wf(),
    {
        let last: u16 = self.max_scroll();
        self.scroll = if amount < last - self.scroll {
            self.scroll + amount
        } else {
            last
        };
    }

    pub fn scroll_home(&mut self)
        requires
            old(self)@.wf(),
        ensures
            final(self)@ == old(self)@.scrolled(0),
            final(self)@.wf(),
    {
        self.scroll = 0;
    }

    pub fn scroll_end(&mut self)
        requires
            old(self)@.wf(),
        ensures
            final(self)@ == old(self)@.scrolled(old(self)@.max_scroll()),
            final(self)@.wf(),
    {
        self.scroll = self.max_scroll();
    }

    fn max_scroll(&self) -> (r: u16)
        ensures
            r == self@.max_scroll(),
    {
        max_scroll_offset(self.line_count(), self.viewport_lines)
    }
}

} // verus!
