//! The state of the terminal interface.

#![verifier::loop_isolation(false)]

use vstd::prelude::*;

use crate::backup::{BackupSnapshot, SnapshotView};
use crate::commands::order::{moved_host, paths_of, sequence_signature};
use crate::commands::prompt::{items_of, split_multi_value};
use crate::commands::selection::{
    EntryFilter, FilterView, filter_entry_indices, filter_of, ints, opt_record, passing,
};
use crate::config::model::{ManagedEntry, ManagedView};
use crate::config::resolve::first;
use crate::config::state::{AppState, EntryMetadata, StateView, find_entry_metadata, record_of};
use crate::config::store::{find_host_index, until_host};
use crate::error::ConfigError;
use crate::strings::{concat2, concat4, concat5, decimal_text, joined, same_strs};
use crate::text::{decimal, join, lines, opt, opt_str, strs, views};
use crate::tui::catalog::{BackupCatalogState, CatalogView, InspectionReport, InspectionView};
use crate::tui::forms::{
    DetailMode, EntryForm, EntryFormView, FilterForm, FilterFormView, InputMode, PaneFocus,
    trim_to_option, value_if_any,
};
use crate::tui::viewport::{
    clamp_window, format_visible_window, lesser, max_scroll, page_of, page_step, shows,
    window_start, window_text,
};

verus! {

broadcast use crate::text::group_text;

/// What was read from disk: the entries, the texts of their files, and the records.
#[derive(Debug)]
pub struct LoadedSnapshot {
    pub entries: Vec<ManagedEntry>,
    pub raw_contents: Vec<String>,
    pub metadata_state: AppState,
}

/// What a [`LoadedSnapshot`] holds.
#[verifier::ext_equal]
pub struct LoadedView {
    pub entries: Seq<ManagedView>,
    pub raw: Seq<Seq<char>>,
    pub records: StateView,
}

impl View for LoadedSnapshot {
    type V = LoadedView;

    open spec fn view(&self) -> LoadedView {
        LoadedView {
            entries: views(self.entries@),
            raw: strs(self.raw_contents@),
            records: self.metadata_state@,
        }
    }
}

impl LoadedView {
    /// There is a text for each entry.
    pub open spec fn wf(self) -> bool {
        self.raw.len() == self.entries.len()
    }
}

/// What became of reading the files.
pub open spec fn loaded(r: Result<LoadedSnapshot, ConfigError>) -> Result<LoadedView, Seq<char>> {
    match r {
        Ok(s) => Ok(s@),
        Err(e) => Err(e@),
    }
}

/// What stood there before an entry was moved.
#[derive(Debug)]
pub struct ReorderSession {
    pub original_entries: Vec<ManagedEntry>,
    pub original_raw_contents: Vec<String>,
    pub moved_host: String,
}

/// What a [`ReorderSession`] holds.
#[verifier::ext_equal]
pub struct ReorderView {
    pub entries: Seq<ManagedView>,
    pub raw: Seq<Seq<char>>,
    pub host: Seq<char>,
}

impl View for ReorderSession {
    type V = ReorderView;

    open spec fn view(&self) -> ReorderView {
        ReorderView {
            entries: views(self.original_entries@),
            raw: strs(self.original_raw_contents@),
            host: self.moved_host@,
        }
    }
}

/// The state: the entries and those that pass the filters, which one is selected, what is
/// shown of it, and the forms and reports that are open.
#[derive(Debug)]
pub struct TuiState {
    pub entries: Vec<ManagedEntry>,
    pub raw_contents: Vec<String>,
    pub metadata_state: AppState,
    pub filtered_indices: Vec<usize>,
    pub selected_filtered_index: usize,
    pub list_offset: usize,
    pub list_viewport_items: usize,
    pub query: String,
    pub tag_filter: String,
    pub has_note_filter: bool,
    pub template_filter: String,
    pub input_mode: InputMode,
    pub detail_mode: DetailMode,
    pub pane_focus: PaneFocus,
    pub detail_scroll: u16,
    pub detail_viewport_lines: usize,
    pub detail_content_line_count: usize,
    pub backup_catalog: Option<BackupCatalogState>,
    pub pending_restore_snapshot: Option<BackupSnapshot>,
    pub pending_delete_host: Option<String>,
    pub filter_form: Option<FilterForm>,
    pub entry_form: Option<EntryForm>,
    pub inspection_report: Option<InspectionReport>,
    pub reorder_session: Option<ReorderSession>,
    pub status_message: Option<String>,
    pub windows: bool,
}

/// What a [`TuiState`] holds.
#[verifier::ext_equal]
pub struct TuiView {
    pub entries: Seq<ManagedView>,
    pub raw: Seq<Seq<char>>,
    pub records: StateView,
    pub filtered: Seq<int>,
    pub selected: int,
    pub offset: int,
    pub viewport: int,
    pub query: Seq<char>,
    pub tags: Seq<char>,
    pub has_note: bool,
    pub template: Seq<char>,
    pub mode: InputMode,
    pub detail: DetailMode,
    pub focus: PaneFocus,
    pub scroll: int,
    pub detail_viewport: int,
    pub detail_lines: int,
    pub catalog: Option<CatalogView>,
    pub restoring: Option<SnapshotView>,
    pub deleting: Option<Seq<char>>,
    pub filters: Option<FilterFormView>,
    pub form: Option<EntryFormView>,
    pub report: Option<InspectionView>,
    pub reorder: Option<ReorderView>,
    pub status: Option<Seq<char>>,
    pub windows: bool,
}

/// An optional value by what it holds.
pub open spec fn opt_of<T: View>(o: Option<T>) -> Option<T::V> {
    match o {
        Some(x) => Some(x@),
        None => None,
    }
}

impl View for TuiState {
    type V = TuiView;

    open spec fn view(&self) -> TuiView {
        TuiView {
            entries: views(self.entries@),
            raw: strs(self.raw_contents@),
            records: self.metadata_state@,
            filtered: ints(self.filtered_indices@),
            selected: self.selected_filtered_index as int,
            offset: self.list_offset as int,
            viewport: self.list_viewport_items as int,
            query: self.query@,
            tags: self.tag_filter@,
            has_note: self.has_note_filter,
            template: self.template_filter@,
            mode: self.input_mode,
            detail: self.detail_mode,
            focus: self.pane_focus,
            scroll: self.detail_scroll as int,
            detail_viewport: self.detail_viewport_lines as int,
            detail_lines: self.detail_content_line_count as int,
            catalog: opt_of(self.backup_catalog),
            restoring: opt_of(self.pending_restore_snapshot),
            deleting: opt(self.pending_delete_host),
            filters: opt_of(self.filter_form),
            form: opt_of(self.entry_form),
            report: opt_of(self.inspection_report),
            reorder: opt_of(self.reorder_session),
            status: opt(self.status_message),
            windows: self.windows,
        }
    }
}

/// How many of the indices stand before the first that is `k`.
pub open spec fn until_index(v: Seq<int>, k: int) -> nat
    decreases v.len(),
{
    if v.len() == 0 || v[0] == k {
        0
    } else {
        1 + until_index(v.skip(1), k)
    }
}

/// The filters that are set, in words.
pub open spec fn filter_words(query: Seq<char>, tags: Seq<char>, has_note: bool, template: Seq<char>) -> Seq<
    Seq<char>,
> {
    (match value_if_any(query) {
        Some(q) => seq!["/"@ + q],
        None => Seq::empty(),
    }) + (if items_of(tags).len() > 0 {
        seq!["tag="@ + join(items_of(tags), ","@)]
    } else {
        Seq::empty()
    }) + (if has_note {
        seq!["note=yes"@]
    } else {
        Seq::empty()
    }) + (match value_if_any(template) {
        Some(t) => seq!["tmpl="@ + t],
        None => Seq::empty(),
    })
}

impl TuiView {
    /// The list is that of the entries that pass, in their order; the selected one is shown;
    /// the text is not scrolled beyond its end.
    pub open spec fn wf(self) -> bool {
        &&& self.raw.len() == self.entries.len()
        &&& forall|i: int|
            0 <= i < self.filtered.len() ==> 0 <= #[trigger] self.filtered[i]
                < self.entries.len()
        &&& self.list_wf()
        &&& 1 <= self.viewport <= u16::MAX
        &&& 1 <= self.detail_viewport <= u16::MAX
        &&& 1 <= self.detail_lines
        &&& 0 <= self.scroll <= self.max_scroll()
        &&& self.catalog matches Some(c) ==> c.wf()
        &&& self.form matches Some(f) ==> f.wf()
        &&& self.report matches Some(r) ==> r.wf()
        &&& self.reorder matches Some(r) ==> r.raw.len() == r.entries.len()
    }

    pub open spec fn list_wf(self) -> bool {
        if self.filtered.len() == 0 {
            self.selected == 0 && self.offset == 0
        } else {
            &&& 0 <= self.selected < self.filtered.len()
            &&& shows(self.selected, self.offset, self.viewport, self.filtered.len() as int)
        }
    }

    pub open spec fn max_scroll(self) -> int {
        max_scroll(self.detail_lines, self.detail_viewport)
    }

    /// The filter that is set.
    pub open spec fn filter(self) -> FilterView {
        filter_of(
            Some(self.query),
            items_of(self.tags),
            self.has_note,
            value_if_any(self.template),
        )
    }

    pub open spec fn filter_words(self) -> Seq<Seq<char>> {
        filter_words(self.query, self.tags, self.has_note, self.template)
    }

    /// The filters in words, `None` where none is set.
    pub open spec fn filter_summary(self) -> Option<Seq<char>> {
        if self.filter_words().len() == 0 {
            None
        } else {
            Some(join(self.filter_words(), "  "@))
        }
    }

    /// Which entry is selected.
    pub open spec fn selected_index(self) -> Option<int> {
        if 0 <= self.selected < self.filtered.len() && self.filtered[self.selected]
            < self.entries.len() {
            Some(self.filtered[self.selected])
        } else {
            None
        }
    }

    pub open spec fn selected_entry(self) -> Option<ManagedView> {
        match self.selected_index() {
            Some(i) => Some(self.entries[i]),
            None => None,
        }
    }

    pub open spec fn selected_host(self) -> Option<Seq<char>> {
        match self.selected_entry() {
            Some(e) => Some(e.entry.primary()),
            None => None,
        }
    }

    /// With the item at `at` of the list selected, or the last one; the text of the entry is
    /// shown from its beginning.
    pub open spec fn select(self, at: int) -> TuiView {
        if self.filtered.len() == 0 {
            self
        } else {
            let i = lesser(at, self.filtered.len() - 1);
            TuiView {
                selected: i,
                offset: window_start(
                    i,
                    self.offset,
                    self.viewport,
                    self.filtered.len() as int,
                ),
                scroll: 0,
                ..self
            }
        }
    }

    /// Where in the list the entry of a host stands.
    pub open spec fn place_of(self, host: Option<Seq<char>>) -> Option<int> {
        match host {
            None => None,
            Some(h) => {
                let e = until_host(self.entries, h);
                let n = until_index(self.filtered, e as int);
                if e < self.entries.len() && n < self.filtered.len() {
                    Some(n as int)
                } else {
                    None
                }
            },
        }
    }

    /// With the list made anew. The entry of the host `preferred`, or else the one that was
    /// selected, is selected where it is in the list, and else the place that was.
    pub open spec fn refreshed(self, preferred: Option<Seq<char>>) -> TuiView {
        let host = first(preferred, self.selected_host());
        let s = TuiView {
            filtered: passing(
                self.filter(),
                self.entries,
                self.records.entries,
                self.entries.len(),
                self.windows,
            ),
            ..self
        };
        if s.filtered.len() == 0 {
            TuiView { selected: 0, offset: 0, scroll: 0, ..s }
        } else {
            match s.place_of(host) {
                Some(n) => s.select(n),
                None => s.select(s.selected),
            }
        }
    }

    pub open spec fn with_status(self, message: Seq<char>) -> TuiView {
        TuiView { status: Some(message), ..self }
    }

    pub open spec fn in_mode(self, mode: InputMode) -> TuiView {
        TuiView { mode, ..self }
    }
}

// ---------------------------------------------------------------------------
// Reading the state
// ---------------------------------------------------------------------------

impl TuiState {
    /// The state at the start. `windows` says which kind of paths the entries have.
    pub fn load(snapshot: LoadedSnapshot, windows: bool) -> (r: TuiState)
        requires
            snapshot@.wf(),
        ensures
            r@ == started(snapshot@, windows),
            r@.wf(),
    {
        let mut state = TuiState {
            entries: snapshot.entries,
            raw_contents: snapshot.raw_contents,
            metadata_state: snapshot.metadata_state,
            filtered_indices: Vec::new(),
            selected_filtered_index: 0,
            list_offset: 0,
            list_viewport_items: 1,
            query: String::new(),
            tag_filter: String::new(),
            has_note_filter: false,
            template_filter: String::new(),
            input_mode: InputMode::Normal,
            detail_mode: DetailMode::Raw,
            pane_focus: PaneFocus::HostList,
            detail_scroll: 0,
            detail_viewport_lines: 1,
            detail_content_line_count: 1,
            backup_catalog: None,
            pending_restore_snapshot: None,
            pending_delete_host: None,
            filter_form: None,
            entry_form: None,
            inspection_report: None,
            reorder_session: None,
            status_message: None,
            windows,
        };
        assert(state@.filtered =~= Seq::<int>::empty());
        assert(state@ == blank_state(snapshot@, windows));
        state.refresh_filter_preserving(None);
        state
    }

    pub fn input_mode(&self) -> (r: InputMode)
        ensures
            r == self@.mode,
    {
        self.input_mode
    }

    pub fn detail_mode(&self) -> (r: DetailMode)
        ensures
            r == self@.detail,
    {
        self.detail_mode
    }

    pub fn pane_focus(&self) -> (r: PaneFocus)
        ensures
            r == self@.focus,
    {
        self.pane_focus
    }

    pub fn list_is_focused(&self) -> (r: bool)
        ensures
            r == (self@.focus == PaneFocus::HostList),
    {
        self.pane_focus == PaneFocus::HostList
    }

    pub fn detail_is_focused(&self) -> (r: bool)
        ensures
            r == (self@.focus == PaneFocus::Detail),
    {
        self.pane_focus == PaneFocus::Detail
    }

    pub fn detail_scroll(&self) -> (r: u16)
        ensures
            r == self@.scroll,
    {
        self.detail_scroll
    }

    pub fn filter_form(&self) -> (r: Option<&FilterForm>)
        ensures
            self@.filters == (match r {
                Some(f) => Some(f@),
                None => None,
            }),
    {
        self.filter_form.as_ref()
    }

    pub fn active_filter_summary(&self) -> (r: Option<String>)
        ensures
            opt(r) == self@.filter_summary(),
    {
        let mut parts: Vec<String> = Vec::new();
        match trim_to_option(&self.query) {
            Some(q) => {
                parts.push(concat2("/", &q));
            },
            None => {},
        }
        let tags: Vec<String> = split_multi_value(&self.tag_filter);
        assert(strs(tags@).len() == tags@.len());
        if tags.len() > 0 {
            parts.push(concat2("tag=", &joined(&tags, ",")));
        }
        if self.has_note_filter {
            parts.push("note=yes".to_string());
        }
        match trim_to_option(&self.template_filter) {
            Some(t) => {
                parts.push(concat2("tmpl=", &t));
            },
            None => {},
        }
        assert(strs(parts@) =~= self@.filter_words());
        if parts.len() == 0 {
            None
        } else {
            Some(joined(&parts, "  "))
        }
    }

    pub fn has_active_filters(&self) -> (r: bool)
        ensures
            r == (self@.filter_summary() is Some),
    {
        self.active_filter_summary().is_some()
    }

    pub fn entry_count(&self) -> (r: usize)
        ensures
            r == self@.entries.len(),
    {
        assert(views(self.entries@).len() == self.entries@.len());
        self.entries.len()
    }

    pub fn filtered_count(&self) -> (r: usize)
        ensures
            r == self@.filtered.len(),
    {
        self.filtered_indices.len()
    }

    pub fn filtered_indices(&self) -> (r: &[usize])
        ensures
            ints(r@) == self@.filtered,
    {
        self.filtered_indices.as_slice()
    }

    pub fn selected_visible_index(&self) -> (r: Option<usize>)
        ensures
            match r {
                Some(i) => self@.filtered.len() > 0 && i == self@.selected,
                None => self@.filtered.len() == 0,
            },
    {
        if self.filtered_indices.len() == 0 {
            None
        } else {
            Some(self.selected_filtered_index)
        }
    }

    pub fn list_offset(&self) -> (r: usize)
        ensures
            r == self@.offset,
    {
        self.list_offset
    }

    pub fn list_page_step(&self) -> (r: usize)
        ensures
            r == page_of(self@.viewport),
    {
        page_step(self.list_viewport_items)
    }

    pub fn detail_page_step(&self) -> (r: u16)
        requires
            self@.wf(),
        ensures
            r == page_of(self@.detail_viewport),
    {
        page_step(self.detail_viewport_lines) as u16
    }

    pub fn inspection_page_step(&self) -> (r: u16)
        requires
            self@.wf(),
        ensures
            r == (match self@.report {
                Some(x) => page_of(x.viewport),
                None => 1,
            }),
    {
        match &self.inspection_report {
            Some(x) => x.page_step(),
            None => 1,
        }
    }

    pub fn list_position_label(&self) -> (r: Option<String>)
        requires
            self@.wf(),
        ensures
            opt(r) == list_position(self@),
    {
        let n: usize = self.filtered_indices.len();
        if n == 0 {
            return None;
        }
        Some(
            concat5(
                &format_visible_window("view", n, self.list_offset, self.list_viewport_items),
                " | sel ",
                &decimal_text(self.selected_filtered_index + 1),
                "/",
                &decimal_text(n),
            ),
        )
    }

    pub fn detail_position_label(&self) -> (r: String)
        ensures
            r@ == window_text(
                "lines"@,
                self@.detail_lines,
                self@.scroll,
                self@.detail_viewport,
            ),
    {
        format_visible_window(
            "lines",
            self.detail_content_line_count,
            self.detail_scroll as usize,
            self.detail_viewport_lines,
        )
    }

    pub fn entry(&self, index: usize) -> (r: &ManagedEntry)
        requires
            index < self@.entries.len(),
        ensures
            r@ == self@.entries[index as int],
    {
        &self.entries[index]
    }

    pub fn metadata(&self, index: usize) -> (r: Option<&EntryMetadata>)
        requires
            index < self@.entries.len(),
        ensures
            opt_record(r) == record_of(
                self@.records.entries,
                self@.entries[index as int],
                self@.windows,
            ),
    {
        find_entry_metadata(&self.metadata_state, &self.entries[index], self.windows)
    }

    pub fn selected_entry_index(&self) -> (r: Option<usize>)
        ensures
            self@.selected_index() == (match r {
                Some(i) => Some(i as int),
                None => None,
            }),
    {
        assert(views(self.entries@).len() == self.entries@.len());
        if self.selected_filtered_index < self.filtered_indices.len() {
            let i: usize = self.filtered_indices[self.selected_filtered_index];
            assert(self@.filtered[self@.selected] == i);
            if i < self.entries.len() {
                return Some(i);
            }
        }
        None
    }

    pub fn selected_entry(&self) -> (r: Option<&ManagedEntry>)
        ensures
            self@.selected_entry() == (match r {
                Some(e) => Some(e@),
                None => None,
            }),
    {
        match self.selected_entry_index() {
            Some(i) => Some(&self.entries[i]),
            None => None,
        }
    }

    pub fn selected_metadata(&self) -> (r: Option<&EntryMetadata>)
        ensures
            opt_record(r) == (match self@.selected_entry() {
                Some(e) => record_of(self@.records.entries, e, self@.windows),
                None => None,
            }),
    {
        match self.selected_entry_index() {
            Some(i) => self.metadata(i),
            None => None,
        }
    }

    pub fn selected_host(&self) -> (r: Option<String>)
        ensures
            opt(r) == self@.selected_host(),
    {
        match self.selected_entry() {
            Some(e) => Some(e.entry.primary_pattern().to_string()),
            None => None,
        }
    }

    pub fn status_message(&self) -> (r: Option<&str>)
        ensures
            opt_str(r) == self@.status,
    {
        match &self.status_message {
            Some(m) => Some(m.as_str()),
            None => None,
        }
    }

    pub fn pending_delete_host(&self) -> (r: Option<&str>)
        ensures
            opt_str(r) == self@.deleting,
    {
        match &self.pending_delete_host {
            Some(h) => Some(h.as_str()),
            None => None,
        }
    }

    pub fn entry_form(&self) -> (r: Option<&EntryForm>)
        ensures
            self@.form == (match r {
                Some(f) => Some(f@),
                None => None,
            }),
    {
        self.entry_form.as_ref()
    }

    pub fn inspection_report(&self) -> (r: Option<&InspectionReport>)
        ensures
            self@.report == (match r {
                Some(x) => Some(x@),
                None => None,
            }),
    {
        self.inspection_report.as_ref()
    }

    pub fn backup_catalog(&self) -> (r: Option<&BackupCatalogState>)
        ensures
            self@.catalog == (match r {
                Some(c) => Some(c@),
                None => None,
            }),
    {
        self.backup_catalog.as_ref()
    }

    pub fn pending_restore_snapshot(&self) -> (r: Option<&BackupSnapshot>)
        ensures
            self@.restoring == (match r {
                Some(s) => Some(s@),
                None => None,
            }),
    {
        self.pending_restore_snapshot.as_ref()
    }

    pub fn reorder_host(&self) -> (r: Option<&str>)
        ensures
            opt_str(r) == (match self@.reorder {
                Some(s) => Some(s.host),
                None => None,
            }),
    {
        match &self.reorder_session {
            Some(s) => Some(s.moved_host.as_str()),
            None => None,
        }
    }

    pub fn reorder_dirty(&self) -> (r: bool)
        ensures
            r == (self@.reorder matches Some(s) && paths_of(self@.entries) != paths_of(
                s.entries,
            )),
    {
        match &self.reorder_session {
            Some(s) => !same_strs(
                &sequence_signature(&self.entries),
                &sequence_signature(&s.original_entries),
            ),
            None => false,
        }
    }

    pub fn selected_content_title(&self) -> (r: String)
        ensures
            r@ == content_title(self@),
    {
        let base: &str = self.detail_mode.title();
        match self.selected_entry() {
            Some(e) => {
                if self.detail_mode == DetailMode::Merged {
                    concat4(base, " [", e.entry.primary_pattern(), "]")
                } else {
                    concat4(base, " [", &e.path, "]")
                }
            },
            None => base.to_string(),
        }
    }
}

/// Which part of the list is shown, and which item is selected.
pub open spec fn list_position(s: TuiView) -> Option<Seq<char>> {
    if s.filtered.len() == 0 {
        None
    } else {
        Some(
            window_text("view"@, s.filtered.len() as int, s.offset, s.viewport) + " | sel "@
                + decimal((s.selected + 1) as nat) + "/"@ + decimal(s.filtered.len()),
        )
    }
}

pub open spec fn content_title(s: TuiView) -> Seq<char> {
    match s.selected_entry() {
        Some(e) => s.detail.spec_title() + " ["@ + (if s.detail == DetailMode::Merged {
            e.entry.primary()
        } else {
            e.path
        }) + "]"@,
        None => s.detail.spec_title(),
    }
}

/// Nothing open and nothing selected yet.
pub open spec fn blank_state(l: LoadedView, windows: bool) -> TuiView {
    TuiView {
        entries: l.entries,
        raw: l.raw,
        records: l.records,
        filtered: Seq::empty(),
        selected: 0,
        offset: 0,
        viewport: 1,
        query: Seq::empty(),
        tags: Seq::empty(),
        has_note: false,
        template: Seq::empty(),
        mode: InputMode::Normal,
        detail: DetailMode::Raw,
        focus: PaneFocus::HostList,
        scroll: 0,
        detail_viewport: 1,
        detail_lines: 1,
        catalog: None,
        restoring: None,
        deleting: None,
        filters: None,
        form: None,
        report: None,
        reorder: None,
        status: None,
        windows,
    }
}

/// The state at the start.
pub open spec fn started(l: LoadedView, windows: bool) -> TuiView {
    blank_state(l, windows).refreshed(None)
}

// ---------------------------------------------------------------------------
// The list
// ---------------------------------------------------------------------------

fn find_index(v: &Vec<usize>, k: usize) -> (r: usize)
    ensures
        r == until_index(ints(v@), k as int),
        r <= v@.len(),
{
    let ghost all = ints(v@);
    let mut i: usize = 0;
    while i < v.len() && v[i] != k
        invariant
            i <= v.len(),
            all == ints(v@),
            until_index(all, k as int) == i + until_index(all.skip(i as int), k as int),
        decreases v.len() - i,
    {
        assert(all.skip(i as int)[0] == all[i as int]);
        assert(all.skip(i as int).skip(1) =~= all.skip(i + 1));
        i += 1;
    }
    if i < v.len() {
        assert(all.skip(i as int)[0] == all[i as int]);
    }
    i
}

impl TuiState {
    /// Selects the item at `at` of the list, or the last one.
    pub fn select(&mut self, at: usize)
        ensures
            final(self)@ == old(self)@.select(at as int),
            old(self)@.wf() ==> final(self)@.wf(),
            old(self)@.filtered.len() > 0 ==> final(self)@.list_wf(),
    {
        let n: usize = self.filtered_indices.len();
        if n == 0 {
            return;
        }
        self.selected_filtered_index = if at < n - 1 {
            at
        } else {
            n - 1
        };
        self.list_offset =
        clamp_window(self.selected_filtered_index, self.list_offset, self.list_viewport_items, n);
        self.detail_scroll = 0;
    }

    fn find_place(&self, host: &Option<String>) -> (r: Option<usize>)
        ensures
            self@.place_of(opt(*host)) == (match r {
                Some(n) => Some(n as int),
                None => None,
            }),
    {
        match host {
            None => None,
            Some(h) => match find_host_index(&self.entries, h) {
                None => None,
                Some(e) => {
                    let n: usize = find_index(&self.filtered_indices, e);
                    if n < self.filtered_indices.len() {
                        Some(n)
                    } else {
                        None
                    }
                },
            },
        }
    }

    /// Makes the list anew, with the filters that are set.
    #[verifier::spinoff_prover]
    #[verifier::rlimit(40)]
    pub fn refresh_filter_preserving(&mut self, preferred_host: Option<&str>)
        requires
            old(self)@.raw.len() == old(self)@.entries.len(),
            1 <= old(self)@.viewport <= u16::MAX,
            1 <= old(self)@.detail_viewport <= u16::MAX,
            1 <= old(self)@.detail_lines,
            old(self)@.catalog matches Some(c) ==> c.wf(),
            old(self)@.form matches Some(f) ==> f.wf(),
            old(self)@.report matches Some(r) ==> r.wf(),
            old(self)@.reorder matches Some(r) ==> r.raw.len() == r.entries.len(),
        ensures
            final(self)@ == old(self)@.refreshed(opt_str(preferred_host)),
            final(self)@.wf(),
    {
        let host: Option<String> = match preferred_host {
            Some(h) => Some(h.to_string()),
            None => self.selected_host(),
        };
        let filter: EntryFilter = EntryFilter::from_parts(
            &Some(self.query.clone()),
            &split_multi_value(&self.tag_filter),
            self.has_note_filter,
            &trim_to_option(&self.template_filter),
        );
        assert(views(self.entries@).len() == self.entries@.len());
        self.filtered_indices = filter_entry_indices(
            &self.entries,
            &self.metadata_state,
            &filter,
            self.windows,
        );
        if self.filtered_indices.len() == 0 {
            self.selected_filtered_index = 0;
            self.list_offset = 0;
            self.detail_scroll = 0;
            return;
        }
        let at: usize = match self.find_place(&host) {
            Some(n) => n,
            None => self.selected_filtered_index,
        };
        self.select(at);
    }
}

} // verus!
