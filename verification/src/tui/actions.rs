//! What can be done in the terminal interface.
//!
//! Files are read and written outside; what came of that is handed in.

#![verifier::loop_isolation(false)]

use vstd::prelude::*;

use crate::backup::{BackupSnapshot, beyond};
use crate::commands::doctor::{DoctorReport, doctor_lines, doctor_summary};
use crate::commands::validate::{ValidationReport, report_lines, report_summary};
use crate::config::model::ManagedView;
use crate::config::resolve::first;
use crate::config::template::all_kinds;
use crate::strings::{concat2, concat3};
use crate::text::{decimal, lines, opt, views};
use crate::tui::catalog::{
    BackupCatalogState, CatalogView, InspectionReport, InspectionView, catalog_of, fresh_report,
    help_lines, template_cards,
};
use crate::tui::forms::{
    EntryFormView, FilterField, FilterForm, FilterFormView, InputMode, shortened, with_char,
    without_last_char,
};
use crate::tui::state::{LoadedView, ReorderView, TuiState, TuiView};
use crate::tui::viewport::{
    at_least_one, block_viewport_lines, clamp_window, host_list_viewport_items, items_in, less_by,
    lesser, lines_in, max_scroll_offset, moved, neighbour, page_of, window_start,
};

verus! {

broadcast use crate::text::group_text;

/// A message with the place of a backup behind it, where one was made.
pub open spec fn with_backup(message: Seq<char>, label: Seq<char>, backup: Option<Seq<char>>) -> Seq<
    char,
> {
    match backup {
        Some(p) => message + label + p,
        None => message,
    }
}

pub fn add_backup(message: String, label: &str, backup: &Option<String>) -> (r: String)
    ensures
        r@ == with_backup(message@, label@, opt(*backup)),
{
    match backup {
        Some(p) => concat3(&message, label, p),
        None => message,
    }
}

impl TuiView {
    /// With a list of the height, and the selected entry in it.
    pub open spec fn with_list_height(self, height: int) -> TuiView {
        let s = TuiView { viewport: items_in(height), ..self };
        if s.filtered.len() == 0 {
            TuiView { offset: 0, ..s }
        } else {
            TuiView {
                offset: window_start(s.selected, s.offset, s.viewport, s.filtered.len() as int),
                ..s
            }
        }
    }

    pub open spec fn with_detail(self, height: int, lines: int) -> TuiView {
        let s = TuiView {
            detail_viewport: lines_in(height),
            detail_lines: at_least_one(lines),
            ..self
        };
        TuiView { scroll: lesser(s.scroll, s.max_scroll()), ..s }
    }

    pub open spec fn scrolled(self, to: int) -> TuiView {
        TuiView { scroll: lesser(to, self.max_scroll()), ..self }
    }

    /// With another query, and the list made anew.
    pub open spec fn searching(self, query: Seq<char>) -> TuiView {
        TuiView { query, ..self }.refreshed(self.selected_host())
    }

    /// With no filter.
    pub open spec fn unfiltered(self) -> TuiView {
        TuiView {
            query: Seq::empty(),
            tags: Seq::empty(),
            has_note: false,
            template: Seq::empty(),
            filters: None,
            ..self
        }.refreshed(self.selected_host()).with_status("Cleared all filters"@)
    }

    /// With the filters of a form, and the list made anew.
    pub open spec fn filtered_by(self, f: FilterFormView) -> TuiView {
        TuiView {
            query: f.query,
            tags: f.tags,
            has_note: f.has_note,
            template: f.template,
            filters: None,
            mode: InputMode::Normal,
            ..self
        }.refreshed(self.selected_host())
    }

    /// After the filters of the form have been taken.
    pub open spec fn filters_saved(self) -> TuiView {
        match self.filters {
            None => self.in_mode(InputMode::Normal),
            Some(f) => self.filtered_by(f).with_filters_told(),
        }
    }

    /// With the filters told of at the bottom.
    pub open spec fn with_filters_told(self) -> TuiView {
        self.with_status(
            match self.filter_summary() {
                Some(t) => "Applied filters | "@ + t,
                None => "Cleared all filters"@,
            },
        )
    }

    pub open spec fn with_filters(self, f: FilterFormView) -> TuiView {
        TuiView { filters: Some(f), ..self }
    }

    pub open spec fn with_form(self, f: EntryFormView) -> TuiView {
        TuiView { form: Some(f), ..self }
    }

    pub open spec fn with_catalog(self, c: CatalogView) -> TuiView {
        TuiView { catalog: Some(c), ..self }
    }

    pub open spec fn with_report(self, r: InspectionView) -> TuiView {
        TuiView { report: Some(r), ..self }
    }

    /// With a report open.
    pub open spec fn inspecting(self, r: InspectionView) -> TuiView {
        self.with_report(r).in_mode(InputMode::Inspect)
    }

    /// With what was read from disk, and all forms and reports closed.
    pub open spec fn reloaded(self, preferred: Option<Seq<char>>, l: LoadedView) -> TuiView {
        TuiView {
            entries: l.entries,
            raw: l.raw,
            records: l.records,
            catalog: None,
            restoring: None,
            filters: None,
            form: None,
            report: None,
            reorder: None,
            ..self
        }.refreshed(first(preferred, self.selected_host()))
    }

    /// After a move of the selected entry by one place, up or down.
    pub open spec fn shifted(self, up: bool) -> TuiView {
        if self.mode != InputMode::Reorder || self.selected_index() is None || self.reorder is None {
            self
        } else {
            let from = self.selected_index()->0;
            match neighbour(from, up, self.entries.len() as int) {
                None => self.with_status("Cannot move beyond the list boundary"@),
                Some(to) => TuiView {
                    entries: renumbered(moved(self.entries, from, to)),
                    raw: moved(self.raw, from, to),
                    ..self
                }.refreshed(Some(self.reorder->0.host)),
            }
        }
    }

    pub open spec fn reorder_started(self) -> TuiView {
        if self.filter_summary() is Some {
            self.with_status("Clear active filters before reordering"@)
        } else {
            match self.selected_host() {
                None => self.with_status("No selected entry to reorder"@),
                Some(host) => TuiView {
                    reorder: Some(ReorderView { entries: self.entries, raw: self.raw, host }),
                    mode: InputMode::Reorder,
                    ..self
                },
            }
        }
    }

    pub open spec fn reorder_cancelled(self) -> TuiView {
        match self.reorder {
            None => self.in_mode(InputMode::Normal),
            Some(r) => TuiView {
                entries: r.entries,
                raw: r.raw,
                reorder: None,
                mode: InputMode::Normal,
                ..self
            }.refreshed(Some(r.host)).with_status("Cancelled reorder changes"@),
        }
    }
}

/// The entries with the orders that they would get.
pub open spec fn renumbered(es: Seq<ManagedView>) -> Seq<ManagedView> {
    Seq::new(es.len(), |i: int| ManagedView { order: preview_order(i), ..es[i] })
}

/// The order of the entry at place `i`: tens, as far as sixteen bits go.
pub open spec fn preview_order(i: int) -> u16 {
    ((10 * (i + 1)) % 65536) as u16
}

// ---------------------------------------------------------------------------
// Windows
// ---------------------------------------------------------------------------

impl TuiState {
    pub fn set_status(&mut self, message: &str)
        ensures
            final(self)@ == old(self)@.with_status(message@),
            old(self)@.wf() ==> final(self)@.wf(),
    {
        self.status_message = Some(message.to_string());
    }

    pub fn sync_list_viewport(&mut self, area_height: u16)
        requires
            old(self)@.wf(),
        ensures
            final(self)@ == old(self)@.with_list_height(area_height as int),
            final(self)@.wf(),
    {
        self.list_viewport_items = host_list_viewport_items(area_height);
        let n: usize = self.filtered_indices.len();
        if n == 0 {
            self.list_offset = 0;
        } else {
            self.list_offset =
            clamp_window(
                self.selected_filtered_index,
                self.list_offset,
                self.list_viewport_items,
                n,
            );
        }
    }

    pub fn sync_detail_viewport(&mut self, area_height: u16, content_line_count: usize)
        requires
            old(self)@.wf(),
        ensures
            final(self)@ == old(self)@.with_detail(area_height as int, content_line_count as int),
            final(self)@.wf(),
    {
        self.detail_viewport_lines = block_viewport_lines(area_height);
        self.detail_content_line_count = if content_line_count < 1 {
            1
        } else {
            content_line_count
        };
        let last: u16 = self.max_detail_scroll();
        if self.detail_scroll > last {
            self.detail_scroll = last;
        }
    }

    fn max_detail_scroll(&self) -> (r: u16)
        ensures
            r == self@.max_scroll(),
    {
        max_scroll_offset(self.detail_content_line_count, self.detail_viewport_lines)
    }

    pub fn sync_backup_catalog_viewport(&mut self, area_height: u16)
        requires
            old(self)@.wf(),
        ensures
            final(self)@ == (match old(self)@.catalog {
                Some(c) => old(self)@.with_catalog(c.with_height(area_height as int)),
                None => old(self)@,
            }),
            final(self)@.wf(),
    {
        match &mut self.backup_catalog {
            Some(c) => c.sync_viewport(area_height),
            None => {},
        }
    }

    pub fn sync_inspection_viewport(&mut self, area_height: u16)
        requires
            old(self)@.wf(),
        ensures
            final(self)@ == (match old(self)@.report {
                Some(x) => old(self)@.with_report(x.with_height(area_height as int)),
                None => old(self)@,
            }),
            final(self)@.wf(),
    {
        match &mut self.inspection_report {
            Some(x) => x.set_viewport_height(area_height),
            None => {},
        }
    }

    pub fn scroll_detail_up(&mut self, amount: u16)
        requires
            old(self)@.wf(),
        ensures
            final(self)@ == old(self)@.scrolled(less_by(old(self)@.scroll, amount as int)),
            final(self)@.wf(),
    {
        self.detail_scroll = if self.detail_scroll > amount {
            self.detail_scroll - amount
        } else {
            0
        };
    }

    pub fn scroll_detail_down(&mut self, amount: u16)
        requires
            old(self)@.wf(),
        ensures
            final(self)@ == old(self)@.scrolled(old(self)@.scroll + amount),
            final(self)@.wf(),
    {
        let last: u16 = self.max_detail_scroll();
        self.detail_scroll = if amount < last - self.detail_scroll {
            self.detail_scroll + amount
        } else {
            last
        };
    }

    pub fn scroll_detail_home(&mut self)
        requires
            old(self)@.wf(),
        ensures
            final(self)@ == old(self)@.scrolled(0),
            final(self)@.wf(),
    {
        self.detail_scroll = 0;
    }

    pub fn scroll_detail_end(&mut self)
        requires
            old(self)@.wf(),
        ensures
            final(self)@ == old(self)@.scrolled(old(self)@.max_scroll()),
            final(self)@.wf(),
    {
        self.detail_scroll = self.max_detail_scroll();
    }

    // -----------------------------------------------------------------------
    // The list
    // -----------------------------------------------------------------------

    pub fn select_next(&mut self)
        requires
            old(self)@.wf(),
        ensures
            final(self)@ == old(self)@.select(old(self)@.selected + 1),
            final(self)@.wf(),
    {
        self.select_next_page(1);
    }

    pub fn select_previous(&mut self)
        requires
            old(self)@.wf(),
        ensures
            final(self)@ == old(self)@.select(less_by(old(self)@.selected, 1)),
            final(self)@.wf(),
    {
        self.select_previous_page(1);
    }

    pub fn select_next_page(&mut self, amount: usize)
        requires
            old(self)@.wf(),
        ensures
            final(self)@ == old(self)@.select(old(self)@.selected + amount),
            final(self)@.wf(),
    {
        let n: usize = self.filtered_indices.len();
        if n > 0 {
            let left: usize = n - 1 - self.selected_filtered_index;
            let at: usize = if amount < left {
                self.selected_filtered_index + amount
            } else {
                n - 1
            };
            self.select(at);
        }
    }

    pub fn select_previous_page(&mut self, amount: usize)
        requires
            old(self)@.wf(),
        ensures
            final(self)@ == old(self)@.select(less_by(old(self)@.selected, amount as int)),
            final(self)@.wf(),
    {
        let at: usize = if self.selected_filtered_index > amount {
            self.selected_filtered_index - amount
        } else {
            0
        };
        self.select(at);
    }

    pub fn select_first(&mut self)
        requires
            old(self)@.wf(),
        ensures
            final(self)@ == old(self)@.select(0),
            final(self)@.wf(),
    {
        self.select(0);
    }

    pub fn select_last(&mut self)
        requires
            old(self)@.wf(),
        ensures
            final(self)@ == old(self)@.select(old(self)@.filtered.len() - 1),
            final(self)@.wf(),
    {
        let n: usize = self.filtered_indices.len();
        if n > 0 {
            self.select(n - 1);
        }
    }

    // -----------------------------------------------------------------------
    // Searching and filtering
    // -----------------------------------------------------------------------

    pub fn start_search(&mut self)
        requires
            old(self)@.wf(),
        ensures
            final(self)@ == old(self)@.in_mode(InputMode::Search),
            final(self)@.wf(),
    {
        self.input_mode = InputMode::Search;
    }

    pub fn finish_search(&mut self)
        requires
            old(self)@.wf(),
        ensures
            final(self)@ == old(self)@.in_mode(InputMode::Normal),
            final(self)@.wf(),
    {
        self.input_mode = InputMode::Normal;
    }

    pub fn cancel_search(&mut self)
        requires
            old(self)@.wf(),
        ensures
            final(self)@ == old(self)@.searching(Seq::empty()).in_mode(InputMode::Normal),
            final(self)@.wf(),
    {
        self.clear_search();
        self.input_mode = InputMode::Normal;
    }

    fn search(&mut self, query: String)
        requires
            old(self)@.wf(),
        ensures
            final(self)@ == old(self)@.searching(query@),
            final(self)@.wf(),
    {
        let ghost was = self@;
        self.query = query;
        let host: Option<String> = self.selected_host();
        assert(self@.selected_host() == was.selected_host());
        match host {
            Some(h) => self.refresh_filter_preserving(Some(h.as_str())),
            None => self.refresh_filter_preserving(None),
        }
    }

    pub fn push_search(&mut self, ch: char)
        requires
            old(self)@.wf(),
        ensures
            final(self)@ == old(self)@.searching(old(self)@.query.push(ch)),
            final(self)@.wf(),
    {
        let query: String = with_char(&self.query, ch);
        self.search(query);
    }

    pub fn pop_search(&mut self)
        requires
            old(self)@.wf(),
        ensures
            final(self)@ == old(self)@.searching(shortened(old(self)@.query)),
            final(self)@.wf(),
    {
        let query: String = without_last_char(&self.query);
        self.search(query);
    }

    pub fn clear_search(&mut self)
        requires
            old(self)@.wf(),
        ensures
            final(self)@ == old(self)@.searching(Seq::empty()),
            final(self)@.wf(),
    {
        self.search(String::new());
    }

    pub fn toggle_detail_mode(&mut self)
        requires
            old(self)@.wf(),
        ensures
            final(self)@ == (TuiView {
                detail: old(self)@.detail.other(),
                scroll: 0,
                ..old(self)@
            }),
            final(self)@.wf(),
    {
        self.detail_mode.toggle();
        self.detail_scroll = 0;
    }

    pub fn toggle_pane_focus(&mut self)
        requires
            old(self)@.wf(),
        ensures
            final(self)@ == (TuiView { focus: old(self)@.focus.other(), ..old(self)@ }),
            final(self)@.wf(),
    {
        self.pane_focus.toggle();
    }

    pub fn start_filter_edit(&mut self)
        requires
            old(self)@.wf(),
        ensures
            final(self)@ == old(self)@.with_filters(
                FilterFormView {
                    query: old(self)@.query,
                    tags: old(self)@.tags,
                    has_note: old(self)@.has_note,
                    template: old(self)@.template,
                    active_field: FilterField::Query,
                },
            ).in_mode(InputMode::Filter),
            final(self)@.wf(),
    {
        self.filter_form = Some(
            FilterForm::new(
                &self.query,
                &self.tag_filter,
                self.has_note_filter,
                &self.template_filter,
            ),
        );
        self.input_mode = InputMode::Filter;
    }

    pub fn cancel_filter_edit(&mut self)
        requires
            old(self)@.wf(),
        ensures
            final(self)@ == (TuiView { filters: None, mode: InputMode::Normal, ..old(self)@ }),
            final(self)@.wf(),
    {
        self.filter_form = None;
        self.input_mode = InputMode::Normal;
    }

    fn filter_by(&mut self, form: FilterForm)
        requires
            old(self)@.wf(),
        ensures
            final(self)@ == old(self)@.filtered_by(form@),
            final(self)@.wf(),
    {
        let host: Option<String> = self.selected_host();
        let ghost was = self@;
        let (query, tags, has_note, template) = form.into_parts();
        self.query = query;
        self.tag_filter = tags;
        self.has_note_filter = has_note;
        self.template_filter = template;
        self.filter_form = None;
        self.input_mode = InputMode::Normal;
        assert(self@.selected_host() == was.selected_host());
        match host {
            Some(h) => self.refresh_filter_preserving(Some(h.as_str())),
            None => self.refresh_filter_preserving(None),
        }
    }

    fn tell_filters(&mut self)
        ensures
            final(self)@ == old(self)@.with_filters_told(),
            old(self)@.wf() ==> final(self)@.wf(),
    {
        let message: String = match self.active_filter_summary() {
            Some(t) => concat2("Applied filters | ", &t),
            None => "Cleared all filters".to_string(),
        };
        self.set_status(&message);
    }

    #[verifier::spinoff_prover]
    #[verifier::rlimit(40)]
    pub fn save_filter_edit(&mut self)
        requires
            old(self)@.wf(),
        ensures
            final(self)@ == old(self)@.filters_saved(),
            final(self)@.wf(),
    {
        let ghost was = self@;
        match self.filter_form.take() {
            Some(form) => {
                let ghost now = self@;
                assert(now == TuiView { filters: None, ..was });
                self.filter_by(form);
                assert(self@ == was.filtered_by(form@)) by {
                    assert(now.selected_host() == was.selected_host());
                }
                self.tell_filters();
            },
            None => {
                self.input_mode = InputMode::Normal;
            },
        }
    }

    pub fn clear_all_filters(&mut self)
        requires
            old(self)@.wf(),
        ensures
            final(self)@ == old(self)@.unfiltered(),
            final(self)@.wf(),
    {
        let host: Option<String> = self.selected_host();
        let ghost was = self@;
        self.query = String::new();
        self.tag_filter = String::new();
        self.has_note_filter = false;
        self.template_filter = String::new();
        self.filter_form = None;
        assert(self@.selected_host() == was.selected_host());
        match host {
            Some(h) => self.refresh_filter_preserving(Some(h.as_str())),
            None => self.refresh_filter_preserving(None),
        }
        self.set_status("Cleared all filters");
    }

    pub fn filter_next_field(&mut self)
        requires
            old(self)@.wf(),
        ensures
            final(self)@ == (match old(self)@.filters {
                Some(f) => old(self)@.with_filters(
                    FilterFormView { active_field: f.active_field.following(), ..f },
                ),
                None => old(self)@,
            }),
            final(self)@.wf(),
    {
        match &mut self.filter_form {
            Some(f) => f.next_field(),
            None => {},
        }
    }

    pub fn filter_previous_field(&mut self)
        requires
            old(self)@.wf(),
        ensures
            final(self)@ == (match old(self)@.filters {
                Some(f) => old(self)@.with_filters(
                    FilterFormView { active_field: f.active_field.preceding(), ..f },
                ),
                None => old(self)@,
            }),
            final(self)@.wf(),
    {
        match &mut self.filter_form {
            Some(f) => f.previous_field(),
            None => {},
        }
    }

    pub fn push_filter_char(&mut self, ch: char)
        requires
            old(self)@.wf(),
        ensures
            final(self)@ == (match old(self)@.filters {
                Some(f) => old(self)@.with_filters(f.pushed(ch)),
                None => old(self)@,
            }),
            final(self)@.wf(),
    {
        match &mut self.filter_form {
            Some(f) => f.push_char(ch),
            None => {},
        }
    }

    pub fn handle_filter_space(&mut self)
        requires
            old(self)@.wf(),
        ensures
            final(self)@ == (match old(self)@.filters {
                Some(f) => old(self)@.with_filters(f.spaced()),
                None => old(self)@,
            }),
            final(self)@.wf(),
    {
        match &mut self.filter_form {
            Some(f) => f.handle_space(),
            None => {},
        }
    }

    pub fn pop_filter_char(&mut self)
        requires
            old(self)@.wf(),
        ensures
            final(self)@ == (match old(self)@.filters {
                Some(f) => old(self)@.with_filters(f.popped()),
                None => old(self)@,
            }),
            final(self)@.wf(),
    {
        match &mut self.filter_form {
            Some(f) => f.backspace(),
            None => {},
        }
    }

    pub fn clear_filter_field(&mut self)
        requires
            old(self)@.wf(),
        ensures
            final(self)@ == (match old(self)@.filters {
                Some(f) => old(self)@.with_filters(f.cleared()),
                None => old(self)@,
            }),
            final(self)@.wf(),
    {
        match &mut self.filter_form {
            Some(f) => f.clear_active_field(),
            None => {},
        }
    }

    pub fn toggle_filter_has_note(&mut self)
        requires
            old(self)@.wf(),
        ensures
            final(self)@ == (match old(self)@.filters {
                Some(f) => old(self)@.with_filters(f.note_toggled()),
                None => old(self)@,
            }),
            final(self)@.wf(),
    {
        match &mut self.filter_form {
            Some(f) => f.toggle_has_note(),
            None => {},
        }
    }

    pub fn cycle_filter_template_next(&mut self)
        requires
            old(self)@.wf(),
        ensures
            final(self)@ == (match old(self)@.filters {
                Some(f) => old(self)@.with_filters(f.template_cycled(true)),
                None => old(self)@,
            }),
            final(self)@.wf(),
    {
        match &mut self.filter_form {
            Some(f) => f.cycle_template_next(),
            None => {},
        }
    }

    pub fn cycle_filter_template_previous(&mut self)
        requires
            old(self)@.wf(),
        ensures
            final(self)@ == (match old(self)@.filters {
                Some(f) => old(self)@.with_filters(f.template_cycled(false)),
                None => old(self)@,
            }),
            final(self)@.wf(),
    {
        match &mut self.filter_form {
            Some(f) => f.cycle_template_previous(),
            None => {},
        }
    }

    // -----------------------------------------------------------------------
    // Reports
    // -----------------------------------------------------------------------

    pub fn open_validation_report(&mut self, report: &ValidationReport)
        requires
            old(self)@.wf(),
        ensures
            final(self)@ == old(self)@.inspecting(
                fresh_report(
                    "Validate"@,
                    report_summary(report@),
                    report_lines(report@),
                    report@.issues.len() > 0,
                ),
            ),
            final(self)@.wf(),
    {
        self.inspection_report = Some(InspectionReport::from_validation(report));
        self.input_mode = InputMode::Inspect;
    }

    pub fn open_doctor_report(&mut self, report: &DoctorReport)
        requires
            old(self)@.wf(),
        ensures
            final(self)@ == old(self)@.inspecting(
                fresh_report(
                    "Doctor"@,
                    doctor_summary(report@),
                    doctor_lines(report@),
                    false,
                ),
            ),
            final(self)@.wf(),
    {
        self.inspection_report = Some(InspectionReport::from_doctor(report));
        self.input_mode = InputMode::Inspect;
    }

    pub fn open_template_catalog(&mut self)
        requires
            old(self)@.wf(),
        ensures
            final(self)@ == old(self)@.inspecting(template_report()),
            final(self)@.wf(),
    {
        self.inspection_report = Some(InspectionReport::from_template_catalog());
        self.input_mode = InputMode::Inspect;
    }

    pub fn open_help(&mut self)
        requires
            old(self)@.wf(),
        ensures
            final(self)@ == old(self)@.inspecting(help_report()),
            final(self)@.wf(),
    {
        self.inspection_report = Some(InspectionReport::from_help());
        self.input_mode = InputMode::Inspect;
    }

    pub fn close_inspection_report(&mut self)
        requires
            old(self)@.wf(),
        ensures
            final(self)@ == (TuiView { report: None, mode: InputMode::Normal, ..old(self)@ }),
            final(self)@.wf(),
    {
        self.inspection_report = None;
        self.input_mode = InputMode::Normal;
    }

    pub fn scroll_inspection_up(&mut self, amount: u16)
        requires
            old(self)@.wf(),
        ensures
            final(self)@ == (match old(self)@.report {
                Some(x) => old(self)@.with_report(
                    x.scrolled(less_by(x.scroll, amount as int)),
                ),
                None => old(self)@,
            }),
            final(self)@.wf(),
    {
        match &mut self.inspection_report {
            Some(x) => x.scroll_up(amount),
            None => {},
        }
    }

    pub fn scroll_inspection_down(&mut self, amount: u16)
        requires
            old(self)@.wf(),
        ensures
            final(self)@ == (match old(self)@.report {
                Some(x) => old(self)@.with_report(x.scrolled(x.scroll + amount)),
                None => old(self)@,
            }),
            final(self)@.wf(),
    {
        match &mut self.inspection_report {
            Some(x) => x.scroll_down(amount),
            None => {},
        }
    }

    pub fn scroll_inspection_home(&mut self)
        requires
            old(self)@.wf(),
        ensures
            final(self)@ == (match old(self)@.report {
                Some(x) => old(self)@.with_report(x.scrolled(0)),
                None => old(self)@,
            }),
            final(self)@.wf(),
    {
        match &mut self.inspection_report {
            Some(x) => x.scroll_home(),
            None => {},
        }
    }

    pub fn scroll_inspection_end(&mut self)
        requires
            old(self)@.wf(),
        ensures
            final(self)@ == (match old(self)@.report {
                Some(x) => old(self)@.with_report(x.scrolled(x.max_scroll())),
                None => old(self)@,
            }),
            final(self)@.wf(),
    {
        match &mut self.inspection_report {
            Some(x) => x.scroll_end(),
            None => {},
        }
    }

    // -----------------------------------------------------------------------
    // Snapshots
    // -----------------------------------------------------------------------

    pub fn open_backup_catalog(&mut self, backups: Vec<BackupSnapshot>)
        requires
            old(self)@.wf(),
        ensures
            final(self)@ == (TuiView {
                catalog: Some(catalog_of(views(backups@))),
                restoring: None,
                mode: InputMode::BackupCatalog,
                ..old(self)@
            }),
            final(self)@.wf(),
    {
        self.backup_catalog = Some(BackupCatalogState::new(backups));
        self.pending_restore_snapshot = None;
        self.input_mode = InputMode::BackupCatalog;
    }

    pub fn close_backup_catalog(&mut self)
        requires
            old(self)@.wf(),
        ensures
            final(self)@ == (TuiView {
                catalog: None,
                restoring: None,
                mode: InputMode::Normal,
                ..old(self)@
            }),
            final(self)@.wf(),
    {
        self.backup_catalog = None;
        self.pending_restore_snapshot = None;
        self.input_mode = InputMode::Normal;
    }

    pub fn backup_select_next(&mut self)
        requires
            old(self)@.wf(),
        ensures
            final(self)@ == (match old(self)@.catalog {
                Some(c) => old(self)@.with_catalog(c.select(c.selected + 1)),
                None => old(self)@,
            }),
            final(self)@.wf(),
    {
        match &mut self.backup_catalog {
            Some(c) => c.select_next(),
            None => {},
        }
    }

    pub fn backup_select_previous(&mut self)
        requires
            old(self)@.wf(),
        ensures
            final(self)@ == (match old(self)@.catalog {
                Some(c) => old(self)@.with_catalog(c.select(less_by(c.selected, 1))),
                None => old(self)@,
            }),
            final(self)@.wf(),
    {
        match &mut self.backup_catalog {
            Some(c) => c.select_previous(),
            None => {},
        }
    }

    pub fn backup_select_next_page(&mut self)
        requires
            old(self)@.wf(),
        ensures
            final(self)@ == (match old(self)@.catalog {
                Some(c) => old(self)@.with_catalog(
                    c.select(c.selected + page_of(c.viewport)),
                ),
                None => old(self)@,
            }),
            final(self)@.wf(),
    {
        match &mut self.backup_catalog {
            Some(c) => c.select_next_page(),
            None => {},
        }
    }

    pub fn backup_select_previous_page(&mut self)
        requires
            old(self)@.wf(),
        ensures
            final(self)@ == (match old(self)@.catalog {
                Some(c) => old(self)@.with_catalog(
                    c.select(less_by(c.selected, page_of(c.viewport))),
                ),
                None => old(self)@,
            }),
            final(self)@.wf(),
    {
        match &mut self.backup_catalog {
            Some(c) => c.select_previous_page(),
            None => {},
        }
    }

    pub fn backup_select_first(&mut self)
        requires
            old(self)@.wf(),
        ensures
            final(self)@ == (match old(self)@.catalog {
                Some(c) => old(self)@.with_catalog(c.select(0)),
                None => old(self)@,
            }),
            final(self)@.wf(),
    {
        match &mut self.backup_catalog {
            Some(c) => c.select_first(),
            None => {},
        }
    }

    pub fn backup_select_last(&mut self)
        requires
            old(self)@.wf(),
        ensures
            final(self)@ == (match old(self)@.catalog {
                Some(c) => old(self)@.with_catalog(c.select(c.snapshots.len() - 1)),
                None => old(self)@,
            }),
            final(self)@.wf(),
    {
        match &mut self.backup_catalog {
            Some(c) => c.select_last(),
            None => {},
        }
    }

    pub fn start_restore_confirmation(&mut self)
        requires
            old(self)@.wf(),
        ensures
            final(self)@ == restore_asked(old(self)@),
            final(self)@.wf(),
    {
        let snapshot: Option<BackupSnapshot> = match &self.backup_catalog {
            Some(c) => match c.selected_snapshot() {
                Some(s) => Some(s.clone()),
                None => None,
            },
            None => None,
        };
        match snapshot {
            Some(s) => {
                self.pending_restore_snapshot = Some(s);
                self.input_mode = InputMode::ConfirmRestore;
            },
            None => self.set_status("No backup snapshot selected"),
        }
    }

    pub fn cancel_restore_confirmation(&mut self)
        requires
            old(self)@.wf(),
        ensures
            final(self)@ == (TuiView {
                restoring: None,
                mode: InputMode::BackupCatalog,
                ..old(self)@
            }),
            final(self)@.wf(),
    {
        self.pending_restore_snapshot = None;
        self.input_mode = InputMode::BackupCatalog;
    }
}

pub open spec fn restore_asked(s: TuiView) -> TuiView {
    match s.catalog {
        Some(c) => match c.selected_snapshot() {
            Some(x) => TuiView {
                restoring: Some(x),
                mode: InputMode::ConfirmRestore,
                ..s
            },
            None => s.with_status("No backup snapshot selected"@),
        },
        None => s.with_status("No backup snapshot selected"@),
    }
}

pub open spec fn help_report() -> InspectionView {
    fresh_report(
        "Help"@,
        "Keyboard help | Tab switches focus between hosts and detail"@,
        help_lines(),
        false,
    )
}

pub open spec fn template_report() -> InspectionView {
    fresh_report(
        "Templates"@,
        "Template catalog | "@ + decimal(all_kinds().len()) + " built-in template(s)"@,
        template_cards(all_kinds()),
        false,
    )
}

} // verus!
