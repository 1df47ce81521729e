//! What the keys do.

use vstd::prelude::*;

use crate::backup::{BackupSnapshot, RestoreBackupOutcome, SnapshotView};
use crate::commands::doctor::{DoctorReport, doctor_lines, doctor_summary};
use crate::commands::validate::{ValidationReport, report_lines, report_summary};
use crate::config::state::{AppState, StateView, record_of};
use crate::error::ConfigError;
use crate::strings::concat3;
use crate::text::{opt, views};
use crate::tui::actions::{help_report, restore_asked, template_report};
use crate::tui::catalog::{CatalogView, InspectionView, catalog_of, fresh_report};
use crate::tui::forms::{
    EntryFormView, FilterField, FilterFormView, InputMode, PaneFocus, empty_form, form_of,
    shortened,
};
use crate::tui::saving::{
    delete_done, form_saved, refusal, reload_done, reorder_done, reordered, restore_done, restored,
    saved_entry,
};
use crate::tui::state::{LoadedSnapshot, LoadedView, TuiState, TuiView, loaded, started};
use crate::tui::viewport::{less_by, page_of};

verus! {

/// A key of the keyboard.
#[derive(Debug, Clone, Copy, PartialEq, Eq, Structural)]
pub enum KeyCode {
    Char(char),
    Tab,
    BackTab,
    Enter,
    Esc,
    Backspace,
    Up,
    Down,
    Left,
    Right,
    PageUp,
    PageDown,
    Home,
    End,
    Other,
}

/// A key that was pressed, and which keys were held down with it.
#[derive(Debug, Clone, Copy, PartialEq, Eq, Structural)]
pub struct KeyEvent {
    pub code: KeyCode,
    pub control: bool,
    pub alt: bool,
}

/// What is to be done outside after a key: the files are read or written, and what came of
/// it is handed to the state.
#[derive(Debug, Clone, Copy, PartialEq, Eq, Structural)]
pub enum Request {
    Nothing,
    Quit,
    ListBackups,
    Validate,
    Doctor,
    Reload,
    SaveForm,
    SaveReorder,
    Delete,
    Restore,
}

// ---------------------------------------------------------------------------
// Keys
// ---------------------------------------------------------------------------

pub open spec fn is_down(k: KeyEvent) -> bool {
    k.code == KeyCode::Down || k.code == KeyCode::Char('j')
}

pub open spec fn is_up(k: KeyEvent) -> bool {
    k.code == KeyCode::Up || k.code == KeyCode::Char('k')
}

pub open spec fn is_home(k: KeyEvent) -> bool {
    k.code == KeyCode::Home || k.code == KeyCode::Char('g')
}

pub open spec fn is_end(k: KeyEvent) -> bool {
    k.code == KeyCode::End || k.code == KeyCode::Char('G')
}

/// The character that a key types.
pub open spec fn typed(k: KeyEvent) -> Option<char> {
    match k.code {
        KeyCode::Char(c) => if k.control || k.alt {
            None
        } else {
            Some(c)
        },
        _ => None,
    }
}

fn moves_down(k: KeyEvent) -> (r: bool)
    ensures
        r == is_down(k),
{
    k.code == KeyCode::Down || k.code == KeyCode::Char('j')
}

fn moves_up(k: KeyEvent) -> (r: bool)
    ensures
        r == is_up(k),
{
    k.code == KeyCode::Up || k.code == KeyCode::Char('k')
}

fn moves_home(k: KeyEvent) -> (r: bool)
    ensures
        r == is_home(k),
{
    k.code == KeyCode::Home || k.code == KeyCode::Char('g')
}

fn moves_end(k: KeyEvent) -> (r: bool)
    ensures
        r == is_end(k),
{
    k.code == KeyCode::End || k.code == KeyCode::Char('G')
}

fn typed_char(k: KeyEvent) -> (r: Option<char>)
    ensures
        r == typed(k),
{
    match k.code {
        KeyCode::Char(c) => {
            if k.control || k.alt {
                None
            } else {
                Some(c)
            }
        },
        _ => None,
    }
}

// ---------------------------------------------------------------------------
// Modes
// ---------------------------------------------------------------------------

/// Moving in the half of the screen that has the focus.
pub open spec fn moved_by(s: TuiView, k: KeyEvent) -> TuiView {
    let list = s.focus == PaneFocus::HostList;
    if is_down(k) {
        if list {
            s.select(s.selected + 1)
        } else {
            s.scrolled(s.scroll + 1)
        }
    } else if is_up(k) {
        if list {
            s.select(less_by(s.selected, 1))
        } else {
            s.scrolled(less_by(s.scroll, 1))
        }
    } else if k.code == KeyCode::PageDown {
        if list {
            s.select(s.selected + page_of(s.viewport))
        } else {
            s.scrolled(s.scroll + page_of(s.detail_viewport))
        }
    } else if k.code == KeyCode::PageUp {
        if list {
            s.select(less_by(s.selected, page_of(s.viewport)))
        } else {
            s.scrolled(less_by(s.scroll, page_of(s.detail_viewport)))
        }
    } else if is_home(k) {
        if list {
            s.select(0)
        } else {
            s.scrolled(0)
        }
    } else if is_end(k) {
        if list {
            s.select(s.filtered.len() - 1)
        } else {
            s.scrolled(s.max_scroll())
        }
    } else {
        s
    }
}

pub open spec fn filter_opened(s: TuiView) -> TuiView {
    s.with_filters(
        FilterFormView {
            query: s.query,
            tags: s.tags,
            has_note: s.has_note,
            template: s.template,
            active_field: FilterField::Query,
        },
    ).in_mode(InputMode::Filter)
}

pub open spec fn edit_opened(s: TuiView) -> TuiView {
    match s.selected_entry() {
        Some(e) => s.with_form(form_of(e, record_of(s.records.entries, e, s.windows))).in_mode(
            InputMode::Edit,
        ),
        None => s.with_status("No selected entry to edit"@),
    }
}

pub open spec fn delete_asked(s: TuiView) -> TuiView {
    match s.selected_host() {
        Some(h) => TuiView { deleting: Some(h), mode: InputMode::ConfirmDelete, ..s },
        None => s.with_status("No selected entry to delete"@),
    }
}

/// The letters of the normal mode, each with what it stands for.
pub open spec fn letter_step(s: TuiView, c: char, control: bool) -> (TuiView, Request) {
    if c == 'q' || (c == 'c' && control) {
        (s, Request::Quit)
    } else if c == '?' {
        (s.inspecting(help_report()), Request::Nothing)
    } else if c == '/' {
        (s.in_mode(InputMode::Search), Request::Nothing)
    } else if c == 'b' {
        (s, Request::ListBackups)
    } else if c == 'f' {
        (filter_opened(s), Request::Nothing)
    } else if c == 't' {
        (s.inspecting(template_report()), Request::Nothing)
    } else if c == 'v' {
        (TuiView { detail: s.detail.other(), scroll: 0, ..s }, Request::Nothing)
    } else if c == 'x' {
        (s.unfiltered(), Request::Nothing)
    } else if c == 'a' {
        (s.with_form(empty_form()).in_mode(InputMode::Edit), Request::Nothing)
    } else if c == 'e' {
        (edit_opened(s), Request::Nothing)
    } else if c == 'd' {
        (delete_asked(s), Request::Nothing)
    } else if c == 'V' {
        (s, Request::Validate)
    } else if c == 'D' {
        (s, Request::Doctor)
    } else if c == 'r' && control {
        (s, Request::Reload)
    } else if c == 'r' {
        (s.reorder_started(), Request::Nothing)
    } else {
        (
            moved_by(s, KeyEvent { code: KeyCode::Char(c), control, alt: false }),
            Request::Nothing,
        )
    }
}

pub open spec fn normal_step(s: TuiView, k: KeyEvent) -> (TuiView, Request) {
    match k.code {
        KeyCode::Tab => (TuiView { focus: s.focus.other(), ..s }, Request::Nothing),
        KeyCode::Char(c) => letter_step(s, c, k.control),
        _ => (moved_by(s, k), Request::Nothing),
    }
}

pub open spec fn search_step(s: TuiView, k: KeyEvent) -> TuiView {
    if k.code == KeyCode::Enter {
        s.in_mode(InputMode::Normal)
    } else if k.code == KeyCode::Esc {
        s.searching(Seq::empty()).in_mode(InputMode::Normal)
    } else if k.code == KeyCode::Backspace {
        s.searching(shortened(s.query))
    } else if k.code == KeyCode::Char('u') && k.control {
        s.searching(Seq::empty())
    } else {
        match typed(k) {
            Some(c) => s.searching(s.query.push(c)),
            None => s,
        }
    }
}

/// What a key does to the form of the filters.
pub open spec fn filter_form_step(f: FilterFormView, k: KeyEvent) -> FilterFormView {
    if k.code == KeyCode::Tab || k.code == KeyCode::Down {
        FilterFormView { active_field: f.active_field.following(), ..f }
    } else if k.code == KeyCode::BackTab || k.code == KeyCode::Up {
        FilterFormView { active_field: f.active_field.preceding(), ..f }
    } else if k.code == KeyCode::Left {
        f.note_toggled().template_cycled(false)
    } else if k.code == KeyCode::Right {
        f.note_toggled().template_cycled(true)
    } else if k.code == KeyCode::Backspace {
        f.popped()
    } else if k.code == KeyCode::Char('u') && k.control {
        f.cleared()
    } else if k.code == KeyCode::Char(' ') {
        f.spaced()
    } else {
        match typed(k) {
            Some(c) => f.pushed(c),
            None => f,
        }
    }
}

pub open spec fn filter_step(s: TuiView, k: KeyEvent) -> TuiView {
    if k.code == KeyCode::Esc {
        TuiView { filters: None, mode: InputMode::Normal, ..s }
    } else if k.code == KeyCode::Enter {
        s.filters_saved()
    } else {
        match s.filters {
            Some(f) => s.with_filters(filter_form_step(f, k)),
            None => s,
        }
    }
}

/// What a key does to a report.
pub open spec fn report_step(x: InspectionView, k: KeyEvent) -> InspectionView {
    if is_up(k) {
        x.scrolled(less_by(x.scroll, 1))
    } else if is_down(k) {
        x.scrolled(x.scroll + 1)
    } else if k.code == KeyCode::PageUp {
        x.scrolled(less_by(x.scroll, page_of(x.viewport)))
    } else if k.code == KeyCode::PageDown {
        x.scrolled(x.scroll + page_of(x.viewport))
    } else if is_home(k) {
        x.scrolled(0)
    } else if is_end(k) {
        x.scrolled(x.max_scroll())
    } else {
        x
    }
}

pub open spec fn inspect_step(s: TuiView, k: KeyEvent) -> TuiView {
    if k.code == KeyCode::Esc || k.code == KeyCode::Char('q') {
        TuiView { report: None, mode: InputMode::Normal, ..s }
    } else {
        match s.report {
            Some(x) => s.with_report(report_step(x, k)),
            None => s,
        }
    }
}

/// What a key does to the catalog of snapshots.
pub open spec fn catalog_step(c: CatalogView, k: KeyEvent) -> CatalogView {
    if is_up(k) {
        c.select(less_by(c.selected, 1))
    } else if is_down(k) {
        c.select(c.selected + 1)
    } else if k.code == KeyCode::PageUp {
        c.select(less_by(c.selected, page_of(c.viewport)))
    } else if k.code == KeyCode::PageDown {
        c.select(c.selected + page_of(c.viewport))
    } else if is_home(k) {
        c.select(0)
    } else if is_end(k) {
        c.select(c.snapshots.len() - 1)
    } else {
        c
    }
}

pub open spec fn backups_step(s: TuiView, k: KeyEvent) -> TuiView {
    if k.code == KeyCode::Esc || k.code == KeyCode::Char('q') {
        TuiView { catalog: None, restoring: None, mode: InputMode::Normal, ..s }
    } else if k.code == KeyCode::Enter || k.code == KeyCode::Char('r') {
        restore_asked(s)
    } else {
        match s.catalog {
            Some(c) => s.with_catalog(catalog_step(c, k)),
            None => s,
        }
    }
}

pub open spec fn reorder_step(s: TuiView, k: KeyEvent) -> (TuiView, Request) {
    if k.code == KeyCode::Esc {
        (s.reorder_cancelled(), Request::Nothing)
    } else if k.code == KeyCode::Enter {
        (s, Request::SaveReorder)
    } else if is_up(k) {
        (s.shifted(true), Request::Nothing)
    } else if is_down(k) {
        (s.shifted(false), Request::Nothing)
    } else {
        (s, Request::Nothing)
    }
}

/// What a key does to the form of an entry.
pub open spec fn entry_form_step(f: EntryFormView, k: KeyEvent) -> EntryFormView {
    if k.code == KeyCode::Tab || k.code == KeyCode::Down {
        EntryFormView { active_field: f.active_field.following(), ..f }
    } else if k.code == KeyCode::BackTab || k.code == KeyCode::Up {
        EntryFormView { active_field: f.active_field.preceding(), ..f }
    } else if k.code == KeyCode::Left {
        f.arrowed(false)
    } else if k.code == KeyCode::Right {
        f.arrowed(true)
    } else if k.code == KeyCode::Backspace {
        f.popped()
    } else if k.code == KeyCode::Char('u') && k.control {
        f.with_active(Seq::empty())
    } else if k.code == KeyCode::Char(' ') {
        f.spaced()
    } else {
        match typed(k) {
            Some(c) => f.pushed(c),
            None => f,
        }
    }
}

pub open spec fn edit_step(s: TuiView, k: KeyEvent) -> (TuiView, Request) {
    if k.code == KeyCode::Esc {
        (TuiView { form: None, mode: InputMode::Normal, ..s }, Request::Nothing)
    } else if k.code == KeyCode::Enter {
        (s, Request::SaveForm)
    } else {
        match s.form {
            Some(f) => (s.with_form(entry_form_step(f, k)), Request::Nothing),
            None => (s, Request::Nothing),
        }
    }
}

pub open spec fn is_yes(k: KeyEvent) -> bool {
    k.code == KeyCode::Char('y') || k.code == KeyCode::Enter
}

pub open spec fn is_no(k: KeyEvent) -> bool {
    k.code == KeyCode::Char('n') || k.code == KeyCode::Esc
}

pub open spec fn delete_step(s: TuiView, k: KeyEvent) -> (TuiView, Request) {
    if is_yes(k) {
        (s, Request::Delete)
    } else if is_no(k) {
        (TuiView { deleting: None, mode: InputMode::Normal, ..s }, Request::Nothing)
    } else {
        (s, Request::Nothing)
    }
}

pub open spec fn restore_step(s: TuiView, k: KeyEvent) -> (TuiView, Request) {
    if is_yes(k) {
        (s, Request::Restore)
    } else if is_no(k) {
        (TuiView { restoring: None, mode: InputMode::BackupCatalog, ..s }, Request::Nothing)
    } else {
        (s, Request::Nothing)
    }
}

/// The state after a key, and what is to be done outside.
pub open spec fn key_step(s: TuiView, k: KeyEvent) -> (TuiView, Request) {
    match s.mode {
        InputMode::Normal => normal_step(s, k),
        InputMode::Search => (search_step(s, k), Request::Nothing),
        InputMode::Filter => (filter_step(s, k), Request::Nothing),
        InputMode::Inspect => (inspect_step(s, k), Request::Nothing),
        InputMode::BackupCatalog => (backups_step(s, k), Request::Nothing),
        InputMode::ConfirmDelete => delete_step(s, k),
        InputMode::ConfirmRestore => restore_step(s, k),
        InputMode::Edit => edit_step(s, k),
        InputMode::Reorder => reorder_step(s, k),
    }
}

fn handle_move(app: &mut TuiState, k: KeyEvent)
    requires
        old(app)@.wf(),
    ensures
        final(app)@ == moved_by(old(app)@, k),
        final(app)@.wf(),
{
    let list: bool = app.list_is_focused();
    if moves_down(k) {
        if list {
            app.select_next();
        } else {
            app.scroll_detail_down(1);
        }
    } else if moves_up(k) {
        if list {
            app.select_previous();
        } else {
            app.scroll_detail_up(1);
        }
    } else if k.code == KeyCode::PageDown {
        if list {
            let step: usize = app.list_page_step();
            app.select_next_page(step);
        } else {
            let step: u16 = app.detail_page_step();
            app.scroll_detail_down(step);
        }
    } else if k.code == KeyCode::PageUp {
        if list {
            let step: usize = app.list_page_step();
            app.select_previous_page(step);
        } else {
            let step: u16 = app.detail_page_step();
            app.scroll_detail_up(step);
        }
    } else if moves_home(k) {
        if list {
            app.select_first();
        } else {
            app.scroll_detail_home();
        }
    } else if moves_end(k) {
        if list {
            app.select_last();
        } else {
            app.scroll_detail_end();
        }
    }
}

fn handle_letter(app: &mut TuiState, c: char, control: bool) -> (r: Request)
    requires
        old(app)@.wf(),
    ensures
        (final(app)@, r) == letter_step(old(app)@, c, control),
        final(app)@.wf(),
{
    if c == 'q' || (c == 'c' && control) {
        return Request::Quit;
    } else if c == '?' {
        app.open_help();
    } else if c == '/' {
        app.start_search();
    } else if c == 'b' {
        return Request::ListBackups;
    } else if c == 'f' {
        app.start_filter_edit();
    } else if c == 't' {
        app.open_template_catalog();
    } else if c == 'v' {
        app.toggle_detail_mode();
    } else if c == 'x' {
        app.clear_all_filters();
    } else if c == 'a' {
        app.start_add();
    } else if c == 'e' {
        app.start_edit();
    } else if c == 'd' {
        app.start_delete_confirmation();
    } else if c == 'V' {
        return Request::Validate;
    } else if c == 'D' {
        return Request::Doctor;
    } else if c == 'r' && control {
        return Request::Reload;
    } else if c == 'r' {
        app.start_reorder();
    } else {
        handle_move(app, KeyEvent { code: KeyCode::Char(c), control, alt: false });
    }
    Request::Nothing
}

pub fn handle_normal_mode(app: &mut TuiState, key: KeyEvent) -> (r: Request)
    requires
        old(app)@.wf(),
    ensures
        (final(app)@, r) == normal_step(old(app)@, key),
        final(app)@.wf(),
{
    match key.code {
        KeyCode::Tab => {
            app.toggle_pane_focus();
            Request::Nothing
        },
        KeyCode::Char(c) => handle_letter(app, c, key.control),
        _ => {
            handle_move(app, key);
            Request::Nothing
        },
    }
}

pub fn handle_search_mode(app: &mut TuiState, key: KeyEvent)
    requires
        old(app)@.wf(),
    ensures
        final(app)@ == search_step(old(app)@, key),
        final(app)@.wf(),
{
    if key.code == KeyCode::Enter {
        app.finish_search();
    } else if key.code == KeyCode::Esc {
        app.cancel_search();
    } else if key.code == KeyCode::Backspace {
        app.pop_search();
    } else if key.code == KeyCode::Char('u') && key.control {
        app.clear_search();
    } else {
        match typed_char(key) {
            Some(c) => app.push_search(c),
            None => {},
        }
    }
}

pub fn handle_filter_mode(app: &mut TuiState, key: KeyEvent)
    requires
        old(app)@.wf(),
    ensures
        final(app)@ == filter_step(old(app)@, key),
        final(app)@.wf(),
{
    if key.code == KeyCode::Esc {
        app.cancel_filter_edit();
    } else if key.code == KeyCode::Enter {
        app.save_filter_edit();
    } else if key.code == KeyCode::Tab || key.code == KeyCode::Down {
        app.filter_next_field();
    } else if key.code == KeyCode::BackTab || key.code == KeyCode::Up {
        app.filter_previous_field();
    } else if key.code == KeyCode::Left {
        app.toggle_filter_has_note();
        app.cycle_filter_template_previous();
    } else if key.code == KeyCode::Right {
        app.toggle_filter_has_note();
        app.cycle_filter_template_next();
    } else if key.code == KeyCode::Backspace {
        app.pop_filter_char();
    } else if key.code == KeyCode::Char('u') && key.control {
        app.clear_filter_field();
    } else if key.code == KeyCode::Char(' ') {
        app.handle_filter_space();
    } else {
        match typed_char(key) {
            Some(c) => app.push_filter_char(c),
            None => {},
        }
    }
}

pub fn handle_inspect_mode(app: &mut TuiState, key: KeyEvent)
    requires
        old(app)@.wf(),
    ensures
        final(app)@ == inspect_step(old(app)@, key),
        final(app)@.wf(),
{
    if key.code == KeyCode::Esc || key.code == KeyCode::Char('q') {
        app.close_inspection_report();
    } else if moves_up(key) {
        app.scroll_inspection_up(1);
    } else if moves_down(key) {
        app.scroll_inspection_down(1);
    } else if key.code == KeyCode::PageUp {
        let step: u16 = app.inspection_page_step();
        app.scroll_inspection_up(step);
    } else if key.code == KeyCode::PageDown {
        let step: u16 = app.inspection_page_step();
        app.scroll_inspection_down(step);
    } else if moves_home(key) {
        app.scroll_inspection_home();
    } else if moves_end(key) {
        app.scroll_inspection_end();
    }
}

pub fn handle_backup_catalog_mode(app: &mut TuiState, key: KeyEvent)
    requires
        old(app)@.wf(),
    ensures
        final(app)@ == backups_step(old(app)@, key),
        final(app)@.wf(),
{
    if key.code == KeyCode::Esc || key.code == KeyCode::Char('q') {
        app.close_backup_catalog();
    } else if key.code == KeyCode::Enter || key.code == KeyCode::Char('r') {
        app.start_restore_confirmation();
    } else if moves_up(key) {
        app.backup_select_previous();
    } else if moves_down(key) {
        app.backup_select_next();
    } else if key.code == KeyCode::PageUp {
        app.backup_select_previous_page();
    } else if key.code == KeyCode::PageDown {
        app.backup_select_next_page();
    } else if moves_home(key) {
        app.backup_select_first();
    } else if moves_end(key) {
        app.backup_select_last();
    }
}

pub fn handle_reorder_mode(app: &mut TuiState, key: KeyEvent) -> (r: Request)
    requires
        old(app)@.wf(),
    ensures
        (final(app)@, r) == reorder_step(old(app)@, key),
        final(app)@.wf(),
{
    if key.code == KeyCode::Esc {
        app.cancel_reorder();
    } else if key.code == KeyCode::Enter {
        return Request::SaveReorder;
    } else if moves_up(key) {
        app.reorder_up();
    } else if moves_down(key) {
        app.reorder_down();
    }
    Request::Nothing
}

pub fn handle_edit_mode(app: &mut TuiState, key: KeyEvent) -> (r: Request)
    requires
        old(app)@.wf(),
    ensures
        (final(app)@, r) == edit_step(old(app)@, key),
        final(app)@.wf(),
{
    if key.code == KeyCode::Esc {
        app.cancel_form();
    } else if key.code == KeyCode::Enter {
        return Request::SaveForm;
    } else if key.code == KeyCode::Tab || key.code == KeyCode::Down {
        app.form_next_field();
    } else if key.code == KeyCode::BackTab || key.code == KeyCode::Up {
        app.form_previous_field();
    } else if key.code == KeyCode::Left {
        app.cycle_form_template_previous();
    } else if key.code == KeyCode::Right {
        app.cycle_form_template_next();
    } else if key.code == KeyCode::Backspace {
        app.pop_form_char();
    } else if key.code == KeyCode::Char('u') && key.control {
        app.clear_form_field();
    } else if key.code == KeyCode::Char(' ') {
        app.handle_form_space();
    } else {
        match typed_char(key) {
            Some(c) => app.push_form_char(c),
            None => {},
        }
    }
    Request::Nothing
}

fn says_yes(k: KeyEvent) -> (r: bool)
    ensures
        r == is_yes(k),
{
    k.code == KeyCode::Char('y') || k.code == KeyCode::Enter
}

fn says_no(k: KeyEvent) -> (r: bool)
    ensures
        r == is_no(k),
{
    k.code == KeyCode::Char('n') || k.code == KeyCode::Esc
}

pub fn handle_confirm_delete_mode(app: &mut TuiState, key: KeyEvent) -> (r: Request)
    requires
        old(app)@.wf(),
    ensures
        (final(app)@, r) == delete_step(old(app)@, key),
        final(app)@.wf(),
{
    if says_yes(key) {
        return Request::Delete;
    } else if says_no(key) {
        app.cancel_delete_confirmation();
    }
    Request::Nothing
}

pub fn handle_confirm_restore_mode(app: &mut TuiState, key: KeyEvent) -> (r: Request)
    requires
        old(app)@.wf(),
    ensures
        (final(app)@, r) == restore_step(old(app)@, key),
        final(app)@.wf(),
{
    if says_yes(key) {
        return Request::Restore;
    } else if says_no(key) {
        app.cancel_restore_confirmation();
    }
    Request::Nothing
}

/// Does what a key stands for, and says what is to be done outside.
pub fn handle_key_event(app: &mut TuiState, key: KeyEvent) -> (r: Request)
    requires
        old(app)@.wf(),
    ensures
        (final(app)@, r) == key_step(old(app)@, key),
        final(app)@.wf(),
{
    match app.input_mode() {
        InputMode::Normal => handle_normal_mode(app, key),
        InputMode::Search => {
            handle_search_mode(app, key);
            Request::Nothing
        },
        InputMode::Filter => {
            handle_filter_mode(app, key);
            Request::Nothing
        },
        InputMode::Inspect => {
            handle_inspect_mode(app, key);
            Request::Nothing
        },
        InputMode::BackupCatalog => {
            handle_backup_catalog_mode(app, key);
            Request::Nothing
        },
        InputMode::ConfirmDelete => handle_confirm_delete_mode(app, key),
        InputMode::ConfirmRestore => handle_confirm_restore_mode(app, key),
        InputMode::Edit => handle_edit_mode(app, key),
        InputMode::Reorder => handle_reorder_mode(app, key),
    }
}

// ---------------------------------------------------------------------------
// What came of a request
// ---------------------------------------------------------------------------

/// A failure is told.
pub open spec fn told(s: TuiView, what: Seq<char>, failure: Option<Seq<char>>) -> TuiView {
    match failure {
        Some(e) => s.with_status(what + " failed: "@ + e),
        None => s,
    }
}

/// Tells of a failure, and says whether there was one.
fn tell(app: &mut TuiState, what: &str, r: Result<(), ConfigError>) -> (failed: bool)
    requires
        old(app)@.wf(),
    ensures
        final(app)@ == told(old(app)@, what@, refusal(r)),
        final(app)@.wf(),
        failed == (r is Err),
{
    match r {
        Ok(_) => false,
        Err(e) => {
            let message: String = concat3(what, " failed: ", &e.text());
            app.set_status(&message);
            true
        },
    }
}

pub open spec fn backups_listed(s: TuiView, r: Result<Seq<SnapshotView>, Seq<char>>) -> TuiView {
    match r {
        Ok(v) => TuiView {
            catalog: Some(catalog_of(v)),
            restoring: None,
            mode: InputMode::BackupCatalog,
            ..s
        },
        Err(e) => told(s, "Backups"@, Some(e)),
    }
}

pub fn finish_list_backups(app: &mut TuiState, r: Result<Vec<BackupSnapshot>, ConfigError>)
    requires
        old(app)@.wf(),
    ensures
        final(app)@ == backups_listed(
            old(app)@,
            match r {
                Ok(v) => Ok(views(v@)),
                Err(e) => Err(e@),
            },
        ),
        final(app)@.wf(),
{
    match r {
        Ok(v) => app.open_backup_catalog(v),
        Err(e) => {
            tell(app, "Backups", Err(e));
        },
    }
}

pub fn finish_validate(app: &mut TuiState, r: Result<ValidationReport, ConfigError>)
    requires
        old(app)@.wf(),
    ensures
        final(app)@ == (match r {
            Ok(x) => old(app)@.inspecting(
                fresh_report(
                    "Validate"@,
                    report_summary(x@),
                    report_lines(x@),
                    x@.issues.len() > 0,
                ),
            ),
            Err(e) => told(old(app)@, "Validate"@, Some(e@)),
        }),
        final(app)@.wf(),
{
    match r {
        Ok(x) => app.open_validation_report(&x),
        Err(e) => {
            tell(app, "Validate", Err(e));
        },
    }
}

pub fn finish_doctor(app: &mut TuiState, r: Result<DoctorReport, ConfigError>)
    requires
        old(app)@.wf(),
    ensures
        final(app)@ == (match r {
            Ok(x) => old(app)@.inspecting(
                fresh_report("Doctor"@, doctor_summary(x@), doctor_lines(x@), false),
            ),
            Err(e) => told(old(app)@, "Doctor"@, Some(e@)),
        }),
        final(app)@.wf(),
{
    match r {
        Ok(x) => app.open_doctor_report(&x),
        Err(e) => {
            tell(app, "Doctor", Err(e));
        },
    }
}

pub fn finish_reload(app: &mut TuiState, read: Result<LoadedSnapshot, ConfigError>)
    requires
        old(app)@.wf(),
        read matches Ok(l) ==> l@.wf(),
    ensures
        ({
            let (s, failure) = reload_done(old(app)@, loaded(read));
            final(app)@ == told(s, "Reload"@, failure)
        }),
        final(app)@.wf(),
{
    let r: Result<(), ConfigError> = app.reload(read);
    tell(app, "Reload", r);
}

pub fn finish_save_form(
    app: &mut TuiState,
    done: Result<(Vec<String>, Option<String>), ConfigError>,
    read: Result<LoadedSnapshot, ConfigError>,
)
    requires
        old(app)@.wf(),
        read matches Ok(l) ==> l@.wf(),
    ensures
        ({
            let (s, failure) = form_saved(old(app)@, saved_entry(done), loaded(read));
            final(app)@ == told(s, "Save"@, failure)
        }),
        final(app)@.wf(),
{
    let r: Result<(), ConfigError> = app.save_form(done, read);
    tell(app, "Save", r);
}

pub fn finish_save_reorder(
    app: &mut TuiState,
    done: Result<(String, u16, Vec<String>), ConfigError>,
    read: Result<LoadedSnapshot, ConfigError>,
)
    requires
        old(app)@.wf(),
        read matches Ok(l) ==> l@.wf(),
    ensures
        ({
            let (s, failure) = reorder_done(old(app)@, reordered(done), loaded(read));
            final(app)@ == told(s, "Reorder"@, failure)
        }),
        final(app)@.wf(),
{
    let r: Result<(), ConfigError> = app.save_reorder(done, read);
    tell(app, "Reorder", r);
}

/// The state after a deletion; one that failed is no longer asked for.
pub open spec fn delete_finished(
    s: TuiView,
    done: Result<Option<Seq<char>>, Seq<char>>,
    read: Result<LoadedView, Seq<char>>,
) -> TuiView {
    let (t, failure) = delete_done(s, done, read);
    match failure {
        Some(_) => TuiView {
            deleting: None,
            mode: InputMode::Normal,
            ..told(t, "Delete"@, failure)
        },
        None => t,
    }
}

pub fn finish_delete(
    app: &mut TuiState,
    done: Result<Option<String>, ConfigError>,
    read: Result<LoadedSnapshot, ConfigError>,
)
    requires
        old(app)@.wf(),
        read matches Ok(l) ==> l@.wf(),
    ensures
        final(app)@ == delete_finished(
            old(app)@,
            match done {
                Ok(b) => Ok(opt(b)),
                Err(e) => Err(e@),
            },
            loaded(read),
        ),
        final(app)@.wf(),
{
    let r: Result<(), ConfigError> = app.confirm_delete(done, read);
    if tell(app, "Delete", r) {
        app.cancel_delete_confirmation();
    }
}

/// The state after a restoration; after one that failed the catalog is shown again.
pub open spec fn restore_finished(
    s: TuiView,
    done: Result<(Seq<char>, Option<Seq<char>>, StateView), Seq<char>>,
    read: Result<LoadedView, Seq<char>>,
) -> TuiView {
    let (t, failure) = restore_done(s, done, read);
    match failure {
        Some(_) => TuiView {
            restoring: None,
            mode: InputMode::BackupCatalog,
            ..told(t, "Restore"@, failure)
        },
        None => t,
    }
}

pub fn finish_restore(
    app: &mut TuiState,
    done: Result<(RestoreBackupOutcome, AppState), ConfigError>,
    read: Result<LoadedSnapshot, ConfigError>,
)
    requires
        old(app)@.wf(),
        read matches Ok(l) ==> l@.wf(),
    ensures
        final(app)@ == restore_finished(old(app)@, restored(done), loaded(read)),
        final(app)@.wf(),
{
    let r: Result<(), ConfigError> = app.confirm_restore(done, read);
    if tell(app, "Restore", r) {
        app.cancel_restore_confirmation();
    }
}

// ---------------------------------------------------------------------------
// Laws
// ---------------------------------------------------------------------------

/// The mode goes with what is open: a form, a report, the catalog or a question is open in
/// its own mode and in no other.
pub open spec fn modes_agree(s: TuiView) -> bool {
    &&& s.filters is Some <==> s.mode == InputMode::Filter
    &&& s.form is Some <==> s.mode == InputMode::Edit
    &&& s.report is Some <==> s.mode == InputMode::Inspect
    &&& s.catalog is Some <==> (s.mode == InputMode::BackupCatalog || s.mode
        == InputMode::ConfirmRestore)
    &&& s.restoring is Some <==> s.mode == InputMode::ConfirmRestore
    &&& s.deleting is Some <==> s.mode == InputMode::ConfirmDelete
    &&& s.reorder is Some ==> s.mode == InputMode::Reorder
}

/// At the start the mode goes with what is open.
pub proof fn law_modes_agree_at_the_start(l: LoadedView, windows: bool)
    ensures
        modes_agree(started(l, windows)),
{
}

#[verifier::spinoff_prover]
#[verifier::rlimit(40)]
proof fn lemma_letters_keep_the_modes(s: TuiView, c: char, control: bool)
    requires
        modes_agree(s),
        s.mode == InputMode::Normal,
    ensures
        modes_agree(letter_step(s, c, control).0),
{
    let k = KeyEvent { code: KeyCode::Char(c), control, alt: false };
    lemma_moving_keeps_the_modes(s, k);
}

proof fn lemma_moving_keeps_the_modes(s: TuiView, k: KeyEvent)
    requires
        modes_agree(s),
    ensures
        modes_agree(moved_by(s, k)),
{
}

proof fn lemma_searching_keeps_the_modes(s: TuiView, k: KeyEvent)
    requires
        modes_agree(s),
        s.mode == InputMode::Search,
    ensures
        modes_agree(search_step(s, k)),
{
}

#[verifier::spinoff_prover]
#[verifier::rlimit(40)]
proof fn lemma_filtering_keeps_the_modes(s: TuiView, k: KeyEvent)
    requires
        modes_agree(s),
        s.mode == InputMode::Filter,
    ensures
        modes_agree(filter_step(s, k)),
{
}

proof fn lemma_reordering_keeps_the_modes(s: TuiView, k: KeyEvent)
    requires
        modes_agree(s),
        s.mode == InputMode::Reorder,
    ensures
        modes_agree(reorder_step(s, k).0),
{
}

/// No key parts the mode from what is open.
#[verifier::spinoff_prover]
#[verifier::rlimit(40)]
pub proof fn law_keys_keep_the_modes(s: TuiView, k: KeyEvent)
    requires
        modes_agree(s),
    ensures
        modes_agree(key_step(s, k).0),
{
    match s.mode {
        InputMode::Normal => {
            lemma_moving_keeps_the_modes(s, k);
            match k.code {
                KeyCode::Char(c) => lemma_letters_keep_the_modes(s, c, k.control),
                _ => {},
            }
        },
        InputMode::Search => lemma_searching_keeps_the_modes(s, k),
        InputMode::Filter => lemma_filtering_keeps_the_modes(s, k),
        InputMode::Reorder => lemma_reordering_keeps_the_modes(s, k),
        _ => {},
    }
}

/// Nor does anything that comes of a request.
pub proof fn law_requests_keep_the_modes(
    s: TuiView,
    backups: Result<Seq<SnapshotView>, Seq<char>>,
    saved: Result<(Seq<Seq<char>>, Option<Seq<char>>), Seq<char>>,
    deleted: Result<Option<Seq<char>>, Seq<char>>,
    back: Result<(Seq<char>, Option<Seq<char>>, StateView), Seq<char>>,
    order: Result<(Seq<char>, u16, Seq<Seq<char>>), Seq<char>>,
    read: Result<LoadedView, Seq<char>>,
)
    requires
        modes_agree(s),
    ensures
        s.mode == InputMode::Normal ==> modes_agree(backups_listed(s, backups)),
        s.mode == InputMode::Normal ==> modes_agree(reload_done(s, read).0),
        s.mode == InputMode::Edit ==> modes_agree(form_saved(s, saved, read).0),
        s.mode == InputMode::ConfirmDelete ==> modes_agree(delete_finished(s, deleted, read)),
        s.mode == InputMode::ConfirmRestore ==> modes_agree(restore_finished(s, back, read)),
        s.mode == InputMode::Reorder ==> modes_agree(reorder_done(s, order, read).0),
{
}

#[verifier::spinoff_prover]
#[verifier::rlimit(30)]
proof fn lemma_letter_requests(s: TuiView, c: char, control: bool)
    ensures
        changes_nothing(letter_step(s, c, control).1),
{
}

/// The request leaves the files as they are.
pub open spec fn changes_nothing(r: Request) -> bool {
    r != Request::Delete && r != Request::Restore && r != Request::SaveForm && r
        != Request::SaveReorder
}

#[verifier::spinoff_prover]
#[verifier::rlimit(30)]
proof fn lemma_normal_requests(s: TuiView, k: KeyEvent)
    ensures
        changes_nothing(normal_step(s, k).1),
{
    match k.code {
        KeyCode::Char(c) => lemma_letter_requests(s, c, k.control),
        _ => {},
    }
}

/// Files are written only after a form was saved, an order was saved, or a question was
/// answered with yes: no other mode asks for it.
#[verifier::spinoff_prover]
#[verifier::rlimit(40)]
pub proof fn law_only_confirmed_changes_are_asked_for(s: TuiView, k: KeyEvent)
    ensures
        key_step(s, k).1 == Request::Delete ==> s.mode == InputMode::ConfirmDelete && is_yes(k),
        key_step(s, k).1 == Request::Restore ==> s.mode == InputMode::ConfirmRestore && is_yes(k),
        key_step(s, k).1 == Request::SaveForm ==> s.mode == InputMode::Edit && k.code
            == KeyCode::Enter,
        key_step(s, k).1 == Request::SaveReorder ==> s.mode == InputMode::Reorder && k.code
            == KeyCode::Enter,
        key_step(s, k).1 == Request::Quit ==> s.mode == InputMode::Normal,
{
    match s.mode {
        InputMode::Normal => lemma_normal_requests(s, k),
        _ => {},
    }
}

/// The state after moves up and down, one after the other.
pub open spec fn shifted_all(s: TuiView, ups: Seq<bool>) -> TuiView
    decreases ups.len(),
{
    if ups.len() == 0 {
        s
    } else {
        shifted_all(s, ups.drop_last()).shifted(ups.last())
    }
}

/// Whatever was moved, giving the move up brings the entries back as they were.
pub proof fn law_cancelled_moves_are_undone(s: TuiView, ups: Seq<bool>)
    requires
        s.reorder_started().mode == InputMode::Reorder,
        s.mode == InputMode::Normal,
    ensures
        ({
            let t = shifted_all(s.reorder_started(), ups).reorder_cancelled();
            t.entries == s.entries && t.raw == s.raw && t.mode == InputMode::Normal && t.reorder
                is None
        }),
{
    lemma_moves_keep_the_session(s.reorder_started(), ups);
}

proof fn lemma_moves_keep_the_session(s: TuiView, ups: Seq<bool>)
    ensures
        shifted_all(s, ups).reorder == s.reorder,
    decreases ups.len(),
{
    if ups.len() > 0 {
        lemma_moves_keep_the_session(s, ups.drop_last());
    }
}

} // verus!
