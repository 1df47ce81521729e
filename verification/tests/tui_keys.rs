use sshcfg::backup::{BackupSnapshot, RestoreBackupOutcome};
use sshcfg::commands::doctor;
use sshcfg::commands::edit::build_updated_entry;
use sshcfg::commands::validate;
use sshcfg::config::model::{HostEntry, ManagedEntry};
use sshcfg::config::openssh::OpenSshProbe;
use sshcfg::config::resolve::MachineFacts;
use sshcfg::config::state::AppState;
use sshcfg::config::store::save_entry;
use sshcfg::error::ConfigError;
use sshcfg::layout::AppPaths;
use sshcfg::tui::forms::{
    DetailMode, EntryForm, FilterField, FilterForm, FormField, InputMode, PaneFocus, parse_port,
};
use sshcfg::tui::keys::{
    KeyCode, KeyEvent, Request, finish_delete, finish_doctor, finish_list_backups, finish_reload,
    finish_restore, finish_save_form, finish_save_reorder, finish_validate, handle_key_event,
};
use sshcfg::tui::saving::FormRequest;
use sshcfg::tui::state::{LoadedSnapshot, TuiState};
use sshcfg::tui::viewport::{clamp_window, move_item, offset_index, page_step, visible_window};
use sshcfg::tui::views::{
    detail_title, empty_summary, footer_legends, header_pairs, list_title, status_text, summary_rows,
    truncate_text,
};

const DIR: &str = "/home/demo/.ssh/config.d";

fn saved(name: &str, order: u16) -> ManagedEntry {
    let entry = HostEntry {
        host_patterns: vec![name.to_string()],
        hostname: Some(format!("{name}.example.com")),
        ..HostEntry::default()
    };
    save_entry(&[], &Vec::new(), DIR, &entry, Some(order), "\n", false).unwrap()
}

fn snapshot(names: &[&str]) -> LoadedSnapshot {
    let entries: Vec<ManagedEntry> = names
        .iter()
        .enumerate()
        .map(|(index, name)| saved(name, (index as u16 + 1) * 10))
        .collect();
    LoadedSnapshot {
        raw_contents: entries.iter().map(|entry| entry.raw_content.clone()).collect(),
        entries,
        metadata_state: AppState::default(),
    }
}

fn app() -> TuiState {
    TuiState::load(snapshot(&["a", "b", "c"]), false)
}

fn press(app: &mut TuiState, code: KeyCode) -> Request {
    handle_key_event(
        app,
        KeyEvent {
            code,
            control: false,
            alt: false,
        },
    )
}

fn press_control(app: &mut TuiState, ch: char) -> Request {
    handle_key_event(
        app,
        KeyEvent {
            code: KeyCode::Char(ch),
            control: true,
            alt: false,
        },
    )
}

fn type_text(app: &mut TuiState, text: &str) {
    for ch in text.chars() {
        assert_eq!(press(app, KeyCode::Char(ch)), Request::Nothing);
    }
}

fn hosts(app: &TuiState) -> Vec<String> {
    app.entries
        .iter()
        .map(|entry| entry.entry.primary_pattern().to_string())
        .collect()
}

fn backup(label: &str) -> BackupSnapshot {
    BackupSnapshot {
        path: format!("/b/{label}"),
        label: label.to_string(),
        has_root_config: true,
        managed_file_count: 2,
    }
}

#[test]
fn keys_move_the_selection() {
    let mut app = app();
    assert_eq!(app.selected_host().as_deref(), Some("a"));
    press(&mut app, KeyCode::Down);
    assert_eq!(app.selected_host().as_deref(), Some("b"));
    press(&mut app, KeyCode::End);
    assert_eq!(app.selected_host().as_deref(), Some("c"));
    press(&mut app, KeyCode::Char('k'));
    assert_eq!(app.selected_host().as_deref(), Some("b"));
    press(&mut app, KeyCode::Home);
    assert_eq!(app.selected_host().as_deref(), Some("a"));
}

#[test]
fn toggling_twice_changes_nothing() {
    let mut app = app();
    let (pane, view) = (app.pane_focus(), app.detail_mode());
    press(&mut app, KeyCode::Tab);
    press(&mut app, KeyCode::Char('v'));
    assert_ne!(app.pane_focus(), pane);
    assert_ne!(app.detail_mode(), view);
    press(&mut app, KeyCode::Tab);
    press(&mut app, KeyCode::Char('v'));
    assert_eq!(app.pane_focus(), pane);
    assert_eq!(app.detail_mode(), view);
    let mut mode = DetailMode::Raw;
    mode.toggle();
    assert_eq!(mode, DetailMode::Merged);
    let mut focus = PaneFocus::Detail;
    focus.toggle();
    assert_eq!(focus, PaneFocus::HostList);
}

#[test]
fn only_the_normal_mode_is_left_for_good() {
    let mut app = app();
    assert_eq!(press_control(&mut app, 'c'), Request::Quit);
    press(&mut app, KeyCode::Char('/'));
    assert_eq!(press(&mut app, KeyCode::Char('q')), Request::Nothing);
    assert_eq!(app.query, "q");
    press(&mut app, KeyCode::Esc);
    assert_eq!(press(&mut app, KeyCode::Char('q')), Request::Quit);
}

#[test]
fn searching_narrows_the_list() {
    let mut app = app();
    press(&mut app, KeyCode::Char('/'));
    type_text(&mut app, "b.ex");
    assert_eq!(app.filtered_indices(), &[1]);
    press(&mut app, KeyCode::Enter);
    assert_eq!(app.input_mode(), InputMode::Normal);
    assert_eq!(app.selected_host().as_deref(), Some("b"));
    assert_eq!(app.active_filter_summary().as_deref(), Some("/b.ex"));
    press(&mut app, KeyCode::Char('x'));
    assert_eq!(app.filtered_count(), 3);
    assert_eq!(app.selected_host().as_deref(), Some("b"));
}

#[test]
fn an_entry_is_deleted_only_after_a_yes() {
    let mut app = app();
    assert_eq!(press(&mut app, KeyCode::Char('d')), Request::Nothing);
    assert_eq!(app.input_mode(), InputMode::ConfirmDelete);
    assert_eq!(press(&mut app, KeyCode::Char('n')), Request::Nothing);
    assert_eq!(app.input_mode(), InputMode::Normal);
    press(&mut app, KeyCode::Char('d'));
    assert_eq!(press(&mut app, KeyCode::Enter), Request::Delete);
    assert_eq!(app.delete_target().unwrap().entry.primary_pattern(), "a");
    finish_delete(&mut app, Ok(Some("/b/1".to_string())), Ok(snapshot(&["b", "c"])));
    assert_eq!(hosts(&app), vec!["b", "c"]);
    assert_eq!(app.status_message(), Some("Deleted `a` | backup /b/1"));
    assert_eq!(app.input_mode(), InputMode::Normal);
}

#[test]
fn a_move_that_is_given_up_is_undone() {
    let mut app = app();
    press(&mut app, KeyCode::Char('r'));
    assert_eq!(app.input_mode(), InputMode::Reorder);
    press(&mut app, KeyCode::Char('j'));
    press(&mut app, KeyCode::Down);
    assert_eq!(hosts(&app), vec!["b", "c", "a"]);
    assert!(app.reorder_dirty());
    press(&mut app, KeyCode::Esc);
    assert_eq!(hosts(&app), vec!["a", "b", "c"]);
    assert_eq!(app.input_mode(), InputMode::Normal);
}

#[test]
fn a_move_is_saved_with_enter() {
    let mut app = app();
    press(&mut app, KeyCode::Char('r'));
    press(&mut app, KeyCode::Char('j'));
    assert_eq!(app.reorder_host(), Some("a"));
    assert_eq!(press(&mut app, KeyCode::Enter), Request::SaveReorder);
    finish_save_reorder(
        &mut app,
        Ok(("a".to_string(), 20, vec!["/b/1".to_string()])),
        Ok(snapshot(&["b", "a", "c"])),
    );
    assert_eq!(app.status_message(), Some("Moved `a` -> order 20 | backup /b/1"));
    assert_eq!(app.selected_host().as_deref(), Some("a"));
}

#[test]
fn a_form_is_filled_in_and_saved() {
    let mut app = app();
    press(&mut app, KeyCode::Char('a'));
    assert_eq!(app.input_mode(), InputMode::Edit);
    assert!(matches!(app.form_request(), Some(Err(_))));
    type_text(&mut app, "dd");
    press(&mut app, KeyCode::Backspace);
    press(&mut app, KeyCode::Tab);
    type_text(&mut app, "d.example.com");
    match app.form_request() {
        Some(Ok(FormRequest::Create(args))) => {
            assert_eq!(args.host, "d");
            assert_eq!(args.hostname.as_deref(), Some("d.example.com"));
        }
        other => panic!("{other:?}"),
    }
    assert_eq!(press(&mut app, KeyCode::Enter), Request::SaveForm);
    finish_save_form(
        &mut app,
        Ok((vec!["d".to_string()], None)),
        Ok(snapshot(&["a", "b", "c", "d"])),
    );
    assert_eq!(app.selected_host().as_deref(), Some("d"));
    assert_eq!(app.status_message(), Some("Created `d`"));
    assert_eq!(app.input_mode(), InputMode::Normal);
}

#[test]
fn a_refused_save_keeps_the_form() {
    let mut app = app();
    press(&mut app, KeyCode::Char('e'));
    assert_eq!(press(&mut app, KeyCode::Enter), Request::SaveForm);
    finish_save_form(&mut app, Err(ConfigError::of("no")), Ok(snapshot(&["a"])));
    assert_eq!(app.input_mode(), InputMode::Edit);
    assert_eq!(app.status_message(), Some("Save failed: no"));
    assert_eq!(app.entry_count(), 3);
}

#[test]
fn an_untouched_form_changes_nothing() {
    let mut entry = saved("a", 10);
    entry.entry.user = Some("root".to_string());
    entry.entry.identity_files = vec!["~/.ssh/one".to_string(), "~/.ssh/two".to_string()];
    let form = EntryForm::from_entry(&entry, None);
    assert_eq!(form.value(FormField::User), "root");
    let args = form.build_edit_args().unwrap();
    let updated = build_updated_entry(&entry.entry, &args).unwrap();
    assert_eq!(updated.user, entry.entry.user);
    assert_eq!(updated.hostname, entry.entry.hostname);
    assert_eq!(updated.identity_files, entry.entry.identity_files);
    assert_eq!(updated.host_patterns, entry.entry.host_patterns);
    assert_eq!(
        EntryForm::new_create().build_add_args().unwrap_err().message,
        "Host cannot be empty"
    );
    assert_eq!(
        parse_port("70000").unwrap_err().text(),
        "invalid Port `70000`: number too large to fit in target type"
    );
    assert_eq!(parse_port(" 22 "), Ok(Some(22)));
}

#[test]
fn fields_follow_one_another_in_a_ring() {
    let mut field = FormField::Host;
    for _ in 0..17 {
        assert_eq!(field.next().previous(), field);
        field = field.next();
    }
    assert_eq!(field, FormField::Host);
    let mut field = FilterField::Query;
    for _ in 0..4 {
        assert_eq!(field.previous().next(), field);
        field = field.next();
    }
    assert_eq!(field, FilterField::Query);
    let mut form = FilterForm::new("q", "", true, "");
    form.push_char('x');
    assert_eq!(form.display_value(FilterField::Query), "qx");
    form.backspace();
    assert_eq!(form.display_value(FilterField::Query), "q");
    assert_eq!(form.into_parts(), ("q".to_string(), String::new(), true, String::new()));
}

#[test]
fn snapshots_are_listed_and_brought_back() {
    let mut app = app();
    assert_eq!(press(&mut app, KeyCode::Char('b')), Request::ListBackups);
    finish_list_backups(&mut app, Ok(vec![backup("2"), backup("1")]));
    assert_eq!(app.input_mode(), InputMode::BackupCatalog);
    press(&mut app, KeyCode::Char('j'));
    press(&mut app, KeyCode::Enter);
    assert_eq!(app.input_mode(), InputMode::ConfirmRestore);
    assert_eq!(app.pending_restore_snapshot().unwrap().label, "1");
    assert_eq!(press(&mut app, KeyCode::Char('y')), Request::Restore);
    finish_restore(
        &mut app,
        Ok((
            RestoreBackupOutcome {
                restored_snapshot: backup("1"),
                pre_restore_backup_path: Some("/b/3".to_string()),
            },
            AppState::default(),
        )),
        Ok(snapshot(&["z"])),
    );
    assert_eq!(app.input_mode(), InputMode::Normal);
    assert_eq!(
        app.status_message(),
        Some("Restored backup `1` | current state saved to /b/3")
    );
    finish_list_backups(&mut app, Err(ConfigError::of("gone")));
    assert_eq!(app.status_message(), Some("Backups failed: gone"));
}

#[test]
fn reloading_keeps_the_selection() {
    let mut app = app();
    press(&mut app, KeyCode::Down);
    assert_eq!(press_control(&mut app, 'r'), Request::Reload);
    finish_reload(&mut app, Ok(snapshot(&["c", "b"])));
    assert_eq!(app.selected_host().as_deref(), Some("b"));
    assert_eq!(app.status_message(), Some("Reloaded managed entries from disk"));
    finish_reload(&mut app, Err(ConfigError::of("gone")));
    assert_eq!(app.status_message(), Some("Reload failed: gone"));
    assert_eq!(app.entry_count(), 2);
}

#[test]
fn the_detail_shows_the_file_or_the_merged_entry() {
    let mut app = app();
    let facts = MachineFacts {
        local_user: String::new(),
        local_networks: Vec::new(),
        ssh_version: None,
    };
    let raw = app.selected_content(&[], &facts);
    assert_eq!(raw, app.entries[0].raw_content);
    app.toggle_detail_mode();
    let merged = app.selected_content(&[], &facts);
    assert_ne!(merged, raw);
    assert!(merged.contains("a.example.com"));
}

#[test]
fn the_window_shows_the_selected_item() {
    assert_eq!(clamp_window(9, 0, 4, 10), 6);
    assert_eq!(clamp_window(7, 6, 4, 10), 6);
    assert_eq!(clamp_window(0, 6, 4, 10), 0);
    assert_eq!(page_step(5), 4);
    assert_eq!(visible_window(10, 6, 4), Some((6, 10)));
    assert_eq!(visible_window(0, 0, 4), None);
    assert_eq!(offset_index(0, true, 3), None);
    assert_eq!(offset_index(1, false, 3), Some(2));
    let mut items = vec![1, 2, 3, 4];
    move_item(&mut items, 0, 2);
    assert_eq!(items, vec![2, 3, 1, 4]);
    move_item(&mut items, 2, 0);
    assert_eq!(items, vec![1, 2, 3, 4]);
}

#[test]
fn texts_are_fitted_to_their_width() {
    assert_eq!(truncate_text("abcdef", 5), "ab...");
    assert_eq!(truncate_text("abcdef", 6), "abcdef");
    assert_eq!(truncate_text("abcdef", 2), "..");
    assert_eq!(truncate_text("", 0), "");
}

#[test]
fn the_screen_says_where_the_user_is() {
    let mut app = app();
    assert_eq!(header_pairs(&app)[3], ("VISIBLE".to_string(), "3/3".to_string()));
    assert!(list_title(&app).starts_with(" Hosts 3/3 "));
    assert_eq!(
        summary_rows(app.selected_entry().unwrap(), None)[2].1,
        format!("10   kind=host   file={}", app.entries[0].path)
    );
    assert_eq!(footer_legends(&app)[0].label, "NAV");
    press(&mut app, KeyCode::Char('d'));
    assert_eq!(
        status_text(&app),
        "Delete `a`? This removes the managed file and updates metadata."
    );
    let empty = TuiState::load(snapshot(&[]), false);
    assert_eq!(empty_summary(&empty).0, " Quick Start ");
    assert_eq!(empty.selected_host(), None);
}

#[test]
fn reports_are_opened_scrolled_and_closed() {
    let mut app = app();
    let paths = AppPaths::discover("/home/demo", false);
    assert_eq!(press(&mut app, KeyCode::Char('V')), Request::Validate);
    finish_validate(&mut app, Ok(validate::collect_report(&paths, None, &[], None)));
    assert_eq!(app.input_mode(), InputMode::Inspect);
    assert!(app.inspection_report().unwrap().is_alert());
    press(&mut app, KeyCode::Esc);
    assert_eq!(app.input_mode(), InputMode::Normal);
    assert_eq!(press(&mut app, KeyCode::Char('D')), Request::Doctor);
    let probe = OpenSshProbe::discover(Err(ConfigError::of("no client")));
    let report = doctor::collect_report(&paths, None, &[], &AppState::default(), 0, &probe, false);
    finish_doctor(&mut app, Ok(report));
    app.sync_inspection_viewport(6);
    press(&mut app, KeyCode::Char('j'));
    assert_eq!(app.inspection_report().unwrap().scroll(), 1);
    press(&mut app, KeyCode::Char('g'));
    assert_eq!(app.inspection_report().unwrap().scroll(), 0);
    press(&mut app, KeyCode::Char('q'));
    finish_validate(&mut app, Err(ConfigError::of("gone")));
    assert_eq!(app.status_message(), Some("Validate failed: gone"));
    finish_doctor(&mut app, Err(ConfigError::of("gone")));
    assert_eq!(app.status_message(), Some("Doctor failed: gone"));
}

#[test]
fn the_panes_follow_the_size_of_the_screen() {
    let mut app = app();
    app.sync_list_viewport(4);
    press(&mut app, KeyCode::End);
    assert_eq!(app.list_offset(), 2);
    assert_eq!(app.selected_visible_index(), Some(2));
    app.sync_detail_viewport(5, 9);
    app.toggle_pane_focus();
    assert!(app.detail_is_focused());
    press(&mut app, KeyCode::End);
    assert_eq!(app.detail_scroll(), 6);
    assert!(detail_title(&app).ends_with(" | focus:detail"));
    assert!(app.selected_metadata().is_none());
    finish_list_backups(&mut app, Ok(vec![backup("2"), backup("1")]));
    app.sync_backup_catalog_viewport(3);
    press(&mut app, KeyCode::End);
    assert_eq!(app.backup_catalog().unwrap().list_offset(), 1);
}
