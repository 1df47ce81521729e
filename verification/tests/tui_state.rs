use sshcfg::config::model::{HostEntry, ManagedEntry};
use sshcfg::config::state::AppState;
use sshcfg::config::store::{EntryFile, load_managed_entries, rewrite_entries, save_entry};
use sshcfg::tui::catalog::InspectionReport;
use sshcfg::tui::forms::{EntryForm, FormField};
use sshcfg::tui::state::{LoadedSnapshot, TuiState};
use sshcfg::tui::viewport::{
    format_visible_window, host_list_viewport_items, max_scroll_offset,
};

const DIR: &str = "/home/demo/.ssh/config.d";

/// Reads the files of the entries.
fn load_snapshot(entries: &[ManagedEntry]) -> LoadedSnapshot {
    let files: Vec<EntryFile> = entries
        .iter()
        .map(|item| EntryFile {
            path: item.path.clone(),
            content: item.raw_content.clone(),
        })
        .collect();
    let entries = load_managed_entries(&files, false).unwrap();
    let raw_contents = entries.iter().map(|item| item.raw_content.clone()).collect();
    LoadedSnapshot {
        entries,
        raw_contents,
        metadata_state: AppState::default(),
    }
}

fn save(entries: &mut Vec<ManagedEntry>, entry: &HostEntry, order: Option<u16>) {
    let files: Vec<String> = entries.iter().map(|item| item.path.clone()).collect();
    let saved = save_entry(entries, &files, DIR, entry, order, "\n", false).unwrap();
    entries.push(saved);
}

fn sample_host(host: &str, hostname: &str) -> HostEntry {
    HostEntry {
        host_patterns: vec![host.to_string()],
        hostname: Some(hostname.to_string()),
        ..HostEntry::default()
    }
}

#[test]
fn template_catalog_report_lists_defaults() {
    let report = InspectionReport::from_template_catalog();
    let body = report.body();

    assert_eq!(report.title(), "Templates");
    assert!(body.contains("embedded [available]"));
    assert!(body.contains("legacy [available]"));
    assert!(body.contains("StrictHostKeyChecking no"));
    assert!(body.contains("PubkeyAcceptedAlgorithms +ssh-rsa"));
    assert!(body.contains("vps [placeholder]"));
}

#[test]
fn help_report_mentions_focus_switching() {
    let report = InspectionReport::from_help();
    let body = report.body();

    assert_eq!(report.title(), "Help");
    assert!(body.contains("Tab                 switch focus"));
    assert!(body.contains("Host List Focus"));
    assert!(body.contains("Detail Focus"));
    assert!(body.contains("Ctrl+R              reload managed entries"));
}

#[test]
fn visible_window_summary_uses_human_readable_bounds() {
    assert_eq!(format_visible_window("view", 42, 10, 12), "view 11-22/42");
    assert_eq!(format_visible_window("lines", 0, 0, 20), "lines 0/0");
}

#[test]
fn max_scroll_uses_last_page_instead_of_last_line() {
    assert_eq!(max_scroll_offset(120, 20), 100);
    assert_eq!(max_scroll_offset(8, 20), 0);
}

#[test]
fn inspection_report_scroll_end_respects_viewport_height() {
    let mut report = InspectionReport::from_help();
    report.set_viewport_height(8);
    report.scroll_end();

    assert_eq!(report.scroll(), max_scroll_offset(report.lines.len(), 6));
    assert_eq!(
        report.position_label(),
        format_visible_window("lines", report.lines.len(), report.scroll() as usize, 6)
    );
}

#[test]
fn host_list_viewport_items_tracks_two_line_rows() {
    assert_eq!(host_list_viewport_items(12), 5);
    assert_eq!(host_list_viewport_items(3), 1);
}

#[test]
fn entry_form_build_add_args_carries_ssh_tag() {
    let mut form = EntryForm::new_create();
    form.host = "demo".to_string();
    form.hostname = "demo.example.com".to_string();
    form.ssh_tag = "ops".to_string();

    let args = form.build_add_args().unwrap();
    assert_eq!(args.ssh_tag.as_deref(), Some("ops"));
}

#[test]
fn entry_form_build_edit_args_clears_ssh_tag_when_field_is_empty() {
    let entry = ManagedEntry {
        order: 10,
        slug: "demo".to_string(),
        path: "010-host-demo.conf".into(),
        raw_content: String::new(),
        entry: HostEntry {
            host_patterns: vec!["demo".to_string()],
            hostname: Some("demo.example.com".to_string()),
            tag: Some("ops".to_string()),
            ..HostEntry::default()
        },
    };
    let mut form = EntryForm::from_entry(&entry, None);
    form.active_field = FormField::SshTag;
    form.clear_active_field();

    let args = form.build_edit_args().unwrap();
    assert_eq!(args.ssh_tag, None);
    assert!(args.clear_ssh_tag);
}

#[test]
fn selected_entry_ignores_stale_filtered_indices() {
    let mut state = TuiState::load(load_snapshot(&[]), false);
    state.entries = vec![ManagedEntry {
        order: 10,
        slug: "alpha".to_string(),
        path: "010-host-alpha.conf".into(),
        raw_content: String::new(),
        entry: sample_host("alpha", "alpha.example.com"),
    }];
    state.raw_contents = vec![String::new()];
    state.metadata_state = AppState::default();
    state.filtered_indices = vec![1];
    state.selected_filtered_index = 0;

    assert_eq!(state.selected_entry_index(), None);
    assert!(state.selected_entry().is_none());
}

#[test]
fn reload_preserving_keeps_selected_host_across_reorder() {
    let mut disk: Vec<ManagedEntry> = Vec::new();

    save(&mut disk, &sample_host("alpha", "alpha.example.com"), Some(10));
    save(&mut disk, &sample_host("beta", "beta.example.com"), Some(20));

    let mut state = TuiState::load(load_snapshot(&disk), false);
    state.select_last();
    assert_eq!(state.selected_host().as_deref(), Some("beta"));

    let reordered = state.entries.iter().rev().cloned().collect::<Vec<_>>();
    let rewritten = rewrite_entries(DIR, &reordered, false).unwrap();

    state.reload_preserving(&None, load_snapshot(&rewritten));

    assert_eq!(state.selected_host().as_deref(), Some("beta"));
    assert_eq!(state.selected_visible_index(), Some(0));
}
