use sshcfg::config::model::{HostEntry, ManagedEntry};
use sshcfg::config::state::{
    AppState, EntryMetadata, MetadataChange, MetadataUpdate, find_entry_metadata,
    find_metadata_by_host, metadata_update_for_create, metadata_update_for_edit, remove_entries,
    summarize_state, sync_entries, update_metadata_by_host, update_metadata_by_ids, upsert_entry,
};
use sshcfg::config::template::TemplateKind;

const NOW: &str = "2026-04-21T00:00:00Z";

fn upsert(
    state: &mut AppState,
    saved: &ManagedEntry,
    previous: Option<&ManagedEntry>,
    update: &MetadataUpdate,
) -> EntryMetadata {
    let stamp = format!("1-{}", state.entries.len());
    upsert_entry(state, saved, previous, update, NOW, &stamp, false).unwrap()
}

fn sample_entry(order: u16, host: &str, file_name: &str) -> ManagedEntry {
    ManagedEntry {
        order,
        slug: host.to_string(),
        path: file_name.to_string(),
        raw_content: String::new(),
        entry: HostEntry {
            host_patterns: vec![host.to_string()],
            hostname: Some(format!("{host}.example.com")),
            ..HostEntry::default()
        },
    }
}

#[test]
fn preserves_metadata_id_across_host_rename() {
    let mut state = AppState::default();

    let original = sample_entry(10, "alpha", "010-host-alpha.conf");
    let created = upsert(&mut state, &original, None, &metadata_update_for_create(
            Some(TemplateKind::Legacy),
            vec!["Prod".to_string()],
            Some("important".to_string()),
        ));

    let renamed = sample_entry(20, "beta", "020-host-beta.conf");
    let updated = upsert(&mut state, &renamed, Some(&original), &metadata_update_for_edit(None, None, None));

    assert_eq!(created.id, updated.id);
    assert_eq!(updated.primary_pattern, "beta");
    assert_eq!(updated.template_source.as_deref(), Some("legacy"));
    assert_eq!(updated.tags, vec!["prod"]);
    assert_eq!(updated.note.as_deref(), Some("important"));
}

#[test]
fn sync_entries_removes_stale_metadata() {
    let mut state = AppState::default();

    let alpha = sample_entry(10, "alpha", "010-host-alpha.conf");
    let beta = sample_entry(20, "beta", "020-host-beta.conf");
    upsert(&mut state, &alpha, None, &MetadataUpdate::default());
    upsert(&mut state, &beta, None, &MetadataUpdate::default());

    let stamps = vec!["2-0".to_string()];
    sync_entries(&mut state, std::slice::from_ref(&beta), true, NOW, &stamps, false).unwrap();
    let summary = summarize_state(&state, std::slice::from_ref(&beta), false);

    assert_eq!(state.entries.len(), 1);
    assert_eq!(summary.metadata_entry_count, 1);
    assert_eq!(summary.missing_metadata_count, 0);
    assert_eq!(summary.stale_metadata_count, 0);
    assert!(find_entry_metadata(&state, &beta, false).is_some());
    assert!(find_entry_metadata(&state, &alpha, false).is_none());
}

#[test]
fn remove_entries_can_delete_single_metadata_record() {
    let mut state = AppState::default();

    let alpha = sample_entry(10, "alpha", "010-host-alpha.conf");
    upsert(&mut state, &alpha, None, &MetadataUpdate::default());

    assert_eq!(remove_entries(&mut state, std::slice::from_ref(&alpha), false), 1);
    assert!(state.entries.is_empty());
}

#[test]
fn remove_entries_deletes_multiple_metadata_records() {
    let mut state = AppState::default();

    let alpha = sample_entry(10, "alpha", "010-host-alpha.conf");
    let beta = sample_entry(20, "beta", "020-host-beta.conf");
    upsert(&mut state, &alpha, None, &MetadataUpdate::default());
    upsert(&mut state, &beta, None, &MetadataUpdate::default());

    let removed = remove_entries(&mut state, &[alpha.clone(), beta.clone()], false);

    assert_eq!(removed, 2);
    assert!(state.entries.is_empty());
}

#[test]
fn edit_update_can_replace_tags_and_clear_note() {
    let mut state = AppState::default();

    let alpha = sample_entry(10, "alpha", "010-host-alpha.conf");
    upsert(&mut state, &alpha, None, &metadata_update_for_create(None, vec!["prod".to_string()], Some("initial".to_string())));

    let updated = upsert(&mut state, &alpha, Some(&alpha), &metadata_update_for_edit(
            Some(Some(TemplateKind::Embedded)),
            Some(vec![
                "Ops".to_string(),
                "ops".to_string(),
                "edge".to_string(),
            ]),
            Some(None),
        ));

    assert_eq!(updated.tags, vec!["ops", "edge"]);
    assert_eq!(updated.note, None);
    assert_eq!(updated.template_source.as_deref(), Some("embedded"));
}

#[test]
fn edit_update_can_clear_template_source() {
    let mut state = AppState::default();

    let alpha = sample_entry(10, "alpha", "010-host-alpha.conf");
    upsert(&mut state, &alpha, None, &metadata_update_for_create(Some(TemplateKind::Legacy), Vec::new(), None));

    let updated = upsert(&mut state, &alpha, Some(&alpha), &metadata_update_for_edit(Some(None), None, None));

    assert_eq!(updated.template_source, None);
}

#[test]
fn find_metadata_by_host_matches_aliases() {
    let mut state = AppState::default();

    let mut alpha = sample_entry(10, "alpha", "010-host-alpha.conf");
    alpha.entry.host_patterns = vec!["alpha".to_string(), "alpha-alt".to_string()];
    upsert(&mut state, &alpha, None, &metadata_update_for_create(None, vec!["lab".to_string()], None));

    let found = find_metadata_by_host(&state, "alpha-alt").unwrap();
    assert_eq!(found.primary_pattern, "alpha");
}

#[test]
fn update_metadata_by_host_can_mutate_note_and_tags() {
    let mut state = AppState::default();

    let alpha = sample_entry(10, "alpha", "010-host-alpha.conf");
    upsert(&mut state, &alpha, None, &metadata_update_for_create(None, vec!["lab".to_string()], None));

    let updated = update_metadata_by_host(
        &mut state,
        "alpha",
        &vec![
            MetadataChange::AddTag("ops".to_string()),
            MetadataChange::SetNote("managed".to_string()),
        ],
        NOW,
    )
    .unwrap();

    assert_eq!(updated.tags, vec!["lab", "ops"]);
    assert_eq!(updated.note.as_deref(), Some("managed"));
}

#[test]
fn update_metadata_by_ids_mutates_multiple_records() {
    let mut state = AppState::default();

    let alpha = sample_entry(10, "alpha", "010-host-alpha.conf");
    let beta = sample_entry(20, "beta", "020-host-beta.conf");
    let alpha_metadata = upsert(&mut state, &alpha, None, &metadata_update_for_create(None, vec!["prod".to_string()], None));
    let beta_metadata = upsert(&mut state, &beta, None, &metadata_update_for_create(None, vec!["lab".to_string()], None));

    let updated = update_metadata_by_ids(
        &mut state,
        &vec![alpha_metadata.id.clone(), beta_metadata.id.clone()],
        &vec![MetadataChange::SetNote("bulk-updated".to_string())],
        NOW,
    )
    .unwrap();

    assert_eq!(updated.len(), 2);
    assert!(
        updated
            .iter()
            .all(|metadata| metadata.note.as_deref() == Some("bulk-updated"))
    );
}

#[test]
fn update_metadata_by_ids_errors_for_missing_records() {
    let mut state = AppState::default();

    let alpha = sample_entry(10, "alpha", "010-host-alpha.conf");
    let alpha_metadata = upsert(&mut state, &alpha, None, &MetadataUpdate::default());

    let err = update_metadata_by_ids(
        &mut state,
        &vec![alpha_metadata.id, "missing".to_string()],
        &Vec::new(),
        NOW,
    )
    .unwrap_err();

    assert!(
        err.message
            .contains("failed to update all selected metadata")
    );
}
