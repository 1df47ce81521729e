use sshcfg::commands::cli::MetadataFilterArgs;
use sshcfg::commands::selection::{EntryFilter, filter_entries};
use sshcfg::config::model::{HostEntry, ManagedEntry};
use sshcfg::config::state::{AppState, EntryMetadata};
use sshcfg::config::template::TemplateKind;

fn sample_entry(order: u16, host: &str, hostname: &str, file_name: &str) -> ManagedEntry {
    ManagedEntry {
        order,
        slug: host.to_string(),
        path: file_name.to_string(),
        raw_content: String::new(),
        entry: HostEntry {
            host_patterns: vec![host.to_string()],
            hostname: Some(hostname.to_string()),
            ..HostEntry::default()
        },
    }
}

fn sample_metadata(
    id: &str,
    host: &str,
    order: u16,
    file_name: &str,
    template_source: Option<&str>,
    tags: &[&str],
    note: Option<&str>,
) -> EntryMetadata {
    EntryMetadata {
        id: id.to_string(),
        primary_pattern: host.to_string(),
        host_patterns: vec![host.to_string()],
        order,
        entry_kind: "host".to_string(),
        managed_filename: file_name.to_string(),
        template_source: template_source.map(ToString::to_string),
        tags: tags.iter().map(|tag| tag.to_string()).collect(),
        note: note.map(ToString::to_string),
        created_at: "2026-04-21T00:00:00Z".to_string(),
        updated_at: "2026-04-21T00:00:00Z".to_string(),
        target_os: None,
        remote_user_home: None,
        authorized_keys_path: None,
        ssh_dir_mode: None,
        authorized_keys_mode: None,
    }
}

#[test]
fn query_matches_entry_and_metadata_fields() {
    let entries = vec![
        sample_entry(10, "alpha", "alpha.example.com", "010-host-alpha.conf"),
        sample_entry(20, "beta", "db.internal", "020-host-beta.conf"),
    ];
    let state = AppState {
        version: 1,
        entries: vec![
            sample_metadata(
                "entry-alpha",
                "alpha",
                10,
                "010-host-alpha.conf",
                Some("legacy"),
                &["prod"],
                Some("important edge host"),
            ),
            sample_metadata(
                "entry-beta",
                "beta",
                20,
                "020-host-beta.conf",
                Some("embedded"),
                &["lab"],
                None,
            ),
        ],
    };

    let query_filter = EntryFilter::from_args(&MetadataFilterArgs {
        query: Some("edge".to_string()),
        ..MetadataFilterArgs::default()
    });
    let query_matches = filter_entries(&entries, &state, &query_filter, false);
    assert_eq!(query_matches.len(), 1);
    assert_eq!(query_matches[0].entry.entry.primary_pattern(), "alpha");

    let hostname_filter = EntryFilter::from_args(&MetadataFilterArgs {
        query: Some("db.internal".to_string()),
        ..MetadataFilterArgs::default()
    });
    let hostname_matches = filter_entries(&entries, &state, &hostname_filter, false);
    assert_eq!(hostname_matches.len(), 1);
    assert_eq!(hostname_matches[0].entry.entry.primary_pattern(), "beta");
}

#[test]
fn tag_note_and_template_filters_are_combined() {
    let entries = vec![
        sample_entry(10, "alpha", "alpha.example.com", "010-host-alpha.conf"),
        sample_entry(20, "beta", "beta.example.com", "020-host-beta.conf"),
    ];
    let state = AppState {
        version: 1,
        entries: vec![
            sample_metadata(
                "entry-alpha",
                "alpha",
                10,
                "010-host-alpha.conf",
                Some("legacy"),
                &["prod", "ops"],
                Some("needs migration"),
            ),
            sample_metadata(
                "entry-beta",
                "beta",
                20,
                "020-host-beta.conf",
                Some("embedded"),
                &["prod"],
                None,
            ),
        ],
    };

    let filter = EntryFilter::from_args(&MetadataFilterArgs {
        tags: vec!["prod".to_string(), "ops".to_string()],
        has_note: true,
        template: Some(TemplateKind::Legacy),
        ..MetadataFilterArgs::default()
    });
    let matches = filter_entries(&entries, &state, &filter, false);

    assert_eq!(matches.len(), 1);
    assert_eq!(matches[0].entry.entry.primary_pattern(), "alpha");
}

#[test]
fn from_parts_normalizes_query_tags_and_template() {
    let filter = EntryFilter::from_parts(
        &Some("  Alpha  ".to_string()),
        &vec![
            " Prod ".to_string(),
            "prod".to_string(),
            String::new(),
            "Ops".to_string(),
        ],
        true,
        &Some(" Legacy ".to_string()),
    );

    assert_eq!(filter.query.as_deref(), Some("alpha"));
    assert_eq!(filter.tags, vec!["prod", "ops"]);
    assert!(filter.has_note);
    assert_eq!(filter.template.as_deref(), Some("legacy"));
}
