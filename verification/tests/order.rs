use sshcfg::commands::cli::{MetadataFilterArgs, OrderArgs};
use sshcfg::commands::order::{
    DestinationSpec, build_order_args_with_destination, has_requested_destination,
    reorder_entries, requires_interactive_completion, resolve_targets, validate_order_args,
};
use sshcfg::config::model::{HostEntry, ManagedEntry};
use sshcfg::config::state::{
    AppState, EntryMetadata, MetadataUpdate, metadata_update_for_create, upsert_entry,
};
use sshcfg::config::store::{EntryFile, load_managed_entries, save_entry};
use sshcfg::config::template::TemplateKind;

const DIR: &str = "/home/demo/.ssh/config.d";

/// The managed entries and their records, as they would be on disk.
struct Managed {
    entries: Vec<ManagedEntry>,
    state: AppState,
}

impl Managed {
    fn new() -> Managed {
        Managed {
            entries: Vec::new(),
            state: AppState::default(),
        }
    }

    fn save(&mut self, entry: &HostEntry, order: Option<u16>) -> ManagedEntry {
        let files: Vec<String> = self.entries.iter().map(|item| item.path.clone()).collect();
        let saved = save_entry(&self.entries, &files, DIR, entry, order, "\n", false).unwrap();
        self.entries.push(saved.clone());
        saved
    }

    fn record(&mut self, saved: &ManagedEntry, update: &MetadataUpdate) -> EntryMetadata {
        let stamp = format!("1-{}", self.state.entries.len());
        upsert_entry(&mut self.state, saved, None, update, "2026-04-21T00:00:00Z", &stamp, false).unwrap()
    }

    /// Reads the files again.
    fn load(&self) -> Vec<ManagedEntry> {
        let files: Vec<EntryFile> = self
            .entries
            .iter()
            .map(|item| EntryFile {
                path: item.path.clone(),
                content: item.raw_content.clone(),
            })
            .collect();
        load_managed_entries(&files, false).unwrap()
    }
}

fn sample_entry(order: u16, host: &str) -> ManagedEntry {
    ManagedEntry {
        order,
        slug: host.to_string(),
        path: format!("{order:03}-host-{host}.conf").into(),
        raw_content: String::new(),
        entry: HostEntry {
            host_patterns: vec![host.to_string()],
            hostname: Some(format!("{host}.example.com")),
            ..HostEntry::default()
        },
    }
}

fn sample_host(host: &str, hostname: &str) -> HostEntry {
    HostEntry {
        host_patterns: vec![host.to_string()],
        hostname: Some(hostname.to_string()),
        ..HostEntry::default()
    }
}

fn base_args(host: Option<&str>) -> OrderArgs {
    OrderArgs {
        host: host.map(ToString::to_string),
        all: false,
        filter: MetadataFilterArgs::default(),
        interactive: false,
        before: None,
        after: None,
        first: false,
        last: false,
    }
}

fn selector_args() -> OrderArgs {
    base_args(None)
}

#[test]
fn order_without_destination_uses_interactive_completion() {
    let args = base_args(Some("gamma"));

    assert!(!has_requested_destination(&args));
    assert!(requires_interactive_completion(&args));
}

#[test]
fn explicit_order_destination_skips_interactive_completion() {
    let mut args = base_args(Some("gamma"));
    args.after = Some("beta".to_string());

    assert!(has_requested_destination(&args));
    assert!(!requires_interactive_completion(&args));
}

#[test]
fn builds_args_from_destination_choice() {
    let args = base_args(Some("gamma"));
    let reordered =
        build_order_args_with_destination(&args, &DestinationSpec::Before("alpha".to_string()));

    assert_eq!(reordered.before.as_deref(), Some("alpha"));
    assert!(reordered.after.is_none());
    assert!(!reordered.first);
    assert!(!reordered.last);
    assert!(!reordered.interactive);
}

#[test]
fn order_validation_rejects_host_and_selector_combination() {
    let mut args = base_args(Some("alpha"));
    args.filter.query = Some("prod".to_string());

    let err = validate_order_args(&args).unwrap_err();
    assert!(err.message.contains("cannot combine"));
}

#[test]
fn order_validation_requires_host_or_selector() {
    let args = selector_args();

    let err = validate_order_args(&args).unwrap_err();
    assert!(
        err.message
            .contains("order requires either a host or a selector")
    );
}

#[test]
fn order_resolve_targets_supports_selector_filters() {
    let mut managed = Managed::new();

    let alpha =
        managed.save(&sample_host("alpha", "alpha.example.com"), None);
    let beta =
        managed.save(&sample_host("beta", "beta.example.com"), Some(20));
    managed.record(&alpha, &metadata_update_for_create(
            Some(TemplateKind::Legacy),
            vec!["prod".to_string()],
            None,
        ));
    managed.record(&beta, &metadata_update_for_create(
            Some(TemplateKind::Embedded),
            vec!["lab".to_string()],
            None,
        ));

    let mut args = selector_args();
    args.filter.tags = vec!["prod".to_string()];

    let entries = managed.load();
    let targets = resolve_targets(&entries, &managed.state, &args, false).unwrap();

    assert_eq!(targets.len(), 1);
    assert_eq!(targets[0].entry.primary_pattern(), "alpha");
}

#[test]
fn moves_entry_before_reference() {
    let entries = vec![
        sample_entry(10, "alpha"),
        sample_entry(20, "beta"),
        sample_entry(30, "gamma"),
    ];
    let targets = vec![entries[2].clone()];
    let mut args = base_args(Some("gamma"));
    args.before = Some("alpha".to_string());

    let reordered = reorder_entries(&entries, &targets, &args).unwrap();
    let hosts: Vec<_> = reordered
        .iter()
        .map(|entry| entry.entry.primary_pattern().to_string())
        .collect();

    assert_eq!(hosts, vec!["gamma", "alpha", "beta"]);
}

#[test]
fn moves_selected_entries_before_reference_as_block() {
    let entries = vec![
        sample_entry(10, "alpha"),
        sample_entry(20, "beta"),
        sample_entry(30, "gamma"),
        sample_entry(40, "delta"),
    ];
    let targets = vec![entries[1].clone(), entries[3].clone()];
    let mut args = selector_args();
    args.before = Some("alpha".to_string());

    let reordered = reorder_entries(&entries, &targets, &args).unwrap();
    let hosts: Vec<_> = reordered
        .iter()
        .map(|entry| entry.entry.primary_pattern().to_string())
        .collect();

    assert_eq!(hosts, vec!["beta", "delta", "alpha", "gamma"]);
}

#[test]
fn moves_selected_entries_to_last_position() {
    let entries = vec![
        sample_entry(10, "alpha"),
        sample_entry(20, "beta"),
        sample_entry(30, "gamma"),
        sample_entry(40, "delta"),
    ];
    let targets = vec![entries[0].clone(), entries[2].clone()];
    let mut args = selector_args();
    args.last = true;

    let reordered = reorder_entries(&entries, &targets, &args).unwrap();
    let hosts: Vec<_> = reordered
        .iter()
        .map(|entry| entry.entry.primary_pattern().to_string())
        .collect();

    assert_eq!(hosts, vec!["beta", "delta", "alpha", "gamma"]);
}

#[test]
fn rejects_self_reference() {
    let entries = vec![sample_entry(10, "alpha"), sample_entry(20, "beta")];
    let targets = vec![entries[0].clone()];
    let mut args = base_args(Some("alpha"));
    args.before = Some("alpha".to_string());

    let err = reorder_entries(&entries, &targets, &args).unwrap_err();
    assert!(err.message.contains("before itself"));
}

#[test]
fn rejects_selected_block_reference() {
    let entries = vec![
        sample_entry(10, "alpha"),
        sample_entry(20, "beta"),
        sample_entry(30, "gamma"),
    ];
    let targets = vec![entries[0].clone(), entries[2].clone()];
    let mut args = selector_args();
    args.after = Some("gamma".to_string());

    let err = reorder_entries(&entries, &targets, &args).unwrap_err();
    assert!(err.message.contains("selected entries"));
}

#[test]
fn rejects_missing_destination() {
    let entries = vec![sample_entry(10, "alpha"), sample_entry(20, "beta")];
    let targets = vec![entries[0].clone()];
    let args = base_args(Some("alpha"));

    let err = reorder_entries(&entries, &targets, &args).unwrap_err();
    assert!(err.message.contains("destination"));
}

#[test]
fn resolve_targets_supports_all_selector() {
    let mut managed = Managed::new();

    let alpha =
        managed.save(&sample_host("alpha", "alpha.example.com"), None);
    let beta =
        managed.save(&sample_host("beta", "beta.example.com"), Some(20));
    managed.record(&alpha, &MetadataUpdate::default());
    managed.record(&beta, &MetadataUpdate::default());

    let mut args = selector_args();
    args.all = true;

    let entries = managed.load();
    let targets = resolve_targets(&entries, &managed.state, &args, false).unwrap();

    assert_eq!(targets.len(), 2);
    assert_eq!(targets[0].entry.primary_pattern(), "alpha");
    assert_eq!(targets[1].entry.primary_pattern(), "beta");
}
