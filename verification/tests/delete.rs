use sshcfg::commands::cli::{DeleteArgs, MetadataFilterArgs};
use sshcfg::commands::delete::{
    delete_managed_entries, requires_confirmation_prompt, resolve_targets, validate_delete_args,
};
use sshcfg::commands::steps::{FileStep, delete_steps};
use sshcfg::config::model::{HostEntry, ManagedEntry};
use sshcfg::config::state::{
    AppState, EntryMetadata, MetadataUpdate, metadata_update_for_create, upsert_entry,
};
use sshcfg::config::store::{EntryFile, load_managed_entries, save_entry};
use sshcfg::config::template::TemplateKind;

const DIR: &str = "/home/demo/.ssh/config.d";

/// The managed entries and their records, as they would be on disk.
struct Managed {
    entries: Vec<ManagedEntry>,
    state: AppState,
}

impl Managed {
    fn new() -> Managed {
        Managed {
            entries: Vec::new(),
            state: AppState::default(),
        }
    }

    fn save(&mut self, entry: &HostEntry, order: Option<u16>) -> ManagedEntry {
        let files: Vec<String> = self.entries.iter().map(|item| item.path.clone()).collect();
        let saved = save_entry(&self.entries, &files, DIR, entry, order, "\n", false).unwrap();
        self.entries.push(saved.clone());
        saved
    }

    fn record(&mut self, saved: &ManagedEntry, update: &MetadataUpdate) -> EntryMetadata {
        let stamp = format!("1-{}", self.state.entries.len());
        upsert_entry(&mut self.state, saved, None, update, "2026-04-21T00:00:00Z", &stamp, false).unwrap()
    }

    /// Reads the files again.
    fn load(&self) -> Vec<ManagedEntry> {
        let files: Vec<EntryFile> = self
            .entries
            .iter()
            .map(|item| EntryFile {
                path: item.path.clone(),
                content: item.raw_content.clone(),
            })
            .collect();
        load_managed_entries(&files, false).unwrap()
    }
}

fn sample_host(host: &str, hostname: &str) -> HostEntry {
    HostEntry {
        host_patterns: vec![host.to_string()],
        hostname: Some(hostname.to_string()),
        ..HostEntry::default()
    }
}

fn selector_args() -> DeleteArgs {
    DeleteArgs {
        host: None,
        all: false,
        filter: MetadataFilterArgs::default(),
        yes: false,
    }
}

#[test]
fn delete_without_yes_requires_prompt() {
    let args = DeleteArgs {
        host: Some("alpha".to_string()),
        all: false,
        filter: MetadataFilterArgs::default(),
        yes: false,
    };

    assert!(requires_confirmation_prompt(&args));
}

#[test]
fn delete_with_yes_skips_prompt() {
    let args = DeleteArgs {
        host: Some("alpha".to_string()),
        all: false,
        filter: MetadataFilterArgs::default(),
        yes: true,
    };

    assert!(!requires_confirmation_prompt(&args));
}

#[test]
fn delete_validation_rejects_host_and_selector_combination() {
    let args = DeleteArgs {
        host: Some("alpha".to_string()),
        all: false,
        filter: MetadataFilterArgs {
            query: Some("prod".to_string()),
            ..MetadataFilterArgs::default()
        },
        yes: true,
    };

    let err = validate_delete_args(&args).unwrap_err();
    assert!(err.message.contains("cannot combine"));
}

#[test]
fn delete_validation_requires_host_or_selector() {
    let args = selector_args();

    let err = validate_delete_args(&args).unwrap_err();
    assert!(
        err.message
            .contains("delete requires either a host or a selector")
    );
}

#[test]
fn delete_resolve_targets_supports_selector_filters() {
    let mut managed = Managed::new();

    let alpha =
        managed.save(&sample_host("alpha", "alpha.example.com"), None);
    let beta =
        managed.save(&sample_host("beta", "beta.example.com"), Some(20));
    managed.record(&alpha, &metadata_update_for_create(
            Some(TemplateKind::Legacy),
            vec!["prod".to_string()],
            None,
        ));
    managed.record(&beta, &metadata_update_for_create(
            Some(TemplateKind::Embedded),
            vec!["lab".to_string()],
            None,
        ));

    let args = DeleteArgs {
        host: None,
        all: false,
        filter: MetadataFilterArgs {
            tags: vec!["prod".to_string()],
            ..MetadataFilterArgs::default()
        },
        yes: true,
    };

    let targets = resolve_targets(&managed.load(), &managed.state, &args, false).unwrap();

    assert_eq!(targets.len(), 1);
    assert_eq!(targets[0].entry.primary_pattern(), "alpha");
}

#[test]
fn resolve_targets_supports_delete_all() {
    let mut managed = Managed::new();

    managed.save(&sample_host("alpha", "alpha.example.com"), None);
    managed.save(&sample_host("beta", "beta.example.com"), Some(20));

    let args = DeleteArgs {
        host: None,
        all: true,
        filter: MetadataFilterArgs::default(),
        yes: true,
    };

    let targets = resolve_targets(&managed.load(), &managed.state, &args, false).unwrap();

    assert_eq!(targets.len(), 2);
    assert_eq!(targets[0].entry.primary_pattern(), "alpha");
    assert_eq!(targets[1].entry.primary_pattern(), "beta");
}

#[test]
fn delete_managed_entries_removes_files_and_metadata_in_batch() {
    let mut managed = Managed::new();

    let alpha =
        managed.save(&sample_host("alpha", "alpha.example.com"), None);
    let beta =
        managed.save(&sample_host("beta", "beta.example.com"), Some(20));
    managed.record(&alpha, &MetadataUpdate::default());
    managed.record(&beta, &MetadataUpdate::default());

    let deleted =
        delete_managed_entries(&mut managed.state, &[alpha.clone(), beta.clone()], false).unwrap();

    assert_eq!(deleted.len(), 2);
    assert_eq!(deleted[0].path, alpha.path);
    assert_eq!(deleted[1].path, beta.path);
    assert!(managed.state.entries.is_empty());

    let mut there = vec![alpha.path.clone(), beta.path.clone()];
    let mut backup = None;
    for step in delete_steps(&[alpha.clone(), beta.clone()]) {
        match step {
            FileStep::Snapshot => backup = Some(there.clone()),
            FileStep::Remove(path) => there.retain(|item| item != &path),
            other => panic!("{other:?}"),
        }
    }
    assert!(!there.contains(&alpha.path));
    assert!(!there.contains(&beta.path));
    assert_eq!(backup, Some(vec![alpha.path, beta.path]));
}
