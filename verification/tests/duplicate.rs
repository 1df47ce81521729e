use sshcfg::commands::cli::DuplicateArgs;
use sshcfg::commands::duplicate::{
    DuplicatePlan, build_duplicate_entry, copy_metadata_from_source, duplicate_managed_entry,
    validate_duplicate_args,
};
use sshcfg::config::model::{HostEntry, ManagedEntry};
use sshcfg::config::state::{
    AppState, EntryMetadata, MetadataUpdate, find_entry_metadata, find_metadata_by_host,
    metadata_update_for_create, upsert_entry,
};
use sshcfg::config::store::{EntryFile, find_entry_by_host, load_managed_entries, save_entry};
use sshcfg::config::template::TemplateKind;

const DIR: &str = "/home/demo/.ssh/config.d";

/// The managed entries and their records, as they would be on disk.
struct Managed {
    entries: Vec<ManagedEntry>,
    state: AppState,
}

impl Managed {
    fn new() -> Managed {
        Managed {
            entries: Vec::new(),
            state: AppState::default(),
        }
    }

    fn save(&mut self, entry: &HostEntry, order: Option<u16>) -> ManagedEntry {
        let files: Vec<String> = self.entries.iter().map(|item| item.path.clone()).collect();
        let saved = save_entry(&self.entries, &files, DIR, entry, order, "\n", false).unwrap();
        self.entries.push(saved.clone());
        saved
    }

    fn record(&mut self, saved: &ManagedEntry, update: &MetadataUpdate) -> EntryMetadata {
        let stamp = format!("1-{}", self.state.entries.len());
        upsert_entry(&mut self.state, saved, None, update, "2026-04-21T00:00:00Z", &stamp, false).unwrap()
    }

    /// Reads the files again.
    fn load(&self) -> Vec<ManagedEntry> {
        let files: Vec<EntryFile> = self
            .entries
            .iter()
            .map(|item| EntryFile {
                path: item.path.clone(),
                content: item.raw_content.clone(),
            })
            .collect();
        load_managed_entries(&files, false).unwrap()
    }
}

/// Copies an entry and its record.
fn duplicate(managed: &mut Managed, args: &DuplicateArgs) -> DuplicatePlan {
    let entries = managed.load();
    let files: Vec<String> = entries.iter().map(|item| item.path.clone()).collect();
    let plan = duplicate_managed_entry(&entries, &files, DIR, args, "\n", false).unwrap();
    managed.entries.push(plan.saved.clone());
    managed.record(&plan.saved, &MetadataUpdate::default());
    let source = find_entry_metadata(&managed.state, &plan.source, false).map(|item| item.clone());
    if let Some(source) = source {
        copy_metadata_from_source(
            &mut managed.state,
            &args.host,
            &source,
            "2026-04-22T00:00:00Z",
        )
        .unwrap();
    }
    plan
}

fn duplicate_args(source: &str, host: &str) -> DuplicateArgs {
    DuplicateArgs {
        source: source.to_string(),
        host: host.to_string(),
        hostname: None,
        keep_hostname: false,
        order: None,
    }
}

fn host_entry(host: &str, hostname: Option<&str>) -> HostEntry {
    HostEntry {
        host_patterns: vec![host.to_string()],
        hostname: hostname.map(ToString::to_string),
        user: Some("root".to_string()),
        port: Some(22),
        proxy_jump: Some("jump-a".to_string()),
        identity_files: vec!["~/.ssh/id_ed25519".to_string()],
        local_forwards: vec!["8080 127.0.0.1:80".to_string()],
        remote_forwards: vec!["9090 127.0.0.1:90".to_string()],
        strict_host_key_checking: Some("no".to_string()),
        tag: Some("ops".to_string()),
        extra_options: vec![("ServerAliveInterval".to_string(), "30".to_string())],
        ..HostEntry::default()
    }
}

#[test]
fn rejects_conflicting_hostname_flags() {
    let mut args = duplicate_args("alpha", "beta");
    args.hostname = Some("10.0.0.2".to_string());
    args.keep_hostname = true;

    let err = validate_duplicate_args(&args).unwrap_err();
    assert!(err.message.contains("--hostname"));
}

#[test]
fn smart_defaults_hostname_for_host_targets() {
    let source = host_entry("alpha", Some("10.0.0.1"));
    let duplicated =
        build_duplicate_entry(&source, &duplicate_args("alpha", "10.0.0.2")).unwrap();

    assert_eq!(duplicated.host_patterns, vec!["10.0.0.2"]);
    assert_eq!(duplicated.hostname.as_deref(), Some("10.0.0.2"));
    assert_eq!(duplicated.user.as_deref(), Some("root"));
}

#[test]
fn alias_duplicate_requires_explicit_hostname_decision() {
    let source = host_entry("alpha", Some("10.0.0.1"));
    let err = build_duplicate_entry(&source, &duplicate_args("alpha", "beta")).unwrap_err();

    assert!(err.message.contains("--hostname or --keep-hostname"));
}

#[test]
fn duplicate_command_copies_entry_and_metadata() {
    let mut managed = Managed::new();

    let source = host_entry("alpha", Some("10.0.0.1"));
    let saved = managed.save(&source, Some(10));
    managed.record(&saved, &metadata_update_for_create(
            Some(TemplateKind::Legacy),
            vec!["Prod".to_string(), "edge".to_string()],
            Some("important".to_string()),
        ));
    let original_metadata = {
        let metadata = &mut managed.state.entries[0];
        metadata.target_os = Some("ubuntu".to_string());
        metadata.remote_user_home = Some("/home/builder".to_string());
        metadata.authorized_keys_path = Some("/home/builder/.ssh/authorized_keys".to_string());
        metadata.ssh_dir_mode = Some("700".to_string());
        metadata.authorized_keys_mode = Some("600".to_string());
        metadata.clone()
    };

    let mut args = duplicate_args("alpha", "beta");
    args.hostname = Some("10.0.0.2".to_string());
    args.order = Some(20);

    let plan = duplicate(&mut managed, &args);
    let entries = managed.load();
    let duplicated = find_entry_by_host(&entries, "beta").unwrap();
    let duplicated_metadata = find_metadata_by_host(&managed.state, "beta").unwrap();

    assert_eq!(plan.saved.order, 20);
    assert_eq!(duplicated.entry.hostname.as_deref(), Some("10.0.0.2"));
    assert_eq!(duplicated.entry.user.as_deref(), Some("root"));
    assert_eq!(duplicated.entry.tag.as_deref(), Some("ops"));
    assert_eq!(
        duplicated.entry.extra_options,
        vec![("ServerAliveInterval".to_string(), "30".to_string())]
    );
    assert_ne!(duplicated_metadata.id, original_metadata.id);
    assert_eq!(
        duplicated_metadata.template_source.as_deref(),
        Some("legacy")
    );
    assert_eq!(duplicated_metadata.tags, vec!["prod", "edge"]);
    assert_eq!(duplicated_metadata.note.as_deref(), Some("important"));
    assert_eq!(duplicated_metadata.target_os.as_deref(), Some("ubuntu"));
    assert_eq!(
        duplicated_metadata.remote_user_home.as_deref(),
        Some("/home/builder")
    );
    assert_eq!(
        duplicated_metadata.authorized_keys_path.as_deref(),
        Some("/home/builder/.ssh/authorized_keys")
    );
    assert_eq!(duplicated_metadata.ssh_dir_mode.as_deref(), Some("700"));
    assert_eq!(
        duplicated_metadata.authorized_keys_mode.as_deref(),
        Some("600")
    );
}

#[test]
fn duplicate_command_can_keep_original_hostname() {
    let mut managed = Managed::new();

    let source = host_entry("alpha", Some("10.0.0.1"));
    let saved = managed.save(&source, Some(10));
    managed.record(&saved, &metadata_update_for_create(None, Vec::new(), None));

    let mut args = duplicate_args("alpha", "beta");
    args.keep_hostname = true;

    duplicate(&mut managed, &args);

    let entries = managed.load();
    let duplicated = find_entry_by_host(&entries, "beta").unwrap();
    assert_eq!(duplicated.entry.hostname.as_deref(), Some("10.0.0.1"));
}
