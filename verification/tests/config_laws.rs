use sshcfg::config::match_header::RootMatchBlock;
use sshcfg::config::model::{EntryKind, HostEntry, ManagedEntry};
use sshcfg::config::parser::parse_host_entry;
use sshcfg::config::render::{directives, render_host_entry};
use sshcfg::config::resolve::{MachineFacts, resolve_target, resolve_target_with_root_matches};
use sshcfg::config::root_config::extract_match_blocks;
use sshcfg::config::state::{
    AppState, MetadataChange, MetadataUpdate, find_entry_metadata, load_state,
    metadata_update_for_create, normalize_note, normalize_tags, remove_entries, save_state,
    summarize_state, sync_entries, update_metadata_by_host, update_metadata_by_ids, upsert_entry,
};
use sshcfg::config::store::{
    EntryFile, load_managed_entries, next_order, parse_order_and_slug, replace_entry,
    rewrite_entries, save_entry, slugify_host_pattern,
};
use sshcfg::config::template::{TemplateKind, apply_template, parse_cli_name, template_infos};
use sshcfg::config::validate::{collect_entry_issues, validate_entry};

const DIR: &str = "/home/demo/.ssh/config.d";
const NOW: &str = "2026-04-21T00:00:00Z";

fn texts(items: &[&str]) -> Vec<String> {
    items.iter().map(|item| item.to_string()).collect()
}

fn host(name: &str) -> HostEntry {
    HostEntry {
        host_patterns: vec![name.to_string()],
        hostname: Some(format!("{name}.example.com")),
        ..HostEntry::default()
    }
}

fn full_entry() -> HostEntry {
    HostEntry {
        host_patterns: texts(&["alpha", "a-*"]),
        hostname: Some("10.0.0.1".to_string()),
        user: Some("root".to_string()),
        port: Some(2222),
        proxy_jump: Some("jump".to_string()),
        identity_files: texts(&["~/.ssh/one", "~/.ssh/two"]),
        local_forwards: texts(&["8080 127.0.0.1:80"]),
        remote_forwards: texts(&["9090 127.0.0.1:90"]),
        strict_host_key_checking: Some("no".to_string()),
        user_known_hosts_file: Some("/dev/null".to_string()),
        host_key_algorithms: Some("+ssh-rsa".to_string()),
        pubkey_accepted_algorithms: Some("+ssh-rsa".to_string()),
        forward_agent: Some("yes".to_string()),
        tag: Some("ops".to_string()),
        extra_options: vec![("Compression".to_string(), "yes".to_string())],
    }
}

fn saved(name: &str, order: u16) -> ManagedEntry {
    save_entry(&[], &Vec::new(), DIR, &host(name), Some(order), "\n", false).unwrap()
}

fn read(entries: &[ManagedEntry]) -> Vec<ManagedEntry> {
    let files: Vec<EntryFile> = entries
        .iter()
        .map(|entry| EntryFile {
            path: entry.path.clone(),
            content: entry.raw_content.clone(),
        })
        .collect();
    load_managed_entries(&files, false).unwrap()
}

#[test]
fn a_written_entry_is_read_back() {
    let entry = full_entry();
    let text = render_host_entry(&entry, "\n");
    let again = parse_host_entry("x.conf", &text).unwrap();
    assert_eq!(render_host_entry(&again, "\n"), text);
    assert_eq!(directives(&again), directives(&entry));
    assert_eq!(again.host_patterns, entry.host_patterns);
    assert!(text.starts_with("Host alpha a-*\n  HostName 10.0.0.1\n  User root\n  Port 2222\n"));
    let other = parse_host_entry("x.conf", &render_host_entry(&entry, "\r\n")).unwrap();
    assert_eq!(directives(&other), directives(&entry));
}

#[test]
fn a_managed_file_must_hold_one_host_block() {
    let refused = |text: &str| parse_host_entry("x.conf", text).unwrap_err().message;
    assert_eq!(refused("# nothing\n"), "no `Host` block found in x.conf");
    assert!(refused("Host\n").contains("x.conf"));
    assert!(refused("User root\n").contains("expected `Host` as the first directive"));
    assert!(refused("Host a\nHost b\n").contains("multiple `Host` blocks"));
    assert_eq!(
        parse_host_entry("x.conf", "Host a\n  Port no\n").unwrap_err().text(),
        "invalid `Port` value `no` in x.conf: invalid digit found in string"
    );
    assert_eq!(
        extract_match_blocks("Match all\n  Port no\n")[0].unsupported_conditions,
        texts(&["invalid `Port` value `no` in root-match"])
    );
    assert!(refused("Host a\n  User\n").contains("invalid directive in x.conf"));
}

#[test]
fn the_first_value_wins() {
    let mut pattern = host("demo-*");
    pattern.hostname = None;
    pattern.user = Some("builder".to_string());
    pattern.identity_files = texts(&["~/.ssh/shared"]);
    let mut exact = host("demo-1");
    exact.user = Some("root".to_string());
    exact.identity_files = texts(&["~/.ssh/own"]);
    let entries = vec![
        save_entry(&[], &Vec::new(), DIR, &pattern, Some(10), "\n", false).unwrap(),
        save_entry(&[], &Vec::new(), DIR, &exact, Some(20), "\n", false).unwrap(),
    ];

    let resolved = resolve_target(&entries, "demo-1").unwrap();
    assert_eq!(resolved.merged_entry.user.as_deref(), Some("builder"));
    assert_eq!(resolved.merged_entry.hostname.as_deref(), Some("demo-1.example.com"));
    assert_eq!(
        resolved.merged_entry.identity_files,
        texts(&["~/.ssh/shared", "~/.ssh/own"])
    );
    assert_eq!(resolved.ignored_scalar_overrides.len(), 1);
    assert_eq!(resolved.ignored_scalar_overrides[0].key, "User");
    assert_eq!(resolved.ignored_scalar_overrides[0].attempted_value, "root");
    assert_eq!(resolved.ignored_scalar_overrides[0].winning_value, "builder");
    assert_eq!(resolved.matched_entries.len(), 2);
    assert_eq!(resolve_target(&entries, "other").unwrap().matched_entries.len(), 0);
}

#[test]
fn an_entry_that_does_not_match_can_be_left_out() {
    let alone = vec![saved("demo-1", 20)];
    let with = vec![saved("other", 10), alone[0].clone(), saved("demo-2", 30)];
    let one = resolve_target(&alone, "demo-1").unwrap();
    let two = resolve_target(&with, "demo-1").unwrap();
    assert_eq!(one.matched_entries.len(), two.matched_entries.len());
    assert_eq!(directives(&one.merged_entry), directives(&two.merged_entry));
    assert_eq!(one.directive_sources.len(), two.directive_sources.len());
}

#[test]
fn a_block_with_unsupported_conditions_only_adds_a_note() {
    let entries = vec![saved("demo-1", 10)];
    let blocks: Vec<RootMatchBlock> = extract_match_blocks(
        "Include ~/.ssh/config.d/*\nMatch host a\\b/* exec true\n  User ops\n",
    );
    let facts = MachineFacts {
        local_user: "me".to_string(),
        local_networks: Vec::new(),
        ssh_version: None,
    };
    let plain = resolve_target(&entries, "demo-1").unwrap();
    let noted = resolve_target_with_root_matches(&entries, "demo-1", &blocks, &facts).unwrap();
    assert_eq!(directives(&noted.merged_entry), directives(&plain.merged_entry));
    assert_eq!(
        noted.root_match_notes,
        texts(&["root Match lines 2-3 skipped: unsupported conditions exec true"])
    );
    assert!(plain.root_match_notes.is_empty());
}

#[test]
fn a_saved_entry_is_loaded_with_the_others() {
    let old = vec![saved("a", 10), saved("b", 30)];
    let paths: Vec<String> = old.iter().map(|entry| entry.path.clone()).collect();
    let new = save_entry(&old, &paths, DIR, &host("c"), Some(20), "\n", false).unwrap();
    let loaded = read(&[new, old[1].clone(), old[0].clone()]);
    let hosts: Vec<&str> = loaded.iter().map(|entry| entry.entry.primary_pattern()).collect();
    assert_eq!(hosts, vec!["a", "c", "b"]);
}

#[test]
fn each_directive_names_the_entry_that_set_it() {
    let entries = vec![saved("demo-1", 10)];
    let resolved = resolve_target(&entries, "demo-1").unwrap();
    assert_eq!(resolved.directive_sources.len(), 1);
    let source = &resolved.directive_sources[0];
    assert_eq!(source.key, "HostName");
    assert_eq!(source.value, "demo-1.example.com");
    assert_eq!(source.origin.order, 10);
    assert_eq!(source.origin.entry_kind, EntryKind::Host);
    assert_eq!(source.origin.path, entries[0].path);
}

#[test]
fn match_blocks_after_the_entries_only_add() {
    let entries = vec![saved("demo-1", 10)];
    let blocks: Vec<RootMatchBlock> = extract_match_blocks(
        "Include ~/.ssh/config.d/*\nMatch host demo-1.example.com\n  HostName elsewhere\n  User ops\n",
    );
    let facts = MachineFacts {
        local_user: "me".to_string(),
        local_networks: Vec::new(),
        ssh_version: None,
    };
    let resolved =
        resolve_target_with_root_matches(&entries, "demo-1", &blocks, &facts).unwrap();
    assert_eq!(resolved.merged_entry.hostname.as_deref(), Some("demo-1.example.com"));
    assert_eq!(resolved.merged_entry.user.as_deref(), Some("ops"));
}

#[test]
fn entries_are_loaded_in_their_order() {
    let entries = read(&[saved("b", 20), saved("a", 30), saved("c", 10)]);
    let orders: Vec<u16> = entries.iter().map(|entry| entry.order).collect();
    assert_eq!(orders, vec![10, 20, 30]);
    assert_eq!(next_order(&entries), 40);
    assert_eq!(next_order(&[]), 10);
}

#[test]
fn a_file_name_holds_order_and_name() {
    let entry = saved("demo-*", 7);
    assert_eq!(entry.path, format!("{DIR}/007-pattern-demo.conf"));
    assert_eq!(
        parse_order_and_slug("007-pattern-demo.conf").unwrap(),
        (7, entry.slug.clone())
    );
    assert_eq!(slugify_host_pattern("Prod/* host?"), "prod-hostq");
    assert_eq!(slugify_host_pattern("prod-hostq"), "prod-hostq");
    let refused = |name: &str| parse_order_and_slug(name).unwrap_err().message;
    assert_eq!(refused("010-host-a"), "unsupported managed file name `010-host-a`");
    assert_eq!(refused("host.conf"), "invalid order in `host.conf`");
    assert_eq!(
        parse_order_and_slug("70000-host-a.conf").unwrap_err().text(),
        "invalid order in `70000-host-a.conf`: number too large to fit in target type"
    );
    assert_eq!(refused("10.conf"), "missing kind in `10.conf`");
    assert_eq!(refused("10-host.conf"), "missing slug in `10-host.conf`");
}

#[test]
fn a_saved_entry_displaces_nothing() {
    let first = saved("a", 10);
    let files = vec![first.path.clone()];
    let entries = vec![first];
    assert_eq!(
        save_entry(&entries, &files, DIR, &host("b"), Some(10), "\n", false).unwrap_err().message,
        "order 10 is already in use"
    );
    let second = save_entry(&entries, &files, DIR, &host("b"), None, "\n", false).unwrap();
    assert_eq!(second.order, 20);
    let taken = vec![second.path.clone()];
    assert_eq!(
        save_entry(&entries, &taken, DIR, &host("b"), None, "\n", false).unwrap_err().message,
        format!("target file already exists: {}", second.path)
    );
    assert_eq!(
        replace_entry(
            &[entries[0].clone(), second.clone()],
            &taken,
            DIR,
            &second,
            &host("a"),
            None,
            "\n", false
        )
        .unwrap_err()
        .message,
        "managed entry `a` already exists"
    );
}

#[test]
fn rewritten_entries_are_loaded_as_they_stood() {
    let entries = vec![saved("c", 30), saved("a", 10), saved("b", 20)];
    let written = rewrite_entries(DIR, &entries, false).unwrap();
    let orders: Vec<u16> = written.iter().map(|entry| entry.order).collect();
    assert_eq!(orders, vec![10, 20, 30]);
    assert!(written[0].path != written[1].path && written[1].path != written[2].path);
    let hosts: Vec<String> = read(&written)
        .iter()
        .map(|entry| entry.entry.primary_pattern().to_string())
        .collect();
    assert_eq!(hosts, texts(&["c", "a", "b"]));
}

#[test]
fn too_many_entries_cannot_be_rewritten() {
    let one = saved("a", 10);
    let many: Vec<ManagedEntry> = (0..6554).map(|_| one.clone()).collect();
    assert_eq!(
        rewrite_entries(DIR, &many, false).unwrap_err().text(),
        "managed entry order exceeds u16: out of range integral type conversion attempted"
    );
    assert!(rewrite_entries(DIR, &many[..6553], false).is_ok());
}

#[test]
fn templates_are_found_by_their_names_and_keep_what_is_set() {
    for info in template_infos() {
        assert_eq!(parse_cli_name(info.kind.cli_name()), Some(info.kind));
        let mut entry = full_entry();
        apply_template(&mut entry, info.kind);
        assert_eq!(directives(&entry)[..8], directives(&full_entry())[..8]);
        assert_eq!(entry.user.as_deref(), Some("root"));
        assert_eq!(entry.strict_host_key_checking.as_deref(), Some("no"));
    }
    assert_eq!(parse_cli_name("LEGACY "), Some(TemplateKind::Legacy));
    assert_eq!(parse_cli_name("none"), None);
}

#[test]
fn each_fault_of_an_entry_is_told() {
    let mut entry = host("alpha");
    entry.hostname = None;
    entry.port = Some(0);
    entry.identity_files = texts(&[" "]);
    entry.local_forwards = texts(&["8080"]);
    entry.remote_forwards = texts(&["9090 nowhere"]);
    entry.strict_host_key_checking = Some("maybe".to_string());
    entry.forward_agent = Some(" ".to_string());
    entry.tag = Some(String::new());
    entry.extra_options = vec![(String::new(), "x".to_string())];
    let issues = collect_entry_issues(&entry);
    assert_eq!(
        issues,
        texts(&[
            "HostName is required for non-pattern entries",
            "Port must be greater than 0",
            "IdentityFile cannot be empty",
            "LocalForward must contain exactly two tokens: `8080`",
            "RemoteForward has invalid remote endpoint `nowhere`: `9090 nowhere`",
            "StrictHostKeyChecking expects `yes`, `no`, `ask`, `off`, or `accept-new`, got `maybe`",
            "ForwardAgent cannot be empty",
            "Tag cannot be empty",
            "custom directives require non-empty key and value",
        ])
    );
    assert!(validate_entry(&entry).is_err());
    assert!(collect_entry_issues(&full_entry()).is_empty());
    assert_eq!(
        collect_entry_issues(&HostEntry::default())[0],
        "host patterns cannot be empty"
    );
}

#[test]
fn tags_are_clean_after_one_cleaning() {
    let tags = normalize_tags(&texts(&[" Prod", "edge", "prod ", "", "EDGE"]));
    assert_eq!(tags, texts(&["prod", "edge"]));
    assert_eq!(normalize_tags(&tags), tags);
    assert_eq!(normalize_note(&Some("  x ".to_string())), Some("x".to_string()));
    assert_eq!(normalize_note(&Some("  ".to_string())), None);
}

#[test]
fn there_is_one_record_for_each_entry() {
    let entries = vec![saved("a", 10), saved("b", 20)];
    let mut state = AppState::default();
    let update = metadata_update_for_create(
        Some(TemplateKind::Vps),
        texts(&["Prod"]),
        Some(" note ".to_string()),
    );
    let first = upsert_entry(&mut state, &entries[0], None, &update, NOW, "1-2", false).unwrap();
    assert_eq!(first.id, "entry-a-1-2");
    assert_eq!(first.tags, texts(&["prod"]));
    assert_eq!(first.note.as_deref(), Some("note"));
    assert_eq!(first.template_source.as_deref(), Some("vps"));
    assert_eq!(first.managed_filename, "010-host-a.conf");
    let summary = summarize_state(&state, &entries, false);
    assert_eq!(summary.metadata_entry_count, 1);
    assert_eq!(summary.missing_metadata_count, 1);
    assert_eq!(summary.stale_metadata_count, 0);

    let stamps = texts(&["1-3", "1-4"]);
    sync_entries(&mut state, &entries, false, NOW, &stamps, false).unwrap();
    assert_eq!(state.entries.len(), 2);
    assert_eq!(summarize_state(&state, &entries, false).missing_metadata_count, 0);
    assert_eq!(summarize_state(&state, &entries, false).stale_metadata_count, 0);
    assert_eq!(find_entry_metadata(&state, &entries[0], false).unwrap().id, "entry-a-1-2");

    assert_eq!(remove_entries(&mut state, &entries[..1], false), 1);
    assert!(find_entry_metadata(&state, &entries[0], false).is_none());
    assert!(find_entry_metadata(&state, &entries[1], false).is_some());
}

#[test]
fn records_are_saved_in_the_order_of_their_entries() {
    let mut state = AppState {
        version: 0,
        entries: Vec::new(),
    };
    let update = MetadataUpdate::default();
    upsert_entry(&mut state, &saved("b", 20), None, &update, NOW, "1", false).unwrap();
    upsert_entry(&mut state, &saved("a", 10), None, &update, NOW, "2", false).unwrap();
    let written = save_state(&state);
    assert_eq!(written.version, 1);
    let hosts: Vec<&str> = written
        .entries
        .iter()
        .map(|record| record.primary_pattern.as_str())
        .collect();
    assert_eq!(hosts, vec!["a", "b"]);
    assert_eq!(load_state(Some(state)).version, 1);
    assert!(load_state(None).entries.is_empty());
}

#[test]
fn tags_and_notes_are_set_and_taken_out() {
    let mut state = AppState::default();
    let entry = saved("a", 10);
    let update = MetadataUpdate::default();
    let id = upsert_entry(&mut state, &entry, None, &update, NOW, "1", false).unwrap().id;
    let mut change = |changes: Vec<MetadataChange>| {
        update_metadata_by_host(&mut state, "a", &changes, "later").unwrap()
    };
    let record = change(vec![
        MetadataChange::AddTag("prod".to_string()),
        MetadataChange::AddTag("edge".to_string()),
        MetadataChange::AddTag("prod".to_string()),
        MetadataChange::SetNote("x".to_string()),
    ]);
    assert_eq!(record.tags, texts(&["edge", "prod"]));
    assert_eq!(record.note.as_deref(), Some("x"));
    assert_eq!(record.updated_at, "later");
    let record = change(vec![
        MetadataChange::RemoveTag("prod".to_string()),
        MetadataChange::ClearNote,
    ]);
    assert_eq!(record.tags, texts(&["edge"]));
    assert_eq!(record.note, None);
    let none: Vec<String> = Vec::new();
    assert_eq!(change(vec![MetadataChange::ClearTags]).tags, none);

    assert!(update_metadata_by_host(&mut state, "zz", &Vec::new(), NOW).is_err());
    assert!(update_metadata_by_ids(&mut state, &texts(&["zz"]), &Vec::new(), NOW).is_err());
    assert_eq!(
        update_metadata_by_ids(&mut state, &vec![id], &Vec::new(), NOW).unwrap().len(),
        1
    );
}
