use sshcfg::commands::add::{
    AddPrompt, apply_smart_defaults, check_creation, create_managed_entry, looks_like_host_target, next_prompt,
    parse_extras, prompt_question, requires_interactive_completion, should_complete_interactively,
    summary_lines, take_answer,
};
use sshcfg::commands::cli::{
    AddArgs, DeleteArgs, DuplicateArgs, EditArgs, MetaBulkSelectorArgs, MetadataFilterArgs,
    OrderArgs,
};
use sshcfg::commands::compare::{
    SshFindings, compare_scalar_field, compare_vector_subset_field, normalize_algorithm_value,
    normalize_booleanish, normalize_compact_whitespace, normalize_path_like,
    normalize_proxy_jump_value,
};
use sshcfg::commands::delete::{confirmation_lines, delete_managed_entries, validate_delete_args};
use sshcfg::commands::duplicate::{check_copy, copy_metadata_from_source, duplicate_managed_entry};
use sshcfg::commands::edit::{
    EditPrompt, build_interactive_args, build_interactive_seed, build_updated_entry,
    edit_managed_entry, edit_summary_lines, following_prompt, note_update, tags_update,
    template_update, initial_values, question, take_edit_answer,
};
use sshcfg::commands::init::{ensure_initialized, parse_root_config};
use sshcfg::commands::meta::{
    add_tag, bulk_summary_lines, metadata_lines, normalize_tag, remove_tag, select_metadata_ids,
    set_note,
};
use sshcfg::commands::migrate::{
    MigrationEntryReport, SkippedHostBlock, migrated_line, plan_root_migration, skipped_line,
};
use sshcfg::commands::order::{
    DestinationKind, DestinationSpec, apply_reordered_entries, apply_reordered_entries_for_hosts,
    backup_paths, describe_destination, describe_destination_spec, destination_kind_answer,
    merge_backup_paths, prepare_order_args, reference_candidates, reference_host_answer,
    reorder_entries, selected_hosts, sequence_signature, summarize_hosts,
};
use sshcfg::commands::prompt::{confirm_answer, optional_answer, port_answer, split_multi_value};
use sshcfg::commands::selection::{EntryFilter, filter_entry_indices, selection_summary};
use sshcfg::commands::show::{list_lines, show_lines, template_lines};
use sshcfg::commands::ssh_check::{
    exact_target_names, setup_issues, synthetic_ssh_config, wants_targets,
};
use sshcfg::commands::validate::{collect_report, failure_message};
use sshcfg::config::model::{HostEntry, ManagedEntry};
use sshcfg::config::openssh::OpenSshProbe;
use sshcfg::config::render::render_host_entry;
use sshcfg::config::state::{
    AppState, EntryMetadata, MetadataChange, metadata_update_for_create, metadata_update_for_edit,
    upsert_entry,
};
use sshcfg::config::store::save_entry;
use sshcfg::config::template::TemplateKind;
use sshcfg::layout::{AppPaths, managed_block};

const DIR: &str = "/home/demo/.ssh/config.d";
const NOW: &str = "2026-04-21T00:00:00Z";

fn texts(items: &[&str]) -> Vec<String> {
    items.iter().map(|item| item.to_string()).collect()
}

fn host(name: &str) -> HostEntry {
    HostEntry {
        host_patterns: vec![name.to_string()],
        hostname: Some(format!("{name}.example.com")),
        ..HostEntry::default()
    }
}

fn saved(name: &str, order: u16) -> ManagedEntry {
    save_entry(&[], &Vec::new(), DIR, &host(name), Some(order), "\n", false).unwrap()
}

fn three() -> Vec<ManagedEntry> {
    vec![saved("a", 10), saved("b", 20), saved("c", 30)]
}

fn record(state: &mut AppState, entry: &ManagedEntry, tags: &[&str]) -> EntryMetadata {
    let update = metadata_update_for_create(None, texts(tags), None);
    upsert_entry(state, entry, None, &update, NOW, "1", false).unwrap()
}

fn add_args(name: &str) -> AddArgs {
    AddArgs {
        host: name.to_string(),
        interactive: false,
        hostname: None,
        user: None,
        port: None,
        proxy_jump: None,
        identity_files: Vec::new(),
        local_forwards: Vec::new(),
        remote_forwards: Vec::new(),
        strict_host_key_checking: None,
        user_known_hosts_file: None,
        host_key_algorithms: None,
        pubkey_accepted_algorithms: None,
        forward_agent: None,
        ssh_tag: None,
        template: None,
        order: None,
        extras: Vec::new(),
        tags: Vec::new(),
        note: None,
    }
}

fn edit_args(name: &str) -> EditArgs {
    EditArgs {
        host: name.to_string(),
        interactive: false,
        new_host: None,
        hostname: None,
        clear_hostname: false,
        user: None,
        clear_user: false,
        port: None,
        clear_port: false,
        proxy_jump: None,
        clear_proxy_jump: false,
        identity_files: Vec::new(),
        clear_identity_files: false,
        local_forwards: Vec::new(),
        clear_local_forwards: false,
        remote_forwards: Vec::new(),
        clear_remote_forwards: false,
        strict_host_key_checking: None,
        clear_strict_host_key_checking: false,
        user_known_hosts_file: None,
        clear_user_known_hosts_file: false,
        host_key_algorithms: None,
        clear_host_key_algorithms: false,
        pubkey_accepted_algorithms: None,
        clear_pubkey_accepted_algorithms: false,
        forward_agent: None,
        clear_forward_agent: false,
        ssh_tag: None,
        clear_ssh_tag: false,
        template: None,
        clear_template: false,
        order: None,
        extras: Vec::new(),
        clear_extras: false,
        tags: Vec::new(),
        clear_tags: false,
        note: None,
        clear_note: false,
    }
}

fn order_args() -> OrderArgs {
    OrderArgs {
        host: None,
        all: false,
        filter: MetadataFilterArgs::default(),
        interactive: false,
        before: None,
        after: None,
        first: false,
        last: false,
    }
}

#[test]
fn a_created_entry_is_new_and_valid() {
    let entries = three();
    let files: Vec<String> = entries.iter().map(|entry| entry.path.clone()).collect();
    let create = |args: &AddArgs| create_managed_entry(&entries, &files, DIR, args, "\n", false);
    let mut args = add_args("d");
    assert_eq!(
        create(&args).unwrap_err().message,
        "HostName is required for non-pattern entries"
    );
    args.hostname = Some("d.example.com".to_string());
    args.template = Some(TemplateKind::Legacy);
    let made = create(&args).unwrap();
    assert_eq!(made.order, 40);
    assert_eq!(made.path, format!("{DIR}/040-host-d.conf"));
    assert_eq!(made.raw_content, render_host_entry(&made.entry, "\n"));
    args.host = "a".to_string();
    assert_eq!(create(&args).unwrap_err().message, "managed entry `a` already exists");
    args.host = "d".to_string();
    args.order = Some(20);
    assert_eq!(create(&args).unwrap_err().message, "order `20` is already in use");
    args.order = None;
    args.extras = texts(&["Compression"]);
    assert_eq!(
        create(&args).unwrap_err().message,
        "invalid --extra `Compression`, expected KEY=VALUE"
    );

    let full = vec![saved("a", 65530)];
    let mut args = add_args("a");
    args.hostname = Some("a.example.com".to_string());
    assert_eq!(
        create_managed_entry(&full, &Vec::new(), DIR, &args, "\n", false).unwrap_err().message,
        "managed entry `a` already exists"
    );
    assert_eq!(check_creation(&full, &args).unwrap_err().message, "managed entry `a` already exists");
    args.host = "b".to_string();
    assert_eq!(check_creation(&full, &args).unwrap().primary_pattern(), "b");
}

#[test]
fn extras_are_keys_with_values() {
    assert_eq!(
        parse_extras(&texts(&[" A = b=c "])).unwrap(),
        vec![("A".to_string(), "b=c".to_string())]
    );
    assert_eq!(
        parse_extras(&texts(&["A="])).unwrap_err().message,
        "invalid --extra `A=`, expected non-empty KEY=VALUE"
    );
}

#[test]
fn the_questions_for_a_new_entry_follow_one_another() {
    let mut args = add_args("d");
    args.user = Some("root".to_string());
    assert!(requires_interactive_completion(&args));
    assert!(should_complete_interactively(&args, true));
    assert!(!should_complete_interactively(&args, false));
    let mut asked = Vec::new();
    let mut from = 0;
    while let Some((at, prompt)) = next_prompt(&args, from) {
        asked.push(prompt_question(&args, prompt).0);
        let input = match prompt {
            AddPrompt::HostName => "d.example.com\n",
            AddPrompt::Port => {
                assert_eq!(
                    take_answer(&mut args, prompt, "0"),
                    Some("! Port must be a number between 1 and 65535".to_string())
                );
                "2222"
            }
            AddPrompt::Template => {
                assert_eq!(
                    take_answer(&mut args, prompt, "zz"),
                    Some("! Unknown template `zz`".to_string())
                );
                "\n"
            }
            AddPrompt::Tags => "a, b;;c",
            _ => "\n",
        };
        assert_eq!(take_answer(&mut args, prompt, input), None);
        from = at + 1;
    }
    assert_eq!(asked.len(), 7);
    assert_eq!(asked[0], "HostName");
    assert_eq!(args.hostname.as_deref(), Some("d.example.com"));
    assert_eq!(args.port, Some(2222));
    assert_eq!(args.template, None);
    assert_eq!(args.note, None);
    assert_eq!(args.tags, texts(&["a", "b", "c"]));
    assert_eq!(summary_lines(&args)[3], "Port: 2222");
    assert_eq!(summary_lines(&args)[4], "ProxyJump: <empty>");
}

#[test]
fn a_target_is_its_own_host_name() {
    let mut args = add_args("10.0.0.7");
    apply_smart_defaults(&mut args);
    assert_eq!(args.hostname.as_deref(), Some("10.0.0.7"));
    assert!(looks_like_host_target("::1"));
    assert!(looks_like_host_target("a.b"));
    assert!(!looks_like_host_target("server"));
}

#[test]
fn answers_are_read_without_white_space() {
    assert_eq!(optional_answer(" x \n", None), Some("x".to_string()));
    assert_eq!(optional_answer("\n", Some("y")), Some("y".to_string()));
    assert_eq!(optional_answer("\n", Some("")), None);
    assert!(confirm_answer("YES\n", false));
    assert!(confirm_answer("\n", true));
    assert!(!confirm_answer("sure", true));
    assert_eq!(split_multi_value("a,; b"), texts(&["a", "b"]));
    assert_eq!(port_answer("0"), None);
    assert_eq!(port_answer("22"), Some(22));
}

#[test]
fn an_edit_without_changes_is_refused() {
    let entries = three();
    let files: Vec<String> = entries.iter().map(|entry| entry.path.clone()).collect();
    let edit = |args: &EditArgs| edit_managed_entry(&entries, &files, DIR, args, "\n", false);
    assert_eq!(
        edit(&edit_args("a")).unwrap_err().message,
        format!("no changes for: {}", entries[0].path)
    );
    assert_eq!(edit(&edit_args("zz")).unwrap_err().message, "managed entry `zz` not found");
    let mut args = edit_args("a");
    args.new_host = Some("d".to_string());
    args.user = Some("root".to_string());
    let plan = edit(&args).unwrap();
    assert_eq!(plan.current.path, entries[0].path);
    assert_eq!(plan.saved.path, format!("{DIR}/010-host-d.conf"));
    assert_eq!(plan.saved.entry.user.as_deref(), Some("root"));
    args.clear_user = true;
    assert_eq!(edit(&args).unwrap_err().message, "cannot use --user with --clear-user");
    args = edit_args("a");
    args.order = Some(20);
    assert_eq!(
        edit(&args).unwrap_err().text(),
        "failed to update managed SSH entry: order 20 is already in use"
    );
    args = edit_args("a");
    args.clear_hostname = true;
    assert_eq!(
        edit(&args).unwrap_err().message,
        "HostName is required for non-pattern entries"
    );
}

#[test]
fn an_edit_of_the_record_alone_leaves_the_entry() {
    let entries = three();
    let files: Vec<String> = entries.iter().map(|entry| entry.path.clone()).collect();
    let mut state = AppState::default();
    let update = metadata_update_for_create(
        Some(TemplateKind::Legacy),
        texts(&["prod"]),
        Some("note".to_string()),
    );
    let before = upsert_entry(&mut state, &entries[0], None, &update, NOW, "1", false).unwrap();

    let mut args = edit_args("a");
    args.clear_template = true;
    let plan = edit_managed_entry(&entries, &files, DIR, &args, "\n", false).unwrap();
    assert_eq!(plan.saved.path, plan.current.path);
    assert_eq!(plan.saved.order, 10);
    assert_eq!(plan.saved.raw_content, entries[0].raw_content);

    let update = metadata_update_for_edit(
        template_update(&args),
        tags_update(&args),
        note_update(&args),
    );
    let after = upsert_entry(
        &mut state,
        &plan.saved,
        Some(&plan.current),
        &update,
        "later",
        "2",
        false,
    )
    .unwrap();
    assert_eq!(after.template_source, None);
    assert_eq!(after.id, before.id);
    assert_eq!(after.tags, before.tags);
    assert_eq!(after.note, before.note);

    let mut args = edit_args("a");
    args.tags = texts(&["edge"]);
    assert!(edit_managed_entry(&entries, &files, DIR, &args, "\n", false).is_ok());
    let mut args = edit_args("a");
    args.clear_note = true;
    assert!(edit_managed_entry(&entries, &files, DIR, &args, "\n", false).is_ok());
}

#[test]
fn shared_orders_and_a_second_anchor_are_issues() {
    let paths = AppPaths::discover("/home/demo", false);
    let root = managed_block("\n");
    let mut entries = vec![saved("a", 10), saved("b", 10), saved("c", 20), saved("d", 10)];
    let report = collect_report(&paths, Some(&root), &entries, None);
    assert_eq!(
        report.issues,
        texts(&["order 10 is used by more than one managed entry"])
    );
    entries.truncate(1);
    assert!(collect_report(&paths, Some(&root), &entries, None).is_ok());
    let twice = format!("{root}Host x\n  User y\n{root}");
    let report = collect_report(&paths, Some(&twice), &entries, None);
    assert_eq!(
        report.issues,
        texts(&["root config contains multiple include anchors: /home/demo/.ssh/config"])
    );
}

#[test]
fn answers_to_an_edit_are_taken() {
    let entry = saved("a", 10);
    let args = edit_args("a");
    let seed = build_interactive_seed(&entry, None, &args).unwrap();
    let mut values = initial_values(&seed);
    let mut last = None;
    let mut count = 0;
    while let Some(prompt) = following_prompt(last) {
        if prompt == EditPrompt::Port {
            assert!(take_edit_answer(&mut values, prompt, "x").is_some());
        }
        if prompt == EditPrompt::HostName {
            assert_eq!(
                question(&values, prompt),
                (
                    "HostName [Enter keeps, - clears]".to_string(),
                    "a.example.com".to_string()
                )
            );
        }
        let input = match prompt {
            EditPrompt::User => "ops",
            EditPrompt::Port => "2222",
            _ => "",
        };
        assert_eq!(take_edit_answer(&mut values, prompt, input), None);
        last = Some(prompt);
        count += 1;
    }
    assert_eq!(count, 9);
    assert_eq!(edit_summary_lines(&seed, &values)[2], "User: ops");
    let asked = build_interactive_args(&args, &entry, None, &values);
    let updated = build_updated_entry(&entry.entry, &asked).unwrap();
    assert_eq!(updated.user.as_deref(), Some("ops"));
    assert_eq!(updated.port, Some(2222));
    assert_eq!(updated.hostname, entry.entry.hostname);
}

#[test]
fn a_copy_differs_in_its_name_only() {
    let mut source = host("10.0.0.1");
    source.hostname = Some("10.0.0.1".to_string());
    source.user = Some("root".to_string());
    let entries = vec![save_entry(&[], &Vec::new(), DIR, &source, Some(10), "\n", false).unwrap()];
    let files = vec![entries[0].path.clone()];
    let mut args = DuplicateArgs {
        source: "10.0.0.1".to_string(),
        host: "10.0.0.2".to_string(),
        hostname: None,
        keep_hostname: false,
        order: None,
    };
    let copy = |args: &DuplicateArgs| duplicate_managed_entry(&entries, &files, DIR, args, "\n", false);
    let plan = copy(&args).unwrap();
    assert_eq!(plan.saved.entry.user.as_deref(), Some("root"));
    assert_eq!(plan.saved.entry.hostname.as_deref(), Some("10.0.0.2"));
    assert_eq!(plan.saved.order, 20);
    args.order = Some(10);
    assert_eq!(copy(&args).unwrap_err().message, "order 10 is already in use");
    assert_eq!(check_copy(&entries, &args).unwrap_err().message, "order 10 is already in use");
    args.host = "10.0.0.1".to_string();
    assert_eq!(
        copy(&args).unwrap_err().message,
        "duplicate target must differ from source `10.0.0.1`"
    );
    args.hostname = Some("x".to_string());
    args.keep_hostname = true;
    assert_eq!(
        copy(&args).unwrap_err().message,
        "cannot use --hostname with --keep-hostname"
    );

    let mut state = AppState::default();
    let first = record(&mut state, &entries[0], &["prod"]);
    record(&mut state, &plan.saved, &[]);
    let copied = copy_metadata_from_source(&mut state, "10.0.0.2", &first, "later").unwrap();
    assert_eq!(copied.tags, texts(&["prod"]));
    assert_eq!(copied.primary_pattern, "10.0.0.2");
}

#[test]
fn moving_entries_keeps_them_all_and_their_order() {
    let entries = three();
    let targets = vec![entries[2].clone(), entries[0].clone()];
    let mut args = order_args();
    args.after = Some("b".to_string());
    let moved = reorder_entries(&entries, &targets, &args).unwrap();
    assert_eq!(selected_hosts(&moved), texts(&["b", "a", "c"]));
    assert_ne!(sequence_signature(&moved), sequence_signature(&entries));
    args.after = Some("a".to_string());
    assert_eq!(
        reorder_entries(&entries, &targets, &args).unwrap_err().message,
        "cannot move selected entries after themselves"
    );
    assert_eq!(
        reorder_entries(&entries, &targets[..1], &order_args()).unwrap_err().message,
        "order destination is required before reordering"
    );
    assert_eq!(
        reorder_entries(&entries, &[], &args).unwrap_err().message,
        "no managed entries selected for reorder"
    );
    args.after = Some("zz".to_string());
    assert_eq!(
        reorder_entries(&entries, &targets, &args).unwrap_err().message,
        "reference entry `zz` not found"
    );
}

#[test]
fn a_destination_is_asked_for_at_a_terminal() {
    let mut args = order_args();
    assert_eq!(prepare_order_args(&args, true), Ok(true));
    assert_eq!(
        prepare_order_args(&args, false).unwrap_err().message,
        "order destination is required unless you run this command in a terminal"
    );
    args.first = true;
    assert_eq!(prepare_order_args(&args, false), Ok(false));
    assert_eq!(describe_destination(&args), "first");
    args.interactive = true;
    assert_eq!(
        prepare_order_args(&args, false).unwrap_err().message,
        "--interactive requires a terminal"
    );
    assert_eq!(describe_destination(&order_args()), "unknown");
    assert_eq!(
        describe_destination_spec(&DestinationSpec::Before("x".to_string())),
        "before `x`"
    );
    assert_eq!(DestinationSpec::After("x".to_string()).reference_host(), Some("x"));
    assert_eq!(DestinationSpec::Last.reference_host(), None);
    assert_eq!(destination_kind_answer("B\n", None), Ok(DestinationKind::Before));
    assert_eq!(
        destination_kind_answer("", Some(DestinationKind::Last)),
        Ok(DestinationKind::Last)
    );
    assert_eq!(
        destination_kind_answer("up", None),
        Err("! Unknown destination `up`".to_string())
    );
    let entries = three();
    assert_eq!(
        reference_candidates(&entries, &entries[..1], "after").unwrap(),
        texts(&["b", "c"])
    );
    assert_eq!(
        reference_candidates(&entries[..1], &entries[..1], "after").unwrap_err().message,
        "no reference entries available to move `a` after"
    );
    let answer = |input: &str| {
        reference_host_answer(input, None, &texts(&["a"]), &texts(&["b"]), "after")
    };
    assert_eq!(answer(" b"), Ok("b".to_string()));
    assert_eq!(answer(""), Err("! Enter a reference host".to_string()));
    assert_eq!(answer("a"), Err("! Cannot move `a` after itself".to_string()));
    assert_eq!(answer("q"), Err("! Reference host `q` not found".to_string()));
}

#[test]
fn what_was_moved_is_told_with_its_record() {
    let entries = three();
    let mut state = AppState::default();
    for entry in &entries {
        record(&mut state, entry, &[]);
    }
    let moved =
        apply_reordered_entries_for_hosts(&entries, &state, &texts(&["c", "a"]), false).unwrap();
    assert_eq!(moved[0].host, "a");
    assert_eq!(moved[1].order, 30);
    assert_eq!(apply_reordered_entries(&entries, &state, "b", false).unwrap().metadata_id, "entry-b-1");
    assert_eq!(
        apply_reordered_entries(&entries, &state, "zz", false).unwrap_err().message,
        "managed entry `zz` disappeared after reorder"
    );
    assert_eq!(
        apply_reordered_entries(&entries, &AppState::default(), "a", false).unwrap_err().message,
        "state metadata for reordered entry is missing"
    );
    assert_eq!(summarize_hosts(&texts(&["a", "b", "c"]), 2), "a, b, ... and 1 more");
    let one = Some("x".to_string());
    assert_eq!(backup_paths(&one, &one), texts(&["x"]));
    assert_eq!(merge_backup_paths(&one, &texts(&["y"])), texts(&["x", "y"]));
}

#[test]
fn deleted_entries_leave_no_record() {
    let entries = three();
    let mut state = AppState::default();
    for entry in &entries {
        record(&mut state, entry, &[]);
    }
    let deleted = delete_managed_entries(&mut state, &entries[..2], false).unwrap();
    assert_eq!(deleted[1].host, "b");
    assert_eq!(state.entries.len(), 1);
    assert_eq!(
        delete_managed_entries(&mut state, &[], false).unwrap_err().message,
        "no managed entries selected for delete"
    );
    let lines = confirmation_lines(&entries[..1], &None);
    assert_eq!(lines[2], "Host: a");
    assert_eq!(confirmation_lines(&entries, &Some("x".to_string()))[3], "Selector: x");
    let args = DeleteArgs {
        host: Some(" ".to_string()),
        all: false,
        filter: MetadataFilterArgs::default(),
        yes: false,
    };
    assert_eq!(validate_delete_args(&args).unwrap_err().message, "host cannot be empty");
}

#[test]
fn a_filter_without_parts_passes_all() {
    let entries = three();
    let mut state = AppState::default();
    record(&mut state, &entries[1], &["prod"]);
    let none = EntryFilter::from_args(&MetadataFilterArgs::default());
    assert!(none.is_empty());
    assert_eq!(filter_entry_indices(&entries, &state, &none, false), vec![0, 1, 2]);
    let mut args = MetadataFilterArgs::default();
    args.tags = texts(&["PROD"]);
    let prod = EntryFilter::from_args(&args);
    assert_eq!(filter_entry_indices(&entries, &state, &prod, false), vec![1]);
    assert_eq!(selection_summary(&None, false, &args), Some("tags=PROD".to_string()));
    assert_eq!(
        selection_summary(&None, true, &MetadataFilterArgs::default()),
        Some("all managed entries".to_string())
    );
    assert_eq!(selection_summary(&Some("a".to_string()), false, &args), None);
}

#[test]
fn records_are_picked_and_changed_together() {
    let entries = three();
    let mut state = AppState::default();
    record(&mut state, &entries[0], &["prod"]);
    let mut selector = MetaBulkSelectorArgs {
        all: false,
        filter: MetadataFilterArgs::default(),
    };
    let pick = |selector: &MetaBulkSelectorArgs| select_metadata_ids(&entries, &state, selector, false);
    assert!(pick(&selector).unwrap_err().message.starts_with("bulk selection requires"));
    selector.all = true;
    assert_eq!(
        pick(&selector).unwrap_err().message,
        "selected managed entries are missing metadata: b, c"
    );
    selector.filter.tags = texts(&["prod"]);
    assert_eq!(pick(&selector).unwrap(), texts(&["entry-a-1"]));
    selector.filter.tags = texts(&["zz"]);
    assert_eq!(
        pick(&selector).unwrap_err().message,
        "no managed entries matched the provided selector"
    );
    assert_eq!(normalize_tag(" Prod ").unwrap(), "prod");
    assert_eq!(normalize_tag(" ").unwrap_err().message, "tag cannot be empty");
    assert_eq!(set_note(" ").unwrap_err().message, "note cannot be empty");
    assert!(matches!(set_note(" x ").unwrap(), MetadataChange::SetNote(note) if note == "x"));
    assert!(matches!(add_tag("A").unwrap(), MetadataChange::AddTag(tag) if tag == "a"));
    assert!(matches!(remove_tag("A").unwrap(), MetadataChange::RemoveTag(tag) if tag == "a"));
    assert_eq!(metadata_lines(&state.entries[0])[7], "tags: prod");
    assert_eq!(
        bulk_summary_lines("changed 1", &state.entries),
        texts(&["changed 1 managed entry", "  - a"])
    );
}

#[test]
fn setting_up_twice_writes_nothing() {
    for before in ["", "ServerAliveInterval 30", "Host a\n  User root\n", "Match all\n  User x\n"] {
        let (written, report) = ensure_initialized(before, false).unwrap();
        let root = written.unwrap();
        assert!(report.include_written);
        assert!(root.contains(before));
        let (again, report) = ensure_initialized(&root, false).unwrap();
        assert_eq!(again, None);
        assert!(report.include_already_present);
        let checked = collect_report(&AppPaths::discover("/home/demo", false), Some(&root), &[], None);
        assert!(checked.is_ok());
    }
}

#[test]
fn more_than_one_anchor_is_refused() {
    let twice = format!("{}{}", managed_block("\n"), managed_block("\n"));
    assert_eq!(
        ensure_initialized(&twice, false).unwrap_err().message,
        "root config contains multiple include anchors; initialization is not safe"
    );
    assert_eq!(
        plan_root_migration(&twice, &[], "\n").unwrap_err().message,
        "root config contains multiple include anchors; migration is not safe"
    );
    assert_eq!(
        parse_root_config("# >>> sshcfg managed include >>>\n").unwrap_err().message,
        "managed include block is not closed"
    );
}

#[test]
fn moved_blocks_are_told_of_line_by_line() {
    let plan = plan_root_migration("Host a\n  HostName x\nHost b\n  User y\n", &[], "\n").unwrap();
    assert_eq!(plan.attempted_blocks, 2);
    assert_eq!(plan.migrated_blocks, 1);
    assert_eq!(plan.skipped_blocks.len(), 1);
    assert_eq!(plan.ordered_entries[0].raw_content, "Host a\n  HostName x\n");
    assert_eq!(
        plan.rewritten_root,
        format!("{}Host b\n  User y\n", managed_block("\n"))
    );
    let known = vec![saved("a", 10)];
    let plan = plan_root_migration("Host a\n  HostName x\n", &known, "\n").unwrap();
    assert_eq!(plan.migrated_blocks, 0);
    assert_eq!(
        migrated_line(&MigrationEntryReport {
            host: "a".to_string(),
            host_patterns: texts(&["a", "b"]),
            kind: "host".to_string(),
            source_start_line: 1,
            source_end_line: 2,
            order: 10,
            managed_path: "/d/x".to_string(),
        }),
        "migrated lines 1-2 `a` [host] -> 010 /d/x | patterns a,b"
    );
    assert_eq!(
        skipped_line(&SkippedHostBlock {
            host: "a".to_string(),
            reason: "no".to_string(),
            source_start_line: 1,
            source_end_line: 2,
        }),
        "skipped lines 1-2 `a`: no"
    );
}

#[test]
fn values_are_put_in_form_once() {
    assert_eq!(normalize_compact_whitespace(" a \t b "), "a b");
    assert_eq!(normalize_compact_whitespace("a b"), "a b");
    assert_eq!(normalize_booleanish("TRUE"), normalize_booleanish("yes"));
    assert_eq!(normalize_proxy_jump_value("none"), None);
    assert_eq!(normalize_proxy_jump_value(" jump "), Some("jump".to_string()));
    assert_eq!(normalize_path_like("~/.ssh/id", "/home/demo", false), "/home/demo/.ssh/id");
    assert_eq!(normalize_path_like("~\\.ssh\\ID", "C:/Users/Demo", true), "c:/users/demo/.ssh/id");
    let from = |value: &str, home: &str| normalize_path_like(value, home, true);
    assert_eq!(from("~/\\\\srv\\share\\id", "C:/Users/demo"), "//srv/share/id");
    assert_eq!(from("~/D:/id", "C:/Users/demo"), "d:/id");
    assert_eq!(from("~/\\keys\\id", "C:\\Users\\demo"), "c:/keys/id");
    assert_eq!(from("~/\\keys\\id", "\\\\srv\\homes\\demo"), "//srv/homes/keys/id");
    assert_eq!(from("~/keys/../id", "\\\\?\\C:\\demo"), "//?/c:/demo/id");
    assert_eq!(normalize_path_like("~//keys/id", "/home/demo", false), "/keys/id");
    assert_eq!(normalize_algorithm_value("+a, b"), "+a,b");
}

#[test]
fn each_mismatch_is_counted_once() {
    let mut found = SshFindings {
        issues: Vec::new(),
        root_match_influenced: 0,
        root_influenced: 0,
        managed_semantic: 0,
        unclassified: 0,
    };
    let some = |text: &str| Some(text.to_string());
    compare_scalar_field(&mut found, "a", "User", &some("x"), &some("x"), &None, &None);
    assert!(found.issues.is_empty());
    compare_scalar_field(&mut found, "a", "User", &some("x"), &some("y"), &None, &None);
    assert_eq!(found.unclassified, 1);
    compare_scalar_field(&mut found, "a", "User", &some("x"), &some("y"), &some("y"), &None);
    assert_eq!(found.managed_semantic, 1);
    compare_scalar_field(&mut found, "a", "User", &some("x"), &some("y"), &some("x"), &None);
    assert_eq!(found.root_influenced, 1);
    compare_scalar_field(&mut found, "a", "User", &some("x"), &some("y"), &some("x"), &some("y"));
    assert_eq!(found.root_match_influenced, 1);
    assert_eq!(found.issues.len(), 4);
    let wanted = texts(&["one"]);
    let there = texts(&["two", "one"]);
    compare_vector_subset_field(&mut found, "a", "IdentityFile", &wanted, &there, &None, &None);
    assert_eq!(found.issues.len(), 4);
    compare_vector_subset_field(&mut found, "a", "IdentityFile", &there, &wanted, &None, &None);
    assert_eq!(found.issues.len(), 5);
}

#[test]
fn the_client_is_asked_where_there_is_something_to_ask() {
    let entries = vec![saved("a", 10), saved("x-*", 20)];
    let probe = OpenSshProbe::discover(Ok("OpenSSH_9.6p1".to_string()));
    assert!(wants_targets(&probe, &entries, true));
    assert!(!wants_targets(&probe, &entries, false));
    assert!(!wants_targets(&probe, &entries[1..], true));
    assert_eq!(exact_target_names(&entries), texts(&["a"]));
    assert_eq!(
        synthetic_ssh_config(&entries[..1], &[], "\n"),
        format!("{}\n", render_host_entry(&entries[0].entry, "\n"))
    );
    assert!(setup_issues(&None, &None, &None).is_empty());
    assert_eq!(
        setup_issues(&None, &Some("disk full".to_string()), &None),
        texts(&["failed to prepare synthetic managed-only config for ssh -G attribution: disk full"])
    );
}

#[test]
fn a_report_with_issues_fails() {
    let report = collect_report(&AppPaths::discover("/home/demo", false), None, &[], None);
    assert!(!report.is_ok());
    assert_eq!(
        failure_message(&report),
        format!("validation failed with {} issue(s)", report.issues.len())
    );
}

#[test]
fn entries_are_listed_in_columns() {
    let entries = three();
    let mut state = AppState::default();
    record(&mut state, &entries[0], &["prod"]);
    let mut args = sshcfg::commands::cli::ListArgs {
        filter: MetadataFilterArgs::default(),
    };
    let lines = list_lines(&entries, &state, &args, false);
    assert_eq!(lines.len(), 4);
    assert_eq!(
        lines[0],
        format!("{:<6} {:<8} {:<24} {:<24} {:<16} NOTE", "ORDER", "TYPE", "HOST", "HOSTNAME", "TAGS")
    );
    assert_eq!(
        lines[1],
        format!("{:<6} {:<8} {:<24} {:<24} {:<16} -", 10, "host", "a", "a.example.com", "prod")
    );
    args.filter.query = Some("nothing".to_string());
    assert_eq!(list_lines(&entries, &state, &args, false), texts(&["no managed entries found"]));
    assert_eq!(show_lines(&entries, &state, "a", false).unwrap()[0], "order: 10");
    assert_eq!(
        show_lines(&entries, &state, "zz", false).unwrap_err().message,
        "managed entry `zz` not found"
    );
    assert_eq!(template_lines().len(), 6);
}
