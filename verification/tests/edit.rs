use sshcfg::commands::cli::EditArgs;
use sshcfg::commands::edit::{
    InteractiveEditValues, build_interactive_args, build_interactive_seed, build_updated_entry,
    has_requested_changes, requires_interactive_completion,
};
use sshcfg::config::model::{HostEntry, ManagedEntry};
use sshcfg::config::template::TemplateKind;

fn base_args(host: &str) -> EditArgs {
    EditArgs {
        host: host.to_string(),
        interactive: false,
        new_host: None,
        hostname: None,
        clear_hostname: false,
        user: None,
        clear_user: false,
        port: None,
        clear_port: false,
        proxy_jump: None,
        clear_proxy_jump: false,
        identity_files: Vec::new(),
        clear_identity_files: false,
        local_forwards: Vec::new(),
        clear_local_forwards: false,
        remote_forwards: Vec::new(),
        clear_remote_forwards: false,
        strict_host_key_checking: None,
        clear_strict_host_key_checking: false,
        user_known_hosts_file: None,
        clear_user_known_hosts_file: false,
        host_key_algorithms: None,
        clear_host_key_algorithms: false,
        pubkey_accepted_algorithms: None,
        clear_pubkey_accepted_algorithms: false,
        forward_agent: None,
        clear_forward_agent: false,
        ssh_tag: None,
        clear_ssh_tag: false,
        template: None,
        clear_template: false,
        order: None,
        extras: Vec::new(),
        clear_extras: false,
        tags: Vec::new(),
        clear_tags: false,
        note: None,
        clear_note: false,
    }
}

#[test]
fn edits_selected_fields_without_clobbering_others() {
    let current = HostEntry {
        host_patterns: vec!["bs-215".to_string()],
        hostname: Some("172.16.0.215".to_string()),
        user: Some("root".to_string()),
        tag: Some("legacy".to_string()),
        identity_files: vec!["~/.ssh/id_ed25519".to_string()],
        ..HostEntry::default()
    };
    let mut args = base_args("bs-215");
    args.new_host = Some("bs-216".to_string());
    args.hostname = Some("172.16.0.216".to_string());
    args.clear_user = true;
    args.ssh_tag = Some("ops".to_string());
    args.identity_files = vec!["~/.ssh/id_builder".to_string()];
    args.remote_forwards = vec!["9090 127.0.0.1:90".to_string()];
    args.template = Some(TemplateKind::Legacy);
    args.extras = vec!["ServerAliveInterval=30".to_string()];
    args.tags = vec!["Prod".to_string()];
    args.note = Some("builder".to_string());

    let updated = build_updated_entry(&current, &args).unwrap();

    assert_eq!(updated.host_patterns, vec!["bs-216"]);
    assert_eq!(updated.hostname.as_deref(), Some("172.16.0.216"));
    assert_eq!(updated.user, None);
    assert_eq!(updated.tag.as_deref(), Some("ops"));
    assert_eq!(updated.identity_files, vec!["~/.ssh/id_builder"]);
    assert_eq!(updated.remote_forwards, vec!["9090 127.0.0.1:90"]);
    assert_eq!(updated.strict_host_key_checking.as_deref(), Some("no"));
    assert_eq!(
        updated.pubkey_accepted_algorithms.as_deref(),
        Some("+ssh-rsa")
    );
    assert_eq!(
        updated.extra_options,
        vec![("ServerAliveInterval".to_string(), "30".to_string())]
    );
}

#[test]
fn rejects_conflicting_scalar_flags() {
    let current = HostEntry {
        host_patterns: vec!["bs-215".to_string()],
        ..HostEntry::default()
    };
    let mut args = base_args("bs-215");
    args.hostname = Some("172.16.0.216".to_string());
    args.clear_hostname = true;

    let err = build_updated_entry(&current, &args).unwrap_err();
    assert!(err.message.contains("--hostname"));
}

#[test]
fn rejects_conflicting_vector_flags() {
    let current = HostEntry {
        host_patterns: vec!["bs-215".to_string()],
        ..HostEntry::default()
    };
    let mut args = base_args("bs-215");
    args.identity_files = vec!["~/.ssh/id_builder".to_string()];
    args.clear_identity_files = true;

    let err = build_updated_entry(&current, &args).unwrap_err();
    assert!(err.message.contains("--identity-file"));
}

#[test]
fn rejects_conflicting_note_flags() {
    let current = HostEntry {
        host_patterns: vec!["bs-215".to_string()],
        ..HostEntry::default()
    };
    let mut args = base_args("bs-215");
    args.note = Some("x".to_string());
    args.clear_note = true;

    let err = build_updated_entry(&current, &args).unwrap_err();
    assert!(err.message.contains("--note"));
}

#[test]
fn clears_ssh_tag_when_requested() {
    let current = HostEntry {
        host_patterns: vec!["bs-215".to_string()],
        tag: Some("ops".to_string()),
        ..HostEntry::default()
    };
    let mut args = base_args("bs-215");
    args.clear_ssh_tag = true;

    let updated = build_updated_entry(&current, &args).unwrap();
    assert_eq!(updated.tag, None);
}

#[test]
fn interactive_seed_carries_current_ssh_tag() {
    let current = ManagedEntry {
        order: 10,
        slug: "bs-215".to_string(),
        path: "010-host-bs-215.conf".into(),
        raw_content: String::new(),
        entry: HostEntry {
            host_patterns: vec!["bs-215".to_string()],
            hostname: Some("172.16.0.215".to_string()),
            tag: Some("ops".to_string()),
            ..HostEntry::default()
        },
    };

    let seed = build_interactive_seed(&current, None, &base_args("bs-215")).unwrap();
    assert_eq!(seed.ssh_tag.as_deref(), Some("ops"));
}

#[test]
fn interactive_args_update_and_clear_ssh_tag_based_on_prompted_value() {
    let current = ManagedEntry {
        order: 10,
        slug: "bs-215".to_string(),
        path: "010-host-bs-215.conf".into(),
        raw_content: String::new(),
        entry: HostEntry {
            host_patterns: vec!["bs-215".to_string()],
            hostname: Some("172.16.0.215".to_string()),
            tag: Some("ops".to_string()),
            ..HostEntry::default()
        },
    };

    let changed = build_interactive_args(
        &base_args("bs-215"),
        &current,
        None,
        &InteractiveEditValues {
            host: "bs-215".to_string(),
            hostname: current.entry.hostname.clone(),
            user: current.entry.user.clone(),
            port: current.entry.port,
            proxy_jump: current.entry.proxy_jump.clone(),
            ssh_tag: Some("prod".to_string()),
            template: None,
            tags: Vec::new(),
            note: None,
        },
    );
    assert_eq!(changed.ssh_tag.as_deref(), Some("prod"));
    assert!(!changed.clear_ssh_tag);

    let cleared = build_interactive_args(
        &base_args("bs-215"),
        &current,
        None,
        &InteractiveEditValues {
            host: "bs-215".to_string(),
            hostname: current.entry.hostname.clone(),
            user: current.entry.user.clone(),
            port: current.entry.port,
            proxy_jump: current.entry.proxy_jump.clone(),
            ssh_tag: None,
            template: None,
            tags: Vec::new(),
            note: None,
        },
    );
    assert_eq!(cleared.ssh_tag, None);
    assert!(cleared.clear_ssh_tag);
}

#[test]
fn rejects_conflicting_template_flags() {
    let current = HostEntry {
        host_patterns: vec!["bs-215".to_string()],
        ..HostEntry::default()
    };
    let mut args = base_args("bs-215");
    args.template = Some(TemplateKind::Embedded);
    args.clear_template = true;

    let err = build_updated_entry(&current, &args).unwrap_err();
    assert!(err.message.contains("--template"));
}

#[test]
fn exact_edit_without_flags_uses_interactive_completion() {
    let args = base_args("server-a");

    assert!(!has_requested_changes(&args));
    assert!(requires_interactive_completion(&args));
}

#[test]
fn explicit_edit_flags_skip_interactive_completion() {
    let mut args = base_args("server-a");
    args.user = Some("builder".to_string());

    assert!(has_requested_changes(&args));
    assert!(!requires_interactive_completion(&args));
}
