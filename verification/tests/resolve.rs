use sshcfg::config::describe::describe_resolved_target;
use sshcfg::config::model::{HostEntry, ManagedEntry};
use sshcfg::config::resolve::{
    MachineFacts, RootMatchResolveOptions, resolve_target, resolve_target_with_root_matches,
    resolve_target_with_root_matches_and_options,
};
use sshcfg::config::root_config;
use sshcfg::layout::managed_block;

fn no_facts() -> MachineFacts {
    MachineFacts {
        local_user: String::new(),
        local_networks: Vec::new(),
        ssh_version: None,
    }
}

#[test]
fn resolves_pattern_then_exact_entry() {
    let pattern = ManagedEntry {
        order: 10,
        slug: "bs-star".to_string(),
        path: "010-pattern-bs-star.conf".into(),
        raw_content: String::new(),
        entry: HostEntry {
            host_patterns: vec!["bs-*".to_string()],
            user: Some("builder".to_string()),
            remote_forwards: vec!["9090 127.0.0.1:90".to_string()],
            ..HostEntry::default()
        },
    };
    let exact = ManagedEntry {
        order: 20,
        slug: "bs-215".to_string(),
        path: "020-host-bs-215.conf".into(),
        raw_content: String::new(),
        entry: HostEntry {
            host_patterns: vec!["bs-215".to_string()],
            hostname: Some("172.16.0.215".to_string()),
            ..HostEntry::default()
        },
    };

    let resolved = resolve_target(&[pattern, exact], "bs-215").unwrap();

    assert_eq!(resolved.matched_entries.len(), 2);
    assert_eq!(resolved.merged_entry.user.as_deref(), Some("builder"));
    assert_eq!(
        resolved.merged_entry.hostname.as_deref(),
        Some("172.16.0.215")
    );
    assert_eq!(
        resolved.merged_entry.remote_forwards,
        vec!["9090 127.0.0.1:90"]
    );
    assert!(
        resolved
            .directive_sources
            .iter()
            .any(|source| source.key == "HostName" && source.origin.order == 20)
    );
}

#[test]
fn captures_ignored_scalar_overrides_and_describes_them() {
    let pattern = ManagedEntry {
        order: 10,
        slug: "bs-star".to_string(),
        path: "010-pattern-bs-star.conf".into(),
        raw_content: String::new(),
        entry: HostEntry {
            host_patterns: vec!["bs-*".to_string()],
            user: Some("builder".to_string()),
            ..HostEntry::default()
        },
    };
    let exact = ManagedEntry {
        order: 20,
        slug: "bs-215".to_string(),
        path: "020-host-bs-215.conf".into(),
        raw_content: String::new(),
        entry: HostEntry {
            host_patterns: vec!["bs-215".to_string()],
            user: Some("root".to_string()),
            hostname: Some("172.16.0.215".to_string()),
            ..HostEntry::default()
        },
    };

    let resolved = resolve_target(&[pattern, exact], "bs-215").unwrap();
    let rendered = describe_resolved_target(&resolved);

    assert_eq!(resolved.ignored_scalar_overrides.len(), 1);
    assert_eq!(resolved.ignored_scalar_overrides[0].key, "User");
    assert_eq!(
        resolved.ignored_scalar_overrides[0].attempted_value,
        "root".to_string()
    );
    assert!(rendered.contains("ignored scalar assignments:"));
    assert!(rendered.contains("locked by 010 pattern bs-*"));
}

#[test]
fn applies_root_match_all_after_managed_entries_in_preview() {
    let exact = ManagedEntry {
        order: 20,
        slug: "demo".to_string(),
        path: "020-host-demo.conf".into(),
        raw_content: String::new(),
        entry: HostEntry {
            host_patterns: vec!["demo".to_string()],
            hostname: Some("demo.example.com".to_string()),
            ..HostEntry::default()
        },
    };
    let root_match_blocks = root_config::extract_match_blocks(&format!(
        "{}Match all\n  ForwardAgent no\n",
        managed_block("\n")
    ));

    let resolved =
        resolve_target_with_root_matches(&[exact], "demo", &root_match_blocks, &no_facts()).unwrap();

    assert_eq!(resolved.merged_entry.forward_agent.as_deref(), Some("no"));
    assert!(
        resolved
            .root_match_notes
            .iter()
            .any(|note| note.contains("Match all"))
    );
}

#[test]
fn root_match_before_anchor_can_lock_scalar_before_managed_entries() {
    let exact = ManagedEntry {
        order: 20,
        slug: "demo".to_string(),
        path: "020-host-demo.conf".into(),
        raw_content: String::new(),
        entry: HostEntry {
            host_patterns: vec!["demo".to_string()],
            hostname: Some("demo.example.com".to_string()),
            user: Some("builder".to_string()),
            ..HostEntry::default()
        },
    };
    let root_match_blocks = root_config::extract_match_blocks(
        "\
Match host demo
  User root
",
    );

    let resolved =
        resolve_target_with_root_matches(&[exact], "demo", &root_match_blocks, &no_facts()).unwrap();

    assert_eq!(resolved.merged_entry.user.as_deref(), Some("root"));
    assert!(
        resolved
            .ignored_scalar_overrides
            .iter()
            .any(|item| item.key == "User" && item.attempted_value == "builder")
    );
}

#[test]
fn root_match_host_uses_current_hostname_context() {
    let exact = ManagedEntry {
        order: 20,
        slug: "demo".to_string(),
        path: "020-host-demo.conf".into(),
        raw_content: String::new(),
        entry: HostEntry {
            host_patterns: vec!["demo".to_string()],
            hostname: Some("demo.example.com".to_string()),
            ..HostEntry::default()
        },
    };
    let root_match_blocks = root_config::extract_match_blocks(&format!(
        "{}Match host demo.example.com\n  ForwardAgent no\n",
        managed_block("\n")
    ));

    let resolved =
        resolve_target_with_root_matches(&[exact], "demo", &root_match_blocks, &no_facts()).unwrap();

    assert_eq!(resolved.merged_entry.forward_agent.as_deref(), Some("no"));
    assert!(
        resolved
            .root_match_notes
            .iter()
            .any(|note| note.contains("Match host demo.example.com"))
    );
}

#[test]
fn root_match_user_can_use_managed_user_current_user_or_local_user_context() {
    let exact = ManagedEntry {
        order: 20,
        slug: "demo".to_string(),
        path: "020-host-demo.conf".into(),
        raw_content: String::new(),
        entry: HostEntry {
            host_patterns: vec!["demo".to_string()],
            user: Some("builder".to_string()),
            ..HostEntry::default()
        },
    };
    let root_match_blocks = root_config::extract_match_blocks(&format!(
        "{}Match user builder\n  ForwardAgent no\n",
        managed_block("\n")
    ));

    let resolved = resolve_target_with_root_matches_and_options(
        &[exact],
        "demo",
        &root_match_blocks,
        RootMatchResolveOptions {
            local_user: Some("alice"),
            current_user: None,
            initial_tag: None,
            ssh_version: Some("OpenSSH_for_Windows_9.5p1"),
            session_type: Some("shell"),
            command: Some(""),
            local_networks: &[],
            is_canonical: false,
            is_final: true,
        },
    )
    .unwrap();

    assert_eq!(resolved.merged_entry.forward_agent.as_deref(), Some("no"));

    let current_user_only_blocks = root_config::extract_match_blocks(
        "\
Match user deploy
  ForwardAgent ask
",
    );
    let resolved = resolve_target_with_root_matches_and_options(
        &[],
        "demo",
        &current_user_only_blocks,
        RootMatchResolveOptions {
            local_user: Some("alice"),
            current_user: Some("deploy"),
            initial_tag: None,
            ssh_version: Some("OpenSSH_for_Windows_9.5p1"),
            session_type: Some("shell"),
            command: Some(""),
            local_networks: &[],
            is_canonical: false,
            is_final: true,
        },
    )
    .unwrap();

    assert_eq!(resolved.merged_entry.forward_agent.as_deref(), Some("ask"));

    let local_user_only_blocks = root_config::extract_match_blocks(
        "\
Match localuser alice
  ProxyJump jump-box
",
    );
    let resolved = resolve_target_with_root_matches_and_options(
        &[],
        "demo",
        &local_user_only_blocks,
        RootMatchResolveOptions {
            local_user: Some("alice"),
            current_user: None,
            initial_tag: None,
            ssh_version: Some("OpenSSH_for_Windows_9.5p1"),
            session_type: Some("shell"),
            command: Some(""),
            local_networks: &[],
            is_canonical: false,
            is_final: true,
        },
    )
    .unwrap();

    assert_eq!(
        resolved.merged_entry.proxy_jump.as_deref(),
        Some("jump-box")
    );
}

#[test]
fn root_match_version_uses_ssh_version_context() {
    let exact = ManagedEntry {
        order: 20,
        slug: "demo".to_string(),
        path: "020-host-demo.conf".into(),
        raw_content: String::new(),
        entry: HostEntry {
            host_patterns: vec!["demo".to_string()],
            hostname: Some("demo.example.com".to_string()),
            ..HostEntry::default()
        },
    };
    let root_match_blocks = root_config::extract_match_blocks(&format!(
        "{}Match version OpenSSH_for_Windows_* !version OpenSSH_for_Windows_8.*\n  ForwardAgent no\n",
        managed_block("\n")
    ));

    let resolved = resolve_target_with_root_matches_and_options(
        &[exact.clone()],
        "demo",
        &root_match_blocks,
        RootMatchResolveOptions {
            local_user: Some("alice"),
            current_user: None,
            initial_tag: None,
            ssh_version: Some("OpenSSH_for_Windows_9.5p1"),
            session_type: Some("shell"),
            command: Some(""),
            local_networks: &[],
            is_canonical: false,
            is_final: true,
        },
    )
    .unwrap();
    assert_eq!(resolved.merged_entry.forward_agent.as_deref(), Some("no"));

    let not_matching = resolve_target_with_root_matches_and_options(
        &[exact],
        "demo",
        &root_match_blocks,
        RootMatchResolveOptions {
            local_user: Some("alice"),
            current_user: None,
            initial_tag: None,
            ssh_version: Some("OpenSSH_for_Windows_8.9p1"),
            session_type: Some("shell"),
            command: Some(""),
            local_networks: &[],
            is_canonical: false,
            is_final: true,
        },
    )
    .unwrap();
    assert_eq!(not_matching.merged_entry.forward_agent, None);

    let missing_version = resolve_target_with_root_matches_and_options(
        &[],
        "demo",
        &root_match_blocks,
        RootMatchResolveOptions {
            local_user: Some("alice"),
            current_user: None,
            initial_tag: None,
            ssh_version: None,
            session_type: Some("shell"),
            command: Some(""),
            local_networks: &[],
            is_canonical: false,
            is_final: true,
        },
    )
    .unwrap();
    assert!(
        missing_version
            .root_match_notes
            .iter()
            .any(|note| note.contains("ssh version unavailable"))
    );
}

#[test]
fn root_match_canonical_uses_options_context() {
    let exact = ManagedEntry {
        order: 20,
        slug: "demo".to_string(),
        path: "020-host-demo.conf".into(),
        raw_content: String::new(),
        entry: HostEntry {
            host_patterns: vec!["demo".to_string()],
            hostname: Some("demo.example.com".to_string()),
            ..HostEntry::default()
        },
    };
    let root_match_blocks = root_config::extract_match_blocks(&format!(
        "{}Match canonical\n  ForwardAgent no\n",
        managed_block("\n")
    ));

    let resolved = resolve_target_with_root_matches_and_options(
        &[exact.clone()],
        "demo",
        &root_match_blocks,
        RootMatchResolveOptions {
            local_user: Some("alice"),
            current_user: None,
            initial_tag: None,
            ssh_version: Some("OpenSSH_for_Windows_9.5p1"),
            session_type: Some("shell"),
            command: Some(""),
            local_networks: &[],
            is_canonical: true,
            is_final: true,
        },
    )
    .unwrap();
    assert_eq!(resolved.merged_entry.forward_agent.as_deref(), Some("no"));

    let not_matching = resolve_target_with_root_matches_and_options(
        &[exact],
        "demo",
        &root_match_blocks,
        RootMatchResolveOptions {
            local_user: Some("alice"),
            current_user: None,
            initial_tag: None,
            ssh_version: Some("OpenSSH_for_Windows_9.5p1"),
            session_type: Some("shell"),
            command: Some(""),
            local_networks: &[],
            is_canonical: false,
            is_final: true,
        },
    )
    .unwrap();
    assert_eq!(not_matching.merged_entry.forward_agent, None);
}

#[test]
fn root_match_tagged_uses_current_tag_from_prior_entries() {
    let pattern = ManagedEntry {
        order: 10,
        slug: "demo-star".to_string(),
        path: "010-pattern-demo-star.conf".into(),
        raw_content: String::new(),
        entry: HostEntry {
            host_patterns: vec!["demo-*".to_string()],
            tag: Some("ops".to_string()),
            ..HostEntry::default()
        },
    };
    let exact = ManagedEntry {
        order: 20,
        slug: "demo".to_string(),
        path: "020-host-demo.conf".into(),
        raw_content: String::new(),
        entry: HostEntry {
            host_patterns: vec!["demo-1".to_string()],
            hostname: Some("demo.example.com".to_string()),
            ..HostEntry::default()
        },
    };
    let root_match_blocks = root_config::extract_match_blocks(&format!(
        "{}Match tagged ops\n  ForwardAgent no\nMatch tagged \"\"\n  ProxyJump jump-box\n",
        managed_block("\n")
    ));

    let resolved = resolve_target_with_root_matches_and_options(
        &[pattern, exact],
        "demo-1",
        &root_match_blocks,
        RootMatchResolveOptions {
            local_user: Some("alice"),
            current_user: None,
            initial_tag: None,
            ssh_version: Some("OpenSSH_for_Windows_9.5p1"),
            session_type: Some("shell"),
            command: Some(""),
            local_networks: &[],
            is_canonical: false,
            is_final: true,
        },
    )
    .unwrap();

    assert_eq!(resolved.merged_entry.tag.as_deref(), Some("ops"));
    assert_eq!(resolved.merged_entry.forward_agent.as_deref(), Some("no"));
    assert_eq!(resolved.merged_entry.proxy_jump, None);
}

#[test]
fn root_match_sessiontype_and_command_use_options_context() {
    let exact = ManagedEntry {
        order: 20,
        slug: "demo".to_string(),
        path: "020-host-demo.conf".into(),
        raw_content: String::new(),
        entry: HostEntry {
            host_patterns: vec!["demo".to_string()],
            hostname: Some("demo.example.com".to_string()),
            ..HostEntry::default()
        },
    };
    let root_match_blocks = root_config::extract_match_blocks(&format!(
        "{}Match sessiontype shell command \"git status\"\n  ForwardAgent no\n",
        managed_block("\n")
    ));

    let resolved = resolve_target_with_root_matches_and_options(
        &[exact.clone()],
        "demo",
        &root_match_blocks,
        RootMatchResolveOptions {
            local_user: Some("alice"),
            current_user: None,
            initial_tag: None,
            ssh_version: Some("OpenSSH_for_Windows_9.5p1"),
            session_type: Some("shell"),
            command: Some("git status"),
            local_networks: &[],
            is_canonical: false,
            is_final: true,
        },
    )
    .unwrap();
    assert_eq!(resolved.merged_entry.forward_agent.as_deref(), Some("no"));

    let not_matching = resolve_target_with_root_matches_and_options(
        &[exact],
        "demo",
        &root_match_blocks,
        RootMatchResolveOptions {
            local_user: Some("alice"),
            current_user: None,
            initial_tag: None,
            ssh_version: Some("OpenSSH_for_Windows_9.5p1"),
            session_type: Some("exec"),
            command: Some("git fetch"),
            local_networks: &[],
            is_canonical: false,
            is_final: true,
        },
    )
    .unwrap();
    assert_eq!(not_matching.merged_entry.forward_agent, None);
}

#[test]
fn root_match_localnetwork_uses_options_context() {
    let exact = ManagedEntry {
        order: 20,
        slug: "demo".to_string(),
        path: "020-host-demo.conf".into(),
        raw_content: String::new(),
        entry: HostEntry {
            host_patterns: vec!["demo".to_string()],
            hostname: Some("demo.example.com".to_string()),
            ..HostEntry::default()
        },
    };
    let root_match_blocks = root_config::extract_match_blocks(&format!(
        "{}Match localnetwork 192.168.1.0/24\n  ForwardAgent no\n",
        managed_block("\n")
    ));
    let local_networks = vec!["192.168.1.42".to_string()];

    let resolved = resolve_target_with_root_matches_and_options(
        &[exact.clone()],
        "demo",
        &root_match_blocks,
        RootMatchResolveOptions {
            local_user: Some("alice"),
            current_user: None,
            initial_tag: None,
            ssh_version: Some("OpenSSH_for_Windows_9.5p1"),
            session_type: Some("shell"),
            command: Some(""),
            local_networks: &local_networks,
            is_canonical: false,
            is_final: true,
        },
    )
    .unwrap();
    assert_eq!(resolved.merged_entry.forward_agent.as_deref(), Some("no"));

    let other_networks = vec!["10.0.0.2".to_string()];
    let not_matching = resolve_target_with_root_matches_and_options(
        &[exact],
        "demo",
        &root_match_blocks,
        RootMatchResolveOptions {
            local_user: Some("alice"),
            current_user: None,
            initial_tag: None,
            ssh_version: Some("OpenSSH_for_Windows_9.5p1"),
            session_type: Some("shell"),
            command: Some(""),
            local_networks: &other_networks,
            is_canonical: false,
            is_final: true,
        },
    )
    .unwrap();
    assert_eq!(not_matching.merged_entry.forward_agent, None);
}
