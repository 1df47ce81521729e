use sshcfg::commands::add::{
    apply_smart_defaults, looks_like_host_target, looks_like_pattern,
    requires_interactive_completion,
};
use sshcfg::commands::cli::AddArgs;

fn base_args(host: &str) -> AddArgs {
    AddArgs {
        host: host.to_string(),
        interactive: false,
        hostname: None,
        user: None,
        port: None,
        proxy_jump: None,
        identity_files: Vec::new(),
        local_forwards: Vec::new(),
        remote_forwards: Vec::new(),
        strict_host_key_checking: None,
        user_known_hosts_file: None,
        host_key_algorithms: None,
        pubkey_accepted_algorithms: None,
        forward_agent: None,
        ssh_tag: None,
        template: None,
        order: None,
        extras: Vec::new(),
        tags: Vec::new(),
        note: None,
    }
}

#[test]
fn smart_defaults_fill_hostname_for_ip_target() {
    let mut args = base_args("172.16.7.226");

    apply_smart_defaults(&mut args);

    assert_eq!(args.hostname.as_deref(), Some("172.16.7.226"));
}

#[test]
fn smart_defaults_do_not_fill_hostname_for_alias() {
    let mut args = base_args("server-a");

    apply_smart_defaults(&mut args);

    assert!(args.hostname.is_none());
}

#[test]
fn detects_pattern_and_host_target_inputs() {
    assert!(looks_like_pattern("web-*"));
    assert!(looks_like_host_target("172.16.7.226"));
    assert!(looks_like_host_target("db.internal"));
    assert!(!looks_like_host_target("server-a"));
}

#[test]
fn exact_alias_without_hostname_needs_interactive_completion() {
    assert!(requires_interactive_completion(&base_args("server-a")));

    let mut args = base_args("server-a");
    args.hostname = Some("172.16.7.226".to_string());
    assert!(!requires_interactive_completion(&args));

    assert!(!requires_interactive_completion(&base_args("web-*")));
}
