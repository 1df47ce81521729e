use sshcfg::config::model::HostEntry;
use sshcfg::config::validate::{
    collect_entry_issues, validate_local_forward_value, validate_remote_forward_value,
};

#[test]
fn accepts_common_local_forward_tcp_forms() {
    for value in [
        "8080 127.0.0.1:80",
        "127.0.0.1:8080 localhost:80",
        "[::1]:8080 [::1]:80",
    ] {
        assert_eq!(validate_local_forward_value(value), None, "{value}");
    }
}

#[test]
fn accepts_local_forward_socket_paths() {
    for value in [
        "/tmp/local.sock 127.0.0.1:80",
        "8080 /tmp/remote.sock",
        "C:\\sshcfg\\local.sock 127.0.0.1:80",
    ] {
        assert_eq!(validate_local_forward_value(value), None, "{value}");
    }
}

#[test]
fn accepts_remote_forward_socket_and_tcp_forms() {
    for value in [
        "8080 127.0.0.1:80",
        "/tmp/remote.sock 127.0.0.1:80",
        "8080 /tmp/remote.sock",
    ] {
        assert_eq!(validate_remote_forward_value(value), None, "{value}");
    }
}

#[test]
fn rejects_local_forward_with_missing_or_extra_tokens() {
    for value in ["8080", "8080 127.0.0.1:80 extra"] {
        let issue = validate_local_forward_value(value).unwrap();
        assert!(issue.contains("exactly two tokens"), "{issue}");
    }
}

#[test]
fn rejects_local_forward_with_invalid_local_endpoint() {
    for value in ["host:abc 127.0.0.1:80", "[::1] [::1]:80", "0 127.0.0.1:80"] {
        let issue = validate_local_forward_value(value).unwrap();
        assert!(issue.contains("invalid local endpoint"), "{issue}");
    }
}

#[test]
fn rejects_local_forward_with_invalid_remote_endpoint() {
    for value in ["8080 host", "8080 127.0.0.1", "8080 [::1]"] {
        let issue = validate_local_forward_value(value).unwrap();
        assert!(issue.contains("invalid remote endpoint"), "{issue}");
    }
}

#[test]
fn accepts_common_strict_host_key_checking_values() {
    for value in [
        "yes",
        "no",
        "ask",
        "off",
        "accept-new",
        "true",
        "false",
        "on",
    ] {
        let entry = HostEntry {
            host_patterns: vec!["demo".to_string()],
            hostname: Some("127.0.0.1".to_string()),
            strict_host_key_checking: Some(value.to_string()),
            ..HostEntry::default()
        };

        let issues = collect_entry_issues(&entry);
        assert!(issues.is_empty(), "{value}: {issues:?}");
    }
}

#[test]
fn rejects_invalid_strict_host_key_checking_value() {
    let entry = HostEntry {
        host_patterns: vec!["demo".to_string()],
        hostname: Some("127.0.0.1".to_string()),
        strict_host_key_checking: Some("maybe".to_string()),
        ..HostEntry::default()
    };

    let issues = collect_entry_issues(&entry);

    assert_eq!(issues.len(), 1);
    assert!(issues[0].contains("StrictHostKeyChecking expects"));
}

#[test]
fn accepts_forward_agent_boolean_env_and_path_forms() {
    for value in [
        "yes",
        "no",
        "true",
        "off",
        "$SSH_AUTH_SOCK",
        "/tmp/agent.sock",
        "agent.sock",
    ] {
        let entry = HostEntry {
            host_patterns: vec!["demo".to_string()],
            hostname: Some("127.0.0.1".to_string()),
            forward_agent: Some(value.to_string()),
            ..HostEntry::default()
        };

        let issues = collect_entry_issues(&entry);
        assert!(issues.is_empty(), "{value}: {issues:?}");
    }
}

#[test]
fn rejects_empty_tag_value() {
    let entry = HostEntry {
        host_patterns: vec!["demo".to_string()],
        hostname: Some("127.0.0.1".to_string()),
        tag: Some("   ".to_string()),
        ..HostEntry::default()
    };

    let issues = collect_entry_issues(&entry);

    assert_eq!(issues.len(), 1);
    assert!(issues[0].contains("Tag cannot be empty"));
}

#[test]
fn collect_entry_issues_reports_local_forward_validation_error() {
    let entry = HostEntry {
        host_patterns: vec!["demo".to_string()],
        hostname: Some("127.0.0.1".to_string()),
        local_forwards: vec!["8080 host".to_string()],
        ..HostEntry::default()
    };

    let issues = collect_entry_issues(&entry);

    assert_eq!(issues.len(), 1);
    assert!(issues[0].contains("invalid remote endpoint"));
}

#[test]
fn collect_entry_issues_reports_remote_forward_validation_error() {
    let entry = HostEntry {
        host_patterns: vec!["demo".to_string()],
        hostname: Some("127.0.0.1".to_string()),
        remote_forwards: vec!["8080 host".to_string()],
        ..HostEntry::default()
    };

    let issues = collect_entry_issues(&entry);

    assert_eq!(issues.len(), 1);
    assert!(issues[0].contains("RemoteForward"));
    assert!(issues[0].contains("invalid remote endpoint"));
}

#[test]
fn collect_entry_issues_still_validates_remote_forward_in_extra_options_for_compatibility() {
    let entry = HostEntry {
        host_patterns: vec!["demo".to_string()],
        hostname: Some("127.0.0.1".to_string()),
        extra_options: vec![("RemoteForward".to_string(), "8080 host".to_string())],
        ..HostEntry::default()
    };

    let issues = collect_entry_issues(&entry);

    assert_eq!(issues.len(), 1);
    assert!(issues[0].contains("RemoteForward"));
}
