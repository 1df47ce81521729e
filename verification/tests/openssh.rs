use sshcfg::config::openssh::{normalize_match_version_string, parse_ssh_g_output, parse_version_output};

#[test]
fn parses_version_from_stderr() {
    let version = parse_version_output("", "OpenSSH_9.5p1 for Windows").unwrap();
    assert_eq!(version, "OpenSSH_9.5p1 for Windows");
}

#[test]
fn parses_ssh_g_output_and_preserves_repeated_keys() {
    let parsed = parse_ssh_g_output(
        "user demo\nhostname demo.example.com\nidentityfile ~/.ssh/id_a\nidentityfile ~/.ssh/id_b\n",
    )
    .unwrap();

    assert_eq!(parsed.get_first("user"), Some("demo"));
    assert_eq!(parsed.get_first("hostname"), Some("demo.example.com"));
    assert_eq!(parsed.get_first("identityfile"), Some("~/.ssh/id_a"));
}

#[test]
fn rejects_invalid_ssh_g_output_line() {
    let err = parse_ssh_g_output("invalid-line-without-value").unwrap_err();
    assert!(err.message.contains("invalid `ssh -G` output line"));
}

#[test]
fn normalizes_version_text_for_match_context() {
    assert_eq!(
        normalize_match_version_string("OpenSSH_for_Windows_9.5p1, LibreSSL 3.8.2"),
        Some("OpenSSH_for_Windows_9.5p1".to_string())
    );
    assert_eq!(
        normalize_match_version_string("OpenSSH_9.5p1 for Windows"),
        Some("OpenSSH_9.5p1".to_string())
    );
}
