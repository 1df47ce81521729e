use sshcfg::config::parser::{parse_host_entry, parse_match_entry};

#[test]
fn parses_basic_host_entry() {
    let content = "Host bs-215\n  HostName 172.16.0.215\n  Port 2222\n  LocalForward 8080 127.0.0.1:80\n  RemoteForward 9090 127.0.0.1:90\n";
    let entry = parse_host_entry("x.conf", content).unwrap();

    assert_eq!(entry.host_patterns, vec!["bs-215"]);
    assert_eq!(entry.hostname.as_deref(), Some("172.16.0.215"));
    assert_eq!(entry.port, Some(2222));
    assert_eq!(entry.local_forwards, vec!["8080 127.0.0.1:80"]);
    assert_eq!(entry.remote_forwards, vec!["9090 127.0.0.1:90"]);
}

#[test]
fn parses_match_body_entry() {
    let content = "  HostName alpha.example.com\n  User root\n  ForwardAgent no\n  Tag ops\n";
    let entry = parse_match_entry("match.conf", content).unwrap();

    assert_eq!(entry.hostname.as_deref(), Some("alpha.example.com"));
    assert_eq!(entry.user.as_deref(), Some("root"));
    assert_eq!(entry.forward_agent.as_deref(), Some("no"));
    assert_eq!(entry.tag.as_deref(), Some("ops"));
}
