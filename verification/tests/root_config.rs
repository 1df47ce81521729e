use sshcfg::config::local_networks::extract_local_networks_from_output;
use sshcfg::config::match_header::{MatchCondition, MatchContext, MatchCriterion};
use sshcfg::config::root_config::{
    block_uses_ssh_version, extract_match_blocks, match_block_applies,
};
use sshcfg::layout::managed_block;

#[test]
fn extracts_match_blocks_and_preserves_raw_text() {
    let blocks = extract_match_blocks(
        "\
Host alpha
  HostName alpha.example.com

Match host *.example.com
  User root

Match all
  ForwardAgent no
",
    );

    assert_eq!(blocks.len(), 2);
    assert_eq!(blocks[0].start_line, 4);
    assert_eq!(blocks[0].end_line, 6);
    assert!(blocks[0].raw.contains("Match host *.example.com"));
    assert!(blocks[0].raw.contains("  User root"));
    assert_eq!(
        blocks[0].condition,
        MatchCondition::Criteria(vec![MatchCriterion::Host {
            patterns: vec!["*.example.com".to_string()],
            negated: false,
        }])
    );
    assert!(blocks[0].unsupported_conditions.is_empty());
    assert_eq!(blocks[0].entry.user.as_deref(), Some("root"));
    assert!(blocks[0].appears_before_managed_anchor);
    assert_eq!(blocks[1].start_line, 7);
    assert_eq!(blocks[1].end_line, 8);
    assert!(blocks[1].raw.contains("Match all"));
    assert_eq!(
        blocks[1].condition,
        MatchCondition::Criteria(vec![MatchCriterion::All { negated: false }])
    );
}

#[test]
fn ignores_managed_include_block_lines() {
    let blocks = extract_match_blocks(&format!(
        "\
{}
Match all
  ForwardAgent no
",
        managed_block("\n")
    ));

    assert_eq!(blocks.len(), 1);
    assert_eq!(blocks[0].start_line, 5);
    assert_eq!(blocks[0].end_line, 6);
    assert!(!blocks[0].appears_before_managed_anchor);
}

#[test]
fn skips_unsupported_match_conditions_for_now() {
    let blocks = extract_match_blocks(
        "\
Match exec \"echo hi\" host alpha
  ForwardAgent no
",
    );

    assert_eq!(blocks.len(), 1);
    assert_eq!(
        blocks[0].unsupported_conditions,
        vec!["exec \"echo hi\"".to_string()]
    );
    let context = MatchContext::new_basic(
        "alpha",
        "alpha",
        Some("builder"),
        Some("builder"),
        None,
        Some("OpenSSH_9.5p1"),
        false,
        true,
    );
    assert!(!match_block_applies(&blocks[0], &context).unwrap());
}

#[test]
fn host_match_supports_negation_patterns() {
    let blocks = extract_match_blocks(
        "\
Match host *.example.com !banned.example.com
  User root
",
    );

    assert_eq!(blocks.len(), 1);
    let allowed = MatchContext::new_basic(
        "alpha.example.com",
        "alpha.example.com",
        Some("builder"),
        Some("builder"),
        None,
        Some("OpenSSH_9.5p1"),
        false,
        true,
    );
    let denied = MatchContext::new_basic(
        "banned.example.com",
        "banned.example.com",
        Some("builder"),
        Some("builder"),
        None,
        Some("OpenSSH_9.5p1"),
        false,
        true,
    );

    assert!(match_block_applies(&blocks[0], &allowed).unwrap());
    assert!(!match_block_applies(&blocks[0], &denied).unwrap());
}

#[test]
fn originalhost_user_and_localuser_criteria_use_current_context() {
    let blocks = extract_match_blocks(
        "\
Match originalhost alpha user builder localuser alice
  ForwardAgent no
",
    );

    assert_eq!(blocks.len(), 1);
    let matching = MatchContext::new_basic(
        "alpha",
        "alpha.example.com",
        Some("builder"),
        Some("alice"),
        None,
        Some("OpenSSH_9.5p1"),
        false,
        true,
    );
    let wrong_user = MatchContext::new_basic(
        "alpha",
        "alpha.example.com",
        Some("root"),
        Some("alice"),
        None,
        Some("OpenSSH_9.5p1"),
        false,
        true,
    );
    let wrong_local_user = MatchContext::new_basic(
        "alpha",
        "alpha.example.com",
        Some("builder"),
        Some("bob"),
        None,
        Some("OpenSSH_9.5p1"),
        false,
        true,
    );

    assert!(match_block_applies(&blocks[0], &matching).unwrap());
    assert!(!match_block_applies(&blocks[0], &wrong_user).unwrap());
    assert!(!match_block_applies(&blocks[0], &wrong_local_user).unwrap());
}

#[test]
fn criterion_negation_inverts_supported_matches() {
    let blocks = extract_match_blocks(
        "\
Match !host banned.example.com !user root
  ForwardAgent no
",
    );

    assert_eq!(blocks.len(), 1);
    let allowed = MatchContext::new_basic(
        "alpha.example.com",
        "alpha.example.com",
        Some("builder"),
        Some("builder"),
        None,
        Some("OpenSSH_9.5p1"),
        false,
        true,
    );
    let banned = MatchContext::new_basic(
        "banned.example.com",
        "banned.example.com",
        Some("builder"),
        Some("builder"),
        None,
        Some("OpenSSH_9.5p1"),
        false,
        true,
    );
    let wrong_user = MatchContext::new_basic(
        "alpha.example.com",
        "alpha.example.com",
        Some("root"),
        Some("builder"),
        None,
        Some("OpenSSH_9.5p1"),
        false,
        true,
    );

    assert!(match_block_applies(&blocks[0], &allowed).unwrap());
    assert!(!match_block_applies(&blocks[0], &banned).unwrap());
    assert!(!match_block_applies(&blocks[0], &wrong_user).unwrap());
}

#[test]
fn final_criteria_match_the_final_pass() {
    let blocks = extract_match_blocks(
        "\
Match final
  ForwardAgent no
",
    );

    assert_eq!(blocks.len(), 1);
    let final_pass = MatchContext::new_basic(
        "alpha",
        "alpha",
        Some("builder"),
        Some("builder"),
        None,
        Some("OpenSSH_9.5p1"),
        false,
        true,
    );
    let non_final_pass = MatchContext::new_basic(
        "alpha",
        "alpha",
        Some("builder"),
        Some("builder"),
        None,
        Some("OpenSSH_9.5p1"),
        false,
        false,
    );

    assert!(match_block_applies(&blocks[0], &final_pass).unwrap());
    assert!(!match_block_applies(&blocks[0], &non_final_pass).unwrap());
}

#[test]
fn canonical_criteria_match_the_canonical_pass() {
    let blocks = extract_match_blocks(
        "\
Match canonical
  ForwardAgent no
",
    );

    assert_eq!(blocks.len(), 1);
    let canonical_pass = MatchContext::new_basic(
        "alpha",
        "alpha",
        Some("builder"),
        Some("builder"),
        None,
        Some("OpenSSH_9.5p1"),
        true,
        true,
    );
    let non_canonical_pass = MatchContext::new_basic(
        "alpha",
        "alpha",
        Some("builder"),
        Some("builder"),
        None,
        Some("OpenSSH_9.5p1"),
        false,
        true,
    );

    assert!(match_block_applies(&blocks[0], &canonical_pass).unwrap());
    assert!(!match_block_applies(&blocks[0], &non_canonical_pass).unwrap());
}

#[test]
fn version_criteria_use_current_context() {
    let blocks = extract_match_blocks(
        "\
Match version OpenSSH_for_Windows_* !version OpenSSH_for_Windows_8.*
  ForwardAgent no
",
    );

    assert_eq!(blocks.len(), 1);
    let matching = MatchContext::new_basic(
        "alpha",
        "alpha",
        Some("builder"),
        Some("builder"),
        None,
        Some("OpenSSH_for_Windows_9.5p1"),
        false,
        true,
    );
    let wrong_version = MatchContext::new_basic(
        "alpha",
        "alpha",
        Some("builder"),
        Some("builder"),
        None,
        Some("OpenSSH_for_Windows_8.9p1"),
        false,
        true,
    );

    assert!(match_block_applies(&blocks[0], &matching).unwrap());
    assert!(!match_block_applies(&blocks[0], &wrong_version).unwrap());
    assert!(block_uses_ssh_version(&blocks[0]));
}

#[test]
fn command_and_sessiontype_criteria_use_current_context() {
    let blocks = extract_match_blocks(
        "\
Match command \"git status\" sessiontype shell
  ForwardAgent no

Match command \"\" sessiontype exec
  ProxyJump jump-box
",
    );

    assert_eq!(blocks.len(), 2);
    let matching = MatchContext::new(
        "alpha",
        "alpha",
        Some("builder"),
        Some("builder"),
        None,
        Some("OpenSSH_9.5p1"),
        Some("shell"),
        Some("git status"),
        &[],
        false,
        true,
    );
    let wrong_command = MatchContext::new(
        "alpha",
        "alpha",
        Some("builder"),
        Some("builder"),
        None,
        Some("OpenSSH_9.5p1"),
        Some("shell"),
        Some("git fetch"),
        &[],
        false,
        true,
    );
    let wrong_session = MatchContext::new(
        "alpha",
        "alpha",
        Some("builder"),
        Some("builder"),
        None,
        Some("OpenSSH_9.5p1"),
        Some("exec"),
        Some("git status"),
        &[],
        false,
        true,
    );
    let exec_without_command = MatchContext::new(
        "alpha",
        "alpha",
        Some("builder"),
        Some("builder"),
        None,
        Some("OpenSSH_9.5p1"),
        Some("exec"),
        None,
        &[],
        false,
        true,
    );

    assert!(match_block_applies(&blocks[0], &matching).unwrap());
    assert!(!match_block_applies(&blocks[0], &wrong_command).unwrap());
    assert!(!match_block_applies(&blocks[0], &wrong_session).unwrap());
    assert!(match_block_applies(&blocks[1], &exec_without_command).unwrap());
}

#[test]
fn localnetwork_criteria_use_current_context() {
    let blocks = extract_match_blocks(
        "\
Match localnetwork 192.168.1.0/24,!10.0.0.0/8
  ForwardAgent no
",
    );

    assert_eq!(blocks.len(), 1);
    let matching_networks = vec!["192.168.1.42".to_string()];
    let matching = MatchContext::new(
        "alpha",
        "alpha",
        Some("builder"),
        Some("builder"),
        None,
        Some("OpenSSH_9.5p1"),
        Some("shell"),
        Some(""),
        &matching_networks,
        false,
        true,
    );
    let blocked_networks = vec!["10.0.0.12".to_string()];
    let blocked = MatchContext::new(
        "alpha",
        "alpha",
        Some("builder"),
        Some("builder"),
        None,
        Some("OpenSSH_9.5p1"),
        Some("shell"),
        Some(""),
        &blocked_networks,
        false,
        true,
    );
    let missing = MatchContext::new(
        "alpha",
        "alpha",
        Some("builder"),
        Some("builder"),
        None,
        Some("OpenSSH_9.5p1"),
        Some("shell"),
        Some(""),
        &[],
        false,
        true,
    );

    assert!(match_block_applies(&blocks[0], &matching).unwrap());
    assert!(!match_block_applies(&blocks[0], &blocked).unwrap());
    assert!(!match_block_applies(&blocks[0], &missing).unwrap());
}

#[test]
fn localnetwork_detection_parses_ipconfig_output() {
    let values = extract_local_networks_from_output(
        "ipconfig",
        "\
Windows IP Configuration

Ethernet adapter Ethernet:
   IPv4 Address. . . . . . . . . . . : 192.168.1.42
   Link-local IPv6 Address . . . . . : fe80::1111:2222:3333:4444%4
   Default Gateway . . . . . . . . . : 192.168.1.1
",
    );

    assert_eq!(
        values,
        vec![
            "192.168.1.42".to_string(),
            "fe80::1111:2222:3333:4444".to_string()
        ]
    );
}

#[test]
fn localnetwork_detection_parses_ip_addr_output() {
    let values = extract_local_networks_from_output(
        "ip",
        "\
2: eth0    inet 192.168.56.10/24 brd 192.168.56.255 scope global dynamic eth0
2: eth0    inet6 fe80::a00:27ff:fe4e:66a1/64 scope link
",
    );

    assert_eq!(
        values,
        vec![
            "192.168.56.10".to_string(),
            "fe80::a00:27ff:fe4e:66a1".to_string()
        ]
    );
}

#[test]
fn localnetwork_detection_parses_ifconfig_output() {
    let values = extract_local_networks_from_output(
        "ifconfig",
        "\
eth0: flags=4163<UP,BROADCAST,RUNNING,MULTICAST>  mtu 1500
    inet 10.0.2.15  netmask 255.255.255.0  broadcast 10.0.2.255
    inet6 fe80::a00:27ff:fe4e:66a1  prefixlen 64  scopeid 0x20<link>
lo: flags=73<UP,LOOPBACK,RUNNING>  mtu 65536
    inet 127.0.0.1  netmask 255.0.0.0
",
    );

    assert_eq!(
        values,
        vec![
            "10.0.2.15".to_string(),
            "fe80::a00:27ff:fe4e:66a1".to_string()
        ]
    );
}

#[test]
fn tagged_criteria_use_current_tag_context_and_support_empty_string() {
    let blocks = extract_match_blocks(
        "\
Match tagged ops
  ForwardAgent no

Match tagged \"\"
  ProxyJump jump-box
",
    );

    assert_eq!(blocks.len(), 2);
    let tagged = MatchContext::new_basic(
        "alpha",
        "alpha",
        Some("builder"),
        Some("builder"),
        Some("ops"),
        Some("OpenSSH_9.5p1"),
        false,
        true,
    );
    let untagged = MatchContext::new_basic(
        "alpha",
        "alpha",
        Some("builder"),
        Some("builder"),
        None,
        Some("OpenSSH_9.5p1"),
        false,
        true,
    );

    assert!(match_block_applies(&blocks[0], &tagged).unwrap());
    assert!(!match_block_applies(&blocks[0], &untagged).unwrap());
    assert!(!match_block_applies(&blocks[1], &tagged).unwrap());
    assert!(match_block_applies(&blocks[1], &untagged).unwrap());
}
