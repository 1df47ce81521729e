use sshcfg::commands::cli::ShowArgs;
use sshcfg::commands::show::render_merged_output;
use sshcfg::config::model::{HostEntry, ManagedEntry};
use sshcfg::config::resolve::MachineFacts;
use sshcfg::config::root_config::extract_match_blocks;
use sshcfg::config::store::save_entry;
use sshcfg::error::ConfigError;

const DIR: &str = "/home/demo/.ssh/config.d";

fn save(entry: &HostEntry) -> Vec<ManagedEntry> {
    vec![save_entry(&[], &Vec::new(), DIR, entry, None, "\n", false).unwrap()]
}

fn merged(root: &str, entries: &[ManagedEntry], args: &ShowArgs) -> Result<String, ConfigError> {
    let facts = MachineFacts {
        local_user: "builder".to_string(),
        local_networks: Vec::new(),
        ssh_version: None,
    };
    render_merged_output(entries, &extract_match_blocks(root), args, &facts)
}

fn show_args(host: &str) -> ShowArgs {
    ShowArgs {
        host: host.to_string(),
        merged: true,
        match_tag: None,
        match_ssh_version: None,
        match_user: None,
        match_local_user: None,
        match_session_type: None,
        match_command: None,
        match_local_networks: Vec::new(),
        match_canonical: false,
        match_non_final: false,
    }
}

fn host_entry(host: &str) -> HostEntry {
    HostEntry {
        host_patterns: vec![host.to_string()],
        hostname: Some(format!("{host}.example.com")),
        ..HostEntry::default()
    }
}

#[test]
fn merged_show_can_override_sessiontype_and_command_context() {
    let root = "Match sessiontype exec command \"git fetch\"\n  ForwardAgent no\n";
    let entries = save(&host_entry("demo"));

    let mut args = show_args("demo");
    args.match_session_type = Some("exec".to_string());
    args.match_command = Some("git fetch".to_string());
    let output = merged(root, &entries, &args).unwrap();

    assert!(output.contains("ForwardAgent no"));
    assert!(output.contains("Match sessiontype exec command \"git fetch\""));
}

#[test]
fn merged_show_can_override_tag_and_localnetwork_context() {
    let root = "\
Match tagged ops localnetwork 192.168.1.0/24
  ForwardAgent no
";
    let entries = save(&host_entry("demo"));

    let mut args = show_args("demo");
    args.match_tag = Some("ops".to_string());
    args.match_local_networks = vec!["192.168.1.42".to_string()];
    let output = merged(root, &entries, &args).unwrap();

    assert!(output.contains("ForwardAgent no"));
    assert!(output.contains("Match tagged ops localnetwork 192.168.1.0/24"));
}

#[test]
fn merged_show_can_override_localuser_context() {
    let root = "\
Match localuser ubuntu
  User local-user
";
    let entries = save(&host_entry("demo"));

    let mut args = show_args("demo");
    args.match_local_user = Some("ubuntu".to_string());
    let output = merged(root, &entries, &args).unwrap();

    assert!(output.contains("User local-user"));
    assert!(output.contains("Match localuser ubuntu"));
}

#[test]
fn merged_show_can_override_user_context() {
    let root = "\
Match user deploy
  ForwardAgent no
";
    let entries = save(&host_entry("demo"));

    let mut args = show_args("demo");
    args.match_user = Some("deploy".to_string());
    let output = merged(root, &entries, &args).unwrap();

    assert!(output.contains("ForwardAgent no"));
    assert!(output.contains("Match user deploy"));
}

#[test]
fn merged_show_can_override_version_context() {
    let root = "\
Match version FakeSSH_1.2
  ForwardAgent no
";
    let entries = save(&host_entry("demo"));

    let mut args = show_args("demo");
    args.match_ssh_version = Some("FakeSSH_1.2".to_string());
    let output = merged(root, &entries, &args).unwrap();

    assert!(output.contains("ForwardAgent no"));
    assert!(output.contains("Match version FakeSSH_1.2"));
}

#[test]
fn merged_show_can_override_canonical_and_final_context() {
    let root = "\
Match canonical
  User canonical-user
Match final
  ForwardAgent no
";
    let entries = save(&host_entry("demo"));

    let mut args = show_args("demo");
    args.match_canonical = true;
    args.match_non_final = true;
    let output = merged(root, &entries, &args).unwrap();

    assert!(output.contains("User canonical-user"));
    assert!(!output.contains("ForwardAgent no"));
    assert!(output.contains("Match canonical"));
}
