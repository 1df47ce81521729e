use sshcfg::commands::compare::{
    algorithm_value_matches, normalize_forward_agent_value, normalize_local_forward_value,
    normalize_path_list_value, normalize_remote_forward_value,
};
use sshcfg::commands::ssh_check::{
    TargetOutcome, TargetPlan, TargetRuns, collect_external_ssh_report, exact_target_names,
    plan_target, synthetic_ssh_config, wants_targets,
};
use sshcfg::commands::validate::{ExternalSshReport, ValidationReport, collect_report};
use sshcfg::config::match_header::RootMatchBlock;
use sshcfg::config::model::{HostEntry, ManagedEntry};
use sshcfg::config::openssh::{
    OpenSshProbe, SshResolvedConfig, normalize_match_version_string, parse_ssh_g_output,
};
use sshcfg::config::resolve::MachineFacts;
use sshcfg::config::root_config;
use sshcfg::config::store::{EntryFile, load_managed_entries, save_entry};
use sshcfg::error::ConfigError;
use sshcfg::layout::{AppPaths, managed_block, platform_newline};

/// The files of a user: the root config and the managed entries.
struct Files {
    paths: AppPaths,
    root: Option<String>,
    entries: Vec<ManagedEntry>,
}

impl Files {
    fn new() -> Files {
        Files {
            paths: AppPaths::discover("/home/demo", false),
            root: None,
            entries: Vec::new(),
        }
    }

    fn save(&mut self, entry: &HostEntry, order: Option<u16>) {
        let paths: Vec<String> = self.entries.iter().map(|item| item.path.clone()).collect();
        let dir = self.paths.config_d_dir.clone();
        let saved = save_entry(&self.entries, &paths, &dir, entry, order, "\n", false).unwrap();
        self.entries.push(saved);
    }

    fn load(&self) -> Vec<ManagedEntry> {
        let files: Vec<EntryFile> = self
            .entries
            .iter()
            .map(|item| EntryFile {
                path: item.path.clone(),
                content: item.raw_content.clone(),
            })
            .collect();
        load_managed_entries(&files, false).unwrap()
    }

    fn report(&self) -> ValidationReport {
        collect_report(&self.paths, self.root.as_deref(), &self.load(), None)
    }
}

/// Asks the client, for which `run` stands, for each target, and puts the report together.
fn check<F>(
    files: &Files,
    entries: &[ManagedEntry],
    issues: &mut Vec<String>,
    probe: OpenSshProbe,
    run: F,
) -> ExternalSshReport
where
    F: Fn(&str, &str) -> Result<SshResolvedConfig, ConfigError>,
{
    let root_exists = files.root.is_some();
    let blocks: Vec<RootMatchBlock> = match &files.root {
        Some(content) => root_config::extract_match_blocks(content),
        None => Vec::new(),
    };
    let facts = MachineFacts {
        local_user: "builder".to_string(),
        local_networks: Vec::new(),
        ssh_version: probe.version.as_deref().and_then(normalize_match_version_string),
    };
    let mut outcomes: Vec<(String, TargetOutcome)> = Vec::new();
    if wants_targets(&probe, entries, root_exists) {
        for target in exact_target_names(entries) {
            let outcome = match plan_target(entries, &target, &blocks, &facts) {
                TargetPlan::Unresolved(issue) => TargetOutcome::Unresolved(issue),
                TargetPlan::Invalid => TargetOutcome::Invalid,
                TargetPlan::Check(preview) => {
                    let root = run(&files.paths.root_config, &target);
                    let managed = run(&files.paths.managed_config_path(false), &target);
                    let matched = if blocks.is_empty() {
                        None
                    } else {
                        Some(run(&files.paths.managed_match_config_path(false), &target))
                    };
                    TargetOutcome::Checked(
                        preview,
                        TargetRuns {
                            root,
                            managed: Some(managed),
                            matched,
                        },
                    )
                }
            };
            outcomes.push((target, outcome));
        }
    }
    let (report, found) = collect_external_ssh_report(
        entries,
        &probe,
        root_exists,
        Vec::new(),
        &outcomes,
        "/home/demo",
        false,
    );
    issues.extend(found);
    report
}

#[test]
fn collect_report_flags_missing_include_and_invalid_entry() {
    let mut files = Files::new();
    files.root = Some("Host manual\n  User root\n".to_string());

    let entry = HostEntry {
        host_patterns: vec!["alpha".to_string()],
        ..HostEntry::default()
    };
    files.save(&entry, None);

    let report = files.report();

    assert_eq!(report.managed_entry_count, 1);
    assert!(report.root_config_exists);
    assert!(!report.has_managed_block);
    assert!(!report.has_include_line);
    assert_eq!(report.issues.len(), 2);
    assert!(
        report
            .issues
            .iter()
            .any(|issue| issue.contains("missing `Include ~/.ssh/config.d/*`"))
    );
    assert!(
        report
            .issues
            .iter()
            .any(|issue| issue.contains("HostName is required"))
    );
}

#[test]
fn collect_report_accepts_managed_block_without_issues() {
    let mut files = Files::new();
    files.root = Some(managed_block(platform_newline(false)));

    let entry = HostEntry {
        host_patterns: vec!["alpha".to_string()],
        hostname: Some("alpha.example.com".to_string()),
        ..HostEntry::default()
    };
    files.save(&entry, None);

    let report = files.report();

    assert!(report.is_ok());
    assert_eq!(report.managed_entry_count, 1);
    assert!(report.root_config_exists);
    assert!(report.has_managed_block);
    assert!(report.has_include_line);
    assert!(report.external_ssh.is_none());
}

#[test]
fn collect_report_counts_root_match_blocks_in_summary() {
    let mut files = Files::new();
    files.root = Some(format!(
            "{}Match user ops\n  PasswordAuthentication no\n",
            managed_block(platform_newline(false))
        ));

    let entry = HostEntry {
        host_patterns: vec!["alpha".to_string()],
        hostname: Some("alpha.example.com".to_string()),
        ..HostEntry::default()
    };
    files.save(&entry, None);

    let report = files.report();

    assert!(report.is_ok());
    assert_eq!(report.root_match_block_count, 1);
    assert!(report.summary().contains("root Match blocks 1"));
}

#[test]
fn external_ssh_report_captures_mismatches_for_exact_hosts_only() {
    let mut files = Files::new();
    files.root = Some(managed_block(platform_newline(false)));

    let pattern = HostEntry {
        host_patterns: vec!["demo-*".to_string()],
        user: Some("builder".to_string()),
        ..HostEntry::default()
    };
    files.save(&pattern, None);

    let exact = HostEntry {
        host_patterns: vec!["demo-1".to_string()],
        hostname: Some("demo-1.example.com".to_string()),
        forward_agent: Some("no".to_string()),
        ..HostEntry::default()
    };
    files.save(&exact, Some(20));

    let entries = files.load();
    let mut issues = Vec::new();
    let report = check(
        &files,
        &entries,
        &mut issues,
        OpenSshProbe {
            version: Some("OpenSSH_9.5p1".to_string()),
            error: None,
        },
        |_, target| {
            assert_eq!(target, "demo-1");
            parse_ssh_g_output(
                "hostname demo-1.example.com\nuser builder\nport 22\nforwardagent yes\n",
            )
        },
    );

    assert!(report.ssh_available);
    assert_eq!(report.checked_target_count, 1);
    assert_eq!(report.skipped_pattern_count, 1);
    assert_eq!(report.skipped_invalid_target_count, 0);
    assert_eq!(report.root_influenced_mismatch_count, 0);
    assert_eq!(report.managed_semantic_mismatch_count, 1);
    assert!(
        issues
            .iter()
            .any(|issue| issue.contains("ForwardAgent expected `no`, got `yes`"))
    );
    assert!(
        issues
            .iter()
            .any(|issue| issue.contains("managed merge/render semantics likely differ"))
    );
}

#[test]
fn external_ssh_report_explains_ignored_later_scalar_assignment() {
    let mut files = Files::new();
    files.root = Some(managed_block(platform_newline(false)));

    let pattern = HostEntry {
        host_patterns: vec!["demo-*".to_string()],
        user: Some("builder".to_string()),
        ..HostEntry::default()
    };
    files.save(&pattern, None);

    let exact = HostEntry {
        host_patterns: vec!["demo-1".to_string()],
        hostname: Some("demo-1.example.com".to_string()),
        user: Some("root".to_string()),
        ..HostEntry::default()
    };
    files.save(&exact, Some(20));

    let entries = files.load();
    let mut issues = Vec::new();
    let report = check(
        &files,
        &entries,
        &mut issues,
        OpenSshProbe {
            version: Some("OpenSSH_9.5p1".to_string()),
            error: None,
        },
        |_, target| {
            assert_eq!(target, "demo-1");
            parse_ssh_g_output(
                "hostname demo-1.example.com\nuser root\nport 22\nforwardagent no\n",
            )
        },
    );

    assert_eq!(report.checked_target_count, 1);
    assert_eq!(report.managed_semantic_mismatch_count, 1);
    assert!(issues.iter().any(|issue| {
        issue.contains("ssh -G note for `demo-1`: User later value seems to win under ssh -G")
    }));
}

#[test]
fn external_ssh_report_checks_remote_forward_from_extra_options() {
    let mut files = Files::new();
    files.root = Some(managed_block(platform_newline(false)));

    let entry = HostEntry {
        host_patterns: vec!["alpha".to_string()],
        hostname: Some("alpha.example.com".to_string()),
        extra_options: vec![("RemoteForward".to_string(), "8080 127.0.0.1:80".to_string())],
        ..HostEntry::default()
    };
    files.save(&entry, None);

    let entries = files.load();
    let mut issues = Vec::new();
    let report = check(
        &files,
        &entries,
        &mut issues,
        OpenSshProbe {
            version: Some("OpenSSH_9.5p1".to_string()),
            error: None,
        },
        |_, target| {
            assert_eq!(target, "alpha");
            parse_ssh_g_output(
                "hostname alpha.example.com\nuser demo\nport 22\nremoteforward 8080 [127.0.0.1]:80\n",
            )
        },
    );

    assert_eq!(report.checked_target_count, 1);
    assert!(issues.is_empty(), "{issues:?}");
}

#[test]
fn external_ssh_report_checks_remote_forward_first_class_field() {
    let mut files = Files::new();
    files.root = Some(managed_block(platform_newline(false)));

    let entry = HostEntry {
        host_patterns: vec!["alpha".to_string()],
        hostname: Some("alpha.example.com".to_string()),
        remote_forwards: vec!["9090 /tmp/agent.sock".to_string()],
        ..HostEntry::default()
    };
    files.save(&entry, None);

    let entries = files.load();
    let mut issues = Vec::new();
    let report = check(
        &files,
        &entries,
        &mut issues,
        OpenSshProbe {
            version: Some("OpenSSH_9.5p1".to_string()),
            error: None,
        },
        |_, target| {
            assert_eq!(target, "alpha");
            parse_ssh_g_output(
                "hostname alpha.example.com\nuser demo\nport 22\nremoteforward 9090 /tmp/agent.sock\n",
            )
        },
    );

    assert_eq!(report.checked_target_count, 1);
    assert!(issues.is_empty(), "{issues:?}");
}

#[test]
fn external_ssh_report_flags_remote_forward_mismatch() {
    let mut files = Files::new();
    files.root = Some(managed_block(platform_newline(false)));

    let entry = HostEntry {
        host_patterns: vec!["alpha".to_string()],
        hostname: Some("alpha.example.com".to_string()),
        extra_options: vec![("RemoteForward".to_string(), "8080 127.0.0.1:80".to_string())],
        ..HostEntry::default()
    };
    files.save(&entry, None);

    let entries = files.load();
    let mut issues = Vec::new();
    let report = check(
        &files,
        &entries,
        &mut issues,
        OpenSshProbe {
            version: Some("OpenSSH_9.5p1".to_string()),
            error: None,
        },
        |_, target| {
            assert_eq!(target, "alpha");
            parse_ssh_g_output(
                "hostname alpha.example.com\nuser demo\nport 22\nremoteforward 9090 127.0.0.1:80\n",
            )
        },
    );

    assert_eq!(report.checked_target_count, 1);
    assert_eq!(report.managed_semantic_mismatch_count, 1);
    assert!(
        issues
            .iter()
            .any(|issue| issue.contains("RemoteForward expected `8080 127.0.0.1:80`"))
    );
}

#[test]
fn external_ssh_report_attributes_root_global_influence() {
    let mut files = Files::new();
    files.root = Some(managed_block(platform_newline(false)));

    let entry = HostEntry {
        host_patterns: vec!["alpha".to_string()],
        hostname: Some("alpha.example.com".to_string()),
        forward_agent: Some("no".to_string()),
        ..HostEntry::default()
    };
    files.save(&entry, None);

    let entries = files.load();
    let mut issues = Vec::new();
    let report = check(
        &files,
        &entries,
        &mut issues,
        OpenSshProbe {
            version: Some("OpenSSH_9.5p1".to_string()),
            error: None,
        },
        |config_path, target| {
            assert_eq!(target, "alpha");
            if config_path == files.paths.root_config {
                parse_ssh_g_output(
                    "hostname alpha.example.com\nuser root\nport 22\nforwardagent yes\n",
                )
            } else {
                parse_ssh_g_output(
                    "hostname alpha.example.com\nuser root\nport 22\nforwardagent no\n",
                )
            }
        },
    );

    assert_eq!(report.checked_target_count, 1);
    assert_eq!(report.root_influenced_mismatch_count, 1);
    assert_eq!(report.managed_semantic_mismatch_count, 0);
    assert!(
        issues
            .iter()
            .any(|issue| issue.contains("root/global config likely changes this field"))
    );
}

#[test]
fn external_ssh_report_attributes_root_match_influence() {
    let mut files = Files::new();
    files.root = Some(format!(
            "{}Match host alpha
  ForwardAgent yes
",
            managed_block(platform_newline(false))
        ));

    let entry = HostEntry {
        host_patterns: vec!["alpha".to_string()],
        hostname: Some("alpha.example.com".to_string()),
        forward_agent: Some("no".to_string()),
        ..HostEntry::default()
    };
    files.save(&entry, None);

    let entries = files.load();
    let mut issues = Vec::new();
    let report = check(
        &files,
        &entries,
        &mut issues,
        OpenSshProbe {
            version: Some("OpenSSH_9.5p1".to_string()),
            error: None,
        },
        |config_path, target| {
            assert_eq!(target, "alpha");
            if config_path == files.paths.root_config
                || config_path == files.paths.managed_match_config_path(false)
            {
                parse_ssh_g_output(
                    "hostname alpha.example.com\nuser root\nport 22\nforwardagent yes\n",
                )
            } else {
                parse_ssh_g_output(
                    "hostname alpha.example.com\nuser root\nport 22\nforwardagent no\n",
                )
            }
        },
    );

    assert_eq!(report.checked_target_count, 1);
    assert_eq!(report.root_match_influenced_mismatch_count, 1);
    assert_eq!(report.root_influenced_mismatch_count, 0);
    assert_eq!(report.managed_semantic_mismatch_count, 0);
    assert!(
        issues
            .iter()
            .any(|issue| { issue.contains("root Match blocks likely change this field") })
    );
}

#[test]
fn external_ssh_report_uses_supported_root_match_in_expected_preview() {
    let mut files = Files::new();
    files.root = Some(format!(
            "{}Match host demo.example.com\n  ForwardAgent no\n",
            managed_block(platform_newline(false))
        ));

    let entry = HostEntry {
        host_patterns: vec!["demo".to_string()],
        hostname: Some("demo.example.com".to_string()),
        ..HostEntry::default()
    };
    files.save(&entry, None);

    let entries = files.load();
    let mut issues = Vec::new();
    let report = check(
        &files,
        &entries,
        &mut issues,
        OpenSshProbe {
            version: Some("OpenSSH_9.5p1".to_string()),
            error: None,
        },
        |config_path, target| {
            assert_eq!(target, "demo");
            if config_path == files.paths.managed_config_path(false) {
                parse_ssh_g_output("hostname demo.example.com\nforwardagent yes\n")
            } else {
                parse_ssh_g_output("hostname demo.example.com\nforwardagent no\n")
            }
        },
    );

    assert_eq!(report.checked_target_count, 1);
    assert_eq!(report.root_match_influenced_mismatch_count, 0);
    assert_eq!(report.managed_semantic_mismatch_count, 0);
    assert!(issues.is_empty(), "{issues:?}");
}

#[test]
fn external_ssh_report_uses_supported_root_match_version_in_expected_preview() {
    let mut files = Files::new();
    files.root = Some(format!(
            "{}Match version OpenSSH_for_Windows_*\n  ForwardAgent no\n",
            managed_block(platform_newline(false))
        ));

    let entry = HostEntry {
        host_patterns: vec!["demo".to_string()],
        hostname: Some("demo.example.com".to_string()),
        ..HostEntry::default()
    };
    files.save(&entry, None);

    let entries = files.load();
    let mut issues = Vec::new();
    let report = check(
        &files,
        &entries,
        &mut issues,
        OpenSshProbe {
            version: Some("OpenSSH_for_Windows_9.5p1, LibreSSL 3.8.2".to_string()),
            error: None,
        },
        |config_path, target| {
            assert_eq!(target, "demo");
            if config_path == files.paths.managed_config_path(false) {
                parse_ssh_g_output("hostname demo.example.com\nforwardagent yes\n")
            } else {
                parse_ssh_g_output("hostname demo.example.com\nforwardagent no\n")
            }
        },
    );

    assert_eq!(report.checked_target_count, 1);
    assert_eq!(report.root_match_influenced_mismatch_count, 0);
    assert_eq!(report.managed_semantic_mismatch_count, 0);
    assert!(issues.is_empty(), "{issues:?}");
}

#[test]
fn external_ssh_report_uses_supported_root_match_tagged_in_expected_preview() {
    let mut files = Files::new();
    files.root = Some(format!(
            "{}Match tagged ops\n  ForwardAgent no\n",
            managed_block(platform_newline(false))
        ));

    let entry = HostEntry {
        host_patterns: vec!["demo".to_string()],
        hostname: Some("demo.example.com".to_string()),
        tag: Some("ops".to_string()),
        ..HostEntry::default()
    };
    files.save(&entry, None);

    let entries = files.load();
    let mut issues = Vec::new();
    let report = check(
        &files,
        &entries,
        &mut issues,
        OpenSshProbe {
            version: Some("OpenSSH_9.5p1".to_string()),
            error: None,
        },
        |config_path, target| {
            assert_eq!(target, "demo");
            if config_path == files.paths.managed_config_path(false) {
                parse_ssh_g_output("hostname demo.example.com\nforwardagent yes\n")
            } else if config_path == files.paths.managed_match_config_path(false) {
                parse_ssh_g_output("hostname demo.example.com\nforwardagent no\n")
            } else {
                parse_ssh_g_output("hostname demo.example.com\nforwardagent no\n")
            }
        },
    );

    assert_eq!(report.checked_target_count, 1);
    assert_eq!(report.root_match_influenced_mismatch_count, 0);
    assert_eq!(report.managed_semantic_mismatch_count, 0);
    assert!(issues.is_empty(), "{issues:?}");
}

#[test]
fn synthetic_config_preserves_root_match_order_around_managed_entries() {
    let mut files = Files::new();

    let entry = HostEntry {
        host_patterns: vec!["demo".to_string()],
        hostname: Some("demo.example.com".to_string()),
        ..HostEntry::default()
    };
    files.save(&entry, None);
    let entries = files.load();
    let root_match_blocks = root_config::extract_match_blocks(&format!(
        "Match all\n  User root\n{}Match final\n  ForwardAgent no\n",
        managed_block(platform_newline(false))
    ));

    let content = synthetic_ssh_config(&entries, &root_match_blocks, platform_newline(false));
    let pre_anchor_index = content.find("Match all").unwrap();
    let host_index = content.find("Host demo").unwrap();
    let post_anchor_index = content.find("Match final").unwrap();

    assert!(pre_anchor_index < host_index);
    assert!(host_index < post_anchor_index);
}

#[test]
fn external_ssh_report_treats_proxyjump_none_as_absent() {
    let mut files = Files::new();
    files.root = Some(managed_block(platform_newline(false)));

    let entry = HostEntry {
        host_patterns: vec!["alpha".to_string()],
        hostname: Some("alpha.example.com".to_string()),
        proxy_jump: Some("none".to_string()),
        ..HostEntry::default()
    };
    files.save(&entry, None);

    let entries = files.load();
    let mut issues = Vec::new();
    let report = check(
        &files,
        &entries,
        &mut issues,
        OpenSshProbe {
            version: Some("OpenSSH_9.5p1".to_string()),
            error: None,
        },
        |_, target| {
            assert_eq!(target, "alpha");
            parse_ssh_g_output("hostname alpha.example.com\nuser demo\nport 22\n")
        },
    );

    assert_eq!(report.checked_target_count, 1);
    assert!(issues.is_empty(), "{issues:?}");
}

#[test]
fn external_ssh_report_normalizes_user_known_hosts_path_lists() {
    let mut files = Files::new();
    files.root = Some(managed_block(platform_newline(false)));

    let entry = HostEntry {
        host_patterns: vec!["alpha".to_string()],
        hostname: Some("alpha.example.com".to_string()),
        user_known_hosts_file: Some("~/.ssh/known_hosts ~/.ssh/known_hosts2".to_string()),
        ..HostEntry::default()
    };
    files.save(&entry, None);

    let entries = files.load();
    let home_dir = "/home/demo";
    let path_list =
        normalize_path_list_value("~/.ssh/known_hosts ~/.ssh/known_hosts2", home_dir, false).join(" ");
    let mut issues = Vec::new();
    let report = check(
        &files,
        &entries,
        &mut issues,
        OpenSshProbe {
            version: Some("OpenSSH_9.5p1".to_string()),
            error: None,
        },
        |_, target| {
            assert_eq!(target, "alpha");
            parse_ssh_g_output(&format!(
                "hostname alpha.example.com\nuser demo\nport 22\nuserknownhostsfile {path_list}\n"
            ))
        },
    );

    assert_eq!(report.checked_target_count, 1);
    assert!(issues.is_empty(), "{issues:?}");
}

#[test]
fn external_ssh_report_surfaces_missing_ssh_binary() {
    let mut files = Files::new();
    files.root = Some(managed_block(platform_newline(false)));

    let entry = HostEntry {
        host_patterns: vec!["alpha".to_string()],
        hostname: Some("alpha.example.com".to_string()),
        ..HostEntry::default()
    };
    files.save(&entry, None);

    let entries = files.load();
    let mut issues = Vec::new();
    let report = check(
        &files,
        &entries,
        &mut issues,
        OpenSshProbe {
            version: None,
            error: Some("failed to launch `ssh -V`".to_string()),
        },
        |_, _| unreachable!("runner should not be called when ssh is unavailable"),
    );

    assert!(!report.ssh_available);
    assert_eq!(report.checked_target_count, 0);
    assert!(
        issues
            .iter()
            .any(|issue| issue
                .contains("ssh -G checks requested but OpenSSH ssh is unavailable"))
    );
}

#[test]
fn external_ssh_report_skips_work_when_root_config_is_missing() {
    let mut files = Files::new();

    let entry = HostEntry {
        host_patterns: vec!["alpha".to_string()],
        hostname: Some("alpha.example.com".to_string()),
        ..HostEntry::default()
    };
    files.save(&entry, None);

    let entries = files.load();
    let mut issues = Vec::new();
    let report = check(
        &files,
        &entries,
        &mut issues,
        OpenSshProbe {
            version: Some("OpenSSH_for_Windows_9.5p1, LibreSSL 3.8.2".to_string()),
            error: None,
        },
        |_, _| unreachable!("runner should not be called when root config is missing"),
    );

    assert_eq!(report.checked_target_count, 0);
    assert_eq!(report.skipped_pattern_count, 0);
    assert!(issues.is_empty(), "{issues:?}");
}

#[test]
fn external_ssh_report_skips_synthetic_setup_when_only_patterns_exist() {
    let mut files = Files::new();
    files.root = Some(managed_block(platform_newline(false)));

    let entry = HostEntry {
        host_patterns: vec!["demo-*".to_string()],
        user: Some("builder".to_string()),
        ..HostEntry::default()
    };
    files.save(&entry, None);

    let entries = files.load();
    let mut issues = Vec::new();
    let report = check(
        &files,
        &entries,
        &mut issues,
        OpenSshProbe {
            version: Some("OpenSSH_9.5p1".to_string()),
            error: None,
        },
        |_, _| unreachable!("runner should not be called for pattern-only entries"),
    );

    assert_eq!(report.checked_target_count, 0);
    assert_eq!(report.skipped_pattern_count, 1);
    assert!(issues.is_empty(), "{issues:?}");
}

#[test]
fn algorithm_value_matches_supports_modifier_semantics() {
    assert!(algorithm_value_matches("+ssh-rsa", "ssh-ed25519,ssh-rsa"));
    assert!(algorithm_value_matches(
        "-ssh-rsa",
        "ssh-ed25519,ecdsa-sha2-nistp256"
    ));
    assert!(algorithm_value_matches("^ssh-rsa", "ssh-rsa,ssh-ed25519"));
    assert!(algorithm_value_matches(
        "ssh-ed25519,ssh-rsa",
        "ssh-ed25519,ssh-rsa"
    ));
    assert!(!algorithm_value_matches("+ssh-rsa", "ssh-ed25519"));
}

#[test]
fn normalize_local_forward_value_treats_bracketed_ipv4_hostports_as_equal() {
    assert_eq!(
        normalize_local_forward_value("443 127.0.0.1:443"),
        normalize_local_forward_value("443 [127.0.0.1]:443")
    );
    assert_eq!(
        normalize_local_forward_value("18789 [localhost]:18789"),
        "18789 localhost:18789"
    );
    assert_eq!(
        normalize_local_forward_value("443 [::1]:443"),
        "443 [::1]:443"
    );
}

#[test]
fn normalize_forward_agent_value_preserves_env_and_normalizes_paths() {
    let home_dir = "C:/Users/demo";

    assert_eq!(normalize_forward_agent_value("yes", home_dir, true), "yes");
    assert_eq!(normalize_forward_agent_value("true", home_dir, true), "yes");
    assert_eq!(
        normalize_forward_agent_value("$SSH_AUTH_SOCK", home_dir, true),
        "$SSH_AUTH_SOCK"
    );
    assert_eq!(
        normalize_forward_agent_value("~/agent.sock", home_dir, true),
        "c:/users/demo/agent.sock"
    );
    assert_eq!(
        normalize_forward_agent_value("C:\\Temp\\Agent.sock", home_dir, true),
        "c:/temp/agent.sock"
    );
}

#[test]
fn normalize_remote_forward_value_normalizes_paths_and_bracketed_ipv4() {
    let home_dir = "C:/Users/demo";

    assert_eq!(
        normalize_remote_forward_value("443 [127.0.0.1]:443", home_dir, true),
        "443 127.0.0.1:443"
    );
    assert_eq!(
        normalize_remote_forward_value("9090 ~/agent.sock", home_dir, true),
        "9090 c:/users/demo/agent.sock"
    );
}
