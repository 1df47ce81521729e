use sshcfg::backup;
use sshcfg::commands::doctor::{DoctorReport, collect_report};
use sshcfg::config::model::{HostEntry, ManagedEntry};
use sshcfg::config::openssh::OpenSshProbe;
use sshcfg::config::state::AppState;
use sshcfg::config::store::save_entry;
use sshcfg::layout::{AppPaths, managed_block, platform_newline};

fn report_on(root: &str, entries: &[ManagedEntry]) -> DoctorReport {
    let paths = AppPaths::discover("/home/demo", false);
    let probe = OpenSshProbe {
        version: Some("OpenSSH_9.5p1".to_string()),
        error: None,
    };
    collect_report(&paths, Some(root), entries, &AppState::default(), 0, &probe, false)
}

#[test]
fn collect_report_summarizes_layout_and_metadata_gaps() {
    let root = managed_block(platform_newline(false));

    let entry = HostEntry {
        host_patterns: vec!["alpha".to_string()],
        hostname: Some("alpha.example.com".to_string()),
        ..HostEntry::default()
    };
    let dir = "/home/demo/.ssh/config.d";
    let saved = save_entry(&[], &Vec::new(), dir, &entry, None, "\n", false).unwrap();

    let report = report_on(&root, &[saved]);

    assert_eq!(report.managed_entry_count, 1);
    assert_eq!(report.backup_snapshot_count, 0);
    assert_eq!(report.backup_retention_limit, backup::retention_limit());
    assert_eq!(report.state_version, 1);
    assert_eq!(report.metadata_entry_count, 0);
    assert_eq!(report.missing_metadata_count, 1);
    assert_eq!(report.stale_metadata_count, 0);
    assert!(report.has_managed_block);
    assert!(report.has_include_line);
    assert_eq!(report.root_match_block_count, 0);
    assert_eq!(report.root_match_unsupported_block_count, 0);
    assert!(report.root_match_unsupported_conditions.is_empty());
}

#[test]
fn collect_report_counts_root_match_blocks() {
    let root = format!(
            "{}Match user ops\n  PasswordAuthentication no\n",
            managed_block(platform_newline(false))
        );

    let report = report_on(&root, &[]);

    assert_eq!(report.root_match_block_count, 1);
}

#[test]
fn collect_report_lists_unsupported_root_match_conditions() {
    let root = format!(
            "{}Match exec \"echo hi\" host alpha\n  PasswordAuthentication no\n",
            managed_block(platform_newline(false))
        );

    let report = report_on(&root, &[]);

    assert_eq!(report.root_match_block_count, 1);
    assert_eq!(report.root_match_unsupported_block_count, 1);
    assert_eq!(
        report.root_match_unsupported_conditions,
        vec!["exec \"echo hi\"".to_string()]
    );
    assert!(report.summary().contains("unsupported root Match 1"));
}
