use sshcfg::commands::init::{ensure_initialized, parse_root_config};
use sshcfg::commands::migrate::{
    MigrationEntryReport, MigrationPlan, build_migrated_entry_reports, plan_root_migration,
};
use sshcfg::config::model::{HostEntry, ManagedEntry};
use sshcfg::config::store::{EntryFile, load_managed_entries, rewrite_entries, save_entry};
use sshcfg::layout::{MANAGED_BLOCK_START, managed_block};

const DIR: &str = "/home/demo/.ssh/config.d";

fn load(entries: &[ManagedEntry]) -> Vec<ManagedEntry> {
    let files: Vec<EntryFile> = entries
        .iter()
        .map(|item| EntryFile {
            path: item.path.clone(),
            content: item.raw_content.clone(),
        })
        .collect();
    load_managed_entries(&files, false).unwrap()
}

/// What migrating came to: the plan, the reports, and the entries as they are read afterwards.
struct Migrated {
    plan: MigrationPlan,
    migrated_entries: Vec<MigrationEntryReport>,
    entries: Vec<ManagedEntry>,
}

fn migrate(root: &str, entries: &[ManagedEntry]) -> Migrated {
    let plan = plan_root_migration(root, entries, "\n").unwrap();
    let rewritten = rewrite_entries(DIR, &plan.ordered_entries, false).unwrap();
    let entries = load(&rewritten);
    let migrated_entries = build_migrated_entry_reports(&plan.migrated_entries, &entries).unwrap();
    Migrated {
        plan,
        migrated_entries,
        entries,
    }
}

fn host_entry(host: &str) -> HostEntry {
    HostEntry {
        host_patterns: vec![host.to_string()],
        hostname: Some(format!("{host}.example.com")),
        ..HostEntry::default()
    }
}

#[test]
fn migrate_moves_safe_host_blocks_and_keeps_unsupported_content() {
    let before = "\
ServerAliveInterval 30

Host alpha
  HostName alpha.example.com
  User root

Host broken
  User root

Match user ops
  PasswordAuthentication no
";

    let result = migrate(before, &[]);
    let root = &result.plan.rewritten_root;
    let entries = &result.entries;

    assert!(root.contains("ServerAliveInterval 30"));
    assert!(root.contains(MANAGED_BLOCK_START));
    assert!(!root.contains("Host alpha"));
    assert!(root.contains("Host broken"));
    assert!(root.contains("Match user ops"));
    assert_eq!(result.plan.attempted_blocks, 2);
    assert_eq!(result.plan.migrated_blocks, 1);
    assert_eq!(result.migrated_entries.len(), 1);
    assert_eq!(result.plan.skipped_blocks.len(), 1);
    assert_eq!(result.migrated_entries[0].source_start_line, 3);
    assert_eq!(result.migrated_entries[0].source_end_line, 5);
    assert_eq!(result.migrated_entries[0].host, "alpha");
    assert_eq!(result.migrated_entries[0].kind, "host");
    assert_eq!(result.migrated_entries[0].order, 10);
    assert!(
        result.migrated_entries[0].managed_path.contains("host-alpha")
    );
    assert!(result.plan.skipped_blocks[0].reason.contains("HostName"));
    assert_eq!(result.plan.skipped_blocks[0].source_start_line, 7);
    assert_eq!(result.plan.skipped_blocks[0].source_end_line, 8);
    assert_eq!(entries.len(), 1);
    assert_eq!(entries[0].entry.primary_pattern(), "alpha");
}

#[test]
fn migrate_places_root_entries_around_existing_include_anchor() {
    let managed =
        save_entry(&[], &Vec::new(), DIR, &host_entry("managed"), Some(10), "\n", false).unwrap();
    let before = format!(
            "\
Host before
  HostName before.example.com

{}

Host after
  HostName after.example.com
",
            managed_block("\n").trim_end()
        );

    let result = migrate(&before, &[managed]);
    let root = &result.plan.rewritten_root;
    let entries = &result.entries;
    let hosts: Vec<_> = entries
        .iter()
        .map(|entry| entry.entry.primary_pattern().to_string())
        .collect();

    assert!(root.contains(MANAGED_BLOCK_START));
    assert!(!root.contains("Host before"));
    assert!(!root.contains("Host after"));
    assert_eq!(result.plan.migrated_blocks, 2);
    assert_eq!(result.migrated_entries.len(), 2);
    assert_eq!(hosts, vec!["before", "managed", "after"]);
}

#[test]
fn parse_root_config_counts_single_anchor_block() {
    let parsed = parse_root_config(&managed_block("\n")).unwrap();

    assert_eq!(parsed.anchor_count, 1);
    assert_eq!(parsed.anchor_index, Some(0));
    assert_eq!(parsed.segments.len(), 1);
}

#[test]
fn ensure_initialized_moves_anchor_before_host_blocks() {
    let before = format!(
            "\
Host leftover
  HostName leftover.example.com

{}
",
            managed_block("\n").trim_end()
        );

    let (written, report) = ensure_initialized(&before, false).unwrap();
    let root = written.unwrap();

    assert!(report.include_already_present);
    assert!(report.include_written);
    assert!(root.starts_with(MANAGED_BLOCK_START));
    assert!(root.contains("Host leftover"));
}

#[test]
fn migrate_places_anchor_before_skipped_root_host_blocks() {
    let before = "\
Host duplicate
  HostName 10.0.0.1

Host duplicate
  HostName 10.0.0.2
";

    let result = migrate(before, &[]);
    let root = &result.plan.rewritten_root;

    assert_eq!(result.plan.migrated_blocks, 1);
    assert_eq!(result.plan.skipped_blocks.len(), 1);
    assert_eq!(result.plan.skipped_blocks[0].source_start_line, 4);
    assert_eq!(result.plan.skipped_blocks[0].source_end_line, 5);
    assert!(root.starts_with(MANAGED_BLOCK_START));
    assert!(root.contains("Host duplicate"));
}

#[test]
fn migrate_preserves_internal_comments_and_spacing_in_managed_file() {
    let before = "\
Host alpha
  # keep this comment
  HostName alpha.example.com

  User root
";

    let result = migrate(before, &[]);
    let entries = &result.entries;

    assert_eq!(result.plan.migrated_blocks, 1);
    assert_eq!(entries.len(), 1);
    let managed_content = entries[0].raw_content.clone();
    assert!(managed_content.contains("# keep this comment"));
    assert!(managed_content.contains("HostName alpha.example.com\n\n  User root"));
    assert_eq!(entries[0].raw_content, managed_content);
}

#[test]
fn migrate_preserves_leading_trivia_with_host_block() {
    let before = "\
ServerAliveInterval 30

# keep this comment
# and this one
Host alpha
  HostName alpha.example.com
";

    let result = migrate(before, &[]);
    let root = &result.plan.rewritten_root;
    let entries = &result.entries;
    let managed_content = entries[0].raw_content.clone();

    assert_eq!(result.plan.migrated_blocks, 1);
    assert_eq!(entries.len(), 1);
    assert!(root.contains("ServerAliveInterval 30"));
    assert!(!root.contains("# keep this comment"));
    assert!(!root.contains("# and this one"));
    assert!(managed_content.starts_with("\n# keep this comment\n# and this one\nHost alpha\n"));
    assert!(managed_content.contains("HostName alpha.example.com"));
    assert_eq!(entries[0].raw_content, managed_content);
}

#[test]
fn migrate_keeps_comments_before_match_in_root_config() {
    let before = "\
Host alpha
  HostName alpha.example.com

# comment for match
Match user ops
  PasswordAuthentication no
";

    let result = migrate(before, &[]);
    let root = &result.plan.rewritten_root;
    let entries = &result.entries;
    let managed_content = entries[0].raw_content.clone();

    assert_eq!(result.plan.migrated_blocks, 1);
    assert!(root.contains("# comment for match"));
    assert!(root.contains("Match user ops"));
    assert!(!managed_content.contains("# comment for match"));
}

#[test]
fn migrate_attaches_boundary_trivia_to_following_host_block() {
    let before = "\
Host alpha
  HostName alpha.example.com

# belongs to beta
Host beta
  HostName beta.example.com
";

    let result = migrate(before, &[]);
    let entries = &result.entries;

    assert_eq!(result.plan.migrated_blocks, 2);
    assert_eq!(entries.len(), 2);
    let alpha_content = entries[0].raw_content.clone();
    let beta_content = entries[1].raw_content.clone();

    assert!(!alpha_content.contains("# belongs to beta"));
    assert!(beta_content.starts_with("\n# belongs to beta\nHost beta\n"));
}
