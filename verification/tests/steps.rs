use sshcfg::backup::RestoreStep;
use sshcfg::commands::migrate::plan_root_migration;
use sshcfg::commands::steps::{
    FileStep, delete_steps, migration_steps, restore_steps, rewrite_steps, save_steps,
    set_up_steps,
};
use sshcfg::config::model::{HostEntry, ManagedEntry};
use sshcfg::config::store::{rewrite_entries, save_entry};

const DIR: &str = "/home/demo/.ssh/config.d";
const ROOT: &str = "/home/demo/.ssh/config";

fn saved(name: &str, order: u16) -> ManagedEntry {
    let entry = HostEntry {
        host_patterns: vec![name.to_string()],
        hostname: Some(format!("{name}.example.com")),
        ..HostEntry::default()
    };
    save_entry(&[], &Vec::new(), DIR, &entry, Some(order), "\n", false).unwrap()
}

fn told(steps: &[FileStep]) -> Vec<String> {
    steps
        .iter()
        .map(|step| match step {
            FileStep::Snapshot => "snapshot".to_string(),
            FileStep::Write(path, _) => format!("write {path}"),
            FileStep::Remove(path) => format!("remove {path}"),
            FileStep::Rewrite(files) => format!("rewrite {}", files.len()),
            FileStep::RestoreRoot(step) => format!("root {step:?}"),
            FileStep::RestoreManaged(step) => format!("managed {step:?}"),
        })
        .collect()
}

#[test]
fn a_snapshot_is_taken_before_anything_is_written() {
    let a = saved("a", 10);
    assert_eq!(
        told(&set_up_steps(ROOT, &Some("x".to_string()))),
        vec!["snapshot".to_string(), format!("write {ROOT}")]
    );
    assert!(set_up_steps(ROOT, &None).is_empty());
    assert_eq!(
        told(&save_steps(&a, Some("/old.conf"))),
        vec![
            "snapshot".to_string(),
            format!("write {}", a.path),
            "remove /old.conf".to_string(),
        ]
    );
    assert_eq!(save_steps(&a, Some(&a.path)).len(), 2);
    assert_eq!(save_steps(&a, None).len(), 2);
    let both = vec![a.clone(), saved("b", 20)];
    assert_eq!(
        told(&delete_steps(&both)),
        vec![
            "snapshot".to_string(),
            format!("remove {}", both[0].path),
            format!("remove {}", both[1].path),
        ]
    );
    assert_eq!(told(&rewrite_steps(&both)), vec!["snapshot", "rewrite 2"]);
}

#[test]
fn only_what_changed_is_written_when_blocks_are_moved() {
    let before = "Host a\n  HostName x\n";
    let plan = plan_root_migration(before, &[], "\n").unwrap();
    let entries = rewrite_entries(DIR, &plan.ordered_entries, false).unwrap();
    let steps = migration_steps(ROOT, before, &plan, &entries);
    assert_eq!(
        told(&steps),
        vec!["snapshot".to_string(), format!("write {ROOT}"), "rewrite 1".to_string()]
    );
    let root = plan.rewritten_root.clone();
    let plan = plan_root_migration(&root, &entries, "\n").unwrap();
    assert!(migration_steps(ROOT, &root, &plan, &entries).is_empty());
}

#[test]
fn what_a_snapshot_lacks_is_removed() {
    assert_eq!(
        told(&restore_steps(true, true, false, true)),
        vec!["snapshot", "root Replace", "managed Remove"]
    );
    assert_eq!(
        told(&restore_steps(false, false, true, false)),
        vec!["snapshot", "root Keep", "managed Replace"]
    );
    assert!(matches!(
        restore_steps(false, true, true, true)[1],
        FileStep::RestoreRoot(RestoreStep::Remove)
    ));
}
