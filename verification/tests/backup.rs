use std::collections::BTreeMap;

use sshcfg::backup::{
    BackupSnapshot, RestoreBackupOutcome, RestoreStep, SnapshotFacts, check_snapshot, list_backups,
    needs_backup, prune_backups_sparing, prune_old_backups, restore_backup, restore_step, retention_limit, snapshot_dirs,
    temp_file_name,
};
use sshcfg::layout::AppPaths;

/// The directories of snapshots and the files, by their paths.
struct Disk {
    paths: AppPaths,
    dirs: Vec<String>,
    files: BTreeMap<String, String>,
}

impl Disk {
    fn new() -> Disk {
        Disk {
            paths: AppPaths::discover("/home/demo", false),
            dirs: Vec::new(),
            files: BTreeMap::new(),
        }
    }

    fn add_snapshot(&mut self, label: &str) -> String {
        let dir = format!("{}/{label}", self.paths.backups_dir);
        self.dirs.push(dir.clone());
        dir
    }

    fn write(&mut self, path: String, content: &str) {
        self.files.insert(path, content.to_string());
    }

    fn below(&self, dir: &str) -> Vec<(String, String)> {
        let prefix = format!("{dir}/");
        self.files
            .iter()
            .filter(|(path, _)| path.starts_with(&prefix))
            .map(|(path, content)| (path[prefix.len()..].to_string(), content.clone()))
            .collect()
    }

    fn list(&self) -> Vec<BackupSnapshot> {
        let facts: Vec<SnapshotFacts> = self
            .dirs
            .iter()
            .map(|dir| SnapshotFacts {
                path: dir.clone(),
                has_root_config: self.files.contains_key(&format!("{dir}/config.bak")),
                managed_file_count: self.below(&format!("{dir}/config.d")).len(),
            })
            .collect();
        list_backups(&facts, false)
    }

    fn prune(&mut self, keep_latest: usize) -> Vec<String> {
        let removed = prune_old_backups(&self.dirs, keep_latest, false);
        self.dirs.retain(|dir| !removed.contains(dir));
        removed
    }

    fn prune_sparing(&mut self, spared: Option<&str>) {
        let removed = prune_backups_sparing(&self.dirs, retention_limit(), spared, false);
        self.dirs.retain(|dir| !removed.contains(dir));
        self.files
            .retain(|path, _| !removed.iter().any(|dir| path.starts_with(&format!("{dir}/"))));
    }

    fn create(&mut self, label: &str, spared: Option<&str>) -> Option<String> {
        let root = self.files.get(&self.paths.root_config).cloned();
        let managed = self.below(&self.paths.config_d_dir);
        if !needs_backup(root.is_some(), !managed.is_empty()) {
            return None;
        }
        let dir = self.add_snapshot(label);
        if let Some(content) = root {
            self.write(format!("{dir}/config.bak"), &content);
        }
        for (name, content) in managed {
            self.write(format!("{dir}/config.d/{name}"), &content);
        }
        self.prune_sparing(spared);
        Some(dir)
    }

    fn restore(&mut self, snapshot: &BackupSnapshot, label: &str) -> RestoreBackupOutcome {
        let there = self.dirs.contains(&snapshot.path);
        check_snapshot(snapshot, there, there).unwrap();
        let before = self.create(label, Some(&snapshot.path));
        let root = self.paths.root_config.clone();
        let kept = self.files.get(&format!("{}/config.bak", snapshot.path)).cloned();
        match restore_step(kept.is_some(), self.files.contains_key(&root)) {
            RestoreStep::Replace => self.write(root, &kept.unwrap()),
            RestoreStep::Remove => {
                self.files.remove(&root);
            }
            RestoreStep::Keep => {}
        }
        let dir = self.paths.config_d_dir.clone();
        let managed = self.below(&format!("{}/config.d", snapshot.path));
        let current = self.below(&dir);
        let step = restore_step(!managed.is_empty(), !current.is_empty());
        if step != RestoreStep::Keep {
            for (name, _) in current {
                self.files.remove(&format!("{dir}/{name}"));
            }
        }
        if step == RestoreStep::Replace {
            for (name, content) in managed {
                self.write(format!("{dir}/{name}"), &content);
            }
        }
        restore_backup(snapshot, there, there, before).unwrap()
    }
}

#[test]
fn lists_backups_in_descending_label_order() {
    let mut disk = Disk::new();
    disk.add_snapshot("20260421-100000-000");
    let later = disk.add_snapshot("20260421-110000-000");
    disk.write(format!("{later}/config.bak"), "Host alpha\n");
    disk.write(format!("{later}/config.d/010-host-alpha.conf"), "Host alpha\n");

    let backups = disk.list();

    assert_eq!(backups.len(), 2);
    assert_eq!(backups[0].label, "20260421-110000-000");
    assert!(backups[0].has_root_config);
    assert_eq!(backups[0].managed_file_count, 1);
    assert_eq!(backups[1].label, "20260421-100000-000");
}

#[test]
fn prunes_old_backups_beyond_limit() {
    let mut disk = Disk::new();
    for label in [
        "20260421-090000-000",
        "20260421-100000-000",
        "20260421-110000-000",
    ] {
        disk.add_snapshot(label);
    }

    let removed = disk.prune(2);
    let backups = disk.list();

    assert_eq!(removed.len(), 1);
    assert!(removed[0].ends_with("20260421-090000-000"));
    assert_eq!(backups.len(), 2);
    assert_eq!(backups[0].label, "20260421-110000-000");
    assert_eq!(backups[1].label, "20260421-100000-000");
}

#[test]
fn create_backup_keeps_only_latest_snapshots() {
    let mut disk = Disk::new();
    let root = disk.paths.root_config.clone();
    let dir = disk.paths.config_d_dir.clone();
    disk.write(root, "Host alpha\n");
    disk.write(
        format!("{dir}/010-host-alpha.conf"),
        "Host alpha\n  HostName alpha.example.com\n",
    );

    for index in 0..retention_limit() {
        disk.add_snapshot(&format!("20000101-0000{:02}-000", index));
    }

    let created = disk.create("20260421-120000-000", None).unwrap();
    let backups = disk.list();

    assert_eq!(backups.len(), retention_limit());
    assert_eq!(backups[0].path, created);
    assert!(
        backups
            .iter()
            .all(|snapshot| snapshot.label != "20000101-000000-000")
    );
}

#[test]
fn restore_backup_replaces_current_files_and_captures_pre_restore_snapshot() {
    let mut disk = Disk::new();
    let root = disk.paths.root_config.clone();
    let dir = disk.paths.config_d_dir.clone();
    disk.write(root.clone(), "Host current\n");
    disk.write(
        format!("{dir}/010-host-current.conf"),
        "Host current\n  HostName current.example.com\n",
    );
    let snapshot_dir = disk.add_snapshot("20260421-120000-000");
    disk.write(format!("{snapshot_dir}/config.bak"), "Host restored\n");
    disk.write(
        format!("{snapshot_dir}/config.d/010-host-restored.conf"),
        "Host restored\n  HostName restored.example.com\n",
    );

    let outcome = disk.restore(
        &BackupSnapshot {
            path: snapshot_dir.clone(),
            label: "20260421-120000-000".to_string(),
            has_root_config: true,
            managed_file_count: 1,
        },
        "20260421-130000-000",
    );

    assert_eq!(outcome.restored_snapshot.label, "20260421-120000-000");
    assert_eq!(disk.files[&root], "Host restored\n");
    assert!(disk.files.contains_key(&format!("{dir}/010-host-restored.conf")));
    assert!(!disk.files.contains_key(&format!("{dir}/010-host-current.conf")));

    let pre_restore = outcome.pre_restore_backup_path.unwrap();
    assert_eq!(disk.files[&format!("{pre_restore}/config.bak")], "Host current\n");
    assert!(
        disk.files
            .contains_key(&format!("{pre_restore}/config.d/010-host-current.conf"))
    );
}

#[test]
fn restore_backup_removes_current_files_missing_from_snapshot() {
    let mut disk = Disk::new();
    let root = disk.paths.root_config.clone();
    let dir = disk.paths.config_d_dir.clone();
    disk.write(root.clone(), "Host current\n");
    disk.write(
        format!("{dir}/010-host-current.conf"),
        "Host current\n  HostName current.example.com\n",
    );
    let snapshot_dir = disk.add_snapshot("20260421-130000-000");

    disk.restore(
        &BackupSnapshot {
            path: snapshot_dir,
            label: "20260421-130000-000".to_string(),
            has_root_config: false,
            managed_file_count: 0,
        },
        "20260421-140000-000",
    );

    assert!(!disk.files.contains_key(&root));
    assert!(disk.below(&dir).is_empty());
}

#[test]
fn the_oldest_snapshot_is_brought_back() {
    let mut disk = Disk::new();
    let root = disk.paths.root_config.clone();
    disk.write(root.clone(), "Host current\n");
    for index in 0..retention_limit() {
        let dir = disk.add_snapshot(&format!("20000101-0000{:02}-000", index));
        disk.write(format!("{dir}/config.bak"), &format!("Host old-{index}\n"));
    }
    let oldest = disk.list().pop().unwrap();
    assert_eq!(oldest.label, "20000101-000000-000");

    let outcome = disk.restore(&oldest, "20260421-120000-000");

    assert_eq!(disk.files[&root], "Host old-0\n");
    assert!(disk.dirs.contains(&oldest.path));
    let before = outcome.pre_restore_backup_path.unwrap();
    assert_eq!(disk.files[&format!("{before}/config.bak")], "Host current\n");
    assert_eq!(
        prune_backups_sparing(&disk.dirs, retention_limit(), None, false),
        vec![oldest.path.clone()]
    );
    assert!(prune_backups_sparing(&disk.dirs, retention_limit(), Some(&oldest.path), false).is_empty());
}

#[test]
fn a_snapshot_must_be_a_directory() {
    let snapshot = BackupSnapshot {
        path: "/b/1".to_string(),
        label: "1".to_string(),
        has_root_config: false,
        managed_file_count: 0,
    };
    assert_eq!(
        check_snapshot(&snapshot, false, false).unwrap_err().message,
        "backup snapshot `/b/1` does not exist"
    );
    assert_eq!(
        restore_backup(&snapshot, true, false, None).unwrap_err().message,
        "backup snapshot `/b/1` is not a directory"
    );
    assert!(check_snapshot(&snapshot, true, true).is_ok());
}

#[test]
fn no_snapshot_is_listed_before_a_later_one() {
    let dirs: Vec<String> = ["/b/2", "/b/10", "/b/3", "/"].map(String::from).to_vec();
    assert_eq!(snapshot_dirs(&dirs, false), vec!["/", "/b/3", "/b/2", "/b/10"]);
    assert_eq!(prune_old_backups(&dirs, 3, false), vec!["/b/10"]);
    assert!(prune_old_backups(&dirs, 9, false).is_empty());
    assert!(!needs_backup(false, false));
}

#[test]
fn a_file_is_written_beside_its_target() {
    assert_eq!(temp_file_name("/home/demo/.ssh/config", "17", false), ".config.tmp-17");
    assert_eq!(temp_file_name("/", "17", false), ".tmp.tmp-17");
}
