//! Snapshots of the configuration.

#![verifier::loop_isolation(false)]

use vstd::prelude::*;

use crate::error::ConfigError;
use crate::paths::{file_name, file_name_of};
use crate::strings::{concat3, concat4, is_less, texts_without};
use crate::text::{
    lemma_text_less_total, lemma_text_less_transitive, opt, opt_str, strs, text_less, views,
    without,
};

verus! {

broadcast use crate::text::group_text;

/// A snapshot and what it holds.
#[derive(Debug, PartialEq, Eq)]
pub struct BackupSnapshot {
    pub path: String,
    pub label: String,
    pub has_root_config: bool,
    pub managed_file_count: usize,
}

/// What a [`BackupSnapshot`] holds.
#[verifier::ext_equal]
pub struct SnapshotView {
    pub path: Seq<char>,
    pub label: Seq<char>,
    pub has_root_config: bool,
    pub managed_file_count: usize,
}

impl View for BackupSnapshot {
    type V = SnapshotView;

    open spec fn view(&self) -> SnapshotView {
        SnapshotView {
            path: self.path@,
            label: self.label@,
            has_root_config: self.has_root_config,
            managed_file_count: self.managed_file_count,
        }
    }
}

impl Clone for BackupSnapshot {
    fn clone(&self) -> (r: BackupSnapshot)
        ensures
            r@ == self@,
    {
        BackupSnapshot {
            path: self.path.clone(),
            label: self.label.clone(),
            has_root_config: self.has_root_config,
            managed_file_count: self.managed_file_count,
        }
    }
}

/// A snapshot that was brought back, and the snapshot of what stood there before.
#[derive(Debug)]
pub struct RestoreBackupOutcome {
    pub restored_snapshot: BackupSnapshot,
    pub pre_restore_backup_path: Option<String>,
}

const DEFAULT_BACKUP_RETENTION: usize = 30;

/// How many snapshots are kept.
pub fn retention_limit() -> (r: usize)
    ensures
        r == 30,
{
    DEFAULT_BACKUP_RETENTION
}

/// There is something to take a snapshot of.
pub fn needs_backup(root_exists: bool, config_dir_has_files: bool) -> (r: bool)
    ensures
        r == (root_exists || config_dir_has_files),
{
    root_exists || config_dir_has_files
}

pub open spec fn label_of(path: Seq<char>, windows: bool) -> Seq<char> {
    match file_name(path, windows) {
        Some(name) => name,
        None => "<unknown>"@,
    }
}

/// The name of the directory of a snapshot.
pub fn snapshot_label(path: &str, windows: bool) -> (r: String)
    ensures
        r@ == label_of(path@, windows),
{
    match file_name_of(path, windows) {
        Some(name) => name,
        None => "<unknown>".to_owned(),
    }
}

/// What was found in the directory of a snapshot.
#[derive(Debug, PartialEq, Eq)]
pub struct SnapshotFacts {
    pub path: String,
    pub has_root_config: bool,
    pub managed_file_count: usize,
}

pub open spec fn snapshot_of(f: SnapshotFacts, windows: bool) -> SnapshotView {
    SnapshotView {
        path: f.path@,
        label: label_of(f.path@, windows),
        has_root_config: f.has_root_config,
        managed_file_count: f.managed_file_count,
    }
}

/// A snapshot put in its place in a list that has the latest label first.
pub open spec fn insert_listed(v: Seq<SnapshotView>, x: SnapshotView) -> Seq<SnapshotView>
    decreases v.len(),
{
    if v.len() > 0 && text_less(v.last().label, x.label) {
        insert_listed(v.drop_last(), x).push(v.last())
    } else {
        v.push(x)
    }
}

/// The snapshots in `dirs`, the latest label first.
pub open spec fn listed(dirs: Seq<SnapshotFacts>, windows: bool) -> Seq<SnapshotView>
    decreases dirs.len(),
{
    if dirs.len() == 0 {
        Seq::empty()
    } else {
        insert_listed(listed(dirs.drop_last(), windows), snapshot_of(dirs.last(), windows))
    }
}

#[verifier::spinoff_prover]
#[verifier::rlimit(40)]
fn insert_into_list(out: &mut Vec<BackupSnapshot>, x: BackupSnapshot)
    ensures
        views(final(out)@) == insert_listed(views(old(out)@), x@),
{
    let ghost was = views(out@);
    let mut j: usize = out.len();
    let ghost mut tail = Seq::<SnapshotView>::empty();
    assert(insert_listed(was, x@) =~= insert_listed(was.take(j as int), x@) + tail) by {
        assert(was.take(j as int) =~= was);
    }
    while j > 0 && is_less(&out[j - 1].label, &x.label)
        invariant
            j <= out@.len(),
            views(out@) == was,
            tail == was.skip(j as int),
            insert_listed(was, x@) == insert_listed(was.take(j as int), x@) + tail,
        decreases j,
    {
        proof {
            let head = was.take(j as int);
            assert(head.last() == out@[j - 1]@);
            assert(head.drop_last() =~= was.take(j - 1));
            assert(insert_listed(was.take(j - 1), x@).push(head.last()) + tail =~= insert_listed(
                was.take(j - 1),
                x@,
            ) + was.skip(j - 1));
            tail = was.skip(j - 1);
        }
        j -= 1;
    }
    proof {
        let head = was.take(j as int);
        if j > 0 {
            assert(head.last() == out@[j - 1]@);
        }
        assert(insert_listed(head, x@) == head.push(x@));
    }
    out.insert(j, x);
    assert(views(out@) =~= was.take(j as int).push(x@) + was.skip(j as int));
}

/// The snapshots by what was found in their directories, the latest label first.
pub fn list_backups(dirs: &Vec<SnapshotFacts>, windows: bool) -> (r: Vec<BackupSnapshot>)
    ensures
        views(r@) == listed(dirs@, windows),
{
    let mut r: Vec<BackupSnapshot> = Vec::new();
    let mut i: usize = 0;
    assert(views(r@) =~= Seq::<SnapshotView>::empty());
    while i < dirs.len()
        invariant
            i <= dirs.len(),
            views(r@) == listed(dirs@.take(i as int), windows),
        decreases dirs.len() - i,
    {
        let f: &SnapshotFacts = &dirs[i];
        let snapshot: BackupSnapshot = BackupSnapshot {
            path: f.path.clone(),
            label: snapshot_label(&f.path, windows),
            has_root_config: f.has_root_config,
            managed_file_count: f.managed_file_count,
        };
        insert_into_list(&mut r, snapshot);
        proof {
            assert(dirs@.take(i + 1).drop_last() =~= dirs@.take(i as int));
            assert(dirs@.take(i + 1).last() == dirs@[i as int]);
            assert(snapshot@ =~= snapshot_of(dirs@[i as int], windows));
        }
        i += 1;
    }
    assert(dirs@.take(dirs@.len() as int) =~= dirs@);
    r
}

/// Whether a snapshot can be brought back: its directory is there.
pub fn check_snapshot(snapshot: &BackupSnapshot, exists: bool, is_dir: bool) -> (r: Result<
    (),
    ConfigError,
>)
    ensures
        match r {
            Ok(_) => exists && is_dir,
            Err(e) => if !exists {
                e@ == "backup snapshot `"@ + snapshot@.path + "` does not exist"@
            } else {
                !is_dir && e@ == "backup snapshot `"@ + snapshot@.path + "` is not a directory"@
            },
        },
{
    if !exists {
        return Err(
            ConfigError::new(concat3("backup snapshot `", &snapshot.path, "` does not exist")),
        );
    }
    if !is_dir {
        return Err(
            ConfigError::new(
                concat3("backup snapshot `", &snapshot.path, "` is not a directory"),
            ),
        );
    }
    Ok(())
}

/// What is done to a file or directory when a snapshot is brought back.
#[derive(Debug, Clone, Copy, PartialEq, Eq, Structural)]
pub enum RestoreStep {
    Replace,
    Remove,
    Keep,
}

/// What the snapshot holds replaces what is there; what it does not hold is removed.
pub fn restore_step(in_snapshot: bool, exists: bool) -> (r: RestoreStep)
    ensures
        r == RestoreStep::Replace <==> in_snapshot,
        r == RestoreStep::Remove <==> !in_snapshot && exists,
        r == RestoreStep::Keep <==> !in_snapshot && !exists,
{
    if in_snapshot {
        RestoreStep::Replace
    } else if exists {
        RestoreStep::Remove
    } else {
        RestoreStep::Keep
    }
}

/// What came of bringing a snapshot back.
pub fn restore_backup(
    snapshot: &BackupSnapshot,
    exists: bool,
    is_dir: bool,
    pre_restore_backup_path: Option<String>,
) -> (r: Result<RestoreBackupOutcome, ConfigError>)
    ensures
        match r {
            Ok(o) => exists && is_dir && o.restored_snapshot@ == snapshot@ && opt(
                o.pre_restore_backup_path,
            ) == opt(pre_restore_backup_path),
            Err(e) => if !exists {
                e@ == "backup snapshot `"@ + snapshot@.path + "` does not exist"@
            } else {
                !is_dir && e@ == "backup snapshot `"@ + snapshot@.path + "` is not a directory"@
            },
        },
{
    match check_snapshot(snapshot, exists, is_dir) {
        Err(e) => Err(e),
        Ok(_) => Ok(
            RestoreBackupOutcome { restored_snapshot: snapshot.clone(), pre_restore_backup_path },
        ),
    }
}

/// The name of the file that is written before it takes the place of the file at `path`;
/// `stamp` makes it unlike any other.
pub fn temp_file_name(path: &str, stamp: &str, windows: bool) -> (r: String)
    ensures
        r@ == "."@ + (match file_name(path@, windows) {
            Some(name) => name,
            None => "tmp"@,
        }) + ".tmp-"@ + stamp@,
{
    let name: String = match file_name_of(path, windows) {
        Some(name) => name,
        None => "tmp".to_owned(),
    };
    concat4(".", &name, ".tmp-", stamp)
}

/// `x` put into a row of paths behind all whose labels are not below its own.
pub open spec fn insert_by_label(v: Seq<Seq<char>>, x: Seq<char>, windows: bool) -> Seq<Seq<char>>
    decreases v.len(),
{
    if v.len() > 0 && text_less(label_of(v.last(), windows), label_of(x, windows)) {
        insert_by_label(v.drop_last(), x, windows).push(v.last())
    } else {
        v.push(x)
    }
}

/// The paths of snapshots, the latest label first; those of equal label keep their order.
pub open spec fn latest_first(v: Seq<Seq<char>>, windows: bool) -> Seq<Seq<char>>
    decreases v.len(),
{
    if v.len() == 0 {
        v
    } else {
        insert_by_label(latest_first(v.drop_last(), windows), v.last(), windows)
    }
}

#[verifier::spinoff_prover]
#[verifier::rlimit(40)]
fn insert_snapshot(out: &mut Vec<String>, x: String, windows: bool)
    ensures
        strs(final(out)@) == insert_by_label(strs(old(out)@), x@, windows),
{
    let ghost was = strs(out@);
    let label: String = snapshot_label(&x, windows);
    let mut j: usize = out.len();
    let ghost mut tail = Seq::<Seq<char>>::empty();
    assert(insert_by_label(was, x@, windows) =~= insert_by_label(was.take(j as int), x@, windows) + tail);
    while j > 0 && is_less(&snapshot_label(&out[j - 1], windows), &label)
        invariant
            j <= out@.len(),
            strs(out@) == was,
            tail == was.skip(j as int),
            insert_by_label(was, x@, windows) == insert_by_label(was.take(j as int), x@, windows) + tail,
        decreases j,
    {
        proof {
            let head = was.take(j as int);
            assert(head.last() == out@[j - 1]@);
            assert(head.drop_last() =~= was.take(j - 1));
            assert(insert_by_label(was.take(j - 1), x@, windows).push(head.last()) + tail
                =~= insert_by_label(was.take(j - 1), x@, windows) + was.skip(j - 1));
            tail = was.skip(j - 1);
        }
        j -= 1;
    }
    proof {
        let head = was.take(j as int);
        if j > 0 {
            assert(head.last() == out@[j - 1]@);
        }
        assert(insert_by_label(head, x@, windows) == head.push(x@));
    }
    out.insert(j, x);
    assert(strs(out@) =~= was.take(j as int).push(x@) + was.skip(j as int));
}

/// The directories of snapshots, the latest label first.
pub fn snapshot_dirs(dirs: &Vec<String>, windows: bool) -> (r: Vec<String>)
    ensures
        strs(r@) == latest_first(strs(dirs@), windows),
{
    let ghost all = strs(dirs@);
    let mut out: Vec<String> = Vec::new();
    let mut i: usize = 0;
    while i < dirs.len()
        invariant
            i <= dirs@.len(),
            all == strs(dirs@),
            strs(out@) == latest_first(all.take(i as int), windows),
        decreases dirs@.len() - i,
    {
        insert_snapshot(&mut out, dirs[i].clone(), windows);
        i += 1;
    }
    out
}

pub open spec fn beyond(v: Seq<Seq<char>>, keep: int) -> Seq<Seq<char>> {
    if keep < v.len() {
        v.skip(keep)
    } else {
        Seq::empty()
    }
}

/// The directories of the snapshots that are dropped where `keep_latest` are kept.
pub fn prune_old_backups(dirs: &Vec<String>, keep_latest: usize, windows: bool) -> (r: Vec<String>)
    ensures
        strs(r@) == beyond(latest_first(strs(dirs@), windows), keep_latest as int),
{
    let mut all: Vec<String> = snapshot_dirs(dirs, windows);
    let ghost was = strs(all@);
    if keep_latest >= all.len() {
        return Vec::new();
    }
    let r: Vec<String> = all.split_off(keep_latest);
    assert(strs(r@) =~= was.skip(keep_latest as int));
    r
}

/// The snapshots that are dropped where `keep` are kept, the one at `spared` in any case.
pub open spec fn dropped(
    dirs: Seq<Seq<char>>,
    keep: int,
    spared: Option<Seq<char>>,
    windows: bool,
) -> Seq<
    Seq<char>,
> {
    let old = beyond(latest_first(dirs, windows), keep);
    match spared {
        Some(path) => without(old, path),
        None => old,
    }
}

/// The directories of the snapshots that are dropped where `keep_latest` are kept. The one at
/// `spared`, which is about to be brought back, stays in any case.
pub fn prune_backups_sparing(
    dirs: &Vec<String>,
    keep_latest: usize,
    spared: Option<&str>,
    windows: bool,
) -> (r: Vec<String>)
    ensures
        strs(r@) == dropped(strs(dirs@), keep_latest as int, opt_str(spared), windows),
{
    let old: Vec<String> = prune_old_backups(dirs, keep_latest, windows);
    match spared {
        Some(path) => texts_without(&old, path),
        None => old,
    }
}

proof fn lemma_insert_by_label(v: Seq<Seq<char>>, x: Seq<char>, windows: bool)
    requires
        falling(v, windows),
    ensures
        falling(insert_by_label(v, x, windows), windows),
        insert_by_label(v, x, windows).len() == v.len() + 1,
        insert_by_label(v, x, windows).to_multiset() == v.to_multiset().insert(x),
        forall|k: int|
            0 <= k < v.len() + 1 ==> (#[trigger] insert_by_label(v, x, windows)[k] == x || v.contains(
                insert_by_label(v, x, windows)[k],
            )),
    decreases v.len(),
{
    broadcast use vstd::seq_lib::to_multiset_build;

    let r = insert_by_label(v, x, windows);
    if v.len() > 0 && text_less(label_of(v.last(), windows), label_of(x, windows)) {
        let head = v.drop_last();
        let top = v.last();
        assert(head.push(top) =~= v);
        lemma_insert_by_label(head, x, windows);
        let rest = insert_by_label(head, x, windows);
        assert forall|k: int| 0 <= k < r.len() implies (#[trigger] r[k] == x || v.contains(r[k])) by {
            if k < rest.len() {
                assert(rest[k] == x || head.contains(rest[k]));
                if head.contains(rest[k]) {
                    let j = choose|j: int| 0 <= j < head.len() && head[j] == rest[k];
                    assert(v[j] == rest[k]);
                }
            } else {
                assert(v[v.len() - 1] == top);
            }
        }
        assert forall|i: int, j: int| 0 <= i < j < r.len() implies !text_less(
            label_of(#[trigger] r[i], windows),
            label_of(#[trigger] r[j], windows),
        ) by {
            if j < rest.len() {
                assert(!text_less(label_of(rest[i], windows), label_of(rest[j], windows)));
            } else {
                assert(rest[i] == x || head.contains(rest[i]));
                if rest[i] == x {
                    lemma_text_less_total(label_of(top, windows), label_of(x, windows));
                } else {
                    let k = choose|k: int| 0 <= k < head.len() && head[k] == rest[i];
                    assert(v[k] == rest[i]);
                }
            }
        }
        assert(r.to_multiset() == v.to_multiset().insert(x)) by {
            assert(v.to_multiset() == head.to_multiset().insert(top));
            assert(r.to_multiset() == rest.to_multiset().insert(top));
            assert(head.to_multiset().insert(x).insert(top) =~= head.to_multiset().insert(
                top,
            ).insert(x));
        }
    } else {
        assert forall|i: int, j: int| 0 <= i < j < r.len() implies !text_less(
            label_of(#[trigger] r[i], windows),
            label_of(#[trigger] r[j], windows),
        ) by {
            if j < v.len() {
                assert(!text_less(label_of(v[i], windows), label_of(v[j], windows)));
            } else if v.len() > 0 {
                let top = v.last();
                if text_less(label_of(v[i], windows), label_of(x, windows)) && i < v.len() - 1 {
                    assert(!text_less(label_of(v[i], windows), label_of(v[v.len() - 1], windows)));
                    lemma_text_less_total(label_of(top, windows), label_of(v[i], windows));
                    if label_of(top, windows) != label_of(v[i], windows) {
                        lemma_text_less_transitive(label_of(top, windows), label_of(v[i], windows), label_of(x, windows));
                    }
                }
            }
        }
        assert forall|k: int| 0 <= k < r.len() implies (#[trigger] r[k] == x || v.contains(r[k])) by {
            if k < v.len() {
                assert(v[k] == r[k]);
            }
        }
    }
}

/// No snapshot stands before one with a later label.
pub open spec fn falling(v: Seq<Seq<char>>, windows: bool) -> bool {
    forall|i: int, j: int|
        0 <= i < j < v.len() ==> !text_less(label_of(#[trigger] v[i], windows), label_of(#[trigger] v[j], windows))
}

/// Listing the snapshots neither drops nor adds one, and no snapshot stands before a later one:
/// what is dropped is never later than what is kept.
pub proof fn law_latest_snapshots_first(v: Seq<Seq<char>>, windows: bool)
    ensures
        falling(latest_first(v, windows), windows),
        latest_first(v, windows).to_multiset() == v.to_multiset(),
        latest_first(v, windows).len() == v.len(),
    decreases v.len(),
{
    broadcast use vstd::seq_lib::to_multiset_build;

    if v.len() > 0 {
        law_latest_snapshots_first(v.drop_last(), windows);
        lemma_insert_by_label(latest_first(v.drop_last(), windows), v.last(), windows);
        assert(v.drop_last().push(v.last()) =~= v);
    }
}

/// The paths of listed snapshots.
pub open spec fn listed_paths(v: Seq<SnapshotView>) -> Seq<Seq<char>> {
    v.map_values(|s: SnapshotView| s.path)
}

proof fn lemma_insert_listed(v: Seq<SnapshotView>, x: SnapshotView, windows: bool)
    requires
        forall|k: int| 0 <= k < v.len() ==> (#[trigger] v[k]).label == label_of(v[k].path, windows),
        x.label == label_of(x.path, windows),
    ensures
        listed_paths(insert_listed(v, x)) == insert_by_label(listed_paths(v), x.path, windows),
        forall|k: int|
            0 <= k < insert_listed(v, x).len() ==> (#[trigger] insert_listed(v, x)[k]).label
                == label_of(insert_listed(v, x)[k].path, windows),
    decreases v.len(),
{
    if v.len() > 0 && text_less(v.last().label, x.label) {
        lemma_insert_listed(v.drop_last(), x, windows);
        assert(v.last() == v[v.len() - 1]);
        assert(listed_paths(v).drop_last() =~= listed_paths(v.drop_last()));
        assert(listed_paths(insert_listed(v, x)) =~= listed_paths(
            insert_listed(v.drop_last(), x),
        ).push(v.last().path));
    } else {
        if v.len() > 0 {
            assert(v.last() == v[v.len() - 1]);
        }
        assert(listed_paths(v.push(x)) =~= listed_paths(v).push(x.path));
    }
}

/// The listed snapshots stand in the order in which old ones are dropped, each under the label of
/// its own directory.
pub proof fn law_listed_in_the_order_of_dropping(dirs: Seq<SnapshotFacts>, windows: bool)
    ensures
        listed_paths(listed(dirs, windows)) == latest_first(
            dirs.map_values(|f: SnapshotFacts| f.path@),
            windows,
        ),
        forall|k: int|
            0 <= k < listed(dirs, windows).len() ==> (#[trigger] listed(dirs, windows)[k]).label == label_of(
                listed(dirs, windows)[k].path,
                windows,
            ),
    decreases dirs.len(),
{
    let paths = dirs.map_values(|f: SnapshotFacts| f.path@);
    if dirs.len() > 0 {
        law_listed_in_the_order_of_dropping(dirs.drop_last(), windows);
        lemma_insert_listed(listed(dirs.drop_last(), windows), snapshot_of(dirs.last(), windows), windows);
        assert(paths.drop_last() =~= dirs.drop_last().map_values(|f: SnapshotFacts| f.path@));
    } else {
        assert(listed_paths(listed(dirs, windows)) =~= paths);
    }
}

proof fn lemma_latest_goes_first(v: Seq<Seq<char>>, x: Seq<char>, windows: bool)
    requires
        forall|i: int| 0 <= i < v.len() ==> text_less(label_of(#[trigger] v[i], windows), label_of(x, windows)),
    ensures
        insert_by_label(v, x, windows) == seq![x] + v,
    decreases v.len(),
{
    if v.len() > 0 {
        let head = v.drop_last();
        assert forall|i: int| 0 <= i < head.len() implies text_less(
            label_of(#[trigger] head[i], windows),
            label_of(x, windows),
        ) by {
            assert(head[i] == v[i]);
        }
        lemma_latest_goes_first(head, x, windows);
        assert(v.last() == v[v.len() - 1]);
        assert((seq![x] + head).push(v.last()) =~= seq![x] + v);
    } else {
        assert(v.push(x) =~= seq![x] + v);
    }
}

proof fn lemma_without(v: Seq<Seq<char>>, x: Seq<char>)
    ensures
        !without(v, x).contains(x),
        forall|y: Seq<char>| #[trigger] without(v, x).contains(y) ==> v.contains(y),
    decreases v.len(),
{
    if v.len() > 0 {
        let head = v.drop_last();
        lemma_without(head, x);
        let r = without(v, x);
        assert forall|y: Seq<char>| r.contains(y) implies v.contains(y) by {
            let i = choose|i: int| 0 <= i < r.len() && r[i] == y;
            if i < without(head, x).len() {
                assert(without(head, x)[i] == y);
                assert(without(head, x).contains(y));
                assert(head.contains(y));
                let k = choose|k: int| 0 <= k < head.len() && head[k] == y;
                assert(v[k] == y);
            } else {
                assert(v[v.len() - 1] == y);
            }
        }
        if r.contains(x) {
            let i = choose|i: int| 0 <= i < r.len() && r[i] == x;
            if i < without(head, x).len() {
                assert(without(head, x)[i] == x);
            }
        }
    }
}

/// A snapshot that is later than all others is not dropped where any is kept, nor is one that is
/// spared; and only what was there is dropped.
pub proof fn law_spared_snapshots_stay(
    dirs: Seq<Seq<char>>,
    fresh: Seq<char>,
    keep: int,
    spared: Option<Seq<char>>,
    windows: bool,
)
    requires
        keep > 0,
        forall|i: int| 0 <= i < dirs.len() ==> text_less(label_of(#[trigger] dirs[i], windows), label_of(fresh, windows)),
    ensures
        !dropped(dirs.push(fresh), keep, spared, windows).contains(fresh),
        spared is Some ==> !dropped(dirs.push(fresh), keep, spared, windows).contains(spared->0),
        forall|p: Seq<char>| #[trigger]
            dropped(dirs.push(fresh), keep, spared, windows).contains(p) ==> dirs.contains(p),
{
    broadcast use vstd::seq_lib::to_multiset_contains;

    let all = dirs.push(fresh);
    let first = latest_first(dirs, windows);
    law_latest_snapshots_first(dirs, windows);
    assert(all.drop_last() =~= dirs);
    assert forall|i: int| 0 <= i < first.len() implies text_less(
        label_of(#[trigger] first[i], windows),
        label_of(fresh, windows),
    ) by {
        assert(first.contains(first[i]));
        assert(first.to_multiset().count(first[i]) > 0);
        assert(dirs.to_multiset().count(first[i]) > 0);
        let k = choose|k: int| 0 <= k < dirs.len() && dirs[k] == first[i];
        assert(text_less(label_of(dirs[k], windows), label_of(fresh, windows)));
    }
    lemma_latest_goes_first(first, fresh, windows);
    assert(latest_first(all, windows) == seq![fresh] + first);
    let old = beyond(latest_first(all, windows), keep);
    assert forall|p: Seq<char>| old.contains(p) implies dirs.contains(p) by {
        let i = choose|i: int| 0 <= i < old.len() && old[i] == p;
        assert(old[i] == first[i + keep - 1]);
        assert(first.contains(p));
        assert(first.to_multiset().count(p) > 0);
        assert(dirs.to_multiset().count(p) > 0);
    }
    if let Some(path) = spared {
        lemma_without(old, path);
    }
    assert forall|p: Seq<char>| #[trigger] dropped(all, keep, spared, windows).contains(p) implies dirs.contains(
        p,
    ) by {
        assert(old.contains(p));
    }
    if dirs.contains(fresh) {
        let k = choose|k: int| 0 <= k < dirs.len() && dirs[k] == fresh;
        assert(text_less(label_of(dirs[k], windows), label_of(fresh, windows)));
        lemma_text_less_total(label_of(fresh, windows), label_of(fresh, windows));
    }
}

} // verus!
