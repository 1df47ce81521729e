//! What the steps of a command come to: nothing is changed before a snapshot was taken, and a
//! snapshot that is brought back undoes what came behind it.

use vstd::prelude::*;

use crate::backup::{RestoreStep, dropped, label_of, law_spared_snapshots_stay};
use crate::commands::migrate::PlanView;
use crate::commands::steps::{
    StepView, file_of, steps_to_delete, steps_to_migrate, steps_to_restore, steps_to_rewrite,
    steps_to_save, steps_to_set_up,
};
use crate::config::model::ManagedView;
use crate::config::store::{order_at, placed_all};
use crate::config::store_laws::{can_hold_files, law_rewritten_entries_have_their_own_files};
use crate::text::text_less;

verus! {

/// What a snapshot keeps: the text of the root config, and those of the managed entries by
/// their paths.
#[verifier::ext_equal]
pub struct Kept {
    pub root: Option<Seq<char>>,
    pub managed: Map<Seq<char>, Seq<char>>,
}

/// The files as they are, and the snapshots: their directories, and what each keeps.
#[verifier::ext_equal]
pub struct Disk {
    pub now: Kept,
    pub dirs: Seq<Seq<char>>,
    pub held: Map<Seq<char>, Kept>,
}

/// What the steps of one command go by: the path of the root config, the directory of the
/// snapshot that is taken, and that of the snapshot that is brought back, where one is; and which
/// kind of paths these are.
pub struct Run {
    pub root: Seq<char>,
    pub fresh: Seq<char>,
    pub chosen: Option<Seq<char>>,
    pub windows: bool,
}

/// There is nothing to take a snapshot of.
pub open spec fn is_bare(k: Kept) -> bool {
    k.root is None && k.managed.dom() =~= Set::empty()
}

/// The new snapshot is later than all others: it is labelled with the time at which it is taken.
pub open spec fn is_latest(d: Disk, run: Run) -> bool {
    forall|i: int|
        0 <= i < d.dirs.len() ==> text_less(
            label_of(#[trigger] d.dirs[i], run.windows),
            label_of(run.fresh, run.windows),
        )
}

/// The files are kept in a new snapshot, and old snapshots are dropped, but for the one that is
/// brought back.
pub open spec fn with_snapshot(d: Disk, run: Run) -> Disk {
    let all = d.dirs.push(run.fresh);
    let gone = dropped(all, 30, run.chosen, run.windows);
    Disk {
        now: d.now,
        dirs: all.filter(|p: Seq<char>| !gone.contains(p)),
        held: d.held.insert(run.fresh, d.now).remove_keys(
            Set::new(|p: Seq<char>| gone.contains(p)),
        ),
    }
}

pub open spec fn with_files(
    m: Map<Seq<char>, Seq<char>>,
    files: Seq<(Seq<char>, Seq<char>)>,
) -> Map<Seq<char>, Seq<char>>
    decreases files.len(),
{
    if files.len() == 0 {
        m
    } else {
        with_files(m, files.drop_last()).insert(files.last().0, files.last().1)
    }
}

/// What a file or directory is after it was brought back, where the snapshot holds `kept` and
/// there was `current`.
pub open spec fn brought_back<T>(step: RestoreStep, kept: T, gone: T, current: T) -> T {
    match step {
        RestoreStep::Replace => kept,
        RestoreStep::Remove => gone,
        RestoreStep::Keep => current,
    }
}

/// What the snapshot that is brought back keeps.
pub open spec fn chosen_of(d: Disk, run: Run) -> Kept {
    d.held[run.chosen->0]
}

/// The files after one step.
pub open spec fn after(d: Disk, run: Run, step: StepView) -> Disk {
    match step {
        StepView::Snapshot => if is_bare(d.now) {
            d
        } else {
            with_snapshot(d, run)
        },
        StepView::Write(path, text) => if path == run.root {
            Disk { now: Kept { root: Some(text), ..d.now }, ..d }
        } else {
            Disk { now: Kept { managed: d.now.managed.insert(path, text), ..d.now }, ..d }
        },
        StepView::Remove(path) => if path == run.root {
            Disk { now: Kept { root: None, ..d.now }, ..d }
        } else {
            Disk { now: Kept { managed: d.now.managed.remove(path), ..d.now }, ..d }
        },
        StepView::Rewrite(files) => Disk {
            now: Kept { managed: with_files(Map::empty(), files), ..d.now },
            ..d
        },
        StepView::RestoreRoot(s) => Disk {
            now: Kept { root: brought_back(s, chosen_of(d, run).root, None, d.now.root), ..d.now },
            ..d
        },
        StepView::RestoreManaged(s) => Disk {
            now: Kept {
                managed: brought_back(s, chosen_of(d, run).managed, Map::empty(), d.now.managed),
                ..d.now
            },
            ..d
        },
    }
}

pub open spec fn after_all(d: Disk, run: Run, steps: Seq<StepView>) -> Disk
    decreases steps.len(),
{
    if steps.len() == 0 {
        d
    } else {
        after(after_all(d, run, steps.drop_last()), run, steps.last())
    }
}

/// A snapshot is taken first, and no other; or nothing is done at all.
pub open spec fn snapshot_first(steps: Seq<StepView>) -> bool {
    steps.len() > 0 ==> steps[0] == StepView::Snapshot && forall|i: int|
        0 < i < steps.len() ==> #[trigger] steps[i] != StepView::Snapshot
}

/// Whatever a command does to the files, it takes a snapshot before it changes anything.
pub proof fn law_snapshot_comes_first(
    root: Seq<char>,
    text: Option<Seq<char>>,
    e: ManagedView,
    replaced: Option<Seq<char>>,
    es: Seq<ManagedView>,
    before: Seq<char>,
    plan: PlanView,
    root_in_snapshot: bool,
    root_exists: bool,
    managed_in_snapshot: bool,
    managed_exists: bool,
)
    ensures
        snapshot_first(steps_to_set_up(root, text)),
        snapshot_first(steps_to_save(e, replaced)),
        snapshot_first(steps_to_delete(es)),
        snapshot_first(steps_to_rewrite(es)),
        snapshot_first(steps_to_migrate(root, before, plan, es)),
        snapshot_first(
            steps_to_restore(root_in_snapshot, root_exists, managed_in_snapshot, managed_exists),
        ),
{
    let removals = es.map_values(|e: ManagedView| StepView::Remove(e.path));
    assert forall|i: int| 0 < i < steps_to_delete(es).len() implies #[trigger] steps_to_delete(
        es,
    )[i] != StepView::Snapshot by {
        assert(steps_to_delete(es)[i] == removals[i - 1]);
    }
}

proof fn lemma_snapshot_stays(d: Disk, run: Run, steps: Seq<StepView>)
    requires
        snapshot_first(steps),
        steps.len() > 0,
    ensures
        after_all(d, run, steps).held == after(d, run, StepView::Snapshot).held,
        after_all(d, run, steps).dirs == after(d, run, StepView::Snapshot).dirs,
    decreases steps.len(),
{
    reveal_with_fuel(after_all, 2);
    if steps.len() > 1 {
        lemma_snapshot_stays(d, run, steps.drop_last());
        assert(steps.last() == steps[steps.len() - 1]);
    } else {
        assert(steps.drop_last().len() == 0);
        assert(steps.last() == steps[0]);
    }
}

proof fn lemma_snapshot_is_held(d: Disk, run: Run)
    requires
        is_latest(d, run),
    ensures
        ({
            let r = with_snapshot(d, run);
            &&& r.held.dom().contains(run.fresh) && r.held[run.fresh] == d.now
            &&& run.chosen is Some && d.held.dom().contains(run.chosen->0) && run.chosen->0
                != run.fresh ==> r.held.dom().contains(run.chosen->0) && r.held[run.chosen->0]
                == d.held[run.chosen->0]
        }),
{
    law_spared_snapshots_stay(d.dirs, run.fresh, 30, run.chosen, run.windows);
}

/// What a command changed can be undone: the files as they were before it are in the snapshot
/// that it took, and that is not dropped.
pub proof fn law_files_before_are_kept(d: Disk, run: Run, steps: Seq<StepView>)
    requires
        snapshot_first(steps),
        steps.len() > 0,
        !is_bare(d.now),
        is_latest(d, run),
    ensures
        ({
            let r = after_all(d, run, steps);
            r.held.dom().contains(run.fresh) && r.held[run.fresh] == d.now
        }),
{
    lemma_snapshot_stays(d, run, steps);
    lemma_snapshot_is_held(d, run);
}

/// The steps that bring the chosen snapshot back.
pub open spec fn steps_back(d: Disk, run: Run, managed_exists: bool) -> Seq<StepView> {
    steps_to_restore(
        chosen_of(d, run).root is Some,
        d.now.root is Some,
        !(chosen_of(d, run).managed.dom() =~= Set::empty()),
        managed_exists,
    )
}

/// Bringing a snapshot back, be it the oldest that is kept, makes the files what they were when
/// it was taken. The snapshot itself is not dropped meanwhile, and what the files were before is
/// kept in a new one.
pub proof fn law_snapshot_is_brought_back(d: Disk, run: Run, managed_exists: bool)
    requires
        run.chosen is Some,
        d.held.dom().contains(run.chosen->0),
        run.chosen->0 != run.fresh,
        is_latest(d, run),
        !(d.now.managed.dom() =~= Set::empty()) ==> managed_exists,
    ensures
        ({
            let r = after_all(d, run, steps_back(d, run, managed_exists));
            &&& r.now == d.held[run.chosen->0]
            &&& r.held.dom().contains(run.chosen->0) && r.held[run.chosen->0]
                == d.held[run.chosen->0]
            &&& !is_bare(d.now) ==> r.held.dom().contains(run.fresh) && r.held[run.fresh] == d.now
        }),
{
    let steps = steps_back(d, run, managed_exists);
    let chosen = chosen_of(d, run);
    lemma_snapshot_is_held(d, run);
    reveal_with_fuel(after_all, 4);
    assert(steps.drop_last() =~= seq![steps[0], steps[1]]);
    assert(steps.drop_last().drop_last() =~= seq![steps[0]]);
    assert(steps.drop_last().drop_last().drop_last() =~= Seq::<StepView>::empty());
    let first = after(d, run, StepView::Snapshot);
    assert(chosen_of(first, run) == chosen);
    let r = after_all(d, run, steps);
    if chosen.managed.dom() =~= Set::empty() {
        assert(chosen.managed =~= Map::<Seq<char>, Seq<char>>::empty());
        if d.now.managed.dom() =~= Set::empty() {
            assert(d.now.managed =~= Map::<Seq<char>, Seq<char>>::empty());
        }
    }
    assert(r.now.managed == chosen.managed);
    assert(r.now.root == chosen.root);
}

/// Whatever a command did, bringing back the snapshot that it took undoes it.
pub proof fn law_restoring_undoes_a_command(
    d: Disk,
    run: Run,
    steps: Seq<StepView>,
    back: Run,
    managed_exists: bool,
)
    requires
        snapshot_first(steps),
        steps.len() > 0,
        !is_bare(d.now),
        is_latest(d, run),
        back.chosen == Some(run.fresh),
        back.fresh != run.fresh,
        is_latest(after_all(d, run, steps), back),
        !(after_all(d, run, steps).now.managed.dom() =~= Set::empty()) ==> managed_exists,
    ensures
        ({
            let done = after_all(d, run, steps);
            after_all(done, back, steps_back(done, back, managed_exists)).now == d.now
        }),
{
    law_files_before_are_kept(d, run, steps);
    law_snapshot_is_brought_back(after_all(d, run, steps), back, managed_exists);
}

/// Setting up changes the root config alone.
pub proof fn law_setting_up_changes_the_root_alone(
    d: Disk,
    run: Run,
    text: Option<Seq<char>>,
)
    ensures
        ({
            let r = after_all(d, run, steps_to_set_up(run.root, text));
            &&& r.now.managed == d.now.managed
            &&& r.now.root == (if text is Some {
                text
            } else {
                d.now.root
            })
        }),
{
    reveal_with_fuel(after_all, 3);
    let steps = steps_to_set_up(run.root, text);
    if text is Some {
        assert(steps.drop_last() =~= seq![StepView::Snapshot]);
        assert(steps.drop_last().drop_last() =~= Seq::<StepView>::empty());
    }
}

/// Saving an entry writes its file, removes the file that it replaces, and touches no other.
pub proof fn law_saving_touches_one_entry(
    d: Disk,
    run: Run,
    e: ManagedView,
    replaced: Option<Seq<char>>,
)
    requires
        e.path != run.root,
        replaced != Some(run.root),
    ensures
        ({
            let r = after_all(d, run, steps_to_save(e, replaced)).now;
            &&& r.root == d.now.root
            &&& r.managed.dom().contains(e.path) && r.managed[e.path] == e.raw_content
            &&& replaced is Some && replaced->0 != e.path ==> !r.managed.dom().contains(
                replaced->0,
            )
            &&& forall|p: Seq<char>|
                p != e.path && replaced != Some(p) ==> (#[trigger] r.managed.dom().contains(p)
                    <==> d.now.managed.dom().contains(p)) && (d.now.managed.dom().contains(p)
                    ==> r.managed[p] == d.now.managed[p])
        }),
{
    reveal_with_fuel(after_all, 4);
    let steps = steps_to_save(e, replaced);
    let written = seq![StepView::Snapshot, StepView::Write(e.path, e.raw_content)];
    assert(written.drop_last() =~= seq![StepView::Snapshot]);
    assert(written.drop_last().drop_last() =~= Seq::<StepView>::empty());
    if let Some(path) = replaced {
        if path != e.path {
            assert(steps.drop_last() =~= written);
        }
    }
}

/// Deleting entries removes their files and touches no other.
pub proof fn law_deleting_touches_the_entries_alone(
    d: Disk,
    run: Run,
    es: Seq<ManagedView>,
)
    requires
        forall|i: int| 0 <= i < es.len() ==> (#[trigger] es[i]).path != run.root,
    ensures
        ({
            let r = after_all(d, run, steps_to_delete(es)).now;
            &&& r.root == d.now.root
            &&& forall|p: Seq<char>| #[trigger]
                r.managed.dom().contains(p) <==> d.now.managed.dom().contains(p) && !exists|i: int|
                    0 <= i < es.len() && (#[trigger] es[i]).path == p
            &&& forall|p: Seq<char>| #[trigger]
                r.managed.dom().contains(p) ==> r.managed[p] == d.now.managed[p]
        }),
    decreases es.len(),
{
    let steps = steps_to_delete(es);
    reveal_with_fuel(after_all, 2);
    if es.len() == 0 {
        assert(steps =~= seq![StepView::Snapshot]);
        assert(steps.drop_last() =~= Seq::<StepView>::empty());
    } else {
        let head = es.drop_last();
        assert(steps.drop_last() =~= steps_to_delete(head));
        assert(steps.last() == StepView::Remove(es.last().path));
        assert forall|i: int| 0 <= i < head.len() implies (#[trigger] head[i]).path != run.root by {
            assert(head[i] == es[i]);
        }
        law_deleting_touches_the_entries_alone(d, run, head);
        let r = after_all(d, run, steps).now;
        assert(es.last() == es[es.len() - 1]);
        assert forall|p: Seq<char>| #[trigger] r.managed.dom().contains(p) implies (
        d.now.managed.dom().contains(p) && !exists|i: int|
            0 <= i < es.len() && (#[trigger] es[i]).path == p) by {
            assert forall|i: int| 0 <= i < es.len() implies (#[trigger] es[i]).path != p by {
                if i < head.len() {
                    assert(head[i] == es[i]);
                }
            }
        }
        assert forall|p: Seq<char>|
            d.now.managed.dom().contains(p) && !(exists|i: int|
                0 <= i < es.len() && (#[trigger] es[i]).path == p) implies #[trigger] r.managed.dom().contains(
            p,
        ) by {
            assert forall|i: int| 0 <= i < head.len() implies (#[trigger] head[i]).path != p by {
                assert(head[i] == es[i]);
            }
        }
    }
}

#[verifier::spinoff_prover]
#[verifier::rlimit(40)]
proof fn lemma_with_files(files: Seq<(Seq<char>, Seq<char>)>)
    ensures
        forall|p: Seq<char>| #[trigger]
            with_files(Map::empty(), files).dom().contains(p) <==> exists|i: int|
                0 <= i < files.len() && (#[trigger] files[i]).0 == p,
        forall|i: int|
            0 <= i < files.len() && (forall|j: int|
                i < j < files.len() ==> (#[trigger] files[j]).0 != files[i].0) ==> with_files(
                Map::empty(),
                files,
            )[(#[trigger] files[i]).0] == files[i].1,
    decreases files.len(),
{
    let m = with_files(Map::empty(), files);
    if files.len() > 0 {
        let head = files.drop_last();
        let top = files.last();
        lemma_with_files(head);
        let h = with_files(Map::empty(), head);
        assert(top == files[files.len() - 1]);
        assert forall|p: Seq<char>| #[trigger] m.dom().contains(p) implies exists|i: int|
            0 <= i < files.len() && (#[trigger] files[i]).0 == p by {
            if p != top.0 {
                assert(h.dom().contains(p));
                let i = choose|i: int| 0 <= i < head.len() && (#[trigger] head[i]).0 == p;
                assert(files[i] == head[i]);
            }
        }
        assert forall|p: Seq<char>|
            (exists|i: int|
                0 <= i < files.len() && (#[trigger] files[i]).0 == p) implies #[trigger] m.dom().contains(
            p,
        ) by {
            let i = choose|i: int| 0 <= i < files.len() && (#[trigger] files[i]).0 == p;
            if i < head.len() {
                assert(head[i].0 == p);
                assert(h.dom().contains(p));
            }
        }
        assert forall|i: int|
            0 <= i < files.len() && (forall|j: int|
                i < j < files.len() ==> (#[trigger] files[j]).0 != files[i].0) implies m[(
        #[trigger] files[i]).0] == files[i].1 by {
            if i < head.len() {
                assert(head[i] == files[i]);
                assert forall|j: int| i < j < head.len() implies (#[trigger] head[j]).0 != head[i].0 by {
                    assert(head[j] == files[j]);
                }
                assert(h[head[i].0] == head[i].1);
            }
        }
    }
}

/// Writing the entries anew leaves their files and no other beside the root config.
pub proof fn law_rewriting_leaves_the_entries(
    d: Disk,
    run: Run,
    es: Seq<ManagedView>,
)
    requires
        forall|i: int, j: int|
            0 <= i < j < es.len() ==> (#[trigger] es[i]).path != (#[trigger] es[j]).path,
    ensures
        ({
            let r = after_all(d, run, steps_to_rewrite(es)).now;
            &&& r.root == d.now.root
            &&& forall|p: Seq<char>| #[trigger]
                r.managed.dom().contains(p) <==> exists|i: int|
                    0 <= i < es.len() && (#[trigger] es[i]).path == p
            &&& forall|i: int|
                0 <= i < es.len() ==> r.managed[(#[trigger] es[i]).path] == es[i].raw_content
        }),
{
    reveal_with_fuel(after_all, 3);
    let steps = steps_to_rewrite(es);
    assert(steps.drop_last() =~= seq![StepView::Snapshot]);
    assert(steps.drop_last().drop_last() =~= Seq::<StepView>::empty());
    let files = es.map_values(|e: ManagedView| file_of(e));
    lemma_with_files(files);
    let r = after_all(d, run, steps).now;
    assert(r.managed == with_files(Map::empty(), files));
    assert forall|p: Seq<char>| #[trigger] r.managed.dom().contains(p) implies exists|i: int|
        0 <= i < es.len() && (#[trigger] es[i]).path == p by {
        let i = choose|i: int| 0 <= i < files.len() && (#[trigger] files[i]).0 == p;
        assert(es[i].path == p);
    }
    assert forall|p: Seq<char>|
        (exists|i: int|
            0 <= i < es.len() && (#[trigger] es[i]).path == p) implies #[trigger] r.managed.dom().contains(
        p,
    ) by {
        let i = choose|i: int| 0 <= i < es.len() && (#[trigger] es[i]).path == p;
        assert(files[i].0 == p);
    }
    assert forall|i: int| 0 <= i < es.len() implies r.managed[(#[trigger] es[i]).path]
        == es[i].raw_content by {
        assert forall|j: int| i < j < files.len() implies (#[trigger] files[j]).0 != files[i].0 by {
            assert(es[i].path != es[j].path);
        }
        assert(files[i].0 == es[i].path);
    }
}

/// After the entries were written anew, each stands in its own file with its text, whatever the
/// files were before.
pub proof fn law_reordered_entries_are_on_disk(
    d: Disk,
    run: Run,
    dir: Seq<char>,
    es: Seq<ManagedView>,
)
    requires
        order_at(es.len() - 1) <= 65535,
        can_hold_files(dir, run.windows),
    ensures
        ({
            let r = after_all(d, run, steps_to_rewrite(placed_all(dir, es, run.windows))).now;
            &&& r.root == d.now.root
            &&& forall|i: int|
                0 <= i < es.len() ==> r.managed.dom().contains(
                    (#[trigger] placed_all(dir, es, run.windows)[i]).path,
                ) && r.managed[placed_all(dir, es, run.windows)[i].path] == es[i].raw_content
        }),
{
    law_rewritten_entries_have_their_own_files(dir, es, run.windows);
    law_rewriting_leaves_the_entries(d, run, placed_all(dir, es, run.windows));
    let r = after_all(d, run, steps_to_rewrite(placed_all(dir, es, run.windows))).now;
    assert forall|i: int| 0 <= i < es.len() implies r.managed.dom().contains(
        (#[trigger] placed_all(dir, es, run.windows)[i]).path,
    ) && r.managed[placed_all(dir, es, run.windows)[i].path] == es[i].raw_content by {
        assert(placed_all(dir, es, run.windows)[i].raw_content == es[i].raw_content);
    }
}

} // verus!
