//! What a command does to the files, step by step.

#![verifier::loop_isolation(false)]

use vstd::prelude::*;

use crate::backup::{RestoreStep, restore_step};
use crate::commands::migrate::{MigrationPlan, PlanView};
use crate::config::model::{ManagedEntry, ManagedView};
use crate::strings::same;
use crate::text::{opt, opt_str, pairs, views};

verus! {

broadcast use crate::text::group_text;

/// One thing that is done to the files.
#[derive(Debug)]
pub enum FileStep {
    /// A snapshot of the root config and of the managed entries is taken.
    Snapshot,
    /// A text is written to the file at a path.
    Write(String, String),
    /// The file at a path is removed.
    Remove(String),
    /// The directory of the managed entries is put together anew, of texts by their paths.
    Rewrite(Vec<(String, String)>),
    /// The root config is brought back from a snapshot.
    RestoreRoot(RestoreStep),
    /// The managed entries are brought back from a snapshot.
    RestoreManaged(RestoreStep),
}

/// What a [`FileStep`] holds.
#[verifier::ext_equal]
pub enum StepView {
    Snapshot,
    Write(Seq<char>, Seq<char>),
    Remove(Seq<char>),
    Rewrite(Seq<(Seq<char>, Seq<char>)>),
    RestoreRoot(RestoreStep),
    RestoreManaged(RestoreStep),
}

impl View for FileStep {
    type V = StepView;

    open spec fn view(&self) -> StepView {
        match self {
            FileStep::Snapshot => StepView::Snapshot,
            FileStep::Write(path, text) => StepView::Write(path@, text@),
            FileStep::Remove(path) => StepView::Remove(path@),
            FileStep::Rewrite(files) => StepView::Rewrite(pairs(files@)),
            FileStep::RestoreRoot(step) => StepView::RestoreRoot(*step),
            FileStep::RestoreManaged(step) => StepView::RestoreManaged(*step),
        }
    }
}

/// The file of an entry: its path and its text.
pub open spec fn file_of(e: ManagedView) -> (Seq<char>, Seq<char>) {
    (e.path, e.raw_content)
}

/// A root config that was set up is written where it changed.
pub open spec fn steps_to_set_up(root: Seq<char>, text: Option<Seq<char>>) -> Seq<StepView> {
    match text {
        Some(t) => seq![StepView::Snapshot, StepView::Write(root, t)],
        None => Seq::empty(),
    }
}

/// An entry is written, and the file that it replaces is removed where it has another path.
pub open spec fn steps_to_save(e: ManagedView, replaced: Option<Seq<char>>) -> Seq<StepView> {
    let written = seq![StepView::Snapshot, StepView::Write(e.path, e.raw_content)];
    match replaced {
        Some(path) => if path != e.path {
            written.push(StepView::Remove(path))
        } else {
            written
        },
        None => written,
    }
}

pub open spec fn steps_to_delete(es: Seq<ManagedView>) -> Seq<StepView> {
    seq![StepView::Snapshot] + es.map_values(|e: ManagedView| StepView::Remove(e.path))
}

pub open spec fn step_to_rewrite(es: Seq<ManagedView>) -> StepView {
    StepView::Rewrite(es.map_values(|e: ManagedView| file_of(e)))
}

pub open spec fn steps_to_rewrite(es: Seq<ManagedView>) -> Seq<StepView> {
    seq![StepView::Snapshot, step_to_rewrite(es)]
}

/// The root config is written where it changed, and the entries are where some were moved.
pub open spec fn steps_to_migrate(
    root: Seq<char>,
    before: Seq<char>,
    plan: PlanView,
    es: Seq<ManagedView>,
) -> Seq<StepView> {
    let root_changed = plan.rewritten_root != before;
    let entries_changed = plan.migrated_blocks > 0;
    (if root_changed || entries_changed {
        seq![StepView::Snapshot]
    } else {
        Seq::empty()
    }) + (if root_changed {
        seq![StepView::Write(root, plan.rewritten_root)]
    } else {
        Seq::empty()
    }) + (if entries_changed {
        seq![step_to_rewrite(es)]
    } else {
        Seq::empty()
    })
}

/// What is done to a file or directory when a snapshot is brought back.
pub open spec fn step_to_restore(in_snapshot: bool, exists: bool) -> RestoreStep {
    if in_snapshot {
        RestoreStep::Replace
    } else if exists {
        RestoreStep::Remove
    } else {
        RestoreStep::Keep
    }
}

pub open spec fn steps_to_restore(
    root_in_snapshot: bool,
    root_exists: bool,
    managed_in_snapshot: bool,
    managed_exists: bool,
) -> Seq<StepView> {
    seq![
        StepView::Snapshot,
        StepView::RestoreRoot(step_to_restore(root_in_snapshot, root_exists)),
        StepView::RestoreManaged(step_to_restore(managed_in_snapshot, managed_exists)),
    ]
}

pub fn set_up_steps(root: &str, text: &Option<String>) -> (r: Vec<FileStep>)
    ensures
        views(r@) == steps_to_set_up(root@, opt(*text)),
{
    let mut r: Vec<FileStep> = Vec::new();
    if let Some(t) = text {
        r.push(FileStep::Snapshot);
        r.push(FileStep::Write(root.to_owned(), t.clone()));
    }
    assert(views(r@) =~= steps_to_set_up(root@, opt(*text)));
    r
}

pub fn save_steps(saved: &ManagedEntry, replaced: Option<&str>) -> (r: Vec<FileStep>)
    ensures
        views(r@) == steps_to_save(saved@, opt_str(replaced)),
{
    let mut r: Vec<FileStep> = Vec::new();
    r.push(FileStep::Snapshot);
    r.push(FileStep::Write(saved.path.clone(), saved.raw_content.clone()));
    if let Some(path) = replaced {
        if !same(path, &saved.path) {
            r.push(FileStep::Remove(path.to_owned()));
        }
    }
    assert(views(r@) =~= steps_to_save(saved@, opt_str(replaced)));
    r
}

pub fn delete_steps(targets: &[ManagedEntry]) -> (r: Vec<FileStep>)
    ensures
        views(r@) == steps_to_delete(views(targets@)),
{
    let mut r: Vec<FileStep> = Vec::new();
    r.push(FileStep::Snapshot);
    let mut i: usize = 0;
    while i < targets.len()
        invariant
            i <= targets@.len(),
            views(r@) =~= steps_to_delete(views(targets@).take(i as int)),
        decreases targets@.len() - i,
    {
        r.push(FileStep::Remove(targets[i].path.clone()));
        i += 1;
    }
    assert(views(targets@).take(targets@.len() as int) =~= views(targets@));
    r
}

fn rewrite_step(entries: &[ManagedEntry]) -> (r: FileStep)
    ensures
        r@ == step_to_rewrite(views(entries@)),
{
    let mut files: Vec<(String, String)> = Vec::new();
    let mut i: usize = 0;
    while i < entries.len()
        invariant
            i <= entries@.len(),
            pairs(files@) =~= views(entries@).take(i as int).map_values(
                |e: ManagedView| file_of(e),
            ),
        decreases entries@.len() - i,
    {
        files.push((entries[i].path.clone(), entries[i].raw_content.clone()));
        i += 1;
    }
    assert(views(entries@).take(entries@.len() as int) =~= views(entries@));
    FileStep::Rewrite(files)
}

/// The steps that write the entries anew; the entries have their new orders and paths.
pub fn rewrite_steps(entries: &[ManagedEntry]) -> (r: Vec<FileStep>)
    ensures
        views(r@) == steps_to_rewrite(views(entries@)),
{
    let mut r: Vec<FileStep> = Vec::new();
    r.push(FileStep::Snapshot);
    r.push(rewrite_step(entries));
    assert(views(r@) =~= steps_to_rewrite(views(entries@)));
    r
}

/// The steps that move blocks of the root config to the managed entries; `entries` are all
/// entries with their new orders and paths.
pub fn migration_steps(
    root: &str,
    before: &str,
    plan: &MigrationPlan,
    entries: &[ManagedEntry],
) -> (r: Vec<FileStep>)
    ensures
        views(r@) == steps_to_migrate(root@, before@, plan@, views(entries@)),
{
    let root_changed: bool = !same(&plan.rewritten_root, before);
    let entries_changed: bool = plan.migrated_blocks > 0;
    let mut r: Vec<FileStep> = Vec::new();
    if root_changed || entries_changed {
        r.push(FileStep::Snapshot);
    }
    if root_changed {
        r.push(FileStep::Write(root.to_owned(), plan.rewritten_root.clone()));
    }
    if entries_changed {
        r.push(rewrite_step(entries));
    }
    assert(views(r@) =~= steps_to_migrate(root@, before@, plan@, views(entries@)));
    r
}

/// The steps that bring a snapshot back.
pub fn restore_steps(
    root_in_snapshot: bool,
    root_exists: bool,
    managed_in_snapshot: bool,
    managed_exists: bool,
) -> (r: Vec<FileStep>)
    ensures
        views(r@) == steps_to_restore(
            root_in_snapshot,
            root_exists,
            managed_in_snapshot,
            managed_exists,
        ),
{
    let mut r: Vec<FileStep> = Vec::new();
    r.push(FileStep::Snapshot);
    r.push(FileStep::RestoreRoot(restore_step(root_in_snapshot, root_exists)));
    r.push(FileStep::RestoreManaged(restore_step(managed_in_snapshot, managed_exists)));
    assert(views(r@) =~= steps_to_restore(
        root_in_snapshot,
        root_exists,
        managed_in_snapshot,
        managed_exists,
    ));
    r
}

} // verus!
