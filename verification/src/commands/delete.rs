//! Removing entries.

#![verifier::loop_isolation(false)]

use vstd::prelude::*;

use crate::commands::add::created;
use crate::commands::cli::DeleteArgs;
use crate::commands::prompt::{display_or_empty, shown_or_empty};
use crate::commands::selection::{
    requested_filter, select_targets, selection_conflict, targets_of, validate_selection,
};
use crate::config::model::{ManagedEntry, ManagedView};
use crate::config::state::{AppState, StateView, records_without, remove_entries};
use crate::config::store::{managed, managed_all};
use crate::error::ConfigError;
use crate::strings::{concat2, concat3, concat4, concat5, decimal_text, pad};
use crate::text::{decimal, opt, padded, strs, views};

verus! {

broadcast use crate::text::group_text;

pub fn validate_delete_args(args: &DeleteArgs) -> (r: Result<(), ConfigError>)
    ensures
        selection_conflict("delete"@, opt(args.host), args.all, requested_filter(args.filter)) == (
        match r {
            Ok(_) => None,
            Err(e) => Some(e@),
        }),
{
    validate_selection("delete", &args.host, args.all, &args.filter)
}

/// The entries that a request removes.
pub fn resolve_targets(
    entries: &[ManagedEntry],
    state: &AppState,
    args: &DeleteArgs,
    windows: bool,
) -> (r: Result<
    Vec<ManagedEntry>,
    ConfigError,
>)
    ensures
        managed_all(r) == targets_of(
            "delete"@,
            Some("no managed entries available for delete"@),
            views(entries@),
            state@.entries,
            opt(args.host),
            args.all,
            requested_filter(args.filter),
            windows,
        ),
{
    select_targets(
        "delete",
        Some("no managed entries available for delete"),
        entries,
        state,
        &args.host,
        args.all,
        &args.filter,
        windows,
    )
}

pub fn requires_confirmation_prompt(args: &DeleteArgs) -> (r: bool)
    ensures
        r == !args.yes,
{
    !args.yes
}

/// An entry that was removed.
#[derive(Debug, PartialEq, Eq)]
pub struct DeletedEntry {
    pub host: String,
    pub path: String,
}

/// What a [`DeletedEntry`] holds.
#[verifier::ext_equal]
pub struct DeletedView {
    pub host: Seq<char>,
    pub path: Seq<char>,
}

impl View for DeletedEntry {
    type V = DeletedView;

    open spec fn view(&self) -> DeletedView {
        DeletedView { host: self.host@, path: self.path@ }
    }
}

pub open spec fn deleted_of(e: ManagedView) -> DeletedView {
    DeletedView { host: e.entry.primary(), path: e.path }
}

/// Removes the records of the entries whose files are removed, and gives back what goes.
pub fn delete_managed_entries(
    state: &mut AppState,
    targets: &[ManagedEntry],
    windows: bool,
) -> (r: Result<
    Vec<DeletedEntry>,
    ConfigError,
>)
    ensures
        match r {
            Ok(v) => targets@.len() > 0 && final(state)@ == (StateView {
                entries: records_without(old(state)@.entries, views(targets@), windows),
                ..old(state)@
            }) && views(v@) == views(targets@).map_values(|e: ManagedView| deleted_of(e)),
            Err(e) => targets@.len() == 0 && final(state)@ == old(state)@ && e@
                == "no managed entries selected for delete"@,
        },
{
    if targets.len() == 0 {
        return Err(ConfigError::of("no managed entries selected for delete"));
    }
    remove_entries(state, targets, windows);
    let ghost es = views(targets@);
    let mut out: Vec<DeletedEntry> = Vec::new();
    let mut i: usize = 0;
    while i < targets.len()
        invariant
            i <= targets@.len(),
            es == views(targets@),
            views(out@) == es.take(i as int).map_values(|e: ManagedView| deleted_of(e)),
        decreases targets@.len() - i,
    {
        out.push(
            DeletedEntry {
                host: targets[i].entry.primary_pattern().to_owned(),
                path: targets[i].path.clone(),
            },
        );
        i += 1;
        assert(views(out@) =~= es.take(i as int).map_values(|e: ManagedView| deleted_of(e)));
    }
    Ok(out)
}

/// The line that tells of one entry.
pub open spec fn listed_line(e: ManagedView) -> Seq<char> {
    "  - "@ + padded(e.entry.primary(), 24) + " "@ + padded(shown_or_empty(e.entry.hostname), 24)
        + " order="@ + decimal(e.order as nat) + " file="@ + e.path
}

/// How many of the entries are listed before the question.
pub open spec fn listed(n: nat) -> nat {
    if n <= 20 {
        n
    } else {
        20
    }
}

/// What is asked before entries are removed, line by line; at most twenty are listed.
pub open spec fn confirmation(es: Seq<ManagedView>, selector: Option<Seq<char>>) -> Seq<Seq<char>> {
    let rule = "=================================================="@;
    let last = "A backup snapshot will be created before delete."@;
    if es.len() == 1 {
        seq![
            "Delete Managed SSH Entry"@,
            rule,
            "Host: "@ + es[0].entry.primary(),
            "HostName: "@ + shown_or_empty(es[0].entry.hostname),
            "Order: "@ + decimal(es[0].order as nat),
            "File: "@ + es[0].path,
            last,
        ]
    } else {
        seq!["Delete Managed SSH Entries"@, rule, "Matched entries: "@ + decimal(es.len())] + (
        match selector {
            Some(s) => seq!["Selector: "@ + s],
            None => Seq::<Seq<char>>::empty(),
        }) + es.take(listed(es.len()) as int).map_values(|e: ManagedView| listed_line(e)) + (
        if es.len() > 20 {
            seq!["  ... and "@ + decimal((es.len() - 20) as nat) + " more"@]
        } else {
            Seq::<Seq<char>>::empty()
        }) + seq![last]
    }
}

/// What is shown before the user is asked whether to go on.
pub fn confirmation_lines(targets: &[ManagedEntry], selector: &Option<String>) -> (r: Vec<String>)
    ensures
        strs(r@) == confirmation(views(targets@), opt(*selector)),
{
    let ghost es = views(targets@);
    let rule: &str = "==================================================";
    let last: &str = "A backup snapshot will be created before delete.";
    if targets.len() == 1 {
        let t: &ManagedEntry = &targets[0];
        assert(es[0] == t@);
        let r: Vec<String> = vec![
            "Delete Managed SSH Entry".to_owned(),
            rule.to_owned(),
            concat2("Host: ", t.entry.primary_pattern()),
            concat2("HostName: ", &display_or_empty(&t.entry.hostname)),
            concat2("Order: ", &decimal_text(t.order as usize)),
            concat2("File: ", &t.path),
            last.to_owned(),
        ];
        assert(strs(r@) =~= confirmation(es, opt(*selector)));
        return r;
    }
    let mut out: Vec<String> = vec![
        "Delete Managed SSH Entries".to_owned(),
        rule.to_owned(),
        concat2("Matched entries: ", &decimal_text(targets.len())),
    ];
    let ghost head = seq![
        "Delete Managed SSH Entries"@,
        rule@,
        "Matched entries: "@ + decimal(es.len()),
    ];
    assert(strs(out@) =~= head);
    let ghost sel = match opt(*selector) {
        Some(s) => seq!["Selector: "@ + s],
        None => Seq::<Seq<char>>::empty(),
    };
    match selector {
        Some(s) => {
            out.push(concat2("Selector: ", s));
        },
        None => {},
    }
    assert(strs(out@) =~= head + sel);
    let n: usize = if targets.len() > 20 {
        20
    } else {
        targets.len()
    };
    let mut i: usize = 0;
    assert(strs(out@) =~= head + sel + es.take(0).map_values(|e: ManagedView| listed_line(e)));
    while i < n
        invariant
            i <= n <= targets@.len(),
            es == views(targets@),
            strs(out@) == head + sel + es.take(i as int).map_values(
                |e: ManagedView| listed_line(e),
            ),
        decreases n - i,
    {
        let t: &ManagedEntry = &targets[i];
        let a: String = concat4(
            "  - ",
            &pad(t.entry.primary_pattern(), 24),
            " ",
            &pad(&display_or_empty(&t.entry.hostname), 24),
        );
        out.push(
            concat5(&a, " order=", &decimal_text(t.order as usize), " file=", &t.path),
        );
        i += 1;
        assert(strs(out@) =~= head + sel + es.take(i as int).map_values(
            |e: ManagedView| listed_line(e),
        ));
    }
    let ghost before = strs(out@);
    if targets.len() > 20 {
        out.push(concat3("  ... and ", &decimal_text(targets.len() - 20), " more"));
        assert(strs(out@) =~= before + seq![
            "  ... and "@ + decimal((es.len() - 20) as nat) + " more"@,
        ]);
    } else {
        assert(before + Seq::<Seq<char>>::empty() =~= before);
    }
    let ghost before = strs(out@);
    out.push(last.to_owned());
    assert(strs(out@) =~= before + seq![last@]);
    out
}

} // verus!
