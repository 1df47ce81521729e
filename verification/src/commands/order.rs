//! The order of the entries.

#![verifier::loop_isolation(false)]

use vstd::prelude::*;

use crate::commands::cli::{MetadataFilterArgs, OrderArgs};
use crate::commands::selection::{
    requested_filter, select_targets, selection_conflict, targets_of, validate_selection,
};
use crate::config::model::{ManagedEntry, ManagedView};
use crate::config::state::{AppState, MetadataView, find_entry_metadata, record_of};
use crate::config::store::{
    find_entry_by_host, find_host_index, managed, managed_all, saved, until_host,
};
use crate::error::ConfigError;
use crate::strings::{
    concat2, concat3, concat4, concat5, copy_opt, copy_strs, decimal_text, holds, joined, lowered,
    same, same_opt, trimmed,
};
use crate::text::{blank, decimal, join, lower, opt, opt_str, strs, trim, views};

verus! {

broadcast use crate::text::group_text;

/// Where entries are moved to.
#[derive(Debug, PartialEq, Eq)]
pub enum DestinationSpec {
    Before(String),
    After(String),
    First,
    Last,
}

/// What a [`DestinationSpec`] holds.
pub enum DestinationView {
    Before(Seq<char>),
    After(Seq<char>),
    First,
    Last,
}

impl View for DestinationSpec {
    type V = DestinationView;

    open spec fn view(&self) -> DestinationView {
        match self {
            DestinationSpec::Before(h) => DestinationView::Before(h@),
            DestinationSpec::After(h) => DestinationView::After(h@),
            DestinationSpec::First => DestinationView::First,
            DestinationSpec::Last => DestinationView::Last,
        }
    }
}

#[derive(Debug, Clone, Copy, PartialEq, Eq, Structural)]
pub enum DestinationKind {
    Before,
    After,
    First,
    Last,
}

impl DestinationSpec {
    pub fn kind(&self) -> (r: DestinationKind)
        ensures
            r == (match self@ {
                DestinationView::Before(_) => DestinationKind::Before,
                DestinationView::After(_) => DestinationKind::After,
                DestinationView::First => DestinationKind::First,
                DestinationView::Last => DestinationKind::Last,
            }),
    {
        match self {
            DestinationSpec::Before(_) => DestinationKind::Before,
            DestinationSpec::After(_) => DestinationKind::After,
            DestinationSpec::First => DestinationKind::First,
            DestinationSpec::Last => DestinationKind::Last,
        }
    }

    /// The host that the destination is told by.
    pub fn reference_host(&self) -> (r: Option<&str>)
        ensures
            opt_str(r) == (match self@ {
                DestinationView::Before(h) => Some(h),
                DestinationView::After(h) => Some(h),
                _ => None,
            }),
    {
        match self {
            DestinationSpec::Before(h) => Some(h.as_str()),
            DestinationSpec::After(h) => Some(h.as_str()),
            DestinationSpec::First => None,
            DestinationSpec::Last => None,
        }
    }
}

impl DestinationKind {
    pub open spec fn name(self) -> Seq<char> {
        match self {
            DestinationKind::Before => "before"@,
            DestinationKind::After => "after"@,
            DestinationKind::First => "first"@,
            DestinationKind::Last => "last"@,
        }
    }

    pub fn label(self) -> (r: &'static str)
        ensures
            r@ == self.name(),
    {
        match self {
            DestinationKind::Before => "before",
            DestinationKind::After => "after",
            DestinationKind::First => "first",
            DestinationKind::Last => "last",
        }
    }

    /// The kind of that name, or of the first letter of a name.
    pub open spec fn named(value: Seq<char>) -> Option<DestinationKind> {
        let v = lower(trim(value));
        if v == "before"@ || v == "b"@ {
            Some(DestinationKind::Before)
        } else if v == "after"@ || v == "a"@ {
            Some(DestinationKind::After)
        } else if v == "first"@ || v == "f"@ {
            Some(DestinationKind::First)
        } else if v == "last"@ || v == "l"@ {
            Some(DestinationKind::Last)
        } else {
            None
        }
    }

    pub fn parse(value: &str) -> (r: Option<DestinationKind>)
        ensures
            r == DestinationKind::named(value@),
    {
        let v: String = lowered(&trimmed(value));
        if same(&v, "before") || same(&v, "b") {
            Some(DestinationKind::Before)
        } else if same(&v, "after") || same(&v, "a") {
            Some(DestinationKind::After)
        } else if same(&v, "first") || same(&v, "f") {
            Some(DestinationKind::First)
        } else if same(&v, "last") || same(&v, "l") {
            Some(DestinationKind::Last)
        } else {
            None
        }
    }
}

// ---------------------------------------------------------------------------
// What a request asks for
// ---------------------------------------------------------------------------

pub fn validate_order_args(args: &OrderArgs) -> (r: Result<(), ConfigError>)
    ensures
        selection_conflict("order"@, opt(args.host), args.all, requested_filter(args.filter)) == (
        match r {
            Ok(_) => None,
            Err(e) => Some(e@),
        }),
{
    validate_selection("order", &args.host, args.all, &args.filter)
}

/// The entries that a request moves.
pub fn resolve_targets(
    entries: &[ManagedEntry],
    state: &AppState,
    args: &OrderArgs,
    windows: bool,
) -> (r: Result<
    Vec<ManagedEntry>,
    ConfigError,
>)
    ensures
        managed_all(r) == targets_of(
            "reorder"@,
            None,
            views(entries@),
            state@.entries,
            opt(args.host),
            args.all,
            requested_filter(args.filter),
            windows,
        ),
{
    select_targets("reorder", None, entries, state, &args.host, args.all, &args.filter, windows)
}

pub open spec fn destination_of(a: OrderArgs) -> Option<DestinationView> {
    match (opt(a.before), opt(a.after)) {
        (Some(h), _) => Some(DestinationView::Before(h)),
        (None, Some(h)) => Some(DestinationView::After(h)),
        (None, None) => if a.first {
            Some(DestinationView::First)
        } else if a.last {
            Some(DestinationView::Last)
        } else {
            None
        },
    }
}

pub open spec fn opt_destination(o: Option<DestinationSpec>) -> Option<DestinationView> {
    match o {
        Some(d) => Some(d@),
        None => None,
    }
}

pub fn destination_spec(args: &OrderArgs) -> (r: Option<DestinationSpec>)
    ensures
        opt_destination(r) == destination_of(*args),
{
    match &args.before {
        Some(h) => Some(DestinationSpec::Before(h.clone())),
        None => match &args.after {
            Some(h) => Some(DestinationSpec::After(h.clone())),
            None => {
                if args.first {
                    Some(DestinationSpec::First)
                } else if args.last {
                    Some(DestinationSpec::Last)
                } else {
                    None
                }
            },
        },
    }
}

pub fn has_requested_destination(args: &OrderArgs) -> (r: bool)
    ensures
        r == (destination_of(*args) is Some),
{
    destination_spec(args).is_some()
}

pub fn requires_interactive_completion(args: &OrderArgs) -> (r: bool)
    ensures
        r == (destination_of(*args) is None),
{
    !has_requested_destination(args)
}

pub fn should_complete_interactively(args: &OrderArgs, terminal: bool) -> (r: bool)
    ensures
        r == (terminal && (args.interactive || destination_of(*args) is None)),
{
    terminal && (args.interactive || requires_interactive_completion(args))
}

/// Whether to ask for the destination, or why the request cannot be served.
pub fn prepare_order_args(args: &OrderArgs, terminal: bool) -> (r: Result<bool, ConfigError>)
    ensures
        match r {
            Ok(ask) => ask == (terminal && (args.interactive || destination_of(*args) is None)) && !(
            args.interactive && !terminal) && (ask || destination_of(*args) is Some),
            Err(e) => !terminal && (if args.interactive {
                e@ == "--interactive requires a terminal"@
            } else {
                destination_of(*args) is None && e@
                    == "order destination is required unless you run this command in a terminal"@
            }),
        },
{
    if args.interactive && !terminal {
        return Err(ConfigError::of("--interactive requires a terminal"));
    }
    if should_complete_interactively(args, terminal) {
        return Ok(true);
    }
    if !has_requested_destination(args) {
        return Err(
            ConfigError::of(
                "order destination is required unless you run this command in a terminal",
            ),
        );
    }
    Ok(false)
}

fn copy_filter(f: &MetadataFilterArgs) -> (r: MetadataFilterArgs)
    ensures
        opt(r.query) == opt(f.query),
        strs(r.tags@) == strs(f.tags@),
        r.has_note == f.has_note,
        r.template == f.template,
{
    MetadataFilterArgs {
        query: copy_opt(&f.query),
        tags: copy_strs(&f.tags),
        has_note: f.has_note,
        template: f.template,
    }
}

/// The request with another destination, to be served without further questions.
pub fn build_order_args_with_destination(base: &OrderArgs, destination: &DestinationSpec) -> (r:
    OrderArgs)
    ensures
        opt(r.host) == opt(base.host),
        r.all == base.all,
        requested_filter(r.filter) == requested_filter(base.filter),
        !r.interactive,
        opt(r.before) == (match destination@ {
            DestinationView::Before(h) => Some(h),
            _ => None,
        }),
        opt(r.after) == (match destination@ {
            DestinationView::After(h) => Some(h),
            _ => None,
        }),
        r.first == (destination@ is First),
        r.last == (destination@ is Last),
        destination_of(r) == Some(destination@),
{
    let mut args = OrderArgs {
        host: copy_opt(&base.host),
        all: base.all,
        filter: copy_filter(&base.filter),
        interactive: false,
        before: None,
        after: None,
        first: false,
        last: false,
    };
    match destination {
        DestinationSpec::Before(h) => {
            args.before = Some(h.clone());
        },
        DestinationSpec::After(h) => {
            args.after = Some(h.clone());
        },
        DestinationSpec::First => {
            args.first = true;
        },
        DestinationSpec::Last => {
            args.last = true;
        },
    }
    args
}

pub open spec fn destination_text(d: DestinationView) -> Seq<char> {
    match d {
        DestinationView::Before(h) => "before `"@ + h + "`"@,
        DestinationView::After(h) => "after `"@ + h + "`"@,
        DestinationView::First => "first"@,
        DestinationView::Last => "last"@,
    }
}

pub fn describe_destination_spec(destination: &DestinationSpec) -> (r: String)
    ensures
        r@ == destination_text(destination@),
{
    match destination {
        DestinationSpec::Before(h) => concat3("before `", h, "`"),
        DestinationSpec::After(h) => concat3("after `", h, "`"),
        DestinationSpec::First => "first".to_owned(),
        DestinationSpec::Last => "last".to_owned(),
    }
}

pub fn describe_destination(args: &OrderArgs) -> (r: String)
    ensures
        r@ == (match destination_of(*args) {
            Some(d) => destination_text(d),
            None => "unknown"@,
        }),
{
    match destination_spec(args) {
        Some(d) => describe_destination_spec(&d),
        None => "unknown".to_owned(),
    }
}

// ---------------------------------------------------------------------------
// Moving
// ---------------------------------------------------------------------------

/// The file of the entry is that of one of the targets.
pub open spec fn is_target(e: ManagedView, ts: Seq<ManagedView>) -> bool {
    exists|i: int| 0 <= i < ts.len() && (#[trigger] ts[i]).path == e.path
}

/// The entries that are targets, or those that are not, in their order.
pub open spec fn part(es: Seq<ManagedView>, ts: Seq<ManagedView>, moving: bool) -> Seq<ManagedView>
    decreases es.len(),
{
    if es.len() == 0 {
        es
    } else {
        let before = part(es.drop_last(), ts, moving);
        if is_target(es.last(), ts) == moving {
            before.push(es.last())
        } else {
            before
        }
    }
}

/// The refusal to move entries next to themselves.
pub open spec fn self_move(ts: Seq<ManagedView>, relation: Seq<char>) -> Seq<char> {
    if ts.len() == 1 {
        "cannot move `"@ + ts[0].entry.primary() + "` "@ + relation + " itself"@
    } else {
        "cannot move selected entries "@ + relation + " themselves"@
    }
}

/// Where among the entries that stay the others are put, or why they cannot be.
pub open spec fn insertion(
    stay: Seq<ManagedView>,
    ts: Seq<ManagedView>,
    d: DestinationView,
) -> Result<int, Seq<char>> {
    match d {
        DestinationView::Before(h) => if until_host(ts, h) < ts.len() {
            Err(self_move(ts, "before"@))
        } else if until_host(stay, h) >= stay.len() {
            Err("reference entry `"@ + h + "` not found"@)
        } else {
            Ok(until_host(stay, h) as int)
        },
        DestinationView::After(h) => if until_host(ts, h) < ts.len() {
            Err(self_move(ts, "after"@))
        } else if until_host(stay, h) >= stay.len() {
            Err("reference entry `"@ + h + "` not found"@)
        } else {
            Ok(until_host(stay, h) as int + 1)
        },
        DestinationView::First => Ok(0),
        DestinationView::Last => Ok(stay.len() as int),
    }
}

/// The entries with the targets moved together to the destination, or why they cannot be.
pub open spec fn reordered(
    es: Seq<ManagedView>,
    ts: Seq<ManagedView>,
    d: Option<DestinationView>,
) -> Result<Seq<ManagedView>, Seq<char>> {
    let moving = part(es, ts, true);
    let stay = part(es, ts, false);
    if ts.len() == 0 {
        Err("no managed entries selected for reorder"@)
    } else if moving.len() == 0 {
        Err("selected managed entries disappeared before reorder"@)
    } else {
        match d {
            None => Err("order destination is required before reordering"@),
            Some(dest) => match insertion(stay, ts, dest) {
                Err(e) => Err(e),
                Ok(k) => Ok(stay.take(k) + moving + stay.skip(k)),
            },
        }
    }
}

fn entry_is_target(e: &ManagedEntry, targets: &[ManagedEntry]) -> (r: bool)
    ensures
        r == is_target(e@, views(targets@)),
{
    let ghost ts = views(targets@);
    let mut i: usize = 0;
    while i < targets.len()
        invariant
            i <= targets@.len(),
            ts == views(targets@),
            forall|k: int| 0 <= k < i ==> (#[trigger] ts[k]).path != e@.path,
        decreases targets@.len() - i,
    {
        assert(ts[i as int] == targets@[i as int]@);
        if same(&targets[i].path, &e.path) {
            return true;
        }
        i += 1;
    }
    false
}

fn self_move_text(targets: &[ManagedEntry], relation: &str) -> (r: ConfigError)
    ensures
        r@ == self_move(views(targets@), relation@),
{
    if targets.len() == 1 {
        assert(views(targets@)[0] == targets@[0]@);
        ConfigError::new(
            concat5(
                "cannot move `",
                targets[0].entry.primary_pattern(),
                "` ",
                relation,
                " itself",
            ),
        )
    } else {
        ConfigError::new(concat3("cannot move selected entries ", relation, " themselves"))
    }
}

fn find_insertion(stay: &[ManagedEntry], targets: &[ManagedEntry], d: &DestinationSpec) -> (r: Result<
    usize,
    ConfigError,
>)
    ensures
        insertion(views(stay@), views(targets@), d@) == (match r {
            Ok(k) => Ok(k as int),
            Err(e) => Err(e@),
        }),
        r matches Ok(k) ==> k <= stay@.len(),
{
    match d {
        DestinationSpec::Before(h) => {
            if find_host_index(targets, h).is_some() {
                return Err(self_move_text(targets, "before"));
            }
            match find_host_index(stay, h) {
                Some(i) => Ok(i),
                None => Err(ConfigError::new(concat3("reference entry `", h, "` not found"))),
            }
        },
        DestinationSpec::After(h) => {
            if find_host_index(targets, h).is_some() {
                return Err(self_move_text(targets, "after"));
            }
            match find_host_index(stay, h) {
                Some(i) => {
                    assert(i < stay.len());
                    Ok(i + 1)
                },
                None => Err(ConfigError::new(concat3("reference entry `", h, "` not found"))),
            }
        },
        DestinationSpec::First => Ok(0),
        DestinationSpec::Last => Ok(stay.len()),
    }
}

pub fn reorder_entries(entries: &[ManagedEntry], targets: &[ManagedEntry], args: &OrderArgs) -> (r:
    Result<Vec<ManagedEntry>, ConfigError>)
    ensures
        managed_all(r) == reordered(views(entries@), views(targets@), destination_of(*args)),
{
    let ghost es = views(entries@);
    let ghost ts = views(targets@);
    if targets.len() == 0 {
        return Err(ConfigError::of("no managed entries selected for reorder"));
    }
    let mut moving: Vec<ManagedEntry> = Vec::new();
    let mut stay: Vec<ManagedEntry> = Vec::new();
    let mut i: usize = 0;
    while i < entries.len()
        invariant
            i <= entries@.len(),
            es == views(entries@),
            ts == views(targets@),
            views(moving@) == part(es.take(i as int), ts, true),
            views(stay@) == part(es.take(i as int), ts, false),
        decreases entries@.len() - i,
    {
        assert(es[i as int] == entries@[i as int]@);
        if entry_is_target(&entries[i], targets) {
            moving.push(entries[i].clone());
        } else {
            stay.push(entries[i].clone());
        }
        i += 1;
    }
    assert(views(moving@).len() == moving@.len());
    if moving.len() == 0 {
        return Err(ConfigError::of("selected managed entries disappeared before reorder"));
    }
    match destination_spec(args) {
        None => Err(ConfigError::of("order destination is required before reordering")),
        Some(d) => match find_insertion(stay.as_slice(), targets, &d) {
            Err(e) => Err(e),
            Ok(k) => {
                let ghost s = views(stay@);
                let ghost m = views(moving@);
                let mut tail: Vec<ManagedEntry> = stay.split_off(k);
                stay.append(&mut moving);
                stay.append(&mut tail);
                assert(views(stay@) =~= s.take(k as int) + m + s.skip(k as int));
                Ok(stay)
            },
        },
    }
}

/// The paths of the entries, in their order.
pub open spec fn paths_of(es: Seq<ManagedView>) -> Seq<Seq<char>> {
    es.map_values(|e: ManagedView| e.path)
}

pub fn sequence_signature(entries: &[ManagedEntry]) -> (r: Vec<String>)
    ensures
        strs(r@) == paths_of(views(entries@)),
{
    let ghost es = views(entries@);
    let mut out: Vec<String> = Vec::new();
    let mut i: usize = 0;
    while i < entries.len()
        invariant
            i <= entries@.len(),
            es == views(entries@),
            strs(out@) == paths_of(es.take(i as int)),
        decreases entries@.len() - i,
    {
        out.push(entries[i].path.clone());
        i += 1;
        assert(strs(out@) =~= paths_of(es.take(i as int)));
    }
    out
}

pub open spec fn hosts_of(es: Seq<ManagedView>) -> Seq<Seq<char>> {
    es.map_values(|e: ManagedView| e.entry.primary())
}

pub fn selected_hosts(targets: &[ManagedEntry]) -> (r: Vec<String>)
    ensures
        strs(r@) == hosts_of(views(targets@)),
{
    let ghost es = views(targets@);
    let mut out: Vec<String> = Vec::new();
    let mut i: usize = 0;
    while i < targets.len()
        invariant
            i <= targets@.len(),
            es == views(targets@),
            strs(out@) == hosts_of(es.take(i as int)),
        decreases targets@.len() - i,
    {
        out.push(targets[i].entry.primary_pattern().to_owned());
        i += 1;
        assert(strs(out@) =~= hosts_of(es.take(i as int)));
    }
    out
}

/// The first `limit` hosts, and how many there are besides.
pub open spec fn hosts_summary(hosts: Seq<Seq<char>>, limit: nat) -> Seq<char> {
    if hosts.len() <= limit {
        join(hosts, ", "@)
    } else {
        join(
            hosts.take(limit as int).push(
                "... and "@ + decimal((hosts.len() - limit) as nat) + " more"@,
            ),
            ", "@,
        )
    }
}

pub fn summarize_hosts(hosts: &Vec<String>, limit: usize) -> (r: String)
    ensures
        r@ == hosts_summary(strs(hosts@), limit as nat),
{
    assert(strs(hosts@).len() == hosts@.len());
    if hosts.len() <= limit {
        return joined(hosts, ", ");
    }
    let mut shown: Vec<String> = Vec::new();
    let mut i: usize = 0;
    while i < limit
        invariant
            i <= limit < hosts@.len(),
            strs(shown@) == strs(hosts@).take(i as int),
        decreases limit - i,
    {
        shown.push(hosts[i].clone());
        i += 1;
        assert(strs(shown@) =~= strs(hosts@).take(i as int));
    }
    shown.push(concat3("... and ", &decimal_text(hosts.len() - limit), " more"));
    joined(&shown, ", ")
}

pub open spec fn some_text(o: Option<Seq<char>>) -> Seq<Seq<char>> {
    match o {
        Some(s) => seq![s],
        None => Seq::empty(),
    }
}

/// The paths of two snapshots, one of them where they are the same.
pub fn backup_paths(first: &Option<String>, second: &Option<String>) -> (r: Vec<String>)
    ensures
        strs(r@) == (if opt(*first) == opt(*second) {
            some_text(opt(*first))
        } else {
            some_text(opt(*first)) + some_text(opt(*second))
        }),
{
    let mut out: Vec<String> = Vec::new();
    match first {
        Some(p) => {
            out.push(p.clone());
        },
        None => {},
    }
    match second {
        Some(p) => {
            if !same_opt(first, second) {
                out.push(p.clone());
            }
        },
        None => {},
    }
    assert(strs(out@) =~= if opt(*first) == opt(*second) {
        some_text(opt(*first))
    } else {
        some_text(opt(*first)) + some_text(opt(*second))
    });
    out
}

/// A path before others, unless it is among them.
pub fn merge_backup_paths(first: &Option<String>, existing: &Vec<String>) -> (r: Vec<String>)
    ensures
        strs(r@) == (match opt(*first) {
            Some(p) => if strs(existing@).contains(p) {
                strs(existing@)
            } else {
                seq![p] + strs(existing@)
            },
            None => strs(existing@),
        }),
{
    let mut out: Vec<String> = copy_strs(existing);
    match first {
        Some(p) => {
            if !holds(existing, p) {
                let ghost was = strs(out@);
                out.insert(0, p.clone());
                assert(strs(out@) =~= seq![p@] + was);
            }
        },
        None => {},
    }
    out
}

/// An entry that was moved.
#[derive(Debug, PartialEq, Eq)]
pub struct ReorderedEntry {
    pub host: String,
    pub order: u16,
    pub metadata_id: String,
}

/// What a [`ReorderedEntry`] holds.
#[verifier::ext_equal]
pub struct ReorderedView {
    pub host: Seq<char>,
    pub order: u16,
    pub metadata_id: Seq<char>,
}

impl View for ReorderedEntry {
    type V = ReorderedView;

    open spec fn view(&self) -> ReorderedView {
        ReorderedView { host: self.host@, order: self.order, metadata_id: self.metadata_id@ }
    }
}

/// What is told of a host once the entries have been written in their new order.
pub open spec fn moved_host(
    es: Seq<ManagedView>,
    ms: Seq<MetadataView>,
    host: Seq<char>,
    windows: bool,
) -> Result<
    ReorderedView,
    Seq<char>,
> {
    let n = until_host(es, host);
    if n >= es.len() {
        Err("managed entry `"@ + host + "` disappeared after reorder"@)
    } else {
        match record_of(ms, es[n as int], windows) {
            None => Err("state metadata for reordered entry is missing"@),
            Some(m) => Ok(
                ReorderedView { host, order: es[n as int].order, metadata_id: m.id },
            ),
        }
    }
}

pub open spec fn insert_moved(v: Seq<ReorderedView>, x: ReorderedView) -> Seq<ReorderedView>
    decreases v.len(),
{
    if v.len() > 0 && x.order < v.last().order {
        insert_moved(v.drop_last(), x).push(v.last())
    } else {
        v.push(x)
    }
}

/// What is told of the hosts, behind `acc`, by their new order; or the first refusal.
pub open spec fn moved_from(
    es: Seq<ManagedView>,
    ms: Seq<MetadataView>,
    hosts: Seq<Seq<char>>,
    acc: Seq<ReorderedView>,
    windows: bool,
) -> Result<Seq<ReorderedView>, Seq<char>>
    decreases hosts.len(),
{
    if hosts.len() == 0 {
        Ok(acc)
    } else {
        match moved_host(es, ms, hosts[0], windows) {
            Err(e) => Err(e),
            Ok(x) => moved_from(es, ms, hosts.skip(1), insert_moved(acc, x), windows),
        }
    }
}

fn insert_moved_entry(out: &mut Vec<ReorderedEntry>, x: ReorderedEntry)
    ensures
        views(final(out)@) == insert_moved(views(old(out)@), x@),
{
    let ghost was = views(out@);
    let mut j: usize = out.len();
    let ghost mut tail = Seq::<ReorderedView>::empty();
    assert(insert_moved(was, x@) =~= insert_moved(was.take(j as int), x@) + tail);
    while j > 0 && x.order < out[j - 1].order
        invariant
            j <= out@.len(),
            views(out@) == was,
            tail == was.skip(j as int),
            insert_moved(was, x@) == insert_moved(was.take(j as int), x@) + tail,
        decreases j,
    {
        proof {
            let head = was.take(j as int);
            assert(head.last() == out@[j - 1]@);
            assert(head.drop_last() =~= was.take(j - 1));
            assert(insert_moved(was.take(j - 1), x@).push(head.last()) + tail =~= insert_moved(
                was.take(j - 1),
                x@,
            ) + was.skip(j - 1));
            tail = was.skip(j - 1);
        }
        j -= 1;
    }
    proof {
        let head = was.take(j as int);
        if j > 0 {
            assert(head.last() == out@[j - 1]@);
        }
        assert(insert_moved(head, x@) == head.push(x@));
    }
    out.insert(j, x);
    assert(views(out@) =~= was.take(j as int).push(x@) + was.skip(j as int));
}

/// What is told of the hosts that were moved. `saved` are the entries as they have been written,
/// `state` are their records.
pub fn apply_reordered_entries_for_hosts(
    saved: &[ManagedEntry],
    state: &AppState,
    hosts: &Vec<String>,
    windows: bool,
) -> (r: Result<Vec<ReorderedEntry>, ConfigError>)
    ensures
        (if hosts@.len() == 0 {
            Err("no managed entries selected for reorder"@)
        } else {
            moved_from(views(saved@), state@.entries, strs(hosts@), Seq::empty(), windows)
        }) == (match r {
            Ok(v) => Ok(views(v@)),
            Err(e) => Err(e@),
        }),
{
    if hosts.len() == 0 {
        return Err(ConfigError::of("no managed entries selected for reorder"));
    }
    let ghost es = views(saved@);
    let ghost ms = state@.entries;
    let ghost hs = strs(hosts@);
    let mut out: Vec<ReorderedEntry> = Vec::new();
    let mut i: usize = 0;
    while i < hosts.len()
        invariant
            i <= hosts@.len(),
            es == views(saved@),
            ms == state@.entries,
            hs == strs(hosts@),
            moved_from(es, ms, hs, Seq::empty(), windows) == moved_from(
                es,
                ms,
                hs.skip(i as int),
                views(out@),
                windows,
            ),
        decreases hosts@.len() - i,
    {
        assert(hs.skip(i as int)[0] == hosts@[i as int]@);
        match find_entry_by_host(saved, &hosts[i]) {
            None => {
                return Err(
                    ConfigError::new(
                        concat3("managed entry `", &hosts[i], "` disappeared after reorder"),
                    ),
                );
            },
            Some(e) => match find_entry_metadata(state, e, windows) {
                None => {
                    return Err(ConfigError::of("state metadata for reordered entry is missing"));
                },
                Some(m) => {
                    insert_moved_entry(
                        &mut out,
                        ReorderedEntry {
                            host: hosts[i].clone(),
                            order: e.order,
                            metadata_id: m.id.clone(),
                        },
                    );
                },
            },
        }
        i += 1;
    }
    Ok(out)
}

/// What is told of the one host that was moved.
pub fn apply_reordered_entries(
    saved: &[ManagedEntry],
    state: &AppState,
    host: &str,
    windows: bool,
) -> (r: Result<
    ReorderedEntry,
    ConfigError,
>)
    ensures
        moved_host(views(saved@), state@.entries, host@, windows) == (match r {
            Ok(x) => Ok(x@),
            Err(e) => Err(e@),
        }),
{
    match find_entry_by_host(saved, host) {
        None => Err(
            ConfigError::new(concat3("managed entry `", host, "` disappeared after reorder")),
        ),
        Some(e) => match find_entry_metadata(state, e, windows) {
            None => Err(ConfigError::of("state metadata for reordered entry is missing")),
            Some(m) => Ok(
                ReorderedEntry {
                    host: host.to_owned(),
                    order: e.order,
                    metadata_id: m.id.clone(),
                },
            ),
        },
    }
}

// ---------------------------------------------------------------------------
// Asking for the destination
// ---------------------------------------------------------------------------

/// What an answer to the question for the kind of destination says, or what to say before it is
/// asked again.
pub fn destination_kind_answer(input: &str, default: Option<DestinationKind>) -> (r: Result<
    DestinationKind,
    String,
>)
    ensures
        match r {
            Ok(k) => if blank(input@) {
                default == Some(k)
            } else {
                DestinationKind::named(trim(input@)) == Some(k)
            },
            Err(m) => if blank(input@) {
                default is None && m@ == "! Choose one of: first, last, before, after"@
            } else {
                DestinationKind::named(trim(input@)) is None && m@ == "! Unknown destination `"@
                    + trim(input@) + "`"@
            },
        },
{
    let t: String = trimmed(input);
    if t.as_str().is_empty() {
        return match default {
            Some(k) => Ok(k),
            None => Err("! Choose one of: first, last, before, after".to_owned()),
        };
    }
    match DestinationKind::parse(&t) {
        Some(k) => Ok(k),
        None => Err(concat3("! Unknown destination `", &t, "`")),
    }
}

/// The texts that are not among `excluded`.
pub open spec fn texts_apart(v: Seq<Seq<char>>, excluded: Seq<Seq<char>>) -> Seq<Seq<char>>
    decreases v.len(),
{
    if v.len() == 0 {
        v
    } else {
        let before = texts_apart(v.drop_last(), excluded);
        if excluded.contains(v.last()) {
            before
        } else {
            before.push(v.last())
        }
    }
}

/// The hosts that a destination can be told by, or why there are none.
pub fn reference_candidates(entries: &[ManagedEntry], targets: &[ManagedEntry], relation: &str) -> (r:
    Result<Vec<String>, ConfigError>)
    ensures
        ({
            let all = texts_apart(hosts_of(views(entries@)), hosts_of(views(targets@)));
            match r {
                Ok(v) => all.len() > 0 && strs(v@) == all,
                Err(e) => all.len() == 0 && e@ == (if targets@.len() == 1 {
                    "no reference entries available to move `"@ + hosts_of(views(targets@))[0]
                        + "` "@ + relation@
                } else {
                    "no reference entries available to move selected entries "@ + relation@
                }),
            }
        }),
{
    let hosts: Vec<String> = selected_hosts(entries);
    let chosen: Vec<String> = selected_hosts(targets);
    let ghost all = strs(hosts@);
    assert(strs(chosen@).len() == chosen@.len());
    assert(all.len() == hosts@.len());
    let mut out: Vec<String> = Vec::new();
    let mut i: usize = 0;
    while i < hosts.len()
        invariant
            i <= hosts@.len(),
            all == strs(hosts@),
            strs(out@) == texts_apart(all.take(i as int), strs(chosen@)),
        decreases hosts@.len() - i,
    {
        if !holds(&chosen, &hosts[i]) {
            out.push(hosts[i].clone());
        }
        i += 1;
    }
    assert(strs(out@).len() == out@.len());
    if out.len() == 0 {
        if targets.len() == 1 {
            assert(strs(chosen@)[0] == chosen@[0]@);
            return Err(
                ConfigError::new(
                    concat4(
                        "no reference entries available to move `",
                        &chosen[0],
                        "` ",
                        relation,
                    ),
                ),
            );
        }
        return Err(
            ConfigError::new(
                concat2("no reference entries available to move selected entries ", relation),
            ),
        );
    }
    Ok(out)
}

/// What an answer to the question for the reference host says, or what to say before it is asked
/// again.
pub open spec fn reference_answer(
    input: Seq<char>,
    default: Option<Seq<char>>,
    chosen: Seq<Seq<char>>,
    candidates: Seq<Seq<char>>,
    relation: Seq<char>,
) -> Result<Seq<char>, Seq<char>> {
    let value = if blank(input) {
        default
    } else {
        Some(trim(input))
    };
    match value {
        None => Err("! Enter a reference host"@),
        Some(v) => if chosen.contains(v) {
            if chosen.len() == 1 {
                Err("! Cannot move `"@ + chosen[0] + "` "@ + relation + " itself"@)
            } else {
                Err("! Cannot move selected entries "@ + relation + " themselves"@)
            }
        } else if candidates.contains(v) {
            Ok(v)
        } else {
            Err("! Reference host `"@ + v + "` not found"@)
        },
    }
}

pub fn reference_host_answer(
    input: &str,
    default: Option<&str>,
    chosen: &Vec<String>,
    candidates: &Vec<String>,
    relation: &str,
) -> (r: Result<String, String>)
    ensures
        reference_answer(
            input@,
            opt_str(default),
            strs(chosen@),
            strs(candidates@),
            relation@,
        ) == (match r {
            Ok(v) => Ok(v@),
            Err(m) => Err(m@),
        }),
{
    let t: String = trimmed(input);
    let value: String = if t.as_str().is_empty() {
        match default {
            Some(d) => d.to_owned(),
            None => {
                return Err("! Enter a reference host".to_owned());
            },
        }
    } else {
        t
    };
    if holds(chosen, &value) {
        assert(strs(chosen@).len() == chosen@.len());
        if chosen.len() == 1 {
            assert(strs(chosen@)[0] == chosen@[0]@);
            return Err(
                concat5("! Cannot move `", &chosen[0], "` ", relation, " itself"),
            );
        }
        return Err(concat3("! Cannot move selected entries ", relation, " themselves"));
    }
    if holds(candidates, &value) {
        return Ok(value);
    }
    Err(concat3("! Reference host `", &value, "` not found"))
}

// ---------------------------------------------------------------------------
// Laws
// ---------------------------------------------------------------------------

proof fn lemma_part_multiset(es: Seq<ManagedView>, ts: Seq<ManagedView>)
    ensures
        part(es, ts, true).to_multiset().add(part(es, ts, false).to_multiset())
            == es.to_multiset(),
        part(es, ts, true).len() + part(es, ts, false).len() == es.len(),
    decreases es.len(),
{
    broadcast use vstd::seq_lib::to_multiset_build;

    if es.len() > 0 {
        let head = es.drop_last();
        lemma_part_multiset(head, ts);
        assert(head.push(es.last()) =~= es);
        let a = part(head, ts, true).to_multiset();
        let b = part(head, ts, false).to_multiset();
        assert(a.insert(es.last()).add(b) =~= a.add(b).insert(es.last()));
        assert(a.add(b.insert(es.last())) =~= a.add(b).insert(es.last()));
    } else {
        assert(part(es, ts, true).to_multiset().add(part(es, ts, false).to_multiset())
            =~= es.to_multiset()) by {
            es.to_multiset_ensures();
        }
    }
}

/// Moving entries loses none and adds none.
pub proof fn law_reorder_is_permutation(
    es: Seq<ManagedView>,
    ts: Seq<ManagedView>,
    d: Option<DestinationView>,
)
    ensures
        reordered(es, ts, d) matches Ok(r) ==> r.to_multiset() == es.to_multiset() && r.len()
            == es.len(),
{
    let moving = part(es, ts, true);
    let stay = part(es, ts, false);
    lemma_part_multiset(es, ts);
    match reordered(es, ts, d) {
        Ok(r) => {
            let k = insertion(stay, ts, d->0)->Ok_0;
            let a = stay.take(k);
            let b = stay.skip(k);
            lemma_until_host_bound(stay, match d->0 {
                DestinationView::Before(h) => h,
                DestinationView::After(h) => h,
                _ => Seq::empty(),
            });
            assert(a + b =~= stay);
            vstd::seq_lib::lemma_multiset_commutative(a, moving);
            vstd::seq_lib::lemma_multiset_commutative(a + moving, b);
            vstd::seq_lib::lemma_multiset_commutative(a, b);
            assert(a.to_multiset().add(moving.to_multiset()).add(b.to_multiset())
                =~= moving.to_multiset().add(a.to_multiset().add(b.to_multiset())));
        },
        Err(_) => {},
    }
}

proof fn lemma_until_host_bound(es: Seq<ManagedView>, host: Seq<char>)
    ensures
        until_host(es, host) <= es.len(),
    decreases es.len(),
{
    if es.len() > 0 {
        lemma_until_host_bound(es.skip(1), host);
    }
}

/// The entries that are moved, and those that stay, each keep their order among themselves:
/// taking the result apart again gives the same two rows.
pub proof fn law_reorder_keeps_relative_order(
    es: Seq<ManagedView>,
    ts: Seq<ManagedView>,
    d: Option<DestinationView>,
)
    ensures
        reordered(es, ts, d) matches Ok(r) ==> part(r, ts, true) == part(es, ts, true) && part(
            r,
            ts,
            false,
        ) == part(es, ts, false),
{
    let moving = part(es, ts, true);
    let stay = part(es, ts, false);
    match reordered(es, ts, d) {
        Ok(r) => {
            let k = insertion(stay, ts, d->0)->Ok_0;
            let a = stay.take(k);
            let b = stay.skip(k);
            lemma_until_host_bound(stay, match d->0 {
                DestinationView::Before(h) => h,
                DestinationView::After(h) => h,
                _ => Seq::empty(),
            });
            lemma_part_uniform(es, ts);
            assert forall|i: int| 0 <= i < a.len() implies !is_target(#[trigger] a[i], ts) by {
                assert(a[i] == stay[i]);
            }
            assert forall|i: int| 0 <= i < b.len() implies !is_target(#[trigger] b[i], ts) by {
                assert(b[i] == stay[k + i]);
            }
            lemma_part_of_uniform(a, ts, false);
            lemma_part_of_uniform(b, ts, false);
            lemma_part_of_uniform(moving, ts, true);
            lemma_part_concat(a + moving, b, ts, true);
            lemma_part_concat(a + moving, b, ts, false);
            lemma_part_concat(a, moving, ts, true);
            lemma_part_concat(a, moving, ts, false);
            assert(a + b =~= stay);
            assert(Seq::<ManagedView>::empty() + moving =~= moving);
            assert(moving + Seq::<ManagedView>::empty() =~= moving);
            assert(a + Seq::<ManagedView>::empty() =~= a);
        },
        Err(_) => {},
    }
}

proof fn lemma_part_uniform(es: Seq<ManagedView>, ts: Seq<ManagedView>)
    ensures
        forall|i: int|
            0 <= i < part(es, ts, true).len() ==> is_target(#[trigger] part(es, ts, true)[i], ts),
        forall|i: int|
            0 <= i < part(es, ts, false).len() ==> !is_target(
                #[trigger] part(es, ts, false)[i],
                ts,
            ),
    decreases es.len(),
{
    if es.len() > 0 {
        lemma_part_uniform(es.drop_last(), ts);
        assert forall|i: int| 0 <= i < part(es, ts, true).len() implies is_target(
            #[trigger] part(es, ts, true)[i],
            ts,
        ) by {
            if i < part(es.drop_last(), ts, true).len() {
                assert(part(es, ts, true)[i] == part(es.drop_last(), ts, true)[i]);
            }
        }
        assert forall|i: int| 0 <= i < part(es, ts, false).len() implies !is_target(
            #[trigger] part(es, ts, false)[i],
            ts,
        ) by {
            if i < part(es.drop_last(), ts, false).len() {
                assert(part(es, ts, false)[i] == part(es.drop_last(), ts, false)[i]);
            }
        }
    }
}

proof fn lemma_part_of_uniform(v: Seq<ManagedView>, ts: Seq<ManagedView>, kind: bool)
    requires
        forall|i: int| 0 <= i < v.len() ==> is_target(#[trigger] v[i], ts) == kind,
    ensures
        part(v, ts, kind) == v,
        part(v, ts, !kind) == Seq::<ManagedView>::empty(),
    decreases v.len(),
{
    if v.len() > 0 {
        assert forall|i: int| 0 <= i < v.drop_last().len() implies is_target(
            #[trigger] v.drop_last()[i],
            ts,
        ) == kind by {
            assert(v.drop_last()[i] == v[i]);
        }
        lemma_part_of_uniform(v.drop_last(), ts, kind);
        assert(is_target(v[v.len() - 1], ts) == kind);
        assert(v.drop_last().push(v.last()) =~= v);
    } else {
        assert(v =~= Seq::<ManagedView>::empty());
    }
}

proof fn lemma_part_concat(
    a: Seq<ManagedView>,
    b: Seq<ManagedView>,
    ts: Seq<ManagedView>,
    kind: bool,
)
    ensures
        part(a + b, ts, kind) == part(a, ts, kind) + part(b, ts, kind),
    decreases b.len(),
{
    if b.len() > 0 {
        lemma_part_concat(a, b.drop_last(), ts, kind);
        assert((a + b).drop_last() =~= a + b.drop_last());
        assert((a + b).last() == b.last());
        assert(part(a + b, ts, kind) =~= part(a, ts, kind) + part(b, ts, kind));
    } else {
        assert(a + b =~= a);
        assert(part(a, ts, kind) + part(b, ts, kind) =~= part(a, ts, kind));
    }
}

} // verus!
