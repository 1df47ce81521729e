//! Where entries come to stand when they are moved.

use vstd::prelude::*;

use crate::commands::cli::OrderArgs;
use crate::commands::order::{
    DestinationKind, DestinationView, ReorderedView, destination_of, insert_moved, is_target,
    moved_from, moved_host, part, reference_answer, reordered, texts_apart,
};
use crate::config::model::ManagedView;
use crate::config::state::{MetadataView, record_of};
use crate::config::store::until_host;
use crate::text::{blank, lower, trim};

verus! {

/// The test for the entries whose file is that of one of `ts`, or of none.
pub open spec fn shares_a_file(ts: Seq<ManagedView>, yes: bool) -> spec_fn(ManagedView) -> bool {
    |e: ManagedView| yes == (exists|i: int| 0 <= i < ts.len() && (#[trigger] ts[i]).path == e.path)
}

/// `k` is the place of the first of `es` that lists the host among its patterns.
pub open spec fn is_first_with(es: Seq<ManagedView>, host: Seq<char>, k: int) -> bool {
    &&& 0 <= k < es.len()
    &&& es[k].entry.host_patterns.contains(host)
    &&& forall|i: int| 0 <= i < k ==> !(#[trigger] es[i]).entry.host_patterns.contains(host)
}

/// One of `es` lists the host.
pub open spec fn is_listed(es: Seq<ManagedView>, host: Seq<char>) -> bool {
    exists|i: int| 0 <= i < es.len() && (#[trigger] es[i]).entry.host_patterns.contains(host)
}

/// The entry of a host is the first that lists the host among its patterns.
pub proof fn law_entry_of_a_host_is_the_first(es: Seq<ManagedView>, host: Seq<char>)
    ensures
        until_host(es, host) <= es.len(),
        until_host(es, host) < es.len() <==> is_listed(es, host),
        until_host(es, host) < es.len() ==> is_first_with(es, host, until_host(es, host) as int),
    decreases es.len(),
{
    if es.len() > 0 {
        if es[0].entry.host_patterns.contains(host) {
            assert(is_listed(es, host));
        } else {
            let rest = es.skip(1);
            law_entry_of_a_host_is_the_first(rest, host);
            let n = until_host(rest, host) as int;
            if n < rest.len() {
                assert(es[n + 1] == rest[n]);
                assert forall|i: int| 0 <= i < n + 1 implies !(
                #[trigger] es[i]).entry.host_patterns.contains(host) by {
                    if i > 0 {
                        assert(rest[i - 1] == es[i]);
                    }
                }
            }
            if is_listed(es, host) {
                let i = choose|i: int|
                    0 <= i < es.len() && (#[trigger] es[i]).entry.host_patterns.contains(host);
                assert(rest[i - 1] == es[i]);
            }
        }
    }
}

proof fn lemma_part_is_filtered(es: Seq<ManagedView>, ts: Seq<ManagedView>, yes: bool)
    ensures
        part(es, ts, yes) == es.filter(shares_a_file(ts, yes)),
    decreases es.len(),
{
    reveal(Seq::filter);
    if es.len() > 0 {
        lemma_part_is_filtered(es.drop_last(), ts, yes);
        assert(is_target(es.last(), ts) == (exists|i: int|
            0 <= i < ts.len() && (#[trigger] ts[i]).path == es.last().path));
    }
}

/// The entries that are moved come to stand together where they were asked to: as the first, as
/// the last, directly before the first staying entry that lists the host, or directly behind it.
/// All others stay in their order round them.
pub proof fn law_moved_entries_stand_where_asked(
    es: Seq<ManagedView>,
    ts: Seq<ManagedView>,
    d: DestinationView,
)
    ensures
        reordered(es, ts, Some(d)) matches Ok(r) ==> {
            let moved = es.filter(shares_a_file(ts, true));
            let stay = es.filter(shares_a_file(ts, false));
            match d {
                DestinationView::First => r == moved + stay,
                DestinationView::Last => r == stay + moved,
                DestinationView::Before(h) => exists|k: int| #[trigger]
                    is_first_with(stay, h, k) && r == stay.take(k) + moved + stay.skip(k) && r[k
                        + moved.len()] == stay[k],
                DestinationView::After(h) => exists|k: int| #[trigger]
                    is_first_with(stay, h, k) && r == stay.take(k + 1) + moved + stay.skip(k + 1)
                        && r[k] == stay[k],
            }
        },
{
    lemma_part_is_filtered(es, ts, true);
    lemma_part_is_filtered(es, ts, false);
    let moved = es.filter(shares_a_file(ts, true));
    let stay = es.filter(shares_a_file(ts, false));
    match d {
        DestinationView::First => {
            assert(stay.take(0) + moved + stay.skip(0) =~= moved + stay);
        },
        DestinationView::Last => {
            let n = stay.len() as int;
            assert(stay.take(n) + moved + stay.skip(n) =~= stay + moved);
        },
        DestinationView::Before(h) => {
            law_entry_of_a_host_is_the_first(stay, h);
            if reordered(es, ts, Some(d)) is Ok {
                assert(is_first_with(stay, h, until_host(stay, h) as int));
            }
        },
        DestinationView::After(h) => {
            law_entry_of_a_host_is_the_first(stay, h);
            if reordered(es, ts, Some(d)) is Ok {
                assert(is_first_with(stay, h, until_host(stay, h) as int));
            }
        },
    }
}

/// Moving is refused only where nothing is to be moved, or where the host that it is to be next to
/// is that of an entry that moves, or of none that stays.
pub proof fn law_moving_is_refused_only_for_a_reason(
    es: Seq<ManagedView>,
    ts: Seq<ManagedView>,
    d: DestinationView,
)
    ensures
        reordered(es, ts, Some(d)) is Ok <==> es.filter(shares_a_file(ts, true)).len() > 0 && (match d {
            DestinationView::Before(h) => !is_listed(ts, h) && is_listed(
                es.filter(shares_a_file(ts, false)),
                h,
            ),
            DestinationView::After(h) => !is_listed(ts, h) && is_listed(
                es.filter(shares_a_file(ts, false)),
                h,
            ),
            _ => true,
        }),
        reordered(es, ts, None) is Err,
{
    lemma_part_is_filtered(es, ts, true);
    lemma_part_is_filtered(es, ts, false);
    let stay = es.filter(shares_a_file(ts, false));
    let moved = es.filter(shares_a_file(ts, true));
    if moved.len() > 0 {
        es.lemma_filter_pred(shares_a_file(ts, true), 0);
        let i = choose|i: int| 0 <= i < ts.len() && (#[trigger] ts[i]).path == moved[0].path;
        assert(ts.len() > 0);
    }
    match d {
        DestinationView::Before(h) => {
            law_entry_of_a_host_is_the_first(stay, h);
            law_entry_of_a_host_is_the_first(ts, h);
        },
        DestinationView::After(h) => {
            law_entry_of_a_host_is_the_first(stay, h);
            law_entry_of_a_host_is_the_first(ts, h);
        },
        _ => {},
    }
}

/// The destination is what the request names: a host to be before, a host to be behind, the
/// first place, the last place, in this order.
pub proof fn law_destination_is_what_was_asked(a: OrderArgs)
    ensures
        a.before is Some ==> destination_of(a) == Some(DestinationView::Before(a.before->0@)),
        a.before is None && a.after is Some ==> destination_of(a) == Some(
            DestinationView::After(a.after->0@),
        ),
        a.before is None && a.after is None && a.first ==> destination_of(a) == Some(
            DestinationView::First,
        ),
        a.before is None && a.after is None && !a.first && a.last ==> destination_of(a) == Some(
            DestinationView::Last,
        ),
        a.before is None && a.after is None && !a.first && !a.last ==> destination_of(a) is None,
{
}

pub open spec fn is_none_of(excluded: Seq<Seq<char>>) -> spec_fn(Seq<char>) -> bool {
    |x: Seq<char>| !excluded.contains(x)
}

/// The hosts that entries can be moved next to are those that are not moved, in their order.
pub proof fn law_other_hosts_are_offered(hosts: Seq<Seq<char>>, excluded: Seq<Seq<char>>)
    ensures
        texts_apart(hosts, excluded) == hosts.filter(is_none_of(excluded)),
    decreases hosts.len(),
{
    reveal(Seq::filter);
    if hosts.len() > 0 {
        law_other_hosts_are_offered(hosts.drop_last(), excluded);
    } else {
        assert(hosts.filter(is_none_of(excluded)) =~= hosts);
    }
}

/// An answer is taken where it is one of the hosts that are offered and none of those that are
/// moved; a blank one stands for the host that was proposed.
pub proof fn law_offered_hosts_are_taken(
    input: Seq<char>,
    default: Option<Seq<char>>,
    chosen: Seq<Seq<char>>,
    candidates: Seq<Seq<char>>,
    relation: Seq<char>,
)
    ensures
        ({
            let r = reference_answer(input, default, chosen, candidates, relation);
            &&& !blank(input) ==> (r is Ok <==> candidates.contains(trim(input))
                && !chosen.contains(trim(input)))
            &&& !blank(input) && r is Ok ==> r->Ok_0 == trim(input)
            &&& blank(input) && default is None ==> r is Err
            &&& blank(input) && default is Some ==> (r is Ok <==> candidates.contains(default->0)
                && !chosen.contains(default->0))
            &&& blank(input) && r is Ok ==> r->Ok_0 == default->0
        }),
{
}

/// A place is named by its word or the first letter of it, whatever the case.
pub proof fn law_places_are_named(v: Seq<char>)
    ensures
        DestinationKind::named(v) == Some(DestinationKind::Before) <==> lower(trim(v)) == "before"@
            || lower(trim(v)) == "b"@,
        DestinationKind::named(v) == Some(DestinationKind::After) <==> lower(trim(v)) == "after"@
            || lower(trim(v)) == "a"@,
        DestinationKind::named(v) == Some(DestinationKind::First) <==> lower(trim(v)) == "first"@
            || lower(trim(v)) == "f"@,
        DestinationKind::named(v) == Some(DestinationKind::Last) <==> lower(trim(v)) == "last"@
            || lower(trim(v)) == "l"@,
{
    reveal_strlit("before");
    reveal_strlit("after");
    reveal_strlit("first");
    reveal_strlit("last");
    reveal_strlit("b");
    reveal_strlit("a");
    reveal_strlit("f");
    reveal_strlit("l");
    assert("before"@.len() == 6 && "after"@.len() == 5 && "first"@.len() == 5 && "last"@.len() == 4);
    assert("after"@[0] == 'a' && "first"@[0] == 'f');
    assert("b"@[0] == 'b' && "a"@[0] == 'a' && "f"@[0] == 'f' && "l"@[0] == 'l');
}

pub open spec fn orders_rise(v: Seq<ReorderedView>) -> bool {
    forall|i: int, j: int|
        0 <= i < j < v.len() ==> (#[trigger] v[i]).order <= (#[trigger] v[j]).order
}

#[verifier::rlimit(30)]
proof fn lemma_insert_moved(v: Seq<ReorderedView>, x: ReorderedView)
    requires
        orders_rise(v),
    ensures
        orders_rise(insert_moved(v, x)),
        insert_moved(v, x).to_multiset() == v.to_multiset().insert(x),
        insert_moved(v, x).len() == v.len() + 1,
        forall|k: int|
            0 <= k < v.len() + 1 ==> (#[trigger] insert_moved(v, x)[k] == x || v.contains(
                insert_moved(v, x)[k],
            )),
    decreases v.len(),
{
    broadcast use vstd::seq_lib::to_multiset_build;

    let r = insert_moved(v, x);
    if v.len() > 0 && x.order < v.last().order {
        let head = v.drop_last();
        let top = v.last();
        assert(head.push(top) =~= v);
        lemma_insert_moved(head, x);
        let rest = insert_moved(head, x);
        assert(v[v.len() - 1] == top);
        assert forall|k: int| 0 <= k < r.len() implies (#[trigger] r[k] == x || v.contains(r[k])) by {
            if k < rest.len() {
                assert(rest[k] == x || head.contains(rest[k]));
                if head.contains(rest[k]) {
                    let j = choose|j: int| 0 <= j < head.len() && head[j] == rest[k];
                    assert(v[j] == rest[k]);
                }
            }
        }
        assert forall|i: int, j: int| 0 <= i < j < r.len() implies (#[trigger] r[i]).order <= (
        #[trigger] r[j]).order by {
            if j < rest.len() {
                assert(rest[i].order <= rest[j].order);
            } else {
                assert(rest[i] == x || head.contains(rest[i]));
                if head.contains(rest[i]) {
                    let k = choose|k: int| 0 <= k < head.len() && head[k] == rest[i];
                    assert(v[k].order <= v[v.len() - 1].order);
                }
            }
        }
        assert(head.to_multiset().insert(x).insert(top) =~= head.to_multiset().insert(top).insert(
            x,
        ));
    } else {
        assert forall|i: int, j: int| 0 <= i < j < r.len() implies (#[trigger] r[i]).order <= (
        #[trigger] r[j]).order by {
            if j == v.len() && i < v.len() - 1 {
                assert(v[i].order <= v[v.len() - 1].order);
            }
        }
        assert forall|k: int| 0 <= k < r.len() implies (#[trigger] r[k] == x || v.contains(r[k])) by {
            if k < v.len() {
                assert(v[k] == r[k]);
            }
        }
    }
}

/// `x` tells the order of the first entry that lists its host, and the record of that entry.
pub open spec fn tells_the_order(
    x: ReorderedView,
    es: Seq<ManagedView>,
    ms: Seq<MetadataView>,
    windows: bool,
) -> bool {
    exists|k: int| #[trigger]
        is_first_with(es, x.host, k) && x.order == es[k].order && record_of(ms, es[k], windows)
            is Some && x.metadata_id == (record_of(ms, es[k], windows)->0).id
}

/// What was moved is told host by host, each with its order and its record, in rising order.
pub proof fn law_moved_hosts_are_told(
    es: Seq<ManagedView>,
    ms: Seq<MetadataView>,
    hosts: Seq<Seq<char>>,
    acc: Seq<ReorderedView>,
    windows: bool,
)
    requires
        orders_rise(acc),
        forall|i: int| 0 <= i < acc.len() ==> tells_the_order(#[trigger] acc[i], es, ms, windows),
        moved_from(es, ms, hosts, acc, windows) is Ok,
    ensures
        ({
            let r = moved_from(es, ms, hosts, acc, windows)->Ok_0;
            &&& r.len() == acc.len() + hosts.len()
            &&& orders_rise(r)
            &&& forall|i: int| 0 <= i < r.len() ==> tells_the_order(#[trigger] r[i], es, ms, windows)
        }),
    decreases hosts.len(),
{
    if hosts.len() > 0 {
        let x = moved_host(es, ms, hosts[0], windows)->Ok_0;
        law_entry_of_a_host_is_the_first(es, hosts[0]);
        let k = until_host(es, hosts[0]) as int;
        assert(is_first_with(es, x.host, k));
        assert(tells_the_order(x, es, ms, windows));
        lemma_insert_moved(acc, x);
        let next = insert_moved(acc, x);
        assert forall|i: int| 0 <= i < next.len() implies tells_the_order(
            #[trigger] next[i],
            es,
            ms,
            windows,
        ) by {
            if next[i] != x {
                assert(acc.contains(next[i]));
                let j = choose|j: int| 0 <= j < acc.len() && acc[j] == next[i];
                assert(tells_the_order(acc[j], es, ms, windows));
            }
        }
        law_moved_hosts_are_told(es, ms, hosts.skip(1), next, windows);
    }
}

} // verus!
