//! Where the values of a preview come from.

use vstd::prelude::*;

use crate::config::match_header::{BlockView, ContextView};
use crate::config::match_laws::{
    is_literal_criterion, is_named, is_so, law_block_applies_where_all_is_so,
};
use crate::config::model::{
    HostView, IgnoredView, ManagedView, OriginView, ResolvedView, SourceView,
};
use crate::config::pattern::{
    bare, decide, glob_may_say, is_plain, lemma_decide_literals, list_may_say, outcomes_may_be,
};
use crate::config::render::port_text;
use crate::config::resolve::{
    MergeView, OptionsView, WinnersView, applied, block_may_give, blocks_may_give, context_of,
    entries_may_give, entry_origin, ignored_added, ignored_with, line_span, merge_may_give,
    merged_with, resolution_may_be, resolved_from, scalar_sources_with, source_added, sources_each,
    sources_extra, sources_with, start, taken, winner_after, winners_with,
};
use crate::config::resolve_laws::{
    law_first_value_wins_everywhere, law_resolution_is_for_the_target, may_be_picked, picked_of,
};
use crate::config::root_config::{block_may_apply, uses_version};
use crate::text::{decimal, join, starts_with};

verus! {

// ---------------------------------------------------------------------------
// The directives with one value
// ---------------------------------------------------------------------------

/// The names of the directives with one value.
pub open spec fn key_at(n: int) -> Seq<char> {
    if n == 0 {
        "HostName"@
    } else if n == 1 {
        "User"@
    } else if n == 2 {
        "Port"@
    } else if n == 3 {
        "ProxyJump"@
    } else if n == 4 {
        "StrictHostKeyChecking"@
    } else if n == 5 {
        "UserKnownHostsFile"@
    } else if n == 6 {
        "HostKeyAlgorithms"@
    } else if n == 7 {
        "PubkeyAcceptedAlgorithms"@
    } else if n == 8 {
        "ForwardAgent"@
    } else {
        "Tag"@
    }
}

/// The value of such a directive.
pub open spec fn scalar_at(e: HostView, n: int) -> Option<Seq<char>> {
    if n == 0 {
        e.hostname
    } else if n == 1 {
        e.user
    } else if n == 2 {
        match e.port {
            Some(p) => Some(decimal(p as nat)),
            None => None,
        }
    } else if n == 3 {
        e.proxy_jump
    } else if n == 4 {
        e.strict_host_key_checking
    } else if n == 5 {
        e.user_known_hosts_file
    } else if n == 6 {
        e.host_key_algorithms
    } else if n == 7 {
        e.pubkey_accepted_algorithms
    } else if n == 8 {
        e.forward_agent
    } else {
        e.tag
    }
}

spec fn winner_at(w: WinnersView, n: int) -> Option<SourceView> {
    if n == 0 {
        w.hostname
    } else if n == 1 {
        w.user
    } else if n == 2 {
        w.port
    } else if n == 3 {
        w.proxy_jump
    } else if n == 4 {
        w.strict_host_key_checking
    } else if n == 5 {
        w.user_known_hosts_file
    } else if n == 6 {
        w.host_key_algorithms
    } else if n == 7 {
        w.pubkey_accepted_algorithms
    } else if n == 8 {
        w.forward_agent
    } else {
        w.tag
    }
}

/// `k` is the place of the first entry that sets the directive.
pub open spec fn is_first_to_set(es: Seq<ManagedView>, n: int, k: int) -> bool {
    &&& 0 <= k < es.len()
    &&& scalar_at(es[k].entry, n) is Some
    &&& forall|i: int| 0 <= i < k ==> scalar_at((#[trigger] es[i]).entry, n) is None
}

proof fn lemma_in_either<A>(a: Seq<A>, b: Seq<A>, x: A)
    ensures
        (a + b).contains(x) <==> a.contains(x) || b.contains(x),
{
    let s = a + b;
    if a.contains(x) {
        let i = choose|i: int| 0 <= i < a.len() && a[i] == x;
        assert(s[i] == x);
    }
    if b.contains(x) {
        let i = choose|i: int| 0 <= i < b.len() && b[i] == x;
        assert(s[a.len() + i] == x);
    }
    if s.contains(x) {
        let i = choose|i: int| 0 <= i < s.len() && s[i] == x;
        if i < a.len() {
            assert(a[i] == x);
        } else {
            assert(b[i - a.len()] == x);
        }
    }
}

spec fn ignored_part(w: WinnersView, e: HostView, o: OriginView, n: int) -> Seq<IgnoredView> {
    ignored_added(winner_at(w, n), key_at(n), scalar_at(e, n), o)
}

spec fn source_part(w: WinnersView, e: HostView, o: OriginView, n: int) -> Seq<SourceView> {
    source_added(winner_at(w, n), key_at(n), scalar_at(e, n), o)
}

#[verifier::rlimit(30)]
proof fn lemma_ignored_with(
    base: Seq<IgnoredView>,
    w: WinnersView,
    e: HostView,
    o: OriginView,
    x: IgnoredView,
)
    ensures
        base.contains(x) ==> ignored_with(base, w, e, o).contains(x),
        forall|n: int|
            0 <= n < 10 && (#[trigger] ignored_part(w, e, o, n)).contains(x) ==> ignored_with(
                base,
                w,
                e,
                o,
            ).contains(x),
        ignored_with(base, w, e, o).contains(x) ==> base.contains(x) || exists|n: int|
            0 <= n < 10 && (#[trigger] ignored_part(w, e, o, n)).contains(x),
{
    let t0 = base;
    let p0 = ignored_added(w.hostname, "HostName"@, e.hostname, o);
    let p1 = ignored_added(w.user, "User"@, e.user, o);
    let p2 = ignored_added(w.port, "Port"@, port_text(e.port), o);
    let p3 = ignored_added(w.proxy_jump, "ProxyJump"@, e.proxy_jump, o);
    let p4 = ignored_added(w.strict_host_key_checking, "StrictHostKeyChecking"@, e.strict_host_key_checking, o);
    let p5 = ignored_added(w.user_known_hosts_file, "UserKnownHostsFile"@, e.user_known_hosts_file, o);
    let p6 = ignored_added(w.host_key_algorithms, "HostKeyAlgorithms"@, e.host_key_algorithms, o);
    let p7 = ignored_added(w.pubkey_accepted_algorithms, "PubkeyAcceptedAlgorithms"@, e.pubkey_accepted_algorithms, o);
    let p8 = ignored_added(w.forward_agent, "ForwardAgent"@, e.forward_agent, o);
    let p9 = ignored_added(w.tag, "Tag"@, e.tag, o);
    let t1 = t0 + p0;
    let t2 = t1 + p1;
    let t3 = t2 + p2;
    let t4 = t3 + p3;
    let t5 = t4 + p4;
    let t6 = t5 + p5;
    let t7 = t6 + p6;
    let t8 = t7 + p7;
    let t9 = t8 + p8;
    let t10 = t9 + p9;
    lemma_in_either(t0, p0, x);
    lemma_in_either(t1, p1, x);
    lemma_in_either(t2, p2, x);
    lemma_in_either(t3, p3, x);
    lemma_in_either(t4, p4, x);
    lemma_in_either(t5, p5, x);
    lemma_in_either(t6, p6, x);
    lemma_in_either(t7, p7, x);
    lemma_in_either(t8, p8, x);
    lemma_in_either(t9, p9, x);
    assert(t10 == ignored_with(base, w, e, o));
    assert(p0 == ignored_part(w, e, o, 0));
    assert(p1 == ignored_part(w, e, o, 1));
    assert(p2 == ignored_part(w, e, o, 2));
    assert(p3 == ignored_part(w, e, o, 3));
    assert(p4 == ignored_part(w, e, o, 4));
    assert(p5 == ignored_part(w, e, o, 5));
    assert(p6 == ignored_part(w, e, o, 6));
    assert(p7 == ignored_part(w, e, o, 7));
    assert(p8 == ignored_part(w, e, o, 8));
    assert(p9 == ignored_part(w, e, o, 9));
}

#[verifier::rlimit(30)]
proof fn lemma_sources_with(
    base: Seq<SourceView>,
    w: WinnersView,
    e: HostView,
    o: OriginView,
    x: SourceView,
)
    ensures
        base.contains(x) ==> sources_with(base, w, e, o).contains(x),
        forall|n: int|
            0 <= n < 10 && (#[trigger] source_part(w, e, o, n)).contains(x) ==> sources_with(
                base,
                w,
                e,
                o,
            ).contains(x),
{
    let t0 = base;
    let p0 = source_added(w.hostname, "HostName"@, e.hostname, o);
    let p1 = source_added(w.user, "User"@, e.user, o);
    let p2 = source_added(w.port, "Port"@, port_text(e.port), o);
    let p3 = source_added(w.proxy_jump, "ProxyJump"@, e.proxy_jump, o);
    let p4 = source_added(w.strict_host_key_checking, "StrictHostKeyChecking"@, e.strict_host_key_checking, o);
    let p5 = source_added(w.user_known_hosts_file, "UserKnownHostsFile"@, e.user_known_hosts_file, o);
    let p6 = source_added(w.host_key_algorithms, "HostKeyAlgorithms"@, e.host_key_algorithms, o);
    let p7 = source_added(w.pubkey_accepted_algorithms, "PubkeyAcceptedAlgorithms"@, e.pubkey_accepted_algorithms, o);
    let p8 = source_added(w.forward_agent, "ForwardAgent"@, e.forward_agent, o);
    let p9 = source_added(w.tag, "Tag"@, e.tag, o);
    let t1 = t0 + p0;
    let t2 = t1 + p1;
    let t3 = t2 + p2;
    let t4 = t3 + p3;
    let t5 = t4 + p4;
    let t6 = t5 + p5;
    let t7 = t6 + p6;
    let t8 = t7 + p7;
    let t9 = t8 + p8;
    let t10 = t9 + p9;
    lemma_in_either(t0, p0, x);
    lemma_in_either(t1, p1, x);
    lemma_in_either(t2, p2, x);
    lemma_in_either(t3, p3, x);
    lemma_in_either(t4, p4, x);
    lemma_in_either(t5, p5, x);
    lemma_in_either(t6, p6, x);
    lemma_in_either(t7, p7, x);
    lemma_in_either(t8, p8, x);
    lemma_in_either(t9, p9, x);
    assert(t10 == scalar_sources_with(base, w, e, o));
    assert(p0 == source_part(w, e, o, 0));
    assert(p1 == source_part(w, e, o, 1));
    assert(p2 == source_part(w, e, o, 2));
    assert(p3 == source_part(w, e, o, 3));
    assert(p4 == source_part(w, e, o, 4));
    assert(p5 == source_part(w, e, o, 5));
    assert(p6 == source_part(w, e, o, 6));
    assert(p7 == source_part(w, e, o, 7));
    assert(p8 == source_part(w, e, o, 8));
    assert(p9 == source_part(w, e, o, 9));
    let q1 = sources_each("IdentityFile"@, e.identity_files, o);
    let q2 = sources_each("LocalForward"@, e.local_forwards, o);
    let q3 = sources_each("RemoteForward"@, e.remote_forwards, o);
    let q4 = sources_extra(e.extra_options, o);
    lemma_in_either(t10, q1, x);
    lemma_in_either(t10 + q1, q2, x);
    lemma_in_either(t10 + q1 + q2, q3, x);
    lemma_in_either(t10 + q1 + q2 + q3, q4, x);
}

/// The entries taken one after the other.
spec fn taken_all(m: MergeView, es: Seq<ManagedView>) -> MergeView
    decreases es.len(),
{
    if es.len() == 0 {
        m
    } else {
        taken(taken_all(m, es.drop_last()), es.last())
    }
}

proof fn lemma_taken_first(m: MergeView, e: ManagedView, es: Seq<ManagedView>)
    ensures
        taken_all(m, seq![e] + es) == taken_all(taken(m, e), es),
    decreases es.len(),
{
    let all = seq![e] + es;
    if es.len() == 0 {
        assert(all.drop_last() =~= Seq::<ManagedView>::empty());
        assert(all.last() == e);
        assert(taken_all(m, all.drop_last()) == m);
        assert(taken_all(taken(m, e), es) == taken(m, e));
    } else {
        assert(all.drop_last() =~= seq![e] + es.drop_last());
        lemma_taken_first(m, e, es.drop_last());
    }
}

proof fn lemma_picked_are_taken(m: MergeView, es: Seq<ManagedView>, target: Seq<char>, r: MergeView)
    requires
        entries_may_give(m, es, target, Ok(r)),
    ensures
        r == taken_all(m, picked_of(m, es, target, r)),
    decreases es.len(),
{
    if es.len() > 0 {
        let rest = es.skip(1);
        if list_may_say(es[0].entry.host_patterns, target, Ok(true)) && entries_may_give(
            taken(m, es[0]),
            rest,
            target,
            Ok(r),
        ) {
            let next = taken(m, es[0]);
            lemma_picked_are_taken(next, rest, target, r);
            lemma_taken_first(m, es[0], picked_of(next, rest, target, r));
        } else {
            lemma_picked_are_taken(m, rest, target, r);
        }
    }
}

#[verifier::rlimit(30)]
proof fn lemma_winner(target: Seq<char>, es: Seq<ManagedView>, n: int)
    requires
        0 <= n < 10,
    ensures
        match winner_at(taken_all(start(target), es).winners, n) {
            Some(w) => exists|k: int| #[trigger]
                is_first_to_set(es, n, k) && w.key == key_at(n) && Some(w.value) == scalar_at(
                    es[k].entry,
                    n,
                ) && w.origin == entry_origin(es[k]),
            None => forall|i: int| 0 <= i < es.len() ==> scalar_at((#[trigger] es[i]).entry, n) is None,
        },
    decreases es.len(),
{
    if es.len() > 0 {
        let head = es.drop_last();
        let e = es.last();
        lemma_winner(target, head, n);
        let m = taken_all(start(target), head);
        assert forall|i: int| 0 <= i < head.len() implies es[i] == #[trigger] head[i] by {}
        let before = winner_at(m.winners, n);
        lemma_winner_step(m.winners, e.entry, entry_origin(e), n);
        if before is Some {
            let w = before->0;
            let k = choose|k: int| #[trigger]
                is_first_to_set(head, n, k) && w.key == key_at(n) && Some(w.value) == scalar_at(
                    head[k].entry,
                    n,
                ) && w.origin == entry_origin(head[k]);
            assert forall|i: int| 0 <= i < k implies scalar_at((#[trigger] es[i]).entry, n) is None by {
                assert(es[i] == head[i]);
            }
            assert(es[k] == head[k]);
            assert(is_first_to_set(es, n, k));
        } else {
            let k = es.len() - 1;
            assert forall|i: int| 0 <= i < k implies scalar_at((#[trigger] es[i]).entry, n) is None by {
                assert(es[i] == head[i]);
            }
            if scalar_at(e.entry, n) is Some {
                assert(is_first_to_set(es, n, k));
            }
        }
    }
}

proof fn lemma_winner_step(w: WinnersView, e: HostView, o: OriginView, n: int)
    requires
        0 <= n < 10,
    ensures
        winner_at(winners_with(w, e, o), n) == winner_after(
            winner_at(w, n),
            key_at(n),
            scalar_at(e, n),
            o,
        ),
{
}

/// `x` says that the value of `es[j]` was passed over for that of `es[k]`.
pub open spec fn tells_of_both(x: IgnoredView, es: Seq<ManagedView>, n: int, k: int, j: int) -> bool {
    &&& x.key == key_at(n)
    &&& Some(x.winning_value) == scalar_at(es[k].entry, n)
    &&& Some(x.attempted_value) == scalar_at(es[j].entry, n)
    &&& x.winning_origin == entry_origin(es[k])
    &&& x.attempted_origin == entry_origin(es[j])
}

#[verifier::rlimit(30)]
proof fn lemma_ignored(target: Seq<char>, es: Seq<ManagedView>, n: int, k: int, j: int, x: IgnoredView)
    requires
        0 <= n < 10,
        is_first_to_set(es, n, k),
        k < j < es.len(),
        tells_of_both(x, es, n, k, j),
    ensures
        taken_all(start(target), es).ignored.contains(x),
    decreases es.len(),
{
    let head = es.drop_last();
    let e = es.last();
    let m = taken_all(start(target), head);
    assert forall|i: int| 0 <= i < head.len() implies es[i] == #[trigger] head[i] by {}
    lemma_ignored_with(m.ignored, m.winners, e.entry, entry_origin(e), x);
    assert forall|i: int| 0 <= i < k implies scalar_at((#[trigger] head[i]).entry, n) is None by {
        assert(es[i] == head[i]);
    }
    assert(head[k] == es[k]);
    assert(is_first_to_set(head, n, k));
    if j < head.len() {
        assert(head[j] == es[j]);
        lemma_ignored(target, head, n, k, j, x);
    } else {
        lemma_winner(target, head, n);
        let w = winner_at(m.winners, n);
        assert(w is Some) by {
            if w is None {
                assert(scalar_at(head[k].entry, n) is None);
            }
        }
        let k2 = choose|k2: int| #[trigger]
            is_first_to_set(head, n, k2) && (w->0).key == key_at(n) && Some((w->0).value)
                == scalar_at(head[k2].entry, n) && (w->0).origin == entry_origin(head[k2]);
        assert(k2 == k) by {
            if k2 < k {
                assert(scalar_at(head[k2].entry, n) is None);
            }
            if k < k2 {
                assert(scalar_at(head[k].entry, n) is None);
            }
        }
        let part = ignored_part(m.winners, e.entry, entry_origin(e), n);
        assert(part.len() == 1);
        assert(part[0] =~= x);
        assert(part.contains(x));
    }
}

/// The key is that of the `n`th directive.
#[verifier::rlimit(30)]
proof fn lemma_ignored_only(target: Seq<char>, es: Seq<ManagedView>, x: IgnoredView)
    requires
        taken_all(start(target), es).ignored.contains(x),
    ensures
        exists|n: int, k: int, j: int|
            0 <= n < 10 && k < j < es.len() && is_first_to_set(es, n, k) && #[trigger] tells_of_both(
                x,
                es,
                n,
                k,
                j,
            ),
    decreases es.len(),
{
    if es.len() > 0 {
        let head = es.drop_last();
        let e = es.last();
        let m = taken_all(start(target), head);
        assert forall|i: int| 0 <= i < head.len() implies es[i] == #[trigger] head[i] by {}
        lemma_ignored_with(m.ignored, m.winners, e.entry, entry_origin(e), x);
        if m.ignored.contains(x) {
            lemma_ignored_only(target, head, x);
            let (n, k, j) = choose|n: int, k: int, j: int|
                0 <= n < 10 && k < j < head.len() && is_first_to_set(head, n, k)
                    && #[trigger] tells_of_both(x, head, n, k, j);
            lemma_first_of_more(head, e, n, k);
            assert(head.push(e) =~= es);
            assert(es[k] == head[k] && es[j] == head[j]);
            assert(tells_of_both(x, es, n, k, j));
        } else {
            let n = choose|n: int|
                0 <= n < 10 && (#[trigger] ignored_part(
                    m.winners,
                    e.entry,
                    entry_origin(e),
                    n,
                )).contains(x);
            lemma_winner(target, head, n);
            let w = winner_at(m.winners, n)->0;
            let k = choose|k: int| #[trigger]
                is_first_to_set(head, n, k) && w.key == key_at(n) && Some(w.value) == scalar_at(
                    head[k].entry,
                    n,
                ) && w.origin == entry_origin(head[k]);
            lemma_first_of_more(head, e, n, k);
            assert(head.push(e) =~= es);
            let j = es.len() - 1;
            assert(es[k] == head[k]);
            assert(tells_of_both(x, es, n, k, j));
        }
    } else {
        assert(start(target).ignored.len() == 0);
    }
}

proof fn lemma_first_of_more(head: Seq<ManagedView>, e: ManagedView, n: int, k: int)
    requires
        is_first_to_set(head, n, k),
    ensures
        is_first_to_set(head.push(e), n, k),
{
    let es = head.push(e);
    assert(es[k] == head[k]);
    assert forall|i: int| 0 <= i < k implies scalar_at((#[trigger] es[i]).entry, n) is None by {
        assert(es[i] == head[i]);
    }
}

proof fn lemma_no_blocks(
    es: Seq<ManagedView>,
    target: Seq<char>,
    o: OptionsView,
    x: ResolvedView,
) -> (m: MergeView)
    requires
        resolution_may_be(es, target, Seq::empty(), o, Ok(x)),
    ensures
        entries_may_give(start(target), es, target, Ok(m)),
        x == resolved_from(target, m),
        m == taken_all(start(target), x.matched_entries),
{
    let none = Seq::<BlockView>::empty();
    let m = choose|m: MergeView| #[trigger]
        merge_may_give(es, target, none, o, Ok(m)) && x == resolved_from(target, m);
    let (a, b) = choose|a: MergeView, b: MergeView|
        blocks_may_give(start(target), none, true, target, o, Ok(a)) && #[trigger] entries_may_give(
            a,
            es,
            target,
            Ok(b),
        ) && blocks_may_give(b, none, false, target, o, Ok(m));
    assert(a == start(target));
    assert(b == m);
    lemma_picked_are_taken(a, es, target, m);
    law_first_value_wins_everywhere(a, es, target, m);
    let picked = picked_of(a, es, target, m);
    assert(a.matched + picked =~= picked);
    m
}

/// Of the entries that speak of the target, the first that sets a directive gives its value;
/// without such an entry there is none.
pub proof fn law_value_is_of_the_first_entry(
    es: Seq<ManagedView>,
    target: Seq<char>,
    o: OptionsView,
    x: ResolvedView,
    n: int,
    k: int,
)
    requires
        resolution_may_be(es, target, Seq::empty(), o, Ok(x)),
        0 <= n < 10,
    ensures
        is_first_to_set(x.matched_entries, n, k) ==> scalar_at(x.merged_entry, n) == scalar_at(
            x.matched_entries[k].entry,
            n,
        ),
        (forall|i: int|
            0 <= i < x.matched_entries.len() ==> scalar_at(
                (#[trigger] x.matched_entries[i]).entry,
                n,
            ) is None) ==> scalar_at(x.merged_entry, n) is None,
{
    let m = lemma_no_blocks(es, target, o, x);
    lemma_merged_scalar(target, x.matched_entries, n);
    let ms = x.matched_entries;
    if is_first_to_set(ms, n, k) && scalar_at(x.merged_entry, n) is Some {
        let j = choose|j: int| #[trigger]
            is_first_to_set(ms, n, j) && scalar_at(x.merged_entry, n) == scalar_at(ms[j].entry, n);
        if j < k {
            assert(scalar_at(ms[j].entry, n) is None);
        }
        if k < j {
            assert(scalar_at(ms[k].entry, n) is None);
        }
    }
}

#[verifier::rlimit(30)]
proof fn lemma_merged_scalar(target: Seq<char>, es: Seq<ManagedView>, n: int)
    requires
        0 <= n < 10,
    ensures
        ({
            let v = scalar_at(taken_all(start(target), es).merged, n);
            &&& v is Some ==> exists|k: int| #[trigger]
                is_first_to_set(es, n, k) && v == scalar_at(es[k].entry, n)
            &&& v is None ==> forall|i: int|
                0 <= i < es.len() ==> scalar_at((#[trigger] es[i]).entry, n) is None
        }),
    decreases es.len(),
{
    if es.len() > 0 {
        let head = es.drop_last();
        let e = es.last();
        lemma_merged_scalar(target, head, n);
        let m = taken_all(start(target), head).merged;
        assert(head.push(e) =~= es);
        let v = scalar_at(m, n);
        assert(scalar_at(merged_with(m, e.entry), n) == (if v is Some {
            v
        } else {
            scalar_at(e.entry, n)
        }));
        if v is Some {
            let k = choose|k: int| #[trigger]
                is_first_to_set(head, n, k) && v == scalar_at(head[k].entry, n);
            lemma_first_of_more(head, e, n, k);
            assert(es[k] == head[k]);
        } else {
            let k = es.len() - 1;
            assert forall|i: int| 0 <= i < k implies scalar_at((#[trigger] es[i]).entry, n) is None by {
                assert(es[i] == head[i]);
            }
            if scalar_at(e.entry, n) is Some {
                assert(is_first_to_set(es, n, k));
            }
        }
    }
}

/// A later value of a directive that an earlier entry sets is put down as passed over, with both
/// values and where they come from; and nothing else is.
pub proof fn law_passed_over_values_are_told(
    es: Seq<ManagedView>,
    target: Seq<char>,
    o: OptionsView,
    r: ResolvedView,
    x: IgnoredView,
)
    requires
        resolution_may_be(es, target, Seq::empty(), o, Ok(r)),
    ensures
        r.ignored_scalar_overrides.contains(x) <==> exists|n: int, k: int, j: int|
            0 <= n < 10 && k < j < r.matched_entries.len() && is_first_to_set(
                r.matched_entries,
                n,
                k,
            ) && #[trigger] tells_of_both(x, r.matched_entries, n, k, j),
{
    let m = lemma_no_blocks(es, target, o, r);
    let ms = r.matched_entries;
    if r.ignored_scalar_overrides.contains(x) {
        lemma_ignored_only(target, ms, x);
    }
    if exists|n: int, k: int, j: int|
        0 <= n < 10 && k < j < ms.len() && is_first_to_set(ms, n, k) && #[trigger] tells_of_both(
            x,
            ms,
            n,
            k,
            j,
        ) {
        let (n, k, j) = choose|n: int, k: int, j: int|
            0 <= n < 10 && k < j < ms.len() && is_first_to_set(ms, n, k)
                && #[trigger] tells_of_both(x, ms, n, k, j);
        lemma_ignored(target, ms, n, k, j, x);
    }
}

/// The first entry that sets a directive is put down as the source of its value.
pub proof fn law_source_is_the_first_entry(
    es: Seq<ManagedView>,
    target: Seq<char>,
    m: MergeView,
    n: int,
    k: int,
    s: SourceView,
)
    requires
        entries_may_give(start(target), es, target, Ok(m)),
        0 <= n < 10,
        is_first_to_set(m.matched, n, k),
        s.key == key_at(n),
        Some(s.value) == scalar_at(m.matched[k].entry, n),
        s.origin == entry_origin(m.matched[k]),
    ensures
        m.sources.contains(s),
{
    lemma_picked_are_taken(start(target), es, target, m);
    law_first_value_wins_everywhere(start(target), es, target, m);
    let picked = picked_of(start(target), es, target, m);
    assert(start(target).matched + picked =~= picked);
    lemma_source(target, picked, n, k, s);
}

#[verifier::rlimit(30)]
proof fn lemma_source(target: Seq<char>, es: Seq<ManagedView>, n: int, k: int, s: SourceView)
    requires
        0 <= n < 10,
        is_first_to_set(es, n, k),
        s.key == key_at(n),
        Some(s.value) == scalar_at(es[k].entry, n),
        s.origin == entry_origin(es[k]),
    ensures
        taken_all(start(target), es).sources.contains(s),
    decreases es.len(),
{
    let head = es.drop_last();
    let e = es.last();
    let m = taken_all(start(target), head);
    assert forall|i: int| 0 <= i < head.len() implies es[i] == #[trigger] head[i] by {}
    lemma_sources_with(m.sources, m.winners, e.entry, entry_origin(e), s);
    if k < head.len() {
        assert forall|i: int| 0 <= i < k implies scalar_at((#[trigger] head[i]).entry, n) is None by {
            assert(es[i] == head[i]);
        }
        assert(head[k] == es[k]);
        lemma_source(target, head, n, k, s);
    } else {
        lemma_winner(target, head, n);
        let w = winner_at(m.winners, n);
        if w is Some {
            let j = choose|j: int| #[trigger]
                is_first_to_set(head, n, j) && (w->0).key == key_at(n) && Some((w->0).value)
                    == scalar_at(head[j].entry, n) && (w->0).origin == entry_origin(head[j]);
            assert(es[j] == head[j]);
            assert(scalar_at(es[j].entry, n) is None);
        }
        let part = source_part(m.winners, e.entry, entry_origin(e), n);
        assert(part.len() == 1);
        assert(part[0] =~= s);
        assert(part.contains(s));
    }
}

/// Where a value comes from is told by the order, the kind, the patterns and the file of its entry.
pub proof fn law_origin_is_the_entry(e: ManagedView)
    ensures
        entry_origin(e).order == e.order,
        entry_origin(e).host_patterns == e.entry.host_patterns,
        entry_origin(e).path == e.path,
        entry_origin(e).entry_kind == e.entry.kind(),
{
}

// ---------------------------------------------------------------------------
// Lists
// ---------------------------------------------------------------------------

/// All values of a directive that may stand several times are taken, in the order of the entries.
pub proof fn law_all_values_are_taken(
    es: Seq<ManagedView>,
    target: Seq<char>,
    o: OptionsView,
    x: ResolvedView,
)
    requires
        resolution_may_be(es, target, Seq::empty(), o, Ok(x)),
    ensures
        x.merged_entry.identity_files == x.matched_entries.map_values(
            |e: ManagedView| e.entry.identity_files,
        ).flatten_alt(),
        x.merged_entry.local_forwards == x.matched_entries.map_values(
            |e: ManagedView| e.entry.local_forwards,
        ).flatten_alt(),
        x.merged_entry.remote_forwards == x.matched_entries.map_values(
            |e: ManagedView| e.entry.remote_forwards,
        ).flatten_alt(),
        x.merged_entry.extra_options == x.matched_entries.map_values(
            |e: ManagedView| e.entry.extra_options,
        ).flatten_alt(),
{
    let m = lemma_no_blocks(es, target, o, x);
    lemma_lists(target, x.matched_entries);
}

proof fn lemma_lists(target: Seq<char>, es: Seq<ManagedView>)
    ensures
        ({
            let m = taken_all(start(target), es).merged;
            &&& m.identity_files == es.map_values(
                |e: ManagedView| e.entry.identity_files,
            ).flatten_alt()
            &&& m.local_forwards == es.map_values(
                |e: ManagedView| e.entry.local_forwards,
            ).flatten_alt()
            &&& m.remote_forwards == es.map_values(
                |e: ManagedView| e.entry.remote_forwards,
            ).flatten_alt()
            &&& m.extra_options == es.map_values(
                |e: ManagedView| e.entry.extra_options,
            ).flatten_alt()
        }),
    decreases es.len(),
{
    let f1 = |e: ManagedView| e.entry.identity_files;
    let f2 = |e: ManagedView| e.entry.local_forwards;
    let f3 = |e: ManagedView| e.entry.remote_forwards;
    let f4 = |e: ManagedView| e.entry.extra_options;
    if es.len() > 0 {
        let head = es.drop_last();
        lemma_lists(target, head);
        assert(es.map_values(f1).drop_last() =~= head.map_values(f1));
        assert(es.map_values(f2).drop_last() =~= head.map_values(f2));
        assert(es.map_values(f3).drop_last() =~= head.map_values(f3));
        assert(es.map_values(f4).drop_last() =~= head.map_values(f4));
    }
}

// ---------------------------------------------------------------------------
// Entries and blocks
// ---------------------------------------------------------------------------

/// The test for the entries that list the target.
pub open spec fn lists_target(target: Seq<char>) -> spec_fn(ManagedView) -> bool {
    |e: ManagedView| is_named(e.entry.host_patterns, target)
}

/// Where all patterns are names, the entries that speak of the target are those that list it and
/// do not exclude it, in their order.
pub proof fn law_named_entries_are_taken(
    es: Seq<ManagedView>,
    target: Seq<char>,
    bs: Seq<BlockView>,
    o: OptionsView,
    x: ResolvedView,
)
    requires
        resolution_may_be(es, target, bs, o, Ok(x)),
        forall|i: int, j: int|
            0 <= i < es.len() && 0 <= j < es[i].entry.host_patterns.len() ==> is_plain(
                bare(#[trigger] es[i].entry.host_patterns[j]),
                target,
            ),
    ensures
        x.matched_entries == es.filter(lists_target(target)),
{
    law_resolution_is_for_the_target(es, target, bs, o, x);
    lemma_named_entries(es, target, x.matched_entries);
}

proof fn lemma_named_list(names: Seq<Seq<char>>, text: Seq<char>, v: Result<bool, Seq<char>>)
    requires
        list_may_say(names, text, v),
        forall|i: int| 0 <= i < names.len() ==> is_plain(bare(#[trigger] names[i]), text),
    ensures
        v == Ok::<bool, Seq<char>>(is_named(names, text)),
{
    let os = choose|os: Seq<Result<bool, Seq<char>>>| #[trigger]
        outcomes_may_be(names, text, os) && v == decide(names, os, false);
    assert forall|k: int| 0 <= k < names.len() implies #[trigger] os[k] == Ok::<bool, Seq<char>>(
        bare(names[k]) == text,
    ) by {
        assert(glob_may_say(bare(names[k]), text, os[k]));
        assert(is_plain(bare(names[k]), text));
    }
    lemma_decide_literals(names, os, text, false);
}

#[verifier::rlimit(30)]
proof fn lemma_named_entries(es: Seq<ManagedView>, target: Seq<char>, picked: Seq<ManagedView>)
    requires
        may_be_picked(es, target, picked),
        forall|i: int, j: int|
            0 <= i < es.len() && 0 <= j < es[i].entry.host_patterns.len() ==> is_plain(
                bare(#[trigger] es[i].entry.host_patterns[j]),
                target,
            ),
    ensures
        picked == es.filter(lists_target(target)),
    decreases es.len(),
{
    if es.len() == 0 {
        reveal(Seq::filter);
        assert(picked =~= es.filter(lists_target(target)));
    } else {
        let rest = es.skip(1);
        let one = seq![es[0]];
        let ps = es[0].entry.host_patterns;
        assert forall|i: int| 0 <= i < ps.len() implies is_plain(bare(#[trigger] ps[i]), target) by {
            assert(is_plain(bare(es[0].entry.host_patterns[i]), target));
        }
        assert forall|i: int, j: int|
            0 <= i < rest.len() && 0 <= j < rest[i].entry.host_patterns.len() implies is_plain(
            bare(#[trigger] rest[i].entry.host_patterns[j]),
            target,
        ) by {
            assert(is_plain(bare(es[i + 1].entry.host_patterns[j]), target));
        }
        assert(es =~= one + rest);
        Seq::filter_distributes_over_add(one, rest, lists_target(target));
        assert(one.filter(lists_target(target)) =~= (if is_named(ps, target) {
            one
        } else {
            Seq::empty()
        })) by {
            reveal(Seq::filter);
            assert(one.drop_last() =~= Seq::<ManagedView>::empty());
            assert(one.drop_last().filter(lists_target(target)) =~= Seq::<ManagedView>::empty());
        }
        if list_may_say(ps, target, Ok(true)) && picked.len() > 0 && picked[0] == es[0]
            && may_be_picked(rest, target, picked.skip(1)) {
            lemma_named_list(ps, target, Ok(true));
            lemma_named_entries(rest, target, picked.skip(1));
            assert(picked =~= one + picked.skip(1));
        } else {
            lemma_named_list(ps, target, Ok(false));
            lemma_named_entries(rest, target, picked);
            assert(picked =~= Seq::<ManagedView>::empty() + picked);
        }
    }
}

/// A block is held against the host name that is set so far, or the target; against the user that
/// is set so far, or that was given, or the one of the machine; and against the tag that is set so
/// far, or that was given.
pub proof fn law_blocks_see_what_is_set(target: Seq<char>, m: HostView, o: OptionsView)
    ensures
        ({
            let c = context_of(target, m, o);
            &&& c.original_host == target
            &&& m.hostname is Some ==> c.current_host == m.hostname->0
            &&& m.hostname is None ==> c.current_host == target
            &&& m.user is Some ==> c.current_user == m.user
            &&& m.user is None && o.current_user is Some ==> c.current_user == o.current_user
            &&& m.user is None && o.current_user is None ==> c.current_user == o.local_user
            &&& c.local_user == o.local_user
            &&& m.tag is Some ==> c.current_tag == m.tag
            &&& m.tag is None ==> c.current_tag == o.initial_tag
            &&& c.current_ssh_version == o.ssh_version
            &&& c.session_type == o.session_type
            &&& c.command == o.command
            &&& c.local_networks == o.local_networks
            &&& c.is_canonical == o.is_canonical
            &&& c.is_final == o.is_final
        }),
{
}

/// The block applies where the context is `c`, whatever the machine.
pub open spec fn surely_applies(b: BlockView, c: ContextView, o: OptionsView) -> bool {
    &&& b.unsupported.len() == 0
    &&& uses_version(b) ==> o.ssh_version is Some
    &&& b.condition is Some
    &&& forall|i: int|
        0 <= i < b.condition->0.len() ==> is_literal_criterion(#[trigger] b.condition->0[i], c)
            && is_so(b.condition->0[i], c) != b.condition->0[i].negated
}

proof fn lemma_applies(
    m: MergeView,
    b: BlockView,
    before: bool,
    target: Seq<char>,
    o: OptionsView,
    r: MergeView,
)
    requires
        b.before_anchor == before,
        surely_applies(b, context_of(target, m.merged, o), o),
        blocks_may_give(m, seq![b], before, target, o, Ok(r)),
    ensures
        r == applied(m, b),
{
    let c = context_of(target, m.merged, o);
    let bs = seq![b];
    reveal_with_fuel(blocks_may_give, 2);
    assert(bs.skip(1).len() == 0);
    assert(bs[0] == b);
    if block_may_apply(b, c, Ok(false)) {
        law_block_applies_where_all_is_so(b, c, Ok(false));
        assert(false);
    }
}

proof fn lemma_other_side(
    m: MergeView,
    b: BlockView,
    before: bool,
    target: Seq<char>,
    o: OptionsView,
    r: MergeView,
)
    requires
        b.before_anchor != before,
        blocks_may_give(m, seq![b], before, target, o, Ok(r)),
    ensures
        r == m,
{
    let bs = seq![b];
    reveal_with_fuel(blocks_may_give, 2);
    assert(bs.skip(1).len() == 0);
    assert(bs[0] == b);
}

proof fn lemma_applied_scalar(m: MergeView, b: BlockView, n: int)
    requires
        0 <= n < 10,
    ensures
        scalar_at(applied(m, b).merged, n) == (if scalar_at(m.merged, n) is Some {
            scalar_at(m.merged, n)
        } else {
            scalar_at(b.entry, n)
        }),
{
}

proof fn lemma_parts(
    es: Seq<ManagedView>,
    target: Seq<char>,
    bs: Seq<BlockView>,
    o: OptionsView,
    x: ResolvedView,
) -> (r: (MergeView, MergeView, MergeView))
    requires
        resolution_may_be(es, target, bs, o, Ok(x)),
    ensures
        blocks_may_give(start(target), bs, true, target, o, Ok(r.0)),
        entries_may_give(r.0, es, target, Ok(r.1)),
        blocks_may_give(r.1, bs, false, target, o, Ok(r.2)),
        x.merged_entry == r.2.merged,
        x.matched_entries == r.2.matched,
{
    let m = choose|m: MergeView| #[trigger]
        merge_may_give(es, target, bs, o, Ok(m)) && x == resolved_from(target, m);
    let (a, c) = choose|a: MergeView, c: MergeView|
        blocks_may_give(start(target), bs, true, target, o, Ok(a)) && #[trigger] entries_may_give(
            a,
            es,
            target,
            Ok(c),
        ) && blocks_may_give(c, bs, false, target, o, Ok(m));
    (a, c, m)
}

proof fn lemma_set_stays(m: MergeView, es: Seq<ManagedView>, n: int)
    requires
        0 <= n < 10,
    ensures
        scalar_at(m.merged, n) is Some ==> scalar_at(taken_all(m, es).merged, n) == scalar_at(
            m.merged,
            n,
        ),
    decreases es.len(),
{
    if es.len() > 0 {
        lemma_set_stays(m, es.drop_last(), n);
    }
}

/// A `Match` block that applies and stands before the managed entries goes before them: the values
/// that it sets are those of the preview.
#[verifier::spinoff_prover]
#[verifier::rlimit(40)]
pub proof fn law_block_before_goes_first(
    es: Seq<ManagedView>,
    target: Seq<char>,
    b: BlockView,
    o: OptionsView,
    x: ResolvedView,
    n: int,
)
    requires
        b.before_anchor,
        surely_applies(b, context_of(target, start(target).merged, o), o),
        resolution_may_be(es, target, seq![b], o, Ok(x)),
        0 <= n < 10,
        scalar_at(b.entry, n) is Some,
    ensures
        scalar_at(x.merged_entry, n) == scalar_at(b.entry, n),
{
    let (a, c, m) = lemma_parts(es, target, seq![b], o, x);
    lemma_applies(start(target), b, true, target, o, a);
    lemma_applied_scalar(start(target), b, n);
    assert(scalar_at(start(target).merged, n) is None);
    lemma_picked_are_taken(a, es, target, c);
    lemma_set_stays(a, picked_of(a, es, target, c), n);
    lemma_other_side(c, b, false, target, o, m);
}

/// A `Match` block that applies and stands behind the managed entries goes behind them: it gives
/// what no entry sets.
#[verifier::spinoff_prover]
#[verifier::rlimit(40)]
pub proof fn law_block_behind_goes_last(
    es: Seq<ManagedView>,
    target: Seq<char>,
    b: BlockView,
    o: OptionsView,
    x: ResolvedView,
    n: int,
)
    requires
        !b.before_anchor,
        forall|m: HostView| surely_applies(b, #[trigger] context_of(target, m, o), o),
        resolution_may_be(es, target, seq![b], o, Ok(x)),
        0 <= n < 10,
    ensures
        forall|k: int| #[trigger]
            is_first_to_set(x.matched_entries, n, k) ==> scalar_at(x.merged_entry, n) == scalar_at(
                x.matched_entries[k].entry,
                n,
            ),
        (forall|i: int|
            0 <= i < x.matched_entries.len() ==> scalar_at(
                (#[trigger] x.matched_entries[i]).entry,
                n,
            ) is None) ==> scalar_at(x.merged_entry, n) == scalar_at(b.entry, n),
{
    let (a, c, m) = lemma_parts(es, target, seq![b], o, x);
    lemma_other_side(start(target), b, true, target, o, a);
    assert(surely_applies(b, context_of(target, c.merged, o), o));
    lemma_applies(c, b, false, target, o, m);
    lemma_picked_are_taken(a, es, target, c);
    law_first_value_wins_everywhere(a, es, target, c);
    let picked = picked_of(a, es, target, c);
    assert(a.matched + picked =~= picked);
    assert(x.matched_entries == picked);
    lemma_merged_scalar(target, picked, n);
    let v = scalar_at(c.merged, n);
    lemma_applied_scalar(c, b, n);
    assert forall|k: int| #[trigger] is_first_to_set(picked, n, k) implies scalar_at(m.merged, n)
        == scalar_at(picked[k].entry, n) by {
        if v is None {
            assert(scalar_at(picked[k].entry, n) is None);
        } else {
            let j = choose|j: int| #[trigger]
                is_first_to_set(picked, n, j) && v == scalar_at(picked[j].entry, n);
            if j < k {
                assert(scalar_at(picked[j].entry, n) is None);
            }
            if k < j {
                assert(scalar_at(picked[k].entry, n) is None);
            }
        }
    }
    if v is Some {
        let j = choose|j: int| #[trigger]
            is_first_to_set(picked, n, j) && v == scalar_at(picked[j].entry, n);
        assert(scalar_at(picked[j].entry, n) is Some);
    }
}

/// A block with conditions that cannot be judged, or with one on the version where that is not
/// known, changes no value; that it was passed over is noted with its lines.
pub proof fn law_unjudged_block_is_noted(
    m: MergeView,
    b: BlockView,
    target: Seq<char>,
    o: OptionsView,
    r: Result<MergeView, Seq<char>>,
)
    requires
        block_may_give(m, b, target, o, r),
        b.unsupported.len() > 0 || (uses_version(b) && o.ssh_version is None),
    ensures
        r is Ok,
        (r->Ok_0).merged == m.merged && (r->Ok_0).matched == m.matched && (r->Ok_0).sources
            == m.sources && (r->Ok_0).ignored == m.ignored,
        (r->Ok_0).notes.len() == m.notes.len() + 1,
        (r->Ok_0).notes.drop_last() == m.notes,
        starts_with(
            (r->Ok_0).notes.last(),
            "root Match lines "@ + decimal(b.start_line as nat) + "-"@ + decimal(
                b.end_line as nat,
            ) + " skipped: "@,
        ),
{
    let note = (r->Ok_0).notes.last();
    let span = "root Match lines "@ + line_span(b);
    let head = "root Match lines "@ + decimal(b.start_line as nat) + "-"@ + decimal(
        b.end_line as nat,
    ) + " skipped: "@;
    reveal_strlit(" skipped: ");
    reveal_strlit(" skipped: unsupported conditions ");
    reveal_strlit(" skipped: ssh version unavailable for Match version evaluation");
    let a = " skipped: unsupported conditions "@;
    let b2 = " skipped: ssh version unavailable for Match version evaluation"@;
    assert(a.take(10) =~= " skipped: "@);
    assert(b2.take(10) =~= " skipped: "@);
    assert(span + " skipped: "@ =~= head);
    assert((r->Ok_0).notes.drop_last() =~= m.notes);
    if b.unsupported.len() > 0 {
        assert(note =~= span + a + join(b.unsupported, ", "@));
    } else {
        assert(note =~= span + b2);
    }
    assert(note.take(head.len() as int) =~= head);
}

} // verus!
