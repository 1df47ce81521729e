//! What holds of a target that was resolved.

use vstd::prelude::*;

use crate::config::match_header::BlockView;
use crate::config::model::{HostView, ManagedView, OriginView, ResolvedView, SourceView};
use crate::config::pattern::{
    glob_outcomes, is_negated, law_list_passes_by, lemma_portable_list, list_matches, list_may_say,
    list_portable,
};
use crate::config::render::{directive_each, directive_if, directives_of, port_text};
use crate::config::resolve::{
    MergeView, OptionsView, WinnersView, absorbed, applied, block_header, block_origin, block_step,
    blocks_may_give, blocks_step, context_of, entries_may_give, entries_step, entry_origin, first,
    gives, is_passed_over, line_span, merge_all, merge_may_give, merged_with, ordered_sources,
    passed_over, resolution, resolution_may_be, resolved_from, scalar_sources_with, source_added,
    sources_each, sources_extra, sources_with, start, taken, until_source,
};
use crate::config::root_config::block_may_apply;
use crate::config::roundtrip::{
    address_directives, body_directives, lemma_all_directives, list_directives, trust_directives,
};
use crate::text::{join, lines, lower, same_ignoring_case};

verus! {

broadcast use crate::text::group_text;

// ---------------------------------------------------------------------------
// The first value wins
// ---------------------------------------------------------------------------

/// The entries that match the target, in their order.
pub open spec fn matching(es: Seq<ManagedView>, target: Seq<char>) -> Seq<ManagedView>
    decreases es.len(),
{
    if es.len() == 0 {
        Seq::empty()
    } else if list_matches(es[0].entry.host_patterns, target) == Ok::<bool, Seq<char>>(true) {
        seq![es[0]] + matching(es.skip(1), target)
    } else {
        matching(es.skip(1), target)
    }
}

/// The value of the first entry that has one.
pub open spec fn first_set<A>(es: Seq<ManagedView>, f: spec_fn(HostView) -> Option<A>) -> Option<A>
    decreases es.len(),
{
    if es.len() == 0 {
        None
    } else {
        first(f(es[0].entry), first_set(es.skip(1), f))
    }
}

/// The values of all entries, one behind the other.
pub open spec fn all_set<A>(es: Seq<ManagedView>, f: spec_fn(HostView) -> Seq<A>) -> Seq<A>
    decreases es.len(),
{
    if es.len() == 0 {
        Seq::empty()
    } else {
        f(es[0].entry) + all_set(es.skip(1), f)
    }
}

/// The directives of entries that are read one after the other, `m` first.
pub open spec fn merged_all(m: HostView, es: Seq<ManagedView>) -> HostView {
    HostView {
        host_patterns: m.host_patterns,
        hostname: first(m.hostname, first_set(es, |e: HostView| e.hostname)),
        user: first(m.user, first_set(es, |e: HostView| e.user)),
        port: first(m.port, first_set(es, |e: HostView| e.port)),
        proxy_jump: first(m.proxy_jump, first_set(es, |e: HostView| e.proxy_jump)),
        identity_files: m.identity_files + all_set(es, |e: HostView| e.identity_files),
        local_forwards: m.local_forwards + all_set(es, |e: HostView| e.local_forwards),
        remote_forwards: m.remote_forwards + all_set(es, |e: HostView| e.remote_forwards),
        strict_host_key_checking: first(
            m.strict_host_key_checking,
            first_set(es, |e: HostView| e.strict_host_key_checking),
        ),
        user_known_hosts_file: first(
            m.user_known_hosts_file,
            first_set(es, |e: HostView| e.user_known_hosts_file),
        ),
        host_key_algorithms: first(
            m.host_key_algorithms,
            first_set(es, |e: HostView| e.host_key_algorithms),
        ),
        pubkey_accepted_algorithms: first(
            m.pubkey_accepted_algorithms,
            first_set(es, |e: HostView| e.pubkey_accepted_algorithms),
        ),
        forward_agent: first(m.forward_agent, first_set(es, |e: HostView| e.forward_agent)),
        tag: first(m.tag, first_set(es, |e: HostView| e.tag)),
        extra_options: m.extra_options + all_set(es, |e: HostView| e.extra_options),
    }
}

proof fn lemma_merged_none(m: HostView)
    ensures
        merged_all(m, Seq::empty()) == m,
{
    assert(m.identity_files + Seq::<Seq<char>>::empty() =~= m.identity_files);
    assert(m.local_forwards + Seq::<Seq<char>>::empty() =~= m.local_forwards);
    assert(m.remote_forwards + Seq::<Seq<char>>::empty() =~= m.remote_forwards);
    assert(m.extra_options + Seq::<(Seq<char>, Seq<char>)>::empty() =~= m.extra_options);
}

proof fn lemma_first_of(es: Seq<ManagedView>, e: ManagedView)
    ensures
        (seq![e] + es)[0] == e,
        (seq![e] + es).skip(1) == es,
        (seq![e] + es).len() > 0,
{
    assert((seq![e] + es).skip(1) =~= es);
}

proof fn lemma_merged_first(m: HostView, e: ManagedView, es: Seq<ManagedView>)
    ensures
        merged_all(m, seq![e] + es) == merged_all(merged_with(m, e.entry), es),
{
    lemma_first_of(es, e);
    let a = merged_all(m, seq![e] + es);
    let b = merged_all(merged_with(m, e.entry), es);
    assert(a.identity_files =~= b.identity_files);
    assert(a.local_forwards =~= b.local_forwards);
    assert(a.remote_forwards =~= b.remote_forwards);
    assert(a.extra_options =~= b.extra_options);
}

/// Of the entries that match a target, all are found, in their order. Each scalar directive
/// has the value of the first of them that sets it, unless it had one before; the values of
/// the others are all there, one behind the other.
pub proof fn law_first_value_wins(m: MergeView, es: Seq<ManagedView>, target: Seq<char>)
    requires
        entries_step(m, es, target) is Ok,
    ensures
        ({
            let r = entries_step(m, es, target)->Ok_0;
            &&& r.matched == m.matched + matching(es, target)
            &&& r.merged == merged_all(m.merged, matching(es, target))
            &&& r.notes == m.notes
        }),
    decreases es.len(),
{
    if es.len() == 0 {
        assert(m.matched + matching(es, target) =~= m.matched);
        lemma_merged_none(m.merged);
    } else {
        let rest = es.skip(1);
        match list_matches(es[0].entry.host_patterns, target) {
            Ok(true) => {
                let next = absorbed(
                    MergeView { matched: m.matched.push(es[0]), ..m },
                    es[0].entry,
                    entry_origin(es[0]),
                );
                law_first_value_wins(next, rest, target);
                lemma_merged_first(m.merged, es[0], matching(rest, target));
                assert(m.matched.push(es[0]) + matching(rest, target) =~= m.matched + matching(
                    es,
                    target,
                ));
            },
            Ok(false) => law_first_value_wins(m, rest, target),
            Err(_) => {},
        }
    }
}

/// What is set stays set: no block that is read later changes a scalar directive, and what
/// it adds to the others comes behind.
pub open spec fn extends(a: HostView, b: HostView) -> bool {
    &&& a.host_patterns == b.host_patterns
    &&& a.hostname is Some ==> b.hostname == a.hostname
    &&& a.user is Some ==> b.user == a.user
    &&& a.port is Some ==> b.port == a.port
    &&& a.proxy_jump is Some ==> b.proxy_jump == a.proxy_jump
    &&& a.strict_host_key_checking is Some ==> b.strict_host_key_checking
        == a.strict_host_key_checking
    &&& a.user_known_hosts_file is Some ==> b.user_known_hosts_file == a.user_known_hosts_file
    &&& a.host_key_algorithms is Some ==> b.host_key_algorithms == a.host_key_algorithms
    &&& a.pubkey_accepted_algorithms is Some ==> b.pubkey_accepted_algorithms
        == a.pubkey_accepted_algorithms
    &&& a.forward_agent is Some ==> b.forward_agent == a.forward_agent
    &&& a.tag is Some ==> b.tag == a.tag
    &&& a.identity_files.is_prefix_of(b.identity_files)
    &&& a.local_forwards.is_prefix_of(b.local_forwards)
    &&& a.remote_forwards.is_prefix_of(b.remote_forwards)
    &&& a.extra_options.is_prefix_of(b.extra_options)
}

proof fn lemma_extends_step(a: HostView, e: HostView)
    ensures
        extends(a, merged_with(a, e)),
{
}

proof fn lemma_prefix_transitive<A>(a: Seq<A>, b: Seq<A>, c: Seq<A>)
    requires
        a.is_prefix_of(b),
        b.is_prefix_of(c),
    ensures
        a.is_prefix_of(c),
{
    assert(c.take(a.len() as int) =~= b.take(a.len() as int));
    assert(a =~= c.take(a.len() as int));
}

proof fn lemma_extends_transitive(a: HostView, b: HostView, c: HostView)
    requires
        extends(a, b),
        extends(b, c),
    ensures
        extends(a, c),
{
    lemma_prefix_transitive(a.identity_files, b.identity_files, c.identity_files);
    lemma_prefix_transitive(a.local_forwards, b.local_forwards, c.local_forwards);
    lemma_prefix_transitive(a.remote_forwards, b.remote_forwards, c.remote_forwards);
    lemma_prefix_transitive(a.extra_options, b.extra_options, c.extra_options);
}

proof fn lemma_extends_itself(a: HostView)
    ensures
        extends(a, a),
{
    assert(a.identity_files =~= a.identity_files.take(a.identity_files.len() as int));
    assert(a.local_forwards =~= a.local_forwards.take(a.local_forwards.len() as int));
    assert(a.remote_forwards =~= a.remote_forwards.take(a.remote_forwards.len() as int));
    assert(a.extra_options =~= a.extra_options.take(a.extra_options.len() as int));
}

/// `Match` blocks only add to what was set before them; a block with a condition that is not
/// understood, and one that does not apply, adds nothing.
pub proof fn law_match_blocks_only_add(
    m: MergeView,
    bs: Seq<BlockView>,
    before: bool,
    target: Seq<char>,
    o: OptionsView,
)
    requires
        blocks_step(m, bs, before, target, o) is Ok,
    ensures
        extends(m.merged, (blocks_step(m, bs, before, target, o)->Ok_0).merged),
        (forall|i: int| 0 <= i < bs.len() ==> (#[trigger] bs[i]).unsupported.len() > 0) ==> (
        blocks_step(m, bs, before, target, o)->Ok_0).merged == m.merged,
        (blocks_step(m, bs, before, target, o)->Ok_0).matched == m.matched,
    decreases bs.len(),
{
    lemma_extends_itself(m.merged);
    if bs.len() > 0 {
        let rest = bs.skip(1);
        if forall|i: int| 0 <= i < bs.len() ==> (#[trigger] bs[i]).unsupported.len() > 0 {
            assert forall|i: int| 0 <= i < rest.len() implies (#[trigger] rest[i]).unsupported.len()
                > 0 by {
                assert(rest[i] == bs[i + 1]);
            }
            assert(bs[0].unsupported.len() > 0);
        }
        if bs[0].before_anchor != before {
            law_match_blocks_only_add(m, rest, before, target, o);
        } else {
            match block_step(m, bs[0], target, o) {
                Ok(next) => {
                    law_match_blocks_only_add(next, rest, before, target, o);
                    lemma_extends_step(m.merged, bs[0].entry);
                    let end = (blocks_step(next, rest, before, target, o)->Ok_0).merged;
                    lemma_extends_transitive(m.merged, next.merged, end);
                },
                Err(_) => {},
            }
        }
    }
}

/// An entry that does not match the target can be put in or left out anywhere: what the entries
/// make of the target stays the same.
pub proof fn law_other_entries_do_not_matter(
    m: MergeView,
    es: Seq<ManagedView>,
    at: int,
    x: ManagedView,
    target: Seq<char>,
)
    requires
        0 <= at <= es.len(),
        list_matches(x.entry.host_patterns, target) == Ok::<bool, Seq<char>>(false),
    ensures
        entries_step(m, es.insert(at, x), target) == entries_step(m, es, target),
    decreases es.len(),
{
    let more = es.insert(at, x);
    if at == 0 {
        assert(more[0] == x);
        assert(more.skip(1) =~= es);
    } else {
        assert(more[0] == es[0]);
        assert(more.skip(1) =~= es.skip(1).insert(at - 1, x));
        match list_matches(es[0].entry.host_patterns, target) {
            Ok(true) => law_other_entries_do_not_matter(
                taken(m, es[0]),
                es.skip(1),
                at - 1,
                x,
                target,
            ),
            Ok(false) => law_other_entries_do_not_matter(m, es.skip(1), at - 1, x, target),
            Err(_) => {},
        }
    }
}

/// No pattern of the list is refused, and none matches the target or a negated one does.
pub open spec fn is_passed_by(patterns: Seq<Seq<char>>, target: Seq<char>) -> bool {
    let os = glob_outcomes(patterns, target);
    &&& forall|i: int| 0 <= i < patterns.len() ==> (#[trigger] os[i]) is Ok
    &&& (forall|i: int|
        0 <= i < patterns.len() && !is_negated(#[trigger] patterns[i]) ==> os[i] == Ok::<
            bool,
            Seq<char>,
        >(false)) || (exists|i: int|
        0 <= i < patterns.len() && is_negated(#[trigger] patterns[i]) && os[i] == Ok::<
            bool,
            Seq<char>,
        >(true))
}

/// What a target resolves to, with the `Match` blocks or without, does not depend on an entry
/// that passes it by.
pub proof fn law_entries_passed_by_can_be_left_out(
    es: Seq<ManagedView>,
    at: int,
    x: ManagedView,
    target: Seq<char>,
    bs: Seq<BlockView>,
    o: OptionsView,
)
    requires
        0 <= at <= es.len(),
        is_passed_by(x.entry.host_patterns, target),
    ensures
        resolution(es.insert(at, x), target, bs, o) == resolution(es, target, bs, o),
        entries_step(start(target), es.insert(at, x), target) == entries_step(
            start(target),
            es,
            target,
        ),
{
    let ps = x.entry.host_patterns;
    law_list_passes_by(ps, glob_outcomes(ps, target), false);
    law_other_entries_do_not_matter(start(target), es, at, x, target);
    if let Ok(a) = blocks_step(start(target), bs, true, target, o) {
        law_other_entries_do_not_matter(a, es, at, x, target);
    }
}

// ---------------------------------------------------------------------------
// Whatever the machine
// ---------------------------------------------------------------------------

/// `picked` are entries of `es`, in their order: each may match the target, and each that was left
/// out may fail to.
pub open spec fn may_be_picked(
    es: Seq<ManagedView>,
    target: Seq<char>,
    picked: Seq<ManagedView>,
) -> bool
    decreases es.len(),
{
    if es.len() == 0 {
        picked.len() == 0
    } else {
        let ps = es[0].entry.host_patterns;
        ||| list_may_say(ps, target, Ok(true)) && picked.len() > 0 && picked[0] == es[0]
            && may_be_picked(es.skip(1), target, picked.skip(1))
        ||| list_may_say(ps, target, Ok(false)) && may_be_picked(es.skip(1), target, picked)
    }
}

/// The entries that were picked, where the entries made `r` of `m`.
pub open spec fn picked_of(
    m: MergeView,
    es: Seq<ManagedView>,
    target: Seq<char>,
    r: MergeView,
) -> Seq<ManagedView>
    decreases es.len(),
{
    if es.len() == 0 {
        Seq::empty()
    } else if list_may_say(es[0].entry.host_patterns, target, Ok(true)) && entries_may_give(
        taken(m, es[0]),
        es.skip(1),
        target,
        Ok(r),
    ) {
        seq![es[0]] + picked_of(taken(m, es[0]), es.skip(1), target, r)
    } else {
        picked_of(m, es.skip(1), target, r)
    }
}

/// Whichever entries match on a machine, they are found in their order, and the first value wins
/// among them.
pub proof fn law_first_value_wins_everywhere(
    m: MergeView,
    es: Seq<ManagedView>,
    target: Seq<char>,
    r: MergeView,
)
    requires
        entries_may_give(m, es, target, Ok(r)),
    ensures
        ({
            let picked = picked_of(m, es, target, r);
            &&& may_be_picked(es, target, picked)
            &&& r.matched == m.matched + picked
            &&& r.merged == merged_all(m.merged, picked)
            &&& r.notes == m.notes
        }),
    decreases es.len(),
{
    let picked = picked_of(m, es, target, r);
    if es.len() == 0 {
        assert(m.matched + picked =~= m.matched);
        lemma_merged_none(m.merged);
    } else {
        let rest = es.skip(1);
        let next = taken(m, es[0]);
        if list_may_say(es[0].entry.host_patterns, target, Ok(true)) && entries_may_give(
            next,
            rest,
            target,
            Ok(r),
        ) {
            law_first_value_wins_everywhere(next, rest, target, r);
            let tail = picked_of(next, rest, target, r);
            lemma_merged_first(m.merged, es[0], tail);
            assert(picked.skip(1) =~= tail);
            assert(m.matched.push(es[0]) + tail =~= m.matched + picked);
        } else {
            law_first_value_wins_everywhere(m, rest, target, r);
        }
    }
}

/// Whichever `Match` blocks apply on a machine, they only add to what was set before them, and
/// their notes come behind the earlier ones; blocks with conditions that cannot be judged add
/// nothing but a note each.
pub proof fn law_match_blocks_only_add_everywhere(
    m: MergeView,
    bs: Seq<BlockView>,
    before: bool,
    target: Seq<char>,
    o: OptionsView,
    r: MergeView,
)
    requires
        blocks_may_give(m, bs, before, target, o, Ok(r)),
    ensures
        extends(m.merged, r.merged),
        r.matched == m.matched,
        m.notes.is_prefix_of(r.notes),
        (forall|i: int| 0 <= i < bs.len() ==> (#[trigger] bs[i]).unsupported.len() > 0) ==> r == (
        MergeView { notes: r.notes, ..m }),
    decreases bs.len(),
{
    lemma_extends_itself(m.merged);
    assert(m.notes =~= m.notes.take(m.notes.len() as int));
    if bs.len() > 0 {
        let b = bs[0];
        let rest = bs.skip(1);
        let c = context_of(target, m.merged, o);
        if forall|i: int| 0 <= i < bs.len() ==> (#[trigger] bs[i]).unsupported.len() > 0 {
            assert forall|i: int| 0 <= i < rest.len() implies (#[trigger] rest[i]).unsupported.len()
                > 0 by {
                assert(rest[i] == bs[i + 1]);
            }
            assert(b.unsupported.len() > 0);
        }
        if b.before_anchor != before {
            law_match_blocks_only_add_everywhere(m, rest, before, target, o, r);
        } else if is_passed_over(b, o) {
            let next = passed_over(m, b);
            law_match_blocks_only_add_everywhere(next, rest, before, target, o, r);
            assert(m.notes =~= next.notes.take(m.notes.len() as int));
            lemma_prefix_transitive(m.notes, next.notes, r.notes);
        } else if block_may_apply(b, c, Ok(true)) && blocks_may_give(
            applied(m, b),
            rest,
            before,
            target,
            o,
            Ok(r),
        ) {
            let next = applied(m, b);
            law_match_blocks_only_add_everywhere(next, rest, before, target, o, r);
            lemma_extends_step(m.merged, b.entry);
            lemma_extends_transitive(m.merged, next.merged, r.merged);
            assert(m.notes =~= next.notes.take(m.notes.len() as int));
            lemma_prefix_transitive(m.notes, next.notes, r.notes);
        } else {
            law_match_blocks_only_add_everywhere(m, rest, before, target, o, r);
        }
    }
}

proof fn lemma_entries_passed_by_everywhere(
    m: MergeView,
    es: Seq<ManagedView>,
    at: int,
    x: ManagedView,
    target: Seq<char>,
    r: Result<MergeView, Seq<char>>,
)
    requires
        0 <= at <= es.len(),
        list_matches(x.entry.host_patterns, target) == Ok::<bool, Seq<char>>(false),
        list_portable(x.entry.host_patterns, target),
        entries_may_give(m, es.insert(at, x), target, r),
    ensures
        entries_may_give(m, es, target, r),
    decreases es.len(),
{
    let more = es.insert(at, x);
    let ps = more[0].entry.host_patterns;
    if at == 0 {
        assert(more[0] == x);
        assert(more.skip(1) =~= es);
        if list_may_say(ps, target, Ok(true)) {
            lemma_portable_list(ps, target, Ok(true));
        }
        if r is Err && list_may_say(ps, target, Err(r->Err_0)) {
            lemma_portable_list(ps, target, Err(r->Err_0));
        }
    } else {
        let rest = es.skip(1);
        assert(more[0] == es[0]);
        assert(more.skip(1) =~= rest.insert(at - 1, x));
        let next = taken(m, es[0]);
        if list_may_say(ps, target, Ok(true)) && entries_may_give(
            next,
            rest.insert(at - 1, x),
            target,
            r,
        ) {
            lemma_entries_passed_by_everywhere(next, rest, at - 1, x, target, r);
        } else if list_may_say(ps, target, Ok(false)) && entries_may_give(
            m,
            rest.insert(at - 1, x),
            target,
            r,
        ) {
            lemma_entries_passed_by_everywhere(m, rest, at - 1, x, target, r);
        }
    }
}

proof fn lemma_passed_by_is_put_in(
    m: MergeView,
    es: Seq<ManagedView>,
    at: int,
    x: ManagedView,
    target: Seq<char>,
    r: Result<MergeView, Seq<char>>,
)
    requires
        0 <= at <= es.len(),
        list_may_say(x.entry.host_patterns, target, Ok(false)),
        entries_may_give(m, es, target, r),
    ensures
        entries_may_give(m, es.insert(at, x), target, r),
    decreases es.len(),
{
    let more = es.insert(at, x);
    if at == 0 {
        assert(more[0] == x);
        assert(more.skip(1) =~= es);
    } else {
        let ps = es[0].entry.host_patterns;
        let rest = es.skip(1);
        assert(more[0] == es[0]);
        assert(more.skip(1) =~= rest.insert(at - 1, x));
        let next = taken(m, es[0]);
        if list_may_say(ps, target, Ok(true)) && entries_may_give(next, rest, target, r) {
            lemma_passed_by_is_put_in(next, rest, at - 1, x, target, r);
        } else if list_may_say(ps, target, Ok(false)) && entries_may_give(m, rest, target, r) {
            lemma_passed_by_is_put_in(m, rest, at - 1, x, target, r);
        }
    }
}

/// What the configuration may say without an entry that may pass the target by, it may say with
/// it.
proof fn lemma_passed_by_can_be_put_in(
    es: Seq<ManagedView>,
    at: int,
    x: ManagedView,
    target: Seq<char>,
    bs: Seq<BlockView>,
    o: OptionsView,
    r: Result<ResolvedView, Seq<char>>,
)
    requires
        0 <= at <= es.len(),
        list_may_say(x.entry.host_patterns, target, Ok(false)),
        resolution_may_be(es, target, bs, o, r),
    ensures
        resolution_may_be(es.insert(at, x), target, bs, o, r),
{
    let more = es.insert(at, x);
    let s = start(target);
    let merged: Result<MergeView, Seq<char>> = match r {
        Ok(y) => Ok(
            choose|m: MergeView| #[trigger]
                merge_may_give(es, target, bs, o, Ok(m)) && y == resolved_from(target, m),
        ),
        Err(e) => Err(e),
    };
    assert(merge_may_give(es, target, bs, o, merged));
    if merged is Err && blocks_may_give(s, bs, true, target, o, merged) {
    } else if merged is Err && exists|a: MergeView|
        blocks_may_give(s, bs, true, target, o, Ok(a)) && #[trigger] entries_may_give(
            a,
            es,
            target,
            merged,
        ) {
        let a = choose|a: MergeView|
            blocks_may_give(s, bs, true, target, o, Ok(a)) && #[trigger] entries_may_give(
                a,
                es,
                target,
                merged,
            );
        lemma_passed_by_is_put_in(a, es, at, x, target, merged);
    } else {
        let (a, b) = choose|a: MergeView, b: MergeView|
            blocks_may_give(s, bs, true, target, o, Ok(a)) && #[trigger] entries_may_give(
                a,
                es,
                target,
                Ok(b),
            ) && blocks_may_give(b, bs, false, target, o, merged);
        lemma_passed_by_is_put_in(a, es, at, x, target, Ok(b));
    }
    assert(merge_may_give(more, target, bs, o, merged));
}

/// Whatever the other entries match on a machine: an entry whose patterns say the same on every
/// machine, and which passes the target by, can be left out anywhere: the configuration says
/// nothing else without it. Where its patterns were seen to pass the target by, it can be put in
/// too.
pub proof fn law_entries_passed_by_can_be_left_out_everywhere(
    es: Seq<ManagedView>,
    at: int,
    x: ManagedView,
    target: Seq<char>,
    bs: Seq<BlockView>,
    o: OptionsView,
    r: Result<ResolvedView, Seq<char>>,
)
    requires
        0 <= at <= es.len(),
        list_portable(x.entry.host_patterns, target),
        is_passed_by(x.entry.host_patterns, target) || list_may_say(
            x.entry.host_patterns,
            target,
            Ok(false),
        ),
    ensures
        resolution_may_be(es.insert(at, x), target, bs, o, r) ==> resolution_may_be(
            es,
            target,
            bs,
            o,
            r,
        ),
        list_may_say(x.entry.host_patterns, target, Ok(false)) ==> (resolution_may_be(
            es.insert(at, x),
            target,
            bs,
            o,
            r,
        ) <==> resolution_may_be(es, target, bs, o, r)),
{
    let ps = x.entry.host_patterns;
    if is_passed_by(ps, target) {
        law_list_passes_by(ps, glob_outcomes(ps, target), false);
    } else {
        lemma_portable_list(ps, target, Ok(false));
    }
    if resolution_may_be(es.insert(at, x), target, bs, o, r) {
        lemma_passed_by_can_be_left_out(es, at, x, target, bs, o, r);
    }
    if list_may_say(ps, target, Ok(false)) && resolution_may_be(es, target, bs, o, r) {
        lemma_passed_by_can_be_put_in(es, at, x, target, bs, o, r);
    }
}

/// What the configuration may say with an entry that passes the target by, it may say without it.
proof fn lemma_passed_by_can_be_left_out(
    es: Seq<ManagedView>,
    at: int,
    x: ManagedView,
    target: Seq<char>,
    bs: Seq<BlockView>,
    o: OptionsView,
    r: Result<ResolvedView, Seq<char>>,
)
    requires
        0 <= at <= es.len(),
        list_matches(x.entry.host_patterns, target) == Ok::<bool, Seq<char>>(false),
        list_portable(x.entry.host_patterns, target),
        resolution_may_be(es.insert(at, x), target, bs, o, r),
    ensures
        resolution_may_be(es, target, bs, o, r),
{
    let more = es.insert(at, x);
    let s = start(target);
    let merged: Result<MergeView, Seq<char>> = match r {
        Ok(y) => Ok(
            choose|m: MergeView| #[trigger]
                merge_may_give(more, target, bs, o, Ok(m)) && y == resolved_from(target, m),
        ),
        Err(e) => Err(e),
    };
    assert(merge_may_give(more, target, bs, o, merged));
    if merged is Err && blocks_may_give(s, bs, true, target, o, merged) {
    } else if merged is Err && exists|a: MergeView|
        blocks_may_give(s, bs, true, target, o, Ok(a)) && #[trigger] entries_may_give(
            a,
            more,
            target,
            merged,
        ) {
        let a = choose|a: MergeView|
            blocks_may_give(s, bs, true, target, o, Ok(a)) && #[trigger] entries_may_give(
                a,
                more,
                target,
                merged,
            );
        lemma_entries_passed_by_everywhere(a, es, at, x, target, merged);
    } else {
        let (a, b) = choose|a: MergeView, b: MergeView|
            blocks_may_give(s, bs, true, target, o, Ok(a)) && #[trigger] entries_may_give(
                a,
                more,
                target,
                Ok(b),
            ) && blocks_may_give(b, bs, false, target, o, merged);
        lemma_entries_passed_by_everywhere(a, es, at, x, target, Ok(b));
    }
    assert(merge_may_give(es, target, bs, o, merged));
}

/// Whatever matches on a machine: the resolved entry is for the target, its entries were picked
/// among the managed ones in their order, and what was set first stays.
pub proof fn law_resolution_is_for_the_target(
    es: Seq<ManagedView>,
    target: Seq<char>,
    bs: Seq<BlockView>,
    o: OptionsView,
    x: ResolvedView,
)
    requires
        resolution_may_be(es, target, bs, o, Ok(x)),
    ensures
        x.target == target,
        x.merged_entry.host_patterns == seq![target],
        may_be_picked(es, target, x.matched_entries),
        bs.len() == 0 ==> x.merged_entry == merged_all(start(target).merged, x.matched_entries)
            && x.root_match_notes.len() == 0,
{
    let m = choose|m: MergeView| #[trigger]
        merge_may_give(es, target, bs, o, Ok(m)) && x == resolved_from(target, m);
    let (a, b) = choose|a: MergeView, b: MergeView|
        blocks_may_give(start(target), bs, true, target, o, Ok(a)) && #[trigger] entries_may_give(
            a,
            es,
            target,
            Ok(b),
        ) && blocks_may_give(b, bs, false, target, o, Ok(m));
    law_match_blocks_only_add_everywhere(start(target), bs, true, target, o, a);
    law_first_value_wins_everywhere(a, es, target, b);
    law_match_blocks_only_add_everywhere(b, bs, false, target, o, m);
    let picked = picked_of(a, es, target, b);
    assert(Seq::<ManagedView>::empty() + picked =~= picked);
}

// ---------------------------------------------------------------------------
// Each directive has its source
// ---------------------------------------------------------------------------

/// How often a directive is among `ds`, whatever the case of its name.
pub open spec fn times(ds: Seq<(Seq<char>, Seq<char>)>, x: (Seq<char>, Seq<char>)) -> nat
    decreases ds.len(),
{
    if ds.len() == 0 {
        0
    } else {
        times(ds.drop_last(), x) + (if (lower(ds.last().0), ds.last().1) == x {
            1nat
        } else {
            0
        })
    }
}

/// What the sources give.
pub open spec fn given(ss: Seq<SourceView>) -> Seq<(Seq<char>, Seq<char>)> {
    ss.map_values(|s: SourceView| (s.key, s.value))
}

proof fn lemma_times_append(
    a: Seq<(Seq<char>, Seq<char>)>,
    b: Seq<(Seq<char>, Seq<char>)>,
    x: (Seq<char>, Seq<char>),
)
    ensures
        times(a + b, x) == times(a, x) + times(b, x),
    decreases b.len(),
{
    if b.len() == 0 {
        assert(a + b =~= a);
    } else {
        assert((a + b).drop_last() =~= a + b.drop_last());
        assert((a + b).last() == b.last());
        lemma_times_append(a, b.drop_last(), x);
    }
}

proof fn lemma_given_append(a: Seq<SourceView>, b: Seq<SourceView>, x: (Seq<char>, Seq<char>))
    ensures
        times(given(a + b), x) == times(given(a), x) + times(given(b), x),
{
    assert(given(a + b) =~= given(a) + given(b));
    lemma_times_append(given(a), given(b), x);
}

proof fn lemma_scalar_source(
    key: Seq<char>,
    value: Option<Seq<char>>,
    winner: Option<SourceView>,
    more: Option<Seq<char>>,
    o: OriginView,
    x: (Seq<char>, Seq<char>),
)
    requires
        value is Some <==> winner is Some,
    ensures
        times(directive_if(key, first(value, more)), x) == times(directive_if(key, value), x)
            + times(given(source_added(winner, key, more, o)), x),
{
    match (winner, more) {
        (None, Some(v)) => {
            assert(given(source_added(winner, key, more, o)) =~= directive_if(key, more));
            assert(times(directive_if(key, value), x) == 0);
        },
        _ => {
            assert(given(source_added(winner, key, more, o)) =~= Seq::<
                (Seq<char>, Seq<char>),
            >::empty());
        },
    }
}

proof fn lemma_list_sources(
    key: Seq<char>,
    a: Seq<Seq<char>>,
    b: Seq<Seq<char>>,
    o: OriginView,
    x: (Seq<char>, Seq<char>),
)
    ensures
        times(directive_each(key, a + b), x) == times(directive_each(key, a), x) + times(
            given(sources_each(key, b, o)),
            x,
        ),
{
    assert(given(sources_each(key, b, o)) =~= directive_each(key, b));
    assert(directive_each(key, a + b) =~= directive_each(key, a) + directive_each(key, b));
    lemma_times_append(directive_each(key, a), directive_each(key, b), x);
}

/// How often a directive is among those of an entry, field by field.
proof fn lemma_times_of_body(e: HostView, x: (Seq<char>, Seq<char>))
    ensures
        times(body_directives(e), x) == times_of_scalars(e, x) + times_of_lists(e, x),
{
    lemma_times_append(directive_if("HostName"@, e.hostname), directive_if("User"@, e.user), x);
    lemma_times_append(directive_if("HostName"@, e.hostname) + directive_if("User"@, e.user), directive_if("Port"@, port_text(e.port)), x);
    lemma_times_append(directive_if("HostName"@, e.hostname) + directive_if("User"@, e.user) + directive_if("Port"@, port_text(e.port)), directive_if("ProxyJump"@, e.proxy_jump), x);
    lemma_times_append(directive_each("IdentityFile"@, e.identity_files), directive_each("LocalForward"@, e.local_forwards), x);
    lemma_times_append(directive_each("IdentityFile"@, e.identity_files) + directive_each("LocalForward"@, e.local_forwards), directive_each("RemoteForward"@, e.remote_forwards), x);
    lemma_times_append(directive_if("StrictHostKeyChecking"@, e.strict_host_key_checking), directive_if("UserKnownHostsFile"@, e.user_known_hosts_file), x);
    lemma_times_append(directive_if("StrictHostKeyChecking"@, e.strict_host_key_checking) + directive_if("UserKnownHostsFile"@, e.user_known_hosts_file), directive_if("HostKeyAlgorithms"@, e.host_key_algorithms), x);
    lemma_times_append(directive_if("StrictHostKeyChecking"@, e.strict_host_key_checking) + directive_if("UserKnownHostsFile"@, e.user_known_hosts_file) + directive_if("HostKeyAlgorithms"@, e.host_key_algorithms), directive_if("PubkeyAcceptedAlgorithms"@, e.pubkey_accepted_algorithms), x);
    lemma_times_append(directive_if("StrictHostKeyChecking"@, e.strict_host_key_checking) + directive_if("UserKnownHostsFile"@, e.user_known_hosts_file) + directive_if("HostKeyAlgorithms"@, e.host_key_algorithms) + directive_if("PubkeyAcceptedAlgorithms"@, e.pubkey_accepted_algorithms), directive_if("ForwardAgent"@, e.forward_agent), x);
    lemma_times_append(directive_if("StrictHostKeyChecking"@, e.strict_host_key_checking) + directive_if("UserKnownHostsFile"@, e.user_known_hosts_file) + directive_if("HostKeyAlgorithms"@, e.host_key_algorithms) + directive_if("PubkeyAcceptedAlgorithms"@, e.pubkey_accepted_algorithms) + directive_if("ForwardAgent"@, e.forward_agent), directive_if("Tag"@, e.tag), x);
    lemma_times_append(address_directives(e), list_directives(e), x);
    lemma_times_append(address_directives(e) + list_directives(e), trust_directives(e), x);
    lemma_times_append(
        address_directives(e) + list_directives(e) + trust_directives(e),
        e.extra_options,
        x,
    );
}

pub open spec fn times_of_scalars(e: HostView, x: (Seq<char>, Seq<char>)) -> nat {
    times(directive_if("HostName"@, e.hostname), x) + times(directive_if("User"@, e.user), x) + times(directive_if("Port"@, port_text(e.port)), x) + times(directive_if("ProxyJump"@, e.proxy_jump), x) + times(directive_if("StrictHostKeyChecking"@, e.strict_host_key_checking), x) + times(directive_if("UserKnownHostsFile"@, e.user_known_hosts_file), x) + times(directive_if("HostKeyAlgorithms"@, e.host_key_algorithms), x) + times(directive_if("PubkeyAcceptedAlgorithms"@, e.pubkey_accepted_algorithms), x) + times(directive_if("ForwardAgent"@, e.forward_agent), x) + times(directive_if("Tag"@, e.tag), x)
}

pub open spec fn times_of_lists(e: HostView, x: (Seq<char>, Seq<char>)) -> nat {
    times(directive_each("IdentityFile"@, e.identity_files), x) + times(directive_each("LocalForward"@, e.local_forwards), x) + times(directive_each("RemoteForward"@, e.remote_forwards), x) + times(e.extra_options, x)
}

/// How often a directive is among what a block adds to the sources, field by field.
proof fn lemma_times_of_scalar_sources(
    base: Seq<SourceView>,
    w: WinnersView,
    e: HostView,
    o: OriginView,
    x: (Seq<char>, Seq<char>),
)
    ensures
        times(given(scalar_sources_with(base, w, e, o)), x) == times(given(base), x)
            + times(given(source_added(w.hostname, "HostName"@, e.hostname, o)), x)
            + times(given(source_added(w.user, "User"@, e.user, o)), x)
            + times(given(source_added(w.port, "Port"@, port_text(e.port), o)), x)
            + times(given(source_added(w.proxy_jump, "ProxyJump"@, e.proxy_jump, o)), x)
            + times(given(source_added(w.strict_host_key_checking, "StrictHostKeyChecking"@, e.strict_host_key_checking, o)), x)
            + times(given(source_added(w.user_known_hosts_file, "UserKnownHostsFile"@, e.user_known_hosts_file, o)), x)
            + times(given(source_added(w.host_key_algorithms, "HostKeyAlgorithms"@, e.host_key_algorithms, o)), x)
            + times(given(source_added(w.pubkey_accepted_algorithms, "PubkeyAcceptedAlgorithms"@, e.pubkey_accepted_algorithms, o)), x)
            + times(given(source_added(w.forward_agent, "ForwardAgent"@, e.forward_agent, o)), x)
            + times(given(source_added(w.tag, "Tag"@, e.tag, o)), x),
{
    let s0 = base;
    lemma_given_append(s0, source_added(w.hostname, "HostName"@, e.hostname, o), x);
    let s1 = s0 + source_added(w.hostname, "HostName"@, e.hostname, o);
    lemma_given_append(s1, source_added(w.user, "User"@, e.user, o), x);
    let s2 = s1 + source_added(w.user, "User"@, e.user, o);
    lemma_given_append(s2, source_added(w.port, "Port"@, port_text(e.port), o), x);
    let s3 = s2 + source_added(w.port, "Port"@, port_text(e.port), o);
    lemma_given_append(s3, source_added(w.proxy_jump, "ProxyJump"@, e.proxy_jump, o), x);
    let s4 = s3 + source_added(w.proxy_jump, "ProxyJump"@, e.proxy_jump, o);
    lemma_given_append(s4, source_added(w.strict_host_key_checking, "StrictHostKeyChecking"@, e.strict_host_key_checking, o), x);
    let s5 = s4 + source_added(w.strict_host_key_checking, "StrictHostKeyChecking"@, e.strict_host_key_checking, o);
    lemma_given_append(s5, source_added(w.user_known_hosts_file, "UserKnownHostsFile"@, e.user_known_hosts_file, o), x);
    let s6 = s5 + source_added(w.user_known_hosts_file, "UserKnownHostsFile"@, e.user_known_hosts_file, o);
    lemma_given_append(s6, source_added(w.host_key_algorithms, "HostKeyAlgorithms"@, e.host_key_algorithms, o), x);
    let s7 = s6 + source_added(w.host_key_algorithms, "HostKeyAlgorithms"@, e.host_key_algorithms, o);
    lemma_given_append(s7, source_added(w.pubkey_accepted_algorithms, "PubkeyAcceptedAlgorithms"@, e.pubkey_accepted_algorithms, o), x);
    let s8 = s7 + source_added(w.pubkey_accepted_algorithms, "PubkeyAcceptedAlgorithms"@, e.pubkey_accepted_algorithms, o);
    lemma_given_append(s8, source_added(w.forward_agent, "ForwardAgent"@, e.forward_agent, o), x);
    let s9 = s8 + source_added(w.forward_agent, "ForwardAgent"@, e.forward_agent, o);
    lemma_given_append(s9, source_added(w.tag, "Tag"@, e.tag, o), x);
}

proof fn lemma_times_of_sources(
    base: Seq<SourceView>,
    w: WinnersView,
    e: HostView,
    o: OriginView,
    x: (Seq<char>, Seq<char>),
)
    ensures
        times(given(sources_with(base, w, e, o)), x) == times(
            given(scalar_sources_with(base, w, e, o)),
            x,
        ) + times(given(sources_each("IdentityFile"@, e.identity_files, o)), x) + times(
            given(sources_each("LocalForward"@, e.local_forwards, o)),
            x,
        ) + times(given(sources_each("RemoteForward"@, e.remote_forwards, o)), x) + times(
            e.extra_options,
            x,
        ),
{
    let s0 = scalar_sources_with(base, w, e, o);
    let a = sources_each("IdentityFile"@, e.identity_files, o);
    let b = sources_each("LocalForward"@, e.local_forwards, o);
    let c = sources_each("RemoteForward"@, e.remote_forwards, o);
    let d = sources_extra(e.extra_options, o);
    lemma_given_append(s0, a, x);
    lemma_given_append(s0 + a, b, x);
    lemma_given_append(s0 + a + b, c, x);
    lemma_given_append(s0 + a + b + c, d, x);
    assert(given(d) =~= e.extra_options);
}

/// Each directive that was merged came with a source, and each source with a directive.
pub open spec fn accounted(m: MergeView) -> bool {
    &&& m.wf()
    &&& forall|x: (Seq<char>, Seq<char>)|
        #[trigger] times(given(m.sources), x) == times(body_directives(m.merged), x)
}

proof fn lemma_absorbed_scalars(m: MergeView, e: HostView, o: OriginView, x: (Seq<char>, Seq<char>))
    requires
        m.wf(),
    ensures
        times_of_scalars(merged_with(m.merged, e), x) + times(given(m.sources), x)
            == times_of_scalars(m.merged, x) + times(
            given(scalar_sources_with(m.sources, m.winners, e, o)),
            x,
        ),
{
    lemma_times_of_scalar_sources(m.sources, m.winners, e, o, x);
    assert(port_text(first(m.merged.port, e.port)) == first(port_text(m.merged.port), port_text(e.port)));
    lemma_scalar_source("HostName"@, m.merged.hostname, m.winners.hostname, e.hostname, o, x);
    lemma_scalar_source("User"@, m.merged.user, m.winners.user, e.user, o, x);
    lemma_scalar_source("Port"@, port_text(m.merged.port), m.winners.port, port_text(e.port), o, x);
    lemma_scalar_source("ProxyJump"@, m.merged.proxy_jump, m.winners.proxy_jump, e.proxy_jump, o, x);
    lemma_scalar_source("StrictHostKeyChecking"@, m.merged.strict_host_key_checking, m.winners.strict_host_key_checking, e.strict_host_key_checking, o, x);
    lemma_scalar_source("UserKnownHostsFile"@, m.merged.user_known_hosts_file, m.winners.user_known_hosts_file, e.user_known_hosts_file, o, x);
    lemma_scalar_source("HostKeyAlgorithms"@, m.merged.host_key_algorithms, m.winners.host_key_algorithms, e.host_key_algorithms, o, x);
    lemma_scalar_source("PubkeyAcceptedAlgorithms"@, m.merged.pubkey_accepted_algorithms, m.winners.pubkey_accepted_algorithms, e.pubkey_accepted_algorithms, o, x);
    lemma_scalar_source("ForwardAgent"@, m.merged.forward_agent, m.winners.forward_agent, e.forward_agent, o, x);
    lemma_scalar_source("Tag"@, m.merged.tag, m.winners.tag, e.tag, o, x);
}

proof fn lemma_absorbed_is_accounted(m: MergeView, e: HostView, o: OriginView)
    requires
        accounted(m),
    ensures
        accounted(absorbed(m, e, o)),
{
    let r = absorbed(m, e, o);
    assert forall|x: (Seq<char>, Seq<char>)| #[trigger] times(given(r.sources), x) == times(
        body_directives(r.merged),
        x,
    ) by {
        lemma_absorbed_scalars(m, e, o, x);
        lemma_times_of_sources(m.sources, m.winners, e, o, x);
        lemma_list_sources("IdentityFile"@, m.merged.identity_files, e.identity_files, o, x);
        lemma_list_sources("LocalForward"@, m.merged.local_forwards, e.local_forwards, o, x);
        lemma_list_sources("RemoteForward"@, m.merged.remote_forwards, e.remote_forwards, o, x);
        lemma_times_append(m.merged.extra_options, e.extra_options, x);
        lemma_times_of_body(m.merged, x);
        lemma_times_of_body(r.merged, x);
        assert(times(given(m.sources), x) == times(body_directives(m.merged), x));
    }
}

proof fn lemma_taken_is_accounted(m: MergeView, e: ManagedView)
    requires
        accounted(m),
    ensures
        accounted(taken(m, e)),
{
    let n = MergeView { matched: m.matched.push(e), ..m };
    assert(accounted(n)) by {
        assert forall|x: (Seq<char>, Seq<char>)| #[trigger] times(given(n.sources), x) == times(
            body_directives(n.merged),
            x,
        ) by {
            assert(times(given(m.sources), x) == times(body_directives(m.merged), x));
        }
    }
    lemma_absorbed_is_accounted(n, e.entry, entry_origin(e));
}

proof fn lemma_entries_are_accounted(m: MergeView, es: Seq<ManagedView>, target: Seq<char>)
    requires
        accounted(m),
    ensures
        entries_step(m, es, target) matches Ok(r) ==> accounted(r),
    decreases es.len(),
{
    if es.len() > 0 {
        match list_matches(es[0].entry.host_patterns, target) {
            Ok(true) => {
                lemma_taken_is_accounted(m, es[0]);
                lemma_entries_are_accounted(taken(m, es[0]), es.skip(1), target);
            },
            Ok(false) => lemma_entries_are_accounted(m, es.skip(1), target),
            Err(_) => {},
        }
    }
}

proof fn lemma_entries_are_accounted_everywhere(
    m: MergeView,
    es: Seq<ManagedView>,
    target: Seq<char>,
    r: MergeView,
)
    requires
        accounted(m),
        entries_may_give(m, es, target, Ok(r)),
    ensures
        accounted(r),
    decreases es.len(),
{
    if es.len() > 0 {
        lemma_taken_is_accounted(m, es[0]);
        if list_may_say(es[0].entry.host_patterns, target, Ok(true)) && entries_may_give(
            taken(m, es[0]),
            es.skip(1),
            target,
            Ok(r),
        ) {
            lemma_entries_are_accounted_everywhere(taken(m, es[0]), es.skip(1), target, r);
        } else {
            lemma_entries_are_accounted_everywhere(m, es.skip(1), target, r);
        }
    }
}

proof fn lemma_notes_are_accounted(m: MergeView, note: Seq<char>)
    requires
        accounted(m),
    ensures
        accounted(MergeView { notes: m.notes.push(note), ..m }),
{
    let n = MergeView { notes: m.notes.push(note), ..m };
    assert forall|x: (Seq<char>, Seq<char>)| #[trigger] times(given(n.sources), x) == times(
        body_directives(n.merged),
        x,
    ) by {
        assert(times(given(m.sources), x) == times(body_directives(m.merged), x));
    }
}

proof fn lemma_block_is_accounted(m: MergeView, b: BlockView)
    requires
        accounted(m),
    ensures
        accounted(passed_over(m, b)),
        accounted(applied(m, b)),
{
    let note = "root Match lines "@ + line_span(b) + " applied: "@ + block_header(b.raw);
    lemma_notes_are_accounted(m, passed_over(m, b).notes.last());
    assert(passed_over(m, b) =~= MergeView {
        notes: m.notes.push(passed_over(m, b).notes.last()),
        ..m
    });
    lemma_notes_are_accounted(m, note);
    lemma_absorbed_is_accounted(
        MergeView { notes: m.notes.push(note), ..m },
        b.entry,
        block_origin(b),
    );
}

proof fn lemma_blocks_are_accounted(
    m: MergeView,
    bs: Seq<BlockView>,
    before: bool,
    target: Seq<char>,
    o: OptionsView,
)
    requires
        accounted(m),
    ensures
        blocks_step(m, bs, before, target, o) matches Ok(r) ==> accounted(r),
    decreases bs.len(),
{
    if bs.len() > 0 {
        if bs[0].before_anchor != before {
            lemma_blocks_are_accounted(m, bs.skip(1), before, target, o);
        } else {
            lemma_block_is_accounted(m, bs[0]);
            match block_step(m, bs[0], target, o) {
                Ok(next) => lemma_blocks_are_accounted(next, bs.skip(1), before, target, o),
                Err(_) => {},
            }
        }
    }
}

proof fn lemma_blocks_are_accounted_everywhere(
    m: MergeView,
    bs: Seq<BlockView>,
    before: bool,
    target: Seq<char>,
    o: OptionsView,
    r: MergeView,
)
    requires
        accounted(m),
        blocks_may_give(m, bs, before, target, o, Ok(r)),
    ensures
        accounted(r),
    decreases bs.len(),
{
    if bs.len() > 0 {
        let b = bs[0];
        let rest = bs.skip(1);
        lemma_block_is_accounted(m, b);
        if b.before_anchor != before {
            lemma_blocks_are_accounted_everywhere(m, rest, before, target, o, r);
        } else if is_passed_over(b, o) {
            lemma_blocks_are_accounted_everywhere(passed_over(m, b), rest, before, target, o, r);
        } else if blocks_may_give(applied(m, b), rest, before, target, o, Ok(r)) {
            lemma_blocks_are_accounted_everywhere(applied(m, b), rest, before, target, o, r);
        } else {
            lemma_blocks_are_accounted_everywhere(m, rest, before, target, o, r);
        }
    }
}

proof fn lemma_start_is_accounted(target: Seq<char>)
    ensures
        accounted(start(target)),
{
    let m = start(target);
    assert(given(m.sources) =~= Seq::<(Seq<char>, Seq<char>)>::empty());
    assert(body_directives(m.merged) =~= Seq::<(Seq<char>, Seq<char>)>::empty());
}

/// The directives but those named `Host`.
pub open spec fn without_host(ds: Seq<(Seq<char>, Seq<char>)>) -> Seq<(Seq<char>, Seq<char>)>
    decreases ds.len(),
{
    if ds.len() == 0 {
        Seq::empty()
    } else if same_ignoring_case(ds[0].0, "Host"@) {
        without_host(ds.skip(1))
    } else {
        seq![ds[0]] + without_host(ds.skip(1))
    }
}

proof fn lemma_times_first(ds: Seq<(Seq<char>, Seq<char>)>, x: (Seq<char>, Seq<char>))
    requires
        ds.len() > 0,
    ensures
        times(ds, x) == (if (lower(ds[0].0), ds[0].1) == x {
            1nat
        } else {
            0
        }) + times(ds.skip(1), x),
{
    let one = seq![ds[0]];
    assert(one + ds.skip(1) =~= ds);
    lemma_times_append(one, ds.skip(1), x);
    assert(one.drop_last() =~= Seq::<(Seq<char>, Seq<char>)>::empty());
    assert(times(one.drop_last(), x) == 0);
}

/// A source that is there is found, and taking it out leaves one less.
proof fn lemma_source_is_found(ss: Seq<SourceView>, d: (Seq<char>, Seq<char>))
    requires
        times(given(ss), (lower(d.0), d.1)) > 0,
    ensures
        until_source(ss, d) < ss.len(),
        gives(ss[until_source(ss, d) as int], d),
        forall|x: (Seq<char>, Seq<char>)|
            #[trigger] times(given(ss.remove(until_source(ss, d) as int)), x) == times(
                given(ss),
                x,
            ) - (if x == (lower(d.0), d.1) {
                1int
            } else {
                0
            }),
    decreases ss.len(),
{
    let key = (lower(d.0), d.1);
    let n = until_source(ss, d) as int;
    if ss.len() > 0 {
        let rest = ss.skip(1);
        assert(given(ss).skip(1) =~= given(rest));
        assert(given(ss)[0] == (ss[0].key, ss[0].value));
        lemma_times_first(given(ss), key);
        if gives(ss[0], d) {
            assert(ss.remove(0) =~= rest);
            assert forall|x: (Seq<char>, Seq<char>)| #[trigger] times(given(ss.remove(n)), x)
                == times(given(ss), x) - (if x == key {
                1int
            } else {
                0
            }) by {
                lemma_times_first(given(ss), x);
            }
        } else {
            lemma_source_is_found(rest, d);
            let k = until_source(rest, d) as int;
            assert(rest[k] == ss[k + 1]);
            let left = ss.remove(k + 1);
            assert(left =~= seq![ss[0]] + rest.remove(k));
            assert forall|x: (Seq<char>, Seq<char>)| #[trigger] times(given(ss.remove(n)), x)
                == times(given(ss), x) - (if x == key {
                1int
            } else {
                0
            }) by {
                lemma_times_first(given(ss), x);
                assert(given(left).skip(1) =~= given(rest.remove(k)));
                assert(given(left)[0] == given(ss)[0]);
                lemma_times_first(given(left), x);
                assert(times(given(rest.remove(k)), x) == times(given(rest), x) - (if x == key {
                    1int
                } else {
                    0
                }));
            }
        }
    }
}

proof fn lemma_sources_in_order(ds: Seq<(Seq<char>, Seq<char>)>, ss: Seq<SourceView>)
    requires
        forall|x: (Seq<char>, Seq<char>)|
            #[trigger] times(without_host(ds), x) <= times(given(ss), x),
    ensures
        ordered_sources(ds, ss).len() == without_host(ds).len(),
        forall|i: int|
            0 <= i < without_host(ds).len() ==> gives(
                ordered_sources(ds, ss)[i],
                #[trigger] without_host(ds)[i],
            ),
    decreases ds.len(),
{
    if ds.len() > 0 {
        let rest = ds.skip(1);
        let named = without_host(ds);
        if same_ignoring_case(ds[0].0, "Host"@) {
            assert forall|x: (Seq<char>, Seq<char>)| #[trigger] times(without_host(rest), x)
                <= times(given(ss), x) by {
                assert(times(without_host(ds), x) <= times(given(ss), x));
            }
            lemma_sources_in_order(rest, ss);
        } else {
            let d = ds[0];
            let key = (lower(d.0), d.1);
            let more = without_host(rest);
            assert(named.skip(1) =~= more);
            assert(named[0] == d);
            lemma_times_first(named, key);
            assert(times(named, key) <= times(given(ss), key));
            lemma_source_is_found(ss, d);
            let n = until_source(ss, d) as int;
            let left = ss.remove(n);
            assert forall|x: (Seq<char>, Seq<char>)| #[trigger] times(without_host(rest), x)
                <= times(given(left), x) by {
                lemma_times_first(named, x);
                assert(times(named, x) <= times(given(ss), x));
                assert(times(given(ss.remove(n)), x) == times(given(ss), x) - (if x == key {
                    1int
                } else {
                    0
                }));
            }
            lemma_sources_in_order(rest, left);
            let tail = ordered_sources(rest, left);
            assert(ordered_sources(ds, ss) == seq![ss[n]] + tail);
            assert forall|i: int| 0 <= i < named.len() implies gives(
                ordered_sources(ds, ss)[i],
                #[trigger] named[i],
            ) by {
                if i > 0 {
                    assert(named[i] == more[i - 1]);
                    assert(ordered_sources(ds, ss)[i] == tail[i - 1]);
                }
            }
        }
    }
}

proof fn lemma_fewer_without_host(ds: Seq<(Seq<char>, Seq<char>)>, x: (Seq<char>, Seq<char>))
    ensures
        times(without_host(ds), x) <= times(ds, x),
    decreases ds.len(),
{
    if ds.len() > 0 {
        lemma_times_first(ds, x);
        lemma_fewer_without_host(ds.skip(1), x);
        if !same_ignoring_case(ds[0].0, "Host"@) {
            let named = without_host(ds);
            assert(named.skip(1) =~= without_host(ds.skip(1)));
            lemma_times_first(named, x);
        }
    }
}

proof fn lemma_accounted_sources(target: Seq<char>, m: MergeView)
    requires
        accounted(m),
    ensures
        sources_are_told(resolved_from(target, m)),
{
    let all = directives_of(m.merged);
    let host = ("Host"@, join(m.merged.host_patterns, " "@));
    lemma_all_directives(m.merged);
    let body = body_directives(m.merged);
    assert(all[0] == host);
    assert(all.skip(1) =~= body);
    assert forall|x: (Seq<char>, Seq<char>)| #[trigger] times(without_host(all), x) <= times(
        given(m.sources),
        x,
    ) by {
        lemma_fewer_without_host(body, x);
        assert(times(given(m.sources), x) == times(body, x));
    }
    lemma_sources_in_order(all, m.sources);
}

/// For each directive but `Host` the source is told, in the order of the directives: the source
/// gives that directive that value.
pub open spec fn sources_are_told(r: ResolvedView) -> bool {
    let ds = without_host(directives_of(r.merged_entry));
    &&& r.directive_sources.len() == ds.len()
    &&& forall|i: int| 0 <= i < ds.len() ==> gives(r.directive_sources[i], #[trigger] ds[i])
}

/// For each directive of a resolved target but `Host` the source is told, in the order of the
/// directives: the source gives that directive that value.
pub proof fn law_each_directive_has_its_source(
    es: Seq<ManagedView>,
    target: Seq<char>,
    bs: Seq<BlockView>,
    o: OptionsView,
)
    requires
        resolution(es, target, bs, o) is Ok,
    ensures
        sources_are_told(resolution(es, target, bs, o)->Ok_0),
{
    lemma_start_is_accounted(target);
    lemma_blocks_are_accounted(start(target), bs, true, target, o);
    let a = blocks_step(start(target), bs, true, target, o)->Ok_0;
    lemma_entries_are_accounted(a, es, target);
    let b = entries_step(a, es, target)->Ok_0;
    lemma_blocks_are_accounted(b, bs, false, target, o);
    lemma_accounted_sources(target, merge_all(es, target, bs, o)->Ok_0);
}

/// So it is whatever matches on a machine.
pub proof fn law_each_directive_has_its_source_everywhere(
    es: Seq<ManagedView>,
    target: Seq<char>,
    bs: Seq<BlockView>,
    o: OptionsView,
    x: ResolvedView,
)
    requires
        resolution_may_be(es, target, bs, o, Ok(x)),
    ensures
        sources_are_told(x),
{
    let m = choose|m: MergeView| #[trigger]
        merge_may_give(es, target, bs, o, Ok(m)) && x == resolved_from(target, m);
    let (a, b) = choose|a: MergeView, b: MergeView|
        blocks_may_give(start(target), bs, true, target, o, Ok(a)) && #[trigger] entries_may_give(
            a,
            es,
            target,
            Ok(b),
        ) && blocks_may_give(b, bs, false, target, o, Ok(m));
    lemma_start_is_accounted(target);
    lemma_blocks_are_accounted_everywhere(start(target), bs, true, target, o, a);
    lemma_entries_are_accounted_everywhere(a, es, target, b);
    lemma_blocks_are_accounted_everywhere(b, bs, false, target, o, m);
    lemma_accounted_sources(target, m);
}

} // verus!
