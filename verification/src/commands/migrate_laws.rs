//! What holds when the `Host` blocks of the root configuration are moved.

use vstd::prelude::*;

use crate::commands::init::{
    HostBlockView, SegmentView, SplitView, kept_text, root_parts, split_lines_from,
    text_without_anchors, trailing_trivia, trivia_run, until_close, with_anchor_placed,
};
use crate::commands::migrate::{
    MigrationView, all_host_patterns, block_label, claim_patterns, judged, migration_plan,
    nothing_moved, segment_step, segments_step, unplaced,
};
use crate::commands::root_laws::{
    lemma_block_text, lemma_concat_one, lemma_trivia_run_bound, lemma_until_end_bound, segment_text,
    split_start,
};
use crate::config::model::ManagedView;
use crate::config::parser::{parse_block, parsed};
use crate::config::root_config::{is_directive, until_end};
use crate::config::validate::issues_of;
use crate::layout::{MANAGED_BLOCK_START, MANAGED_INCLUDE_LINE};
use crate::text::{concat, ends_with, lines, raw_lines, same_ignoring_case, trim};
use crate::text_laws::law_lines_lose_nothing;

verus! {

broadcast use crate::text::group_text;

// ---------------------------------------------------------------------------
// The trivia before a block
// ---------------------------------------------------------------------------

/// The trivia of each block is the end of the stretch before it.
pub open spec fn trivia_fits_at(ss: Seq<SegmentView>, i: int) -> bool {
    ss[i] matches SegmentView::HostBlock(b) ==> b.leading_trivia.len() == 0 || (i > 0 && ss[i
        - 1] is Preserved && ends_with(segment_text(ss[i - 1]), b.leading_trivia))
}

pub open spec fn trivia_fits(ss: Seq<SegmentView>) -> bool {
    forall|i: int| 0 <= i < ss.len() ==> #[trigger] trivia_fits_at(ss, i)
}

proof fn lemma_trailing_trivia(s: Seq<char>)
    ensures
        ends_with(s, trailing_trivia(s)),
        s.len() == 0 ==> trailing_trivia(s).len() == 0,
{
    let ls = raw_lines(s);
    lemma_trivia_run_bound(ls);
    let k = ls.len() - trivia_run(ls);
    law_lines_lose_nothing(s);
    lemma_block_text(ls, 0, k);
    assert(ls.subrange(k, ls.len() as int) =~= ls.skip(k));
    let tail = concat(ls.skip(k));
    assert(s == concat(ls.take(k)) + tail);
    assert(s.skip(s.len() - tail.len()) =~= tail);
    if s.len() == 0 {
        assert(tail.len() == 0);
    }
}

proof fn lemma_fits_push(ss: Seq<SegmentView>, s: SegmentView)
    requires
        trivia_fits(ss),
        trivia_fits_at(ss.push(s), ss.len() as int),
    ensures
        trivia_fits(ss.push(s)),
{
    let t = ss.push(s);
    assert forall|i: int| 0 <= i < t.len() implies #[trigger] trivia_fits_at(t, i) by {
        if i < ss.len() {
            assert(trivia_fits_at(ss, i));
        }
    }
}

proof fn lemma_flush_fits(st: SplitView)
    requires
        trivia_fits(st.segments),
    ensures
        trivia_fits(st.flushed().segments),
{
    if st.preserved.len() > 0 {
        lemma_fits_push(st.segments, SegmentView::Preserved(st.preserved));
    }
}

proof fn lemma_block_fits(st: SplitView, b: HostBlockView, rest: Seq<char>)
    requires
        trivia_fits(st.segments),
        b.leading_trivia == trailing_trivia(st.preserved),
    ensures
        trivia_fits(st.with_block(b, rest).segments),
{
    lemma_flush_fits(st);
    lemma_trailing_trivia(st.preserved);
    let f = st.flushed();
    lemma_fits_push(f.segments, SegmentView::HostBlock(b));
}

proof fn lemma_split_fits(ls: Seq<Seq<char>>, n: int, st: SplitView)
    requires
        trivia_fits(st.segments),
    ensures
        split_lines_from(ls, n, st) matches Ok(end) ==> trivia_fits(end.segments),
    decreases ls.len(),
{
    if ls.len() == 0 {
        lemma_flush_fits(st);
    } else {
        let line = trim(ls[0]);
        lemma_flush_fits(st);
        if line == MANAGED_BLOCK_START@ {
            let k = until_close(ls);
            if k < ls.len() {
                let raw = concat(ls.take(k as int + 1));
                lemma_fits_push(st.flushed().segments, SegmentView::Anchor(raw));
                lemma_split_fits(ls.skip(k as int + 1), n + k + 1, st.with_anchor(raw));
            }
        } else if same_ignoring_case(line, MANAGED_INCLUDE_LINE@) {
            lemma_fits_push(st.flushed().segments, SegmentView::Anchor(ls[0]));
            lemma_split_fits(ls.skip(1), n + 1, st.with_anchor(ls[0]));
        } else if is_directive(line, "Host"@) {
            let k = 1 + until_end(ls.skip(1));
            lemma_until_end_bound(ls.skip(1));
            let j = trivia_run(ls.subrange(1, k as int));
            let at_end = k >= ls.len();
            let body = if at_end {
                k as int
            } else {
                k - j
            };
            let block = HostBlockView {
                leading_trivia: trailing_trivia(st.preserved),
                raw: concat(ls.take(body)),
                start_line: n + 1,
                end_line: n + k - j,
            };
            let rest = concat(ls.subrange(body, k as int));
            lemma_block_fits(st, block, rest);
            let after = if at_end {
                Seq::empty()
            } else {
                ls.skip(k as int)
            };
            lemma_split_fits(after, n + k, st.with_block(block, rest));
        } else {
            lemma_split_fits(
                ls.skip(1),
                n + 1,
                SplitView { preserved: st.preserved + ls[0], ..st },
            );
        }
    }
}

// ---------------------------------------------------------------------------
// Texts woven into a text
// ---------------------------------------------------------------------------

/// Pieces and texts by turns; there is one piece more.
pub open spec fn by_turns(pieces: Seq<Seq<char>>, ms: Seq<Seq<char>>) -> Seq<char>
    decreases ms.len(),
{
    if ms.len() == 0 {
        pieces.last()
    } else {
        by_turns(pieces.drop_last(), ms.drop_last()) + ms.last() + pieces.last()
    }
}

/// `t` is `out` with the texts `ms` put in at some places, in their order.
pub open spec fn woven(t: Seq<char>, out: Seq<char>, ms: Seq<Seq<char>>) -> bool {
    exists|pieces: Seq<Seq<char>>|
        pieces.len() == ms.len() + 1 && concat(pieces) == out && #[trigger] by_turns(pieces, ms)
            == t
}

proof fn lemma_woven_extended(t: Seq<char>, out: Seq<char>, ms: Seq<Seq<char>>, x: Seq<char>)
    requires
        woven(t, out, ms),
    ensures
        woven(t + x, out + x, ms),
{
    let pieces = choose|pieces: Seq<Seq<char>>|
        pieces.len() == ms.len() + 1 && concat(pieces) == out && #[trigger] by_turns(pieces, ms)
            == t;
    let more = pieces.drop_last().push(pieces.last() + x);
    assert(more.drop_last() =~= pieces.drop_last());
    assert(concat(more) =~= out + x);
    assert(by_turns(more, ms) =~= t + x);
}

proof fn lemma_woven_block(t: Seq<char>, out: Seq<char>, ms: Seq<Seq<char>>, y: Seq<char>)
    requires
        woven(t, out, ms),
    ensures
        woven(t + y, out, ms.push(y)),
{
    let pieces = choose|pieces: Seq<Seq<char>>|
        pieces.len() == ms.len() + 1 && concat(pieces) == out && #[trigger] by_turns(pieces, ms)
            == t;
    let more = pieces.push(Seq::<char>::empty());
    assert(more.drop_last() =~= pieces);
    assert(ms.push(y).drop_last() =~= ms);
    assert(concat(more) =~= out);
    assert(by_turns(more, ms.push(y)) =~= t + y);
}

// ---------------------------------------------------------------------------
// Moving
// ---------------------------------------------------------------------------

/// The texts of the blocks that were moved.
pub open spec fn moved_texts(m: MigrationView) -> Seq<Seq<char>> {
    (m.before + m.after).map_values(|e: ManagedView| e.raw_content)
}

/// The next block can take its trivia along.
pub open spec fn is_ready(m: MigrationView, t: Seq<char>, ss: Seq<SegmentView>) -> bool {
    ss.len() > 0 && ss[0] is HostBlock ==> {
        let x = ss[0]->HostBlock_0.leading_trivia;
        &&& ends_with(t, x)
        &&& ends_with(m.output, x)
        &&& woven(t.take(t.len() - x.len()), m.output.take(m.output.len() - x.len()), moved_texts(m))
    }
}

pub open spec fn sides_apart(m: MigrationView, from: int, anchor: Option<int>) -> bool {
    (anchor is None || from <= anchor->0) ==> m.after.len() == 0
}

proof fn lemma_text_first(ss: Seq<SegmentView>)
    requires
        ss.len() > 0,
    ensures
        text_without_anchors(ss) == kept_text(ss[0]) + text_without_anchors(ss.skip(1)),
    decreases ss.len(),
{
    if ss.len() == 1 {
        assert(ss.drop_last() =~= Seq::<SegmentView>::empty());
        assert(ss.skip(1) =~= Seq::<SegmentView>::empty());
        assert(text_without_anchors(ss) =~= kept_text(ss[0]) + text_without_anchors(ss.skip(1)));
    } else {
        lemma_text_first(ss.drop_last());
        assert(ss.drop_last().skip(1) =~= ss.skip(1).drop_last());
        assert(ss.skip(1).last() == ss.last());
        assert(text_without_anchors(ss) =~= kept_text(ss[0]) + text_without_anchors(ss.skip(1)));
    }
}

proof fn lemma_no_trivia_is_ready(m: MigrationView, t: Seq<char>, ss: Seq<SegmentView>)
    requires
        woven(t, m.output, moved_texts(m)),
        ss.len() > 0 && ss[0] is HostBlock ==> ss[0]->HostBlock_0.leading_trivia.len() == 0,
    ensures
        is_ready(m, t, ss),
{
    if ss.len() > 0 && ss[0] is HostBlock {
        let x = ss[0]->HostBlock_0.leading_trivia;
        assert(t.skip(t.len() - x.len()) =~= x);
        assert(m.output.skip(m.output.len() - x.len()) =~= x);
        assert(t.take(t.len() - x.len()) =~= t);
        assert(m.output.take(m.output.len() - x.len()) =~= m.output);
    }
}

proof fn lemma_suffix_is_ready(
    m: MigrationView,
    t: Seq<char>,
    raw: Seq<char>,
    x: Seq<char>,
    ms: Seq<Seq<char>>,
)
    requires
        woven(t, m.output, ms),
        ends_with(raw, x),
    ensures
        ends_with(t + raw, x),
        ends_with(m.output + raw, x),
        woven(
            (t + raw).take((t + raw).len() - x.len()),
            (m.output + raw).take((m.output + raw).len() - x.len()),
            ms,
        ),
{
    let r = raw.take(raw.len() - x.len());
    lemma_woven_extended(t, m.output, ms, r);
    assert((t + raw).skip((t + raw).len() - x.len()) =~= raw.skip(raw.len() - x.len()));
    assert((m.output + raw).skip((m.output + raw).len() - x.len()) =~= raw.skip(
        raw.len() - x.len(),
    ));
    assert((t + raw).take((t + raw).len() - x.len()) =~= t + r);
    assert((m.output + raw).take((m.output + raw).len() - x.len()) =~= m.output + r);
}

proof fn lemma_step(
    m: MigrationView,
    ss: Seq<SegmentView>,
    from: int,
    anchor: Option<int>,
    existing: Seq<Seq<char>>,
    t: Seq<char>,
)
    requires
        ss.len() > 0,
        later_trivia_fits(ss),
        woven(t, m.output, moved_texts(m)),
        is_ready(m, t, ss),
        sides_apart(m, from, anchor),
    ensures
        segment_step(m, ss[0], from, anchor, existing) is Ok,
        ({
            let next = segment_step(m, ss[0], from, anchor, existing)->Ok_0;
            let u = t + kept_text(ss[0]);
            &&& woven(u, next.output, moved_texts(next))
            &&& is_ready(next, u, ss.skip(1))
            &&& sides_apart(next, from + 1, anchor)
        }),
{
    let u = t + kept_text(ss[0]);
    let rest = ss.skip(1);
    if ss.len() > 1 {
        assert(rest[0] == ss[1]);
        assert(trivia_fits_at(ss, 1));
    }
    match ss[0] {
        SegmentView::Preserved(raw) => {
            lemma_woven_extended(t, m.output, moved_texts(m), raw);
            let next = MigrationView { output: m.output + raw, ..m };
            if rest.len() > 0 && rest[0] is HostBlock {
                let x = rest[0]->HostBlock_0.leading_trivia;
                if x.len() == 0 {
                    lemma_no_trivia_is_ready(next, u, rest);
                } else {
                    lemma_suffix_is_ready(m, t, raw, x, moved_texts(m));
                }
            }
        },
        SegmentView::Anchor(_) => {
            assert(u =~= t);
            lemma_no_trivia_is_ready(m, u, rest);
        },
        SegmentView::HostBlock(b) => {
            let x = b.leading_trivia;
            let (seen, verdict) = judged(b, existing, m.seen);
            match verdict {
                Err(s) => {
                    lemma_woven_extended(t, m.output, moved_texts(m), b.raw);
                    let next = segment_step(m, ss[0], from, anchor, existing)->Ok_0;
                    lemma_no_trivia_is_ready(next, u, rest);
                },
                Ok(e) => {
                    let next = segment_step(m, ss[0], from, anchor, existing)->Ok_0;
                    let y = x + b.raw;
                    let t1 = t.take(t.len() - x.len());
                    lemma_woven_block(t1, next.output, moved_texts(m), y);
                    assert(t =~= t1 + x);
                    assert(t1 + y =~= u);
                    let entry = unplaced(e, y);
                    let first = anchor is None || from < anchor->0;
                    if first {
                        assert(m.after =~= Seq::<ManagedView>::empty());
                        assert(next.before + next.after =~= (m.before + m.after).push(entry));
                    } else {
                        assert(next.before + next.after =~= (m.before + m.after).push(entry));
                    }
                    assert(moved_texts(next) =~= moved_texts(m).push(y));
                    lemma_no_trivia_is_ready(next, u, rest);
                },
            }
        },
    }
}

/// The trivia fits from the second stretch on.
pub open spec fn later_trivia_fits(ss: Seq<SegmentView>) -> bool {
    forall|i: int| 1 <= i < ss.len() ==> #[trigger] trivia_fits_at(ss, i)
}

proof fn lemma_steps(
    m: MigrationView,
    ss: Seq<SegmentView>,
    from: int,
    anchor: Option<int>,
    existing: Seq<Seq<char>>,
    t: Seq<char>,
)
    requires
        later_trivia_fits(ss),
        woven(t, m.output, moved_texts(m)),
        is_ready(m, t, ss),
        sides_apart(m, from, anchor),
    ensures
        segments_step(m, ss, from, anchor, existing) is Ok,
        ({
            let end = segments_step(m, ss, from, anchor, existing)->Ok_0;
            woven(t + text_without_anchors(ss), end.output, moved_texts(end))
        }),
    decreases ss.len(),
{
    if ss.len() == 0 {
        assert(t + text_without_anchors(ss) =~= t);
    } else {
        lemma_step(m, ss, from, anchor, existing, t);
        let next = segment_step(m, ss[0], from, anchor, existing)->Ok_0;
        let u = t + kept_text(ss[0]);
        let rest = ss.skip(1);
        assert forall|i: int| 1 <= i < rest.len() implies #[trigger] trivia_fits_at(rest, i) by {
            assert(trivia_fits_at(ss, i + 1));
            assert(rest[i] == ss[i + 1]);
            assert(rest[i - 1] == ss[i]);
        }
        lemma_steps(next, rest, from + 1, anchor, existing, u);
        lemma_text_first(ss);
        assert(u + text_without_anchors(rest) =~= t + text_without_anchors(ss));
    }
}

/// Moving the blocks is refused only where the root configuration cannot be taken apart or
/// has more than one anchor; and no text is lost by it: what stays, with the texts of the
/// entries that were moved put in again at their places, is the root configuration without
/// its anchor.
pub proof fn law_moving_loses_nothing(content: Seq<char>, es: Seq<ManagedView>, newline: Seq<char>)
    ensures
        migration_plan(content, es, newline) is Ok <==> root_parts(content) is Ok && root_parts(
            content,
        )->Ok_0.anchor_count <= 1,
        migration_plan(content, es, newline) is Ok ==> {
            let p = root_parts(content)->Ok_0;
            let m = segments_step(
                nothing_moved(),
                p.segments,
                0,
                p.anchor_index,
                all_host_patterns(es),
            )->Ok_0;
            let plan = migration_plan(content, es, newline)->Ok_0;
            &&& woven(text_without_anchors(p.segments), m.output, moved_texts(m))
            &&& plan.rewritten_root == with_anchor_placed(m.output, newline)
            &&& plan.ordered_entries == m.before + es + m.after
        },
{
    if root_parts(content) is Ok {
        let p = root_parts(content)->Ok_0;
        let st = split_start();
        lemma_split_fits(raw_lines(content), 0, st);
        let m = nothing_moved();
        let none = Seq::<char>::empty();
        let pieces = seq![none];
        lemma_concat_one(none);
        assert(moved_texts(m) =~= Seq::<Seq<char>>::empty());
        assert(by_turns(pieces, moved_texts(m)) == none);
        assert(woven(none, m.output, moved_texts(m)));
        if p.segments.len() > 0 {
            assert(trivia_fits_at(p.segments, 0));
        }
        lemma_no_trivia_is_ready(m, none, p.segments);
        lemma_steps(m, p.segments, 0, p.anchor_index, all_host_patterns(es), none);
        assert(none + text_without_anchors(p.segments) =~= text_without_anchors(p.segments));
    }
}

// ---------------------------------------------------------------------------
// The entries that were moved
// ---------------------------------------------------------------------------

proof fn lemma_claim(
    ps: Seq<Seq<char>>,
    existing: Seq<Seq<char>>,
    seen: Seq<Seq<char>>,
    label: Seq<char>,
)
    ensures
        ({
            let (after, taken) = claim_patterns(ps, existing, seen, label);
            &&& forall|p: Seq<char>| seen.contains(p) ==> after.contains(p)
            &&& taken is None ==> {
                &&& ps.no_duplicates()
                &&& forall|i: int|
                    0 <= i < ps.len() ==> after.contains(#[trigger] ps[i]) && !seen.contains(ps[i])
                        && !existing.contains(ps[i])
            }
        }),
    decreases ps.len(),
{
    if ps.len() > 0 && !existing.contains(ps[0]) && !seen.contains(ps[0]) {
        let next = seen.push(ps[0]);
        lemma_claim(ps.skip(1), existing, next, label);
        let (after, taken) = claim_patterns(ps, existing, seen, label);
        assert(next[seen.len() as int] == ps[0]);
        assert(next.contains(ps[0]));
        assert forall|p: Seq<char>| seen.contains(p) implies after.contains(p) by {
            let i = choose|i: int| 0 <= i < seen.len() && seen[i] == p;
            assert(next[i] == p);
            assert(next.contains(p));
        }
        if taken is None {
            let rest = ps.skip(1);
            assert forall|i: int| 0 <= i < ps.len() implies after.contains(#[trigger] ps[i])
                && !seen.contains(ps[i]) && !existing.contains(ps[i]) by {
                if i > 0 {
                    assert(ps[i] == rest[i - 1]);
                    if seen.contains(ps[i]) {
                        let k = choose|k: int| 0 <= k < seen.len() && seen[k] == ps[i];
                        assert(next[k] == ps[i]);
                    }
                }
            }
            assert forall|i: int, k: int| 0 <= i < ps.len() && 0 <= k < ps.len() && i != k implies ps[i]
                != ps[k] by {
                if i > 0 && k > 0 {
                    assert(ps[i] == rest[i - 1] && ps[k] == rest[k - 1]);
                } else if i > 0 {
                    assert(ps[i] == rest[i - 1]);
                } else {
                    assert(ps[k] == rest[k - 1]);
                }
            }
        }
    }
}

/// The patterns of the entries that were moved, in their order.
pub open spec fn moved_patterns(m: MigrationView) -> Seq<Seq<char>> {
    all_host_patterns(m.before + m.after)
}

/// The moved entries are valid, each was read from its text, and their patterns are new.
pub open spec fn are_new(m: MigrationView, existing: Seq<Seq<char>>) -> bool {
    &&& forall|i: int|
        0 <= i < (m.before + m.after).len() ==> issues_of(
            (#[trigger] (m.before + m.after)[i]).entry,
        ).len() == 0
    &&& moved_patterns(m).no_duplicates()
    &&& forall|p: Seq<char>|
        #[trigger] moved_patterns(m).contains(p) ==> m.seen.contains(p) && !existing.contains(p)
    &&& m.attempted == m.before.len() + m.after.len() + m.skipped.len()
    &&& m.reports.len() == m.before.len() + m.after.len()
}

proof fn lemma_patterns_push(es: Seq<ManagedView>, e: ManagedView)
    ensures
        all_host_patterns(es.push(e)) == all_host_patterns(es) + e.entry.host_patterns,
{
    assert(es.push(e).drop_last() =~= es);
}

proof fn lemma_step_keeps_new(
    m: MigrationView,
    s: SegmentView,
    from: int,
    anchor: Option<int>,
    existing: Seq<Seq<char>>,
)
    requires
        are_new(m, existing),
        sides_apart(m, from, anchor),
    ensures
        segment_step(m, s, from, anchor, existing) matches Ok(next) ==> are_new(next, existing)
            && sides_apart(next, from + 1, anchor),
{
    match s {
        SegmentView::HostBlock(b) => {
            let (seen, verdict) = judged(b, existing, m.seen);
            let label = block_label(lines(b.raw));
            let parsed = parse_block("root-config"@, b.raw, true);
            if parsed is Ok && issues_of(parsed->Ok_0).len() == 0 {
                lemma_claim(parsed->Ok_0.host_patterns, existing, m.seen, label);
            }
            match verdict {
                Err(_) => {},
                Ok(e) => {
                    if ends_with(m.output, b.leading_trivia) {
                        let next = segment_step(m, s, from, anchor, existing)->Ok_0;
                        let entry = unplaced(e, b.leading_trivia + b.raw);
                        let all = m.before + m.after;
                        let first = anchor is None || from < anchor->0;
                        if first {
                            assert(m.after =~= Seq::<ManagedView>::empty());
                        }
                        assert(next.before + next.after =~= all.push(entry));
                        lemma_patterns_push(all, entry);
                        let old_ps = moved_patterns(m);
                        let ps = e.host_patterns;
                        let now = moved_patterns(next);
                        assert(now == old_ps + ps);
                        assert forall|i: int| 0 <= i < (next.before + next.after).len() implies issues_of(
                            (#[trigger] (next.before + next.after)[i]).entry,
                        ).len() == 0 by {
                            if i < all.len() {
                                assert((next.before + next.after)[i] == all[i]);
                            }
                        }
                        assert forall|i: int, k: int|
                            0 <= i < now.len() && 0 <= k < now.len() && i != k implies now[i]
                            != now[k] by {
                            if i < old_ps.len() && k >= old_ps.len() {
                                assert(now[k] == ps[k - old_ps.len()]);
                                assert(old_ps.contains(now[i]));
                            } else if k < old_ps.len() && i >= old_ps.len() {
                                assert(now[i] == ps[i - old_ps.len()]);
                                assert(old_ps.contains(now[k]));
                            } else if i >= old_ps.len() {
                                assert(now[i] == ps[i - old_ps.len()]);
                                assert(now[k] == ps[k - old_ps.len()]);
                            } else {
                                assert(now[i] == old_ps[i] && now[k] == old_ps[k]);
                            }
                        }
                        assert forall|p: Seq<char>| #[trigger] now.contains(p) implies next.seen.contains(
                            p,
                        ) && !existing.contains(p) by {
                            let i = choose|i: int| 0 <= i < now.len() && now[i] == p;
                            if i < old_ps.len() {
                                assert(old_ps[i] == p);
                                assert(old_ps.contains(p));
                            } else {
                                assert(ps[i - old_ps.len()] == p);
                            }
                        }
                    }
                },
            }
        },
        _ => {},
    }
}

proof fn lemma_steps_keep_new(
    m: MigrationView,
    ss: Seq<SegmentView>,
    from: int,
    anchor: Option<int>,
    existing: Seq<Seq<char>>,
)
    requires
        are_new(m, existing),
        sides_apart(m, from, anchor),
    ensures
        segments_step(m, ss, from, anchor, existing) matches Ok(end) ==> are_new(end, existing),
    decreases ss.len(),
{
    if ss.len() > 0 {
        lemma_step_keeps_new(m, ss[0], from, anchor, existing);
        match segment_step(m, ss[0], from, anchor, existing) {
            Ok(next) => lemma_steps_keep_new(next, ss.skip(1), from + 1, anchor, existing),
            Err(_) => {},
        }
    }
}

/// Each block is either moved or told of as one that stays; each entry that is moved is valid;
/// and no pattern of a moved entry is that of another moved one or of one that was managed.
pub proof fn law_moved_entries_are_new(content: Seq<char>, es: Seq<ManagedView>, newline: Seq<char>)
    requires
        migration_plan(content, es, newline) is Ok,
    ensures
        ({
            let plan = migration_plan(content, es, newline)->Ok_0;
            let p = root_parts(content)->Ok_0;
            let m = segments_step(
                nothing_moved(),
                p.segments,
                0,
                p.anchor_index,
                all_host_patterns(es),
            )->Ok_0;
            &&& plan.attempted_blocks == plan.migrated_blocks + plan.skipped_blocks.len()
            &&& plan.migrated_entries.len() == plan.migrated_blocks
            &&& plan.ordered_entries.len() == es.len() + plan.migrated_blocks
            &&& are_new(m, all_host_patterns(es))
        }),
{
    let p = root_parts(content)->Ok_0;
    let m = nothing_moved();
    assert(m.before + m.after =~= Seq::<ManagedView>::empty());
    assert(moved_patterns(m) =~= Seq::<Seq<char>>::empty());
    lemma_steps_keep_new(m, p.segments, 0, p.anchor_index, all_host_patterns(es));
}

} // verus!
