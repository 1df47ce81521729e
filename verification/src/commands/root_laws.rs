//! What holds of the root configuration when the managed entries are tied to it.

use vstd::prelude::*;

use crate::commands::init::{
    HostBlockView, SegmentView, SplitView, anchor_line, anchored, ends_line, is_conditional,
    is_trivia, root_parts, split_lines_from, text_without_anchors, trailing_trivia, trivia_run,
    until_close, until_conditional, with_anchor_placed,
};
use crate::commands::validate::{has_block, root_issues};
use crate::config::root_config::{ends_block, is_directive, until_end};
use crate::config::roundtrip::{is_newline, lemma_one_raw_line, lemma_raw_lines_append};
use crate::layout::{
    MANAGED_BLOCK_END, MANAGED_BLOCK_START, MANAGED_INCLUDE_LINE, anchor_text,
    names_managed_entries, newline_of,
};
use crate::text::{
    blank, concat, contains_text, is_ws, lines, piece, raw_lines, raw_lines_from,
    same_ignoring_case, starts_with, strip_line_end, trim, trim_end, trim_start,
};
use crate::text_laws::{law_lines_lose_nothing, law_trim_once, law_trimmed_text_stays};

verus! {

broadcast use crate::text::group_text;

// ---------------------------------------------------------------------------
// Lines and texts
// ---------------------------------------------------------------------------

/// A line with its line feed.
pub open spec fn is_full_line(l: Seq<char>) -> bool {
    l.len() > 0 && l.last() == '\n' && !l.drop_last().contains('\n')
}

/// Lines as they stand in a file: each with its line feed, which the last may lack.
pub open spec fn are_lines(ls: Seq<Seq<char>>) -> bool {
    forall|i: int|
        0 <= i < ls.len() ==> is_full_line(#[trigger] ls[i]) || (i == ls.len() - 1 && ls[i].len()
            > 0 && !ls[i].contains('\n'))
}

/// Lines that all have a line feed.
pub open spec fn are_full_lines(ls: Seq<Seq<char>>) -> bool {
    forall|i: int| 0 <= i < ls.len() ==> is_full_line(#[trigger] ls[i])
}

proof fn lemma_no_feed_push(cur: Seq<char>, c: char)
    requires
        !cur.contains('\n'),
        c != '\n',
    ensures
        !cur.push(c).contains('\n'),
{
    if cur.push(c).contains('\n') {
        let i = choose|i: int| 0 <= i < cur.push(c).len() && cur.push(c)[i] == '\n';
        if i < cur.len() {
            assert(cur[i] == '\n');
        }
    }
}

proof fn lemma_raw_lines_are_lines(s: Seq<char>, cur: Seq<char>)
    requires
        !cur.contains('\n'),
    ensures
        are_lines(raw_lines_from(s, cur)),
    decreases s.len(),
{
    let ls = raw_lines_from(s, cur);
    if s.len() == 0 {
        assert forall|i: int| 0 <= i < ls.len() implies is_full_line(#[trigger] ls[i]) || (i
            == ls.len() - 1 && ls[i].len() > 0 && !ls[i].contains('\n')) by {
            assert(ls[i] == cur);
        }
    } else if s[0] == '\n' {
        lemma_raw_lines_are_lines(s.skip(1), Seq::empty());
        let rest = raw_lines_from(s.skip(1), Seq::empty());
        assert(cur.push('\n').drop_last() =~= cur);
        assert forall|i: int| 0 <= i < ls.len() implies is_full_line(#[trigger] ls[i]) || (i
            == ls.len() - 1 && ls[i].len() > 0 && !ls[i].contains('\n')) by {
            if i == 0 {
                assert(ls[i] == cur.push('\n'));
            } else {
                assert(ls[i] == rest[i - 1]);
            }
        }
    } else {
        lemma_no_feed_push(cur, s[0]);
        lemma_raw_lines_are_lines(s.skip(1), cur.push(s[0]));
    }
}

proof fn lemma_concat_append(a: Seq<Seq<char>>, b: Seq<Seq<char>>)
    ensures
        concat(a + b) == concat(a) + concat(b),
    decreases b.len(),
{
    if b.len() == 0 {
        assert(a + b =~= a);
        assert(concat(a) + concat(b) =~= concat(a));
    } else {
        assert((a + b).drop_last() =~= a + b.drop_last());
        assert((a + b).last() == b.last());
        lemma_concat_append(a, b.drop_last());
        assert(concat(a + b) =~= concat(a) + concat(b));
    }
}

pub proof fn lemma_concat_one(x: Seq<char>)
    ensures
        concat(seq![x]) == x,
{
    assert(seq![x].drop_last() =~= Seq::<Seq<char>>::empty());
    assert(concat(seq![x].drop_last()) =~= Seq::<char>::empty());
    assert(concat(seq![x]) =~= x);
}

proof fn lemma_one_line(l: Seq<char>)
    requires
        is_full_line(l) || (l.len() > 0 && !l.contains('\n')),
    ensures
        raw_lines(l) == seq![l],
{
    if is_full_line(l) {
        lemma_one_raw_line(l.drop_last(), Seq::empty());
        assert(l.drop_last().push('\n') =~= l);
        assert(Seq::<char>::empty() + l =~= l);
    } else {
        lemma_unfinished_line(l, Seq::empty());
        assert(Seq::<char>::empty() + l =~= l);
    }
}

proof fn lemma_unfinished_line(l: Seq<char>, cur: Seq<char>)
    requires
        !l.contains('\n'),
    ensures
        raw_lines_from(l, cur) == piece(cur + l),
    decreases l.len(),
{
    if l.len() == 0 {
        assert(cur + l =~= cur);
    } else {
        assert(l.contains(l[0]));
        assert(!l.skip(1).contains('\n')) by {
            if l.skip(1).contains('\n') {
                let i = choose|i: int| 0 <= i < l.skip(1).len() && l.skip(1)[i] == '\n';
                assert(l[i + 1] == '\n');
            }
        }
        lemma_unfinished_line(l.skip(1), cur.push(l[0]));
        assert(cur.push(l[0]) + l.skip(1) =~= cur + l);
    }
}

/// Lines that are put together are found again.
proof fn lemma_lines_are_found(ls: Seq<Seq<char>>)
    requires
        are_lines(ls),
    ensures
        raw_lines(concat(ls)) == ls,
        ls.len() > 0 ==> concat(ls).len() > 0 && concat(ls).last() == ls.last().last(),
    decreases ls.len(),
{
    if ls.len() == 0 {
        assert(raw_lines(concat(ls)) =~= ls);
    } else {
        let head = ls.drop_last();
        let l = ls.last();
        assert(l == ls[ls.len() - 1]);
        assert forall|i: int| 0 <= i < head.len() implies is_full_line(#[trigger] head[i]) by {
            assert(head[i] == ls[i]);
        }
        lemma_lines_are_found(head);
        lemma_one_line(l);
        assert(concat(ls).last() == l.last());
        if head.len() == 0 {
            assert(concat(ls) =~= l);
            assert(raw_lines(concat(ls)) =~= ls);
        } else {
            assert(is_full_line(head[head.len() - 1]));
            lemma_raw_lines_append(concat(head), l, Seq::empty());
            assert(raw_lines(concat(ls)) =~= ls);
        }
    }
}

// ---------------------------------------------------------------------------
// Nothing is lost when the root configuration is taken apart
// ---------------------------------------------------------------------------

/// The text of a stretch.
pub open spec fn segment_text(s: SegmentView) -> Seq<char> {
    match s {
        SegmentView::Preserved(raw) => raw,
        SegmentView::HostBlock(b) => b.raw,
        SegmentView::Anchor(raw) => raw,
    }
}

/// The text of all stretches.
pub open spec fn whole_text(ss: Seq<SegmentView>) -> Seq<char>
    decreases ss.len(),
{
    if ss.len() == 0 {
        Seq::empty()
    } else {
        whole_text(ss.drop_last()) + segment_text(ss.last())
    }
}

proof fn lemma_flush(st: SplitView)
    ensures
        whole_text(st.flushed().segments) == whole_text(st.segments) + st.preserved,
        text_without_anchors(st.flushed().segments) == text_without_anchors(st.segments)
            + st.preserved,
        st.flushed().preserved.len() == 0,
        st.flushed().anchor_count == st.anchor_count,
        st.flushed().anchor_index == st.anchor_index,
{
    let f = st.flushed();
    if st.preserved.len() == 0 {
        assert(whole_text(st.segments) + st.preserved =~= whole_text(st.segments));
        assert(text_without_anchors(st.segments) + st.preserved =~= text_without_anchors(
            st.segments,
        ));
    } else {
        assert(f.segments.drop_last() =~= st.segments);
    }
}

proof fn lemma_with_anchor(st: SplitView, raw: Seq<char>)
    ensures
        whole_text(st.with_anchor(raw).segments) == whole_text(st.segments) + st.preserved + raw,
        text_without_anchors(st.with_anchor(raw).segments) == text_without_anchors(st.segments)
            + st.preserved,
        st.with_anchor(raw).preserved.len() == 0,
{
    lemma_flush(st);
    let f = st.flushed();
    let a = st.with_anchor(raw);
    assert(a.segments.drop_last() =~= f.segments);
    assert(text_without_anchors(f.segments) + Seq::<char>::empty() =~= text_without_anchors(
        f.segments,
    ));
}

proof fn lemma_with_block(st: SplitView, b: HostBlockView, preserved: Seq<char>)
    ensures
        whole_text(st.with_block(b, preserved).segments) == whole_text(st.segments) + st.preserved
            + b.raw,
        text_without_anchors(st.with_block(b, preserved).segments) == text_without_anchors(
            st.segments,
        ) + st.preserved + b.raw,
        st.with_block(b, preserved).preserved == preserved,
        st.with_block(b, preserved).anchor_count == st.anchor_count,
        st.with_block(b, preserved).anchor_index == st.anchor_index,
{
    lemma_flush(st);
    assert(st.with_block(b, preserved).segments.drop_last() =~= st.flushed().segments);
}

pub proof fn lemma_until_end_bound(ls: Seq<Seq<char>>)
    ensures
        until_end(ls) <= ls.len(),
        forall|i: int| 0 <= i < until_end(ls) ==> !ends_block(#[trigger] ls[i]),
    decreases ls.len(),
{
    if ls.len() > 0 && !ends_block(ls[0]) {
        lemma_until_end_bound(ls.skip(1));
        assert forall|i: int| 0 <= i < until_end(ls) implies !ends_block(#[trigger] ls[i]) by {
            if i > 0 {
                assert(ls[i] == ls.skip(1)[i - 1]);
            }
        }
    }
}

pub proof fn lemma_trivia_run_bound(ls: Seq<Seq<char>>)
    ensures
        trivia_run(ls) <= ls.len(),
    decreases ls.len(),
{
    if ls.len() > 0 && is_trivia(ls.last()) {
        lemma_trivia_run_bound(ls.drop_last());
    }
}

/// The lines of a `Host` block and the trivia behind it.
pub proof fn lemma_block_text(ls: Seq<Seq<char>>, body: int, k: int)
    requires
        0 <= body <= k <= ls.len(),
    ensures
        concat(ls.take(body)) + concat(ls.subrange(body, k)) == concat(ls.take(k)),
        concat(ls.take(k)) + concat(ls.skip(k)) == concat(ls),
{
    lemma_concat_append(ls.take(body), ls.subrange(body, k));
    assert(ls.take(body) + ls.subrange(body, k) =~= ls.take(k));
    lemma_concat_append(ls.take(k), ls.skip(k));
    assert(ls.take(k) + ls.skip(k) =~= ls);
}

#[verifier::spinoff_prover]
#[verifier::rlimit(40)]
proof fn lemma_split_loses_nothing(ls: Seq<Seq<char>>, n: int, st: SplitView)
    ensures
        split_lines_from(ls, n, st) matches Ok(end) ==> whole_text(end.segments) == whole_text(
            st.segments,
        ) + st.preserved + concat(ls),
    decreases ls.len(),
{
    let text = whole_text(st.segments) + st.preserved;
    if ls.len() == 0 {
        lemma_flush(st);
        assert(text + concat(ls) =~= text);
    } else {
        let line = trim(ls[0]);
        lemma_block_text(ls, 0, 1);
        assert(ls.take(1) =~= seq![ls[0]]);
        lemma_concat_one(ls[0]);
        if line == MANAGED_BLOCK_START@ {
            let k = until_close(ls);
            if k < ls.len() {
                let raw = concat(ls.take(k as int + 1));
                lemma_with_anchor(st, raw);
                lemma_split_loses_nothing(
                    ls.skip(k as int + 1),
                    n + k + 1,
                    st.with_anchor(raw),
                );
                lemma_block_text(ls, 0, k as int + 1);
                let next = st.with_anchor(raw);
                assert(whole_text(next.segments) + next.preserved + concat(ls.skip(k as int + 1))
                    =~= text + concat(ls));
            }
        } else if same_ignoring_case(line, MANAGED_INCLUDE_LINE@) {
            lemma_with_anchor(st, ls[0]);
            let next = st.with_anchor(ls[0]);
            lemma_split_loses_nothing(ls.skip(1), n + 1, next);
            assert(whole_text(next.segments) + next.preserved + concat(ls.skip(1)) =~= text
                + concat(ls));
        } else if is_directive(line, "Host"@) {
            let k = 1 + until_end(ls.skip(1));
            lemma_until_end_bound(ls.skip(1));
            let j = trivia_run(ls.subrange(1, k as int));
            lemma_trivia_run_bound(ls.subrange(1, k as int));
            let at_end = k >= ls.len();
            let body = if at_end {
                k as int
            } else {
                k - j
            };
            let block = HostBlockView {
                leading_trivia: trailing_trivia(st.preserved),
                raw: concat(ls.take(body)),
                start_line: n + 1,
                end_line: n + k - j,
            };
            let rest = concat(ls.subrange(body, k as int));
            lemma_with_block(st, block, rest);
            let next = st.with_block(block, rest);
            let after = if at_end {
                Seq::empty()
            } else {
                ls.skip(k as int)
            };
            assert(after =~= ls.skip(k as int));
            lemma_split_loses_nothing(after, n + k, next);
            lemma_block_text(ls, body, k as int);
            assert(whole_text(next.segments) + next.preserved + concat(after) =~= text + concat(
                ls,
            ));
        } else {
            let next = SplitView { preserved: st.preserved + ls[0], ..st };
            lemma_split_loses_nothing(ls.skip(1), n + 1, next);
            assert(whole_text(next.segments) + next.preserved + concat(ls.skip(1)) =~= text
                + concat(ls));
        }
    }
}

/// The stretches of the root configuration, one after the other, are the root configuration.
pub proof fn law_root_parts_lose_nothing(content: Seq<char>)
    requires
        root_parts(content) is Ok,
    ensures
        whole_text(root_parts(content)->Ok_0.segments) == content,
{
    let st = split_start();
    lemma_split_loses_nothing(raw_lines(content), 0, st);
    law_lines_lose_nothing(content);
    assert(whole_text(st.segments) + st.preserved + content =~= content);
}

// ---------------------------------------------------------------------------
// What is kept when an anchor is taken out
// ---------------------------------------------------------------------------

/// A line that starts an anchor.
pub open spec fn is_marker(l: Seq<char>) -> bool {
    trim(l) == MANAGED_BLOCK_START@ || same_ignoring_case(trim(l), MANAGED_INCLUDE_LINE@)
}

pub open spec fn no_markers(ls: Seq<Seq<char>>) -> bool {
    forall|i: int| 0 <= i < ls.len() ==> !is_marker(#[trigger] ls[i])
}

/// The lines that belong to no anchor.
pub open spec fn kept_lines(ls: Seq<Seq<char>>) -> Seq<Seq<char>>
    decreases ls.len(),
{
    if ls.len() == 0 {
        Seq::empty()
    } else if trim(ls[0]) == MANAGED_BLOCK_START@ {
        if until_close(ls) >= ls.len() {
            Seq::empty()
        } else {
            kept_lines(ls.skip(until_close(ls) as int + 1))
        }
    } else if same_ignoring_case(trim(ls[0]), MANAGED_INCLUDE_LINE@) {
        kept_lines(ls.skip(1))
    } else {
        seq![ls[0]] + kept_lines(ls.skip(1))
    }
}

/// Lines without a marker are all kept.
proof fn lemma_unmarked_lines_are_kept(ls: Seq<Seq<char>>, k: int)
    requires
        0 <= k <= ls.len(),
        forall|i: int| 0 <= i < k ==> !is_marker(#[trigger] ls[i]),
    ensures
        kept_lines(ls) == ls.take(k) + kept_lines(ls.skip(k)),
    decreases k,
{
    if k == 0 {
        assert(ls.take(0) + kept_lines(ls.skip(0)) =~= kept_lines(ls));
    } else {
        let rest = ls.skip(1);
        assert(!is_marker(ls[0]));
        assert forall|i: int| 0 <= i < k - 1 implies !is_marker(#[trigger] rest[i]) by {
            assert(rest[i] == ls[i + 1]);
        }
        lemma_unmarked_lines_are_kept(rest, k - 1);
        assert(rest.skip(k - 1) =~= ls.skip(k));
        assert(seq![ls[0]] + (rest.take(k - 1) + kept_lines(ls.skip(k))) =~= ls.take(k)
            + kept_lines(ls.skip(k)));
    }
}

#[verifier::spinoff_prover]
#[verifier::rlimit(40)]
proof fn lemma_split_keeps(ls: Seq<Seq<char>>, n: int, st: SplitView)
    ensures
        split_lines_from(ls, n, st) matches Ok(end) ==> text_without_anchors(end.segments)
            == text_without_anchors(st.segments) + st.preserved + concat(kept_lines(ls)),
    decreases ls.len(),
{
    let text = text_without_anchors(st.segments) + st.preserved;
    if ls.len() == 0 {
        lemma_flush(st);
        assert(text + concat(kept_lines(ls)) =~= text);
    } else {
        let line = trim(ls[0]);
        if line == MANAGED_BLOCK_START@ {
            let k = until_close(ls);
            if k < ls.len() {
                let raw = concat(ls.take(k as int + 1));
                lemma_with_anchor(st, raw);
                let next = st.with_anchor(raw);
                lemma_split_keeps(ls.skip(k as int + 1), n + k + 1, next);
                assert(text + next.preserved =~= text);
            }
        } else if same_ignoring_case(line, MANAGED_INCLUDE_LINE@) {
            lemma_with_anchor(st, ls[0]);
            let next = st.with_anchor(ls[0]);
            lemma_split_keeps(ls.skip(1), n + 1, next);
            assert(text + next.preserved =~= text);
        } else if is_directive(line, "Host"@) {
            let k = 1 + until_end(ls.skip(1));
            lemma_until_end_bound(ls.skip(1));
            let j = trivia_run(ls.subrange(1, k as int));
            lemma_trivia_run_bound(ls.subrange(1, k as int));
            let at_end = k >= ls.len();
            let body = if at_end {
                k as int
            } else {
                k - j
            };
            let block = HostBlockView {
                leading_trivia: trailing_trivia(st.preserved),
                raw: concat(ls.take(body)),
                start_line: n + 1,
                end_line: n + k - j,
            };
            let rest = concat(ls.subrange(body, k as int));
            lemma_with_block(st, block, rest);
            let next = st.with_block(block, rest);
            let after = if at_end {
                Seq::empty()
            } else {
                ls.skip(k as int)
            };
            assert(after =~= ls.skip(k as int));
            lemma_split_keeps(after, n + k, next);
            lemma_block_text(ls, body, k as int);
            assert forall|i: int| 0 <= i < k implies !is_marker(#[trigger] ls[i]) by {
                if i > 0 {
                    assert(ls[i] == ls.skip(1)[i - 1]);
                }
            }
            lemma_unmarked_lines_are_kept(ls, k as int);
            lemma_concat_append(ls.take(k as int), kept_lines(ls.skip(k as int)));
            assert(text + concat(ls.take(body)) + rest + concat(kept_lines(after)) =~= text
                + concat(kept_lines(ls)));
        } else {
            let next = SplitView { preserved: st.preserved + ls[0], ..st };
            lemma_split_keeps(ls.skip(1), n + 1, next);
            lemma_concat_append(seq![ls[0]], kept_lines(ls.skip(1)));
            lemma_concat_one(ls[0]);
            assert(text_without_anchors(st.segments) + (st.preserved + ls[0]) + concat(
                kept_lines(ls.skip(1)),
            ) =~= text + concat(kept_lines(ls)));
        }
    }
}

pub open spec fn split_start() -> SplitView {
    SplitView {
        segments: Seq::empty(),
        preserved: Seq::empty(),
        anchor_index: None,
        anchor_count: 0,
    }
}

/// Without its anchors the root configuration consists of its other lines.
proof fn lemma_kept_text(content: Seq<char>)
    requires
        root_parts(content) is Ok,
    ensures
        text_without_anchors(root_parts(content)->Ok_0.segments) == concat(
            kept_lines(raw_lines(content)),
        ),
{
    let st = split_start();
    lemma_split_keeps(raw_lines(content), 0, st);
    assert(text_without_anchors(st.segments) + st.preserved + concat(
        kept_lines(raw_lines(content)),
    ) =~= concat(kept_lines(raw_lines(content))));
}

proof fn lemma_kept_lines_have_no_marker(ls: Seq<Seq<char>>)
    ensures
        no_markers(kept_lines(ls)),
    decreases ls.len(),
{
    if ls.len() > 0 {
        if trim(ls[0]) == MANAGED_BLOCK_START@ {
            if until_close(ls) < ls.len() {
                lemma_kept_lines_have_no_marker(ls.skip(until_close(ls) as int + 1));
            }
        } else if same_ignoring_case(trim(ls[0]), MANAGED_INCLUDE_LINE@) {
            lemma_kept_lines_have_no_marker(ls.skip(1));
        } else {
            lemma_kept_lines_have_no_marker(ls.skip(1));
            let rest = kept_lines(ls.skip(1));
            let all = kept_lines(ls);
            assert forall|i: int| 0 <= i < all.len() implies !is_marker(#[trigger] all[i]) by {
                if i == 0 {
                    assert(all[i] == ls[0]);
                } else {
                    assert(all[i] == rest[i - 1]);
                }
            }
        }
    }
}

proof fn lemma_are_lines_skip(ls: Seq<Seq<char>>, k: int)
    requires
        are_lines(ls),
        0 <= k <= ls.len(),
    ensures
        are_lines(ls.skip(k)),
{
    let t = ls.skip(k);
    assert forall|i: int| 0 <= i < t.len() implies is_full_line(#[trigger] t[i]) || (i == t.len()
        - 1 && t[i].len() > 0 && !t[i].contains('\n')) by {
        assert(t[i] == ls[i + k]);
    }
}

proof fn lemma_kept_lines_are_lines(ls: Seq<Seq<char>>)
    requires
        are_lines(ls),
    ensures
        are_lines(kept_lines(ls)),
        kept_lines(ls).len() <= ls.len(),
    decreases ls.len(),
{
    if ls.len() > 0 {
        lemma_are_lines_skip(ls, 1);
        if trim(ls[0]) == MANAGED_BLOCK_START@ {
            let k = until_close(ls) as int + 1;
            if k <= ls.len() {
                lemma_are_lines_skip(ls, k);
                lemma_kept_lines_are_lines(ls.skip(k));
            }
        } else if same_ignoring_case(trim(ls[0]), MANAGED_INCLUDE_LINE@) {
            lemma_kept_lines_are_lines(ls.skip(1));
        } else {
            lemma_kept_lines_are_lines(ls.skip(1));
            let rest = kept_lines(ls.skip(1));
            let all = kept_lines(ls);
            assert(is_full_line(ls[0]) || ls.len() == 1);
            assert forall|i: int| 0 <= i < all.len() implies is_full_line(#[trigger] all[i]) || (i
                == all.len() - 1 && all[i].len() > 0 && !all[i].contains('\n')) by {
                if i == 0 {
                    assert(all[i] == ls[0]);
                } else {
                    assert(all[i] == rest[i - 1]);
                }
            }
        }
    }
}

// ---------------------------------------------------------------------------
// The anchor in its place
// ---------------------------------------------------------------------------

proof fn lemma_until_conditional_bound(ls: Seq<Seq<char>>)
    ensures
        until_conditional(ls) <= ls.len(),
        forall|i: int| 0 <= i < until_conditional(ls) ==> !is_conditional(#[trigger] ls[i]),
        until_conditional(ls) < ls.len() ==> is_conditional(ls[until_conditional(ls) as int]),
    decreases ls.len(),
{
    if ls.len() > 0 && !is_conditional(ls[0]) {
        lemma_until_conditional_bound(ls.skip(1));
        let n = until_conditional(ls.skip(1)) as int;
        assert forall|i: int| 0 <= i < until_conditional(ls) implies !is_conditional(
            #[trigger] ls[i],
        ) by {
            if i > 0 {
                assert(ls[i] == ls.skip(1)[i - 1]);
            }
        }
        if n < ls.skip(1).len() {
            assert(ls.skip(1)[n] == ls[n + 1]);
        }
    }
}

proof fn lemma_anchor_line_bound(ls: Seq<Seq<char>>)
    ensures
        0 <= anchor_line(ls) <= ls.len(),
        forall|i: int| 0 <= i < anchor_line(ls) ==> !is_conditional(#[trigger] ls[i]),
{
    lemma_until_conditional_bound(ls);
    lemma_trivia_run_bound(ls.take(until_conditional(ls) as int));
}

/// What stands before the place of the anchor.
pub open spec fn text_before(rest: Seq<char>) -> Seq<char> {
    concat(raw_lines(rest).take(anchor_line(raw_lines(rest))))
}

/// What stands behind the place of the anchor.
pub open spec fn text_behind(rest: Seq<char>) -> Seq<char> {
    concat(raw_lines(rest).skip(anchor_line(raw_lines(rest))))
}

/// The line end that the last line lacks, where the anchor comes behind it.
pub open spec fn missing_end(rest: Seq<char>, newline: Seq<char>) -> Seq<char> {
    if text_before(rest).len() == 0 || ends_line(text_before(rest)) {
        Seq::empty()
    } else {
        newline
    }
}

proof fn lemma_before_and_behind(rest: Seq<char>)
    ensures
        text_before(rest) + text_behind(rest) == rest,
        0 <= anchor_line(raw_lines(rest)) <= raw_lines(rest).len(),
        text_before(rest).len() > 0 && !ends_line(text_before(rest)) ==> anchor_line(
            raw_lines(rest),
        ) == raw_lines(rest).len() && text_behind(rest).len() == 0 && text_before(rest) == rest,
        anchor_line(raw_lines(rest)) < raw_lines(rest).len() ==> are_full_lines(
            raw_lines(rest).take(anchor_line(raw_lines(rest))),
        ),
{
    let ls = raw_lines(rest);
    let k = anchor_line(ls);
    lemma_anchor_line_bound(ls);
    lemma_concat_append(ls.take(k), ls.skip(k));
    assert(ls.take(k) + ls.skip(k) =~= ls);
    law_lines_lose_nothing(rest);
    lemma_raw_lines_are_lines(rest, Seq::empty());
    let head = ls.take(k);
    if k < ls.len() {
        assert forall|i: int| 0 <= i < head.len() implies is_full_line(#[trigger] head[i]) by {
            assert(head[i] == ls[i]);
        }
        lemma_lines_are_found(head);
        if k > 0 {
            assert(is_full_line(head[k - 1]));
        } else {
            assert(head =~= Seq::<Seq<char>>::empty());
        }
    } else {
        assert(ls.skip(k) =~= Seq::<Seq<char>>::empty());
        assert(text_before(rest) + text_behind(rest) =~= text_before(rest));
    }
}

/// The root configuration is changed in one place only: apart from an anchor that stood
/// elsewhere, all its text stands before and behind the anchor as it did. Where the anchor
/// comes behind a last line without its end, the line gets one. A configuration of white
/// space only is replaced.
pub proof fn law_anchoring_keeps_the_text(content: Seq<char>, newline: Seq<char>)
    requires
        anchored(content, newline) is Ok,
    ensures
        ({
            let rest = text_without_anchors(root_parts(content)->Ok_0.segments);
            let root = (anchored(content, newline)->Ok_0).0;
            if blank(rest) {
                root == anchor_text(newline)
            } else {
                &&& text_before(rest) + text_behind(rest) == rest
                &&& root == text_before(rest) + missing_end(rest, newline) + anchor_text(newline)
                    + text_behind(rest)
                &&& missing_end(rest, newline).len() > 0 ==> text_behind(rest).len() == 0
            }
        }),
{
    lemma_before_and_behind(text_without_anchors(root_parts(content)->Ok_0.segments));
}

// ---------------------------------------------------------------------------
// Taking an anchored configuration apart
// ---------------------------------------------------------------------------

/// The lines of the anchor.
pub open spec fn anchor_lines(newline: Seq<char>) -> Seq<Seq<char>> {
    seq![
        MANAGED_BLOCK_START@ + newline,
        MANAGED_INCLUDE_LINE@ + newline,
        MANAGED_BLOCK_END@ + newline,
    ]
}

proof fn lemma_trim_with_end(s: Seq<char>, newline: Seq<char>)
    requires
        is_newline(newline),
    ensures
        trim(s + newline) == trim(s),
    decreases s.len(),
{
    lemma_trim_end_of(s, newline);
    if s.len() == 0 {
        assert(s + newline =~= newline);
        lemma_blank_tail(newline);
    } else if is_ws(s[0]) {
        assert((s + newline).skip(1) =~= s.skip(1) + newline);
        lemma_trim_with_end(s.skip(1), newline);
    }
}

proof fn lemma_blank_tail(newline: Seq<char>)
    requires
        is_newline(newline),
    ensures
        trim(newline) == Seq::<char>::empty(),
        newline.len() > 0,
        newline.last() == '\n',
        is_ws(newline[0]),
{
    assert(trim_start(Seq::<char>::empty()) == Seq::<char>::empty());
    if newline == seq!['\n'] {
        assert(newline[0] == '\n');
        assert(newline.skip(1) =~= Seq::<char>::empty());
        assert(trim_start(newline) =~= Seq::<char>::empty());
    } else {
        assert(newline[0] == '\r');
        assert(newline.skip(1) =~= seq!['\n']);
        assert(newline.skip(1)[0] == '\n');
        assert(newline.skip(1).skip(1) =~= Seq::<char>::empty());
        assert(trim_start(newline.skip(1)) =~= Seq::<char>::empty());
        assert(trim_start(newline) =~= Seq::<char>::empty());
    }
}

proof fn lemma_trim_end_of(s: Seq<char>, newline: Seq<char>)
    requires
        is_newline(newline),
    ensures
        trim_end(s + newline) == trim_end(s),
{
    let t = s + newline;
    if newline == seq!['\n'] {
        assert(t.drop_last() =~= s);
        assert(t.last() == '\n');
    } else {
        assert(t.last() == '\n');
        assert(t.drop_last().last() == '\r');
        assert(t.drop_last().drop_last() =~= s);
        assert(trim_end(t.drop_last()) == trim_end(s));
    }
}

proof fn lemma_anchor_text_lines(newline: Seq<char>)
    requires
        is_newline(newline),
    ensures
        concat(anchor_lines(newline)) == anchor_text(newline),
        are_full_lines(anchor_lines(newline)),
        trim(anchor_lines(newline)[0]) == MANAGED_BLOCK_START@,
        trim(anchor_lines(newline)[1]) == MANAGED_INCLUDE_LINE@,
        trim(anchor_lines(newline)[2]) == MANAGED_BLOCK_END@,
        MANAGED_BLOCK_START@ != MANAGED_BLOCK_END@,
        MANAGED_INCLUDE_LINE@ != MANAGED_BLOCK_END@,
        forall|i: int|
            0 <= i < 3 ==> (#[trigger] anchor_lines(newline)[i]).len() > 2 && anchor_lines(
                newline,
            )[i][anchor_lines(newline)[i].len() - newline.len() - 1] != '\r',
{
    let a = anchor_lines(newline);
    reveal_strlit("# >>> sshcfg managed include >>>");
    reveal_strlit("# <<< sshcfg managed include <<<");
    reveal_strlit("Include ~/.ssh/config.d/*");
    assert(MANAGED_BLOCK_START@[2] == '>');
    assert(MANAGED_BLOCK_END@[2] == '<');
    assert(MANAGED_INCLUDE_LINE@[2] == 'c');
    lemma_trim_with_end(MANAGED_BLOCK_START@, newline);
    lemma_trim_with_end(MANAGED_INCLUDE_LINE@, newline);
    lemma_trim_with_end(MANAGED_BLOCK_END@, newline);
    law_trimmed_text_stays(MANAGED_BLOCK_START@);
    law_trimmed_text_stays(MANAGED_INCLUDE_LINE@);
    law_trimmed_text_stays(MANAGED_BLOCK_END@);
    assert(a.drop_last().drop_last() =~= seq![a[0]]);
    lemma_concat_one(a[0]);
    assert(a.drop_last().last() == a[1]);
    assert(concat(a.drop_last()) == a[0] + a[1]);
    assert(concat(a) == a[0] + a[1] + a[2]);
    assert(concat(a) =~= anchor_text(newline));
    lemma_full_line(MANAGED_BLOCK_START@, newline);
    lemma_full_line(MANAGED_INCLUDE_LINE@, newline);
    lemma_full_line(MANAGED_BLOCK_END@, newline);
}

proof fn lemma_full_line(l: Seq<char>, newline: Seq<char>)
    requires
        is_newline(newline),
        !l.contains('\n'),
    ensures
        is_full_line(l + newline),
{
    let t = l + newline;
    if newline == seq!['\n'] {
        assert(t.drop_last() =~= l);
    } else {
        assert(t.drop_last() =~= l.push('\r'));
        lemma_no_feed_push(l, '\r');
    }
}

/// Lines without a marker are taken apart without a refusal and without an anchor.
proof fn lemma_unmarked_split(ls: Seq<Seq<char>>, n: int, st: SplitView)
    requires
        no_markers(ls),
    ensures
        split_lines_from(ls, n, st) is Ok,
        (split_lines_from(ls, n, st)->Ok_0).anchor_count == st.anchor_count,
        (split_lines_from(ls, n, st)->Ok_0).anchor_index == st.anchor_index,
    decreases ls.len(),
{
    if ls.len() == 0 {
        lemma_flush(st);
    } else {
        assert(!is_marker(ls[0]));
        lemma_unmarked_skip(ls, 1);
        if is_directive(trim(ls[0]), "Host"@) {
            let k = 1 + until_end(ls.skip(1));
            lemma_until_end_bound(ls.skip(1));
            let j = trivia_run(ls.subrange(1, k as int));
            let at_end = k >= ls.len();
            let body = if at_end {
                k as int
            } else {
                k - j
            };
            let block = HostBlockView {
                leading_trivia: trailing_trivia(st.preserved),
                raw: concat(ls.take(body)),
                start_line: n + 1,
                end_line: n + k - j,
            };
            let rest = concat(ls.subrange(body, k as int));
            lemma_with_block(st, block, rest);
            let after = if at_end {
                Seq::empty()
            } else {
                ls.skip(k as int)
            };
            assert(after =~= ls.skip(k as int));
            lemma_unmarked_skip(ls, k as int);
            lemma_unmarked_split(after, n + k, st.with_block(block, rest));
        } else {
            lemma_unmarked_split(
                ls.skip(1),
                n + 1,
                SplitView { preserved: st.preserved + ls[0], ..st },
            );
        }
    }
}

proof fn lemma_unmarked_skip(ls: Seq<Seq<char>>, k: int)
    requires
        no_markers(ls),
        0 <= k <= ls.len(),
    ensures
        no_markers(ls.skip(k)),
        no_markers(ls.take(k)),
        kept_lines(ls) == ls,
{
    assert forall|i: int| 0 <= i < ls.skip(k).len() implies !is_marker(
        #[trigger] ls.skip(k)[i],
    ) by {
        assert(ls.skip(k)[i] == ls[i + k]);
    }
    assert forall|i: int| 0 <= i < ls.take(k).len() implies !is_marker(
        #[trigger] ls.take(k)[i],
    ) by {
        assert(ls.take(k)[i] == ls[i]);
    }
    lemma_unmarked_lines_are_kept(ls, ls.len() as int);
    assert(ls.skip(ls.len() as int) =~= Seq::<Seq<char>>::empty());
    assert(ls.take(ls.len() as int) + Seq::<Seq<char>>::empty() =~= ls);
}

/// Lines before the first block are collected.
#[verifier::spinoff_prover]
#[verifier::rlimit(40)]
proof fn lemma_plain_lines_are_collected(
    pre: Seq<Seq<char>>,
    tail: Seq<Seq<char>>,
    n: int,
    st: SplitView,
)
    requires
        no_markers(pre),
        forall|i: int| 0 <= i < pre.len() ==> !is_conditional(#[trigger] pre[i]),
    ensures
        split_lines_from(pre + tail, n, st) == split_lines_from(
            tail,
            n + pre.len(),
            SplitView { preserved: st.preserved + concat(pre), ..st },
        ),
    decreases pre.len(),
{
    let ls = pre + tail;
    if pre.len() == 0 {
        assert(ls =~= tail);
        assert(st.preserved + concat(pre) =~= st.preserved);
    } else {
        assert(ls[0] == pre[0]);
        assert(!is_marker(pre[0]));
        assert(!is_conditional(pre[0]));
        assert(ls.skip(1) =~= pre.skip(1) + tail);
        lemma_unmarked_skip(pre, 1);
        assert forall|i: int| 0 <= i < pre.skip(1).len() implies !is_conditional(
            #[trigger] pre.skip(1)[i],
        ) by {
            assert(pre.skip(1)[i] == pre[i + 1]);
        }
        let next = SplitView { preserved: st.preserved + ls[0], ..st };
        assert(split_lines_from(ls, n, st) == split_lines_from(ls.skip(1), n + 1, next)) by {
            assert(trim(ls[0]) != MANAGED_BLOCK_START@);
            assert(!same_ignoring_case(trim(ls[0]), MANAGED_INCLUDE_LINE@));
            assert(!is_directive(trim(ls[0]), "Host"@));
        }
        lemma_plain_lines_are_collected(pre.skip(1), tail, n + 1, next);
        lemma_concat_append(seq![pre[0]], pre.skip(1));
        assert(seq![pre[0]] + pre.skip(1) =~= pre);
        lemma_concat_one(pre[0]);
        assert(st.preserved + ls[0] + concat(pre.skip(1)) =~= st.preserved + concat(pre));
    }
}

/// An anchor among lines without a marker is the one anchor, and the rest are the lines.
#[verifier::spinoff_prover]
#[verifier::rlimit(40)]
proof fn lemma_anchored_lines_are_taken_apart(
    pre: Seq<Seq<char>>,
    post: Seq<Seq<char>>,
    newline: Seq<char>,
)
    requires
        is_newline(newline),
        no_markers(pre),
        no_markers(post),
        forall|i: int| 0 <= i < pre.len() ==> !is_conditional(#[trigger] pre[i]),
    ensures
        ({
            let r = split_lines_from(pre + anchor_lines(newline) + post, 0, split_start());
            &&& r is Ok
            &&& r->Ok_0.anchor_count == 1
            &&& r->Ok_0.anchor_index is Some
            &&& text_without_anchors(r->Ok_0.segments) == concat(pre) + concat(post)
        }),
{
    let a = anchor_lines(newline);
    let st = split_start();
    let tail = a + post;
    assert(pre + a + post =~= pre + tail);
    lemma_plain_lines_are_collected(pre, tail, 0, st);
    let collected = SplitView { preserved: st.preserved + concat(pre), ..st };
    assert(st.preserved + concat(pre) =~= concat(pre));
    lemma_anchor_text_lines(newline);
    assert(tail[0] == a[0]);
    assert(tail.skip(1)[0] == a[1]);
    assert(tail.skip(1).skip(1)[0] == a[2]);
    assert(until_close(tail.skip(1).skip(1)) == 0);
    assert(until_close(tail.skip(1)) == 1);
    assert(until_close(tail) == 2);
    assert(tail.skip(3) =~= post);
    let raw = concat(tail.take(3));
    let next = collected.with_anchor(raw);
    lemma_with_anchor(collected, raw);
    lemma_flush(collected);
    lemma_unmarked_split(post, pre.len() as int + 3, next);
    lemma_split_keeps(post, pre.len() as int + 3, next);
    lemma_unmarked_skip(post, 0);
    assert(text_without_anchors(st.segments) + concat(pre) + next.preserved + concat(post)
        =~= concat(pre) + concat(post));
}

// ---------------------------------------------------------------------------
// Anchoring twice
// ---------------------------------------------------------------------------

proof fn lemma_blank(s: Seq<char>)
    ensures
        blank(s) == (forall|i: int| 0 <= i < s.len() ==> is_ws(#[trigger] s[i])),
{
    lemma_blank_start(s);
    if trim_start(s).len() > 0 {
        law_trim_once(s);
        lemma_trim_start_first(s);
        lemma_trim_end_first(trim_start(s));
    }
}

proof fn lemma_trim_start_first(s: Seq<char>)
    ensures
        trim_start(s).len() > 0 ==> !is_ws(trim_start(s)[0]),
    decreases s.len(),
{
    if s.len() > 0 && is_ws(s[0]) {
        lemma_trim_start_first(s.skip(1));
    }
}

proof fn lemma_trim_end_first(s: Seq<char>)
    requires
        s.len() > 0,
        !is_ws(s[0]),
    ensures
        trim_end(s).len() > 0,
    decreases s.len(),
{
    if is_ws(s.last()) {
        assert(s.len() > 1);
        assert(s.drop_last()[0] == s[0]);
        lemma_trim_end_first(s.drop_last());
    }
}

proof fn lemma_blank_start(s: Seq<char>)
    ensures
        (trim_start(s).len() == 0) == (forall|i: int| 0 <= i < s.len() ==> is_ws(#[trigger] s[i])),
    decreases s.len(),
{
    if s.len() > 0 {
        if is_ws(s[0]) {
            lemma_blank_start(s.skip(1));
            let t = s.skip(1);
            if trim_start(s).len() == 0 {
                assert forall|i: int| 0 <= i < s.len() implies is_ws(#[trigger] s[i]) by {
                    if i > 0 {
                        assert(s[i] == t[i - 1]);
                    }
                }
            } else {
                let i = choose|i: int| 0 <= i < t.len() && !is_ws(#[trigger] t[i]);
                assert(!is_ws(s[i + 1]));
            }
        } else {
            assert(!is_ws(s[0]));
        }
    }
}

proof fn lemma_full_lines_append(a: Seq<Seq<char>>, b: Seq<Seq<char>>)
    requires
        are_full_lines(a),
        are_lines(b),
    ensures
        are_lines(a + b),
{
    let t = a + b;
    assert forall|i: int| 0 <= i < t.len() implies is_full_line(#[trigger] t[i]) || (i == t.len()
        - 1 && t[i].len() > 0 && !t[i].contains('\n')) by {
        if i < a.len() {
            assert(t[i] == a[i]);
        } else {
            assert(t[i] == b[i - a.len()]);
        }
    }
}

/// The lines that stand before and behind the anchor once it is in its place.
pub open spec fn lines_before(rest: Seq<char>, newline: Seq<char>) -> Seq<Seq<char>> {
    let ls = raw_lines(rest);
    let head = ls.take(anchor_line(ls));
    if missing_end(rest, newline).len() == 0 {
        head
    } else {
        head.drop_last().push(head.last() + newline)
    }
}

pub open spec fn lines_behind(rest: Seq<char>) -> Seq<Seq<char>> {
    raw_lines(rest).skip(anchor_line(raw_lines(rest)))
}

/// A configuration without a marker whose anchor can be put on a line of its own.
pub open spec fn can_be_anchored(rest: Seq<char>) -> bool {
    &&& no_markers(raw_lines(rest))
    &&& !blank(rest)
    &&& anchor_line(raw_lines(rest)) == raw_lines(rest).len() ==> rest.last() != '\r'
}

/// What the lines before the anchor are.
proof fn lemma_lines_before(rest: Seq<char>, newline: Seq<char>)
    requires
        is_newline(newline),
        can_be_anchored(rest),
    ensures
        ({
            let pre = lines_before(rest, newline);
            &&& are_full_lines(pre)
            &&& no_markers(pre)
            &&& forall|i: int| 0 <= i < pre.len() ==> !is_conditional(#[trigger] pre[i])
            &&& concat(pre) == text_before(rest) + missing_end(rest, newline)
            &&& are_lines(lines_behind(rest))
            &&& no_markers(lines_behind(rest))
            &&& concat(lines_behind(rest)) == text_behind(rest)
            &&& anchor_line(pre + lines_behind(rest)) == pre.len()
            &&& !blank(concat(pre + lines_behind(rest)))
        }),
{
    let ls = raw_lines(rest);
    let k = anchor_line(ls);
    let head = ls.take(k);
    let behind = lines_behind(rest);
    let pre = lines_before(rest, newline);
    lemma_before_and_behind(rest);
    lemma_anchor_line_bound(ls);
    lemma_raw_lines_are_lines(rest, Seq::empty());
    lemma_are_lines_skip(ls, k);
    lemma_unmarked_skip(ls, k);
    lemma_until_conditional_bound(ls);
    lemma_blank(rest);
    let w = choose|i: int| 0 <= i < rest.len() && !is_ws(#[trigger] rest[i]);
    assert forall|i: int| 0 <= i < head.len() implies !is_conditional(#[trigger] head[i]) by {
        assert(head[i] == ls[i]);
    }
    law_lines_lose_nothing(rest);
    if missing_end(rest, newline).len() == 0 {
        assert(text_before(rest) + missing_end(rest, newline) =~= text_before(rest));
        assert(pre + behind =~= ls);
        if k == ls.len() {
            // The last line is whole, or there is none.
            assert(head =~= ls);
            lemma_lines_are_found(ls);
            if k > 0 {
                assert(rest.last() == ls.last().last());
                assert(text_before(rest) == rest);
                assert(ends_line(rest));
                assert(rest.last() == '\n');
                assert(is_full_line(ls[k - 1]));
            }
            assert forall|i: int| 0 <= i < head.len() implies is_full_line(#[trigger] head[i]) by {
                assert(head[i] == ls[i]);
            }
        }
    } else {
        assert(k == ls.len());
        assert(head =~= ls);
        assert(behind =~= Seq::<Seq<char>>::empty());
        assert(k > 0) by {
            if k == 0 {
                assert(head =~= Seq::<Seq<char>>::empty());
            }
        }
        let l = ls[k - 1];
        lemma_lines_are_found(ls);
        assert(rest.last() == l.last());
        assert(!is_full_line(l));
        lemma_full_line(l, newline);
        lemma_trim_with_end(l, newline);
        assert forall|i: int| 0 <= i < pre.len() implies is_full_line(#[trigger] pre[i])
            && !is_marker(pre[i]) && !is_conditional(pre[i]) by {
            if i < k - 1 {
                assert(pre[i] == ls[i]);
            } else {
                assert(pre[i] == l + newline);
                assert(!is_marker(l));
                assert(!is_conditional(l));
            }
        }
        assert(pre.drop_last() =~= ls.drop_last());
        assert(concat(pre) =~= concat(ls) + newline);
        assert(pre + behind =~= pre);
        lemma_no_conditional(pre);
        lemma_blank(concat(pre));
        assert(concat(pre)[w] == rest[w]);
    }
}

proof fn lemma_no_conditional(ls: Seq<Seq<char>>)
    requires
        forall|i: int| 0 <= i < ls.len() ==> !is_conditional(#[trigger] ls[i]),
    ensures
        until_conditional(ls) == ls.len(),
        anchor_line(ls) == ls.len(),
{
    lemma_until_conditional_bound(ls);
}

/// An anchored configuration is taken apart into what it was made of.
#[verifier::spinoff_prover]
#[verifier::rlimit(40)]
proof fn lemma_anchored_is_stable(rest: Seq<char>, newline: Seq<char>)
    requires
        is_newline(newline),
        can_be_anchored(rest),
    ensures
        ({
            let root = with_anchor_placed(rest, newline);
            &&& anchored(root, newline) == Ok::<(Seq<char>, bool), Seq<char>>((root, true))
            &&& raw_lines(root) == lines_before(rest, newline) + anchor_lines(newline)
                + lines_behind(rest)
            &&& root_parts(root) is Ok
            &&& root_parts(root)->Ok_0.anchor_count == 1
        }),
{
    let pre = lines_before(rest, newline);
    let post = lines_behind(rest);
    let a = anchor_lines(newline);
    let root = with_anchor_placed(rest, newline);
    lemma_lines_before(rest, newline);
    lemma_anchor_text_lines(newline);
    lemma_full_lines_append(a, post);
    lemma_full_lines_append(pre, a + post);
    assert(pre + (a + post) =~= pre + a + post);
    lemma_concat_append(pre, a);
    lemma_concat_append(pre + a, post);
    lemma_lines_are_found(pre + a + post);
    assert(root =~= concat(pre + a + post));
    lemma_anchored_lines_are_taken_apart(pre, post, newline);
    // Placing the anchor again.
    let again = concat(pre) + concat(post);
    lemma_concat_append(pre, post);
    lemma_full_lines_append(pre, post);
    lemma_lines_are_found(pre + post);
    assert(raw_lines(again) == pre + post);
    assert((pre + post).take(pre.len() as int) =~= pre);
    assert((pre + post).skip(pre.len() as int) =~= post);
    if pre.len() > 0 {
        lemma_lines_are_found(pre);
        assert(is_full_line(pre[pre.len() - 1]));
    } else {
        assert(pre =~= Seq::<Seq<char>>::empty());
    }
    assert(concat(pre) + Seq::<char>::empty() =~= concat(pre));
    assert(with_anchor_placed(again, newline) =~= root);
}

/// A configuration whose anchor comes on a line of its own.
pub open spec fn can_be_set_up(content: Seq<char>, newline: Seq<char>) -> bool {
    &&& anchored(content, newline) is Ok
    &&& ({
        let rest = text_without_anchors(root_parts(content)->Ok_0.segments);
        !blank(rest) && anchor_line(raw_lines(rest)) == raw_lines(rest).len() ==> rest.last()
            != '\r'
    })
}

/// Anchoring a root configuration that has been anchored changes nothing: there is one
/// anchor, and it is in its place. Left out is a configuration without a block whose last
/// character is a carriage return: the anchor would not come on a line of its own.
pub proof fn law_anchoring_twice_changes_nothing(content: Seq<char>, newline: Seq<char>)
    requires
        is_newline(newline),
        can_be_set_up(content, newline),
    ensures
        ({
            let root = (anchored(content, newline)->Ok_0).0;
            &&& anchored(root, newline) == Ok::<(Seq<char>, bool), Seq<char>>((root, true))
            &&& root_parts(root)->Ok_0.anchor_count == 1
        }),
{
    let rest = text_without_anchors(root_parts(content)->Ok_0.segments);
    lemma_kept_text(content);
    let kept = kept_lines(raw_lines(content));
    lemma_raw_lines_are_lines(content, Seq::empty());
    lemma_kept_lines_are_lines(raw_lines(content));
    lemma_kept_lines_have_no_marker(raw_lines(content));
    lemma_lines_are_found(kept);
    assert(raw_lines(rest) == kept);
    if blank(rest) {
        let a = anchor_lines(newline);
        let none = Seq::<Seq<char>>::empty();
        lemma_anchor_text_lines(newline);
        lemma_full_lines_append(a, none);
        assert(a + none =~= a);
        lemma_lines_are_found(a);
        lemma_anchored_lines_are_taken_apart(none, none, newline);
        assert(none + a + none =~= a);
        assert(concat(none) + concat(none) =~= Seq::<char>::empty());
        assert(trim_start(Seq::<char>::empty()) == Seq::<char>::empty());
    } else {
        lemma_anchored_is_stable(rest, newline);
    }
}

// ---------------------------------------------------------------------------
// Setting up
// ---------------------------------------------------------------------------

/// The lines of a configuration that has been anchored.
proof fn lemma_anchored_lines(content: Seq<char>, newline: Seq<char>)
    requires
        is_newline(newline),
        can_be_set_up(content, newline),
    ensures
        ({
            let rest = text_without_anchors(root_parts(content)->Ok_0.segments);
            let root = (anchored(content, newline)->Ok_0).0;
            let pre = if blank(rest) {
                Seq::empty()
            } else {
                lines_before(rest, newline)
            };
            let post = if blank(rest) {
                Seq::empty()
            } else {
                lines_behind(rest)
            };
            &&& raw_lines(root) == pre + anchor_lines(newline) + post
            &&& root == concat(pre) + anchor_text(newline) + concat(post)
            &&& raw_lines(rest) == kept_lines(raw_lines(content))
        }),
{
    let rest = text_without_anchors(root_parts(content)->Ok_0.segments);
    let root = (anchored(content, newline)->Ok_0).0;
    let a = anchor_lines(newline);
    lemma_kept_text(content);
    lemma_raw_lines_are_lines(content, Seq::empty());
    lemma_kept_lines_are_lines(raw_lines(content));
    lemma_kept_lines_have_no_marker(raw_lines(content));
    lemma_lines_are_found(kept_lines(raw_lines(content)));
    lemma_anchor_text_lines(newline);
    if blank(rest) {
        let none = Seq::<Seq<char>>::empty();
        lemma_full_lines_append(a, none);
        assert(a + none =~= a);
        lemma_lines_are_found(a);
        assert(none + a + none =~= a);
        assert(concat(none) + anchor_text(newline) + concat(none) =~= root);
    } else {
        lemma_anchored_is_stable(rest, newline);
        lemma_lines_before(rest, newline);
    }
}

/// A configuration that has been anchored takes the managed entries in, once: the check of the
/// files finds nothing amiss in it.
pub proof fn law_anchored_root_is_valid(content: Seq<char>, newline: Seq<char>, path: Seq<char>)
    requires
        is_newline(newline),
        can_be_set_up(content, newline),
    ensures
        ({
            let root = (anchored(content, newline)->Ok_0).0;
            &&& has_block(root)
            &&& names_managed_entries(root)
            &&& root_issues(path, Some(root)).len() == 0
        }),
{
    lemma_anchored_root_has_block(content, newline);
    law_anchoring_twice_changes_nothing(content, newline);
}

#[verifier::spinoff_prover]
#[verifier::rlimit(40)]
proof fn lemma_anchored_root_has_block(content: Seq<char>, newline: Seq<char>)
    requires
        is_newline(newline),
        can_be_set_up(content, newline),
    ensures
        has_block((anchored(content, newline)->Ok_0).0),
        names_managed_entries((anchored(content, newline)->Ok_0).0),
{
    lemma_anchored_lines(content, newline);
    lemma_anchor_text_lines(newline);
    let rest = text_without_anchors(root_parts(content)->Ok_0.segments);
    let root = (anchored(content, newline)->Ok_0).0;
    let pre = if blank(rest) {
        Seq::empty()
    } else {
        lines_before(rest, newline)
    };
    let post = if blank(rest) {
        Seq::empty()
    } else {
        lines_behind(rest)
    };
    let a = anchor_lines(newline);
    let all = raw_lines(root);
    let i = pre.len() as int + 1;
    assert(all[i] == a[1]);
    reveal_strlit("Include ~/.ssh/config.d/*");
    lemma_line_end(MANAGED_INCLUDE_LINE@, newline);
    law_trimmed_text_stays(MANAGED_INCLUDE_LINE@);
    assert(lines(root)[i] == MANAGED_INCLUDE_LINE@);
    assert(same_ignoring_case(trim(lines(root)[i]), MANAGED_INCLUDE_LINE@));
    let n = concat(pre).len() as int;
    assert(root.skip(n) =~= anchor_text(newline) + concat(post));
    assert(root.skip(n).take(MANAGED_BLOCK_START@.len() as int) =~= MANAGED_BLOCK_START@);
    assert(starts_with(root.skip(n), MANAGED_BLOCK_START@));
    let m = n + (MANAGED_BLOCK_START@ + newline + MANAGED_INCLUDE_LINE@ + newline).len();
    assert(root.skip(m) =~= MANAGED_BLOCK_END@ + newline + concat(post));
    assert(root.skip(m).take(MANAGED_BLOCK_END@.len() as int) =~= MANAGED_BLOCK_END@);
    assert(starts_with(root.skip(m), MANAGED_BLOCK_END@));
}

proof fn lemma_line_end(l: Seq<char>, newline: Seq<char>)
    requires
        is_newline(newline),
        l.len() > 0,
        l.last() != '\r',
    ensures
        strip_line_end(l + newline) == l,
{
    let t = l + newline;
    if newline == seq!['\n'] {
        assert(t.drop_last() =~= l);
    } else {
        assert(t.drop_last() =~= l.push('\r'));
        assert(t.drop_last().drop_last() =~= l);
    }
}

/// A carriage return with a line feed behind it.
pub open spec fn has_pair(s: Seq<char>) -> bool {
    exists|i: int| 0 <= i < s.len() - 1 && #[trigger] s[i] == '\r' && s[i + 1] == '\n'
}

proof fn lemma_pair_is_text(s: Seq<char>)
    ensures
        contains_text(s, "\r\n"@) == has_pair(s),
{
    reveal_strlit("\r\n");
    let p = "\r\n"@;
    assert(p =~= seq!['\r', '\n']);
    if has_pair(s) {
        let i = choose|i: int| 0 <= i < s.len() - 1 && #[trigger] s[i] == '\r' && s[i + 1] == '\n';
        assert(s.skip(i).take(2) =~= p);
        assert(starts_with(s.skip(i), p));
    }
    if contains_text(s, p) {
        let i = choose|i: int| 0 <= i <= s.len() && #[trigger] starts_with(s.skip(i), p);
        let t = s.skip(i).take(2);
        assert(t[0] == s[i]);
        assert(t[1] == s[i + 1]);
        assert(s[i] == '\r');
    }
}

proof fn lemma_pair_in_lines(ls: Seq<Seq<char>>)
    requires
        are_lines(ls),
        has_pair(concat(ls)),
    ensures
        exists|i: int| 0 <= i < ls.len() && has_pair(#[trigger] ls[i]),
    decreases ls.len(),
{
    let s = concat(ls);
    let i = choose|i: int| 0 <= i < s.len() - 1 && #[trigger] s[i] == '\r' && s[i + 1] == '\n';
    let head = ls.drop_last();
    let l = ls.last();
    let before = concat(head);
    assert forall|k: int| 0 <= k < head.len() implies is_full_line(#[trigger] head[k]) by {
        assert(head[k] == ls[k]);
    }
    lemma_lines_are_found(head);
    if i < before.len() - 1 {
        assert(before[i] == '\r' && before[i + 1] == '\n');
        assert(has_pair(before));
        lemma_pair_in_lines(head);
        let k = choose|k: int| 0 <= k < head.len() && has_pair(#[trigger] head[k]);
        assert(has_pair(ls[k]));
    } else if i == before.len() - 1 {
        assert(before[i] == before.last());
        assert(is_full_line(head[head.len() - 1]));
    } else {
        let k = i - before.len();
        assert(l[k] == '\r' && l[k + 1] == '\n');
        assert(has_pair(ls[ls.len() - 1]));
    }
}

proof fn lemma_pair_of_line(ls: Seq<Seq<char>>, i: int)
    requires
        0 <= i < ls.len(),
        has_pair(ls[i]),
    ensures
        has_pair(concat(ls)),
{
    let l = ls[i];
    let k = choose|k: int| 0 <= k < l.len() - 1 && #[trigger] l[k] == '\r' && l[k + 1] == '\n';
    lemma_concat_append(ls.take(i), ls.skip(i));
    assert(ls.take(i) + ls.skip(i) =~= ls);
    lemma_concat_append(seq![l], ls.skip(i + 1));
    assert(seq![l] + ls.skip(i + 1) =~= ls.skip(i));
    lemma_concat_one(l);
    let n = concat(ls.take(i)).len() as int;
    assert(concat(ls)[n + k] == '\r' && concat(ls)[n + k + 1] == '\n');
}

proof fn lemma_kept_lines_are_from(ls: Seq<Seq<char>>, i: int)
    requires
        0 <= i < kept_lines(ls).len(),
    ensures
        exists|k: int| 0 <= k < ls.len() && #[trigger] ls[k] == kept_lines(ls)[i],
    decreases ls.len(),
{
    if ls.len() > 0 {
        if trim(ls[0]) == MANAGED_BLOCK_START@ {
            if until_close(ls) < ls.len() {
                let n = until_close(ls) as int + 1;
                lemma_kept_lines_are_from(ls.skip(n), i);
                let k = choose|k: int|
                    0 <= k < ls.skip(n).len() && #[trigger] ls.skip(n)[k] == kept_lines(ls)[i];
                assert(ls[k + n] == kept_lines(ls)[i]);
            }
        } else if same_ignoring_case(trim(ls[0]), MANAGED_INCLUDE_LINE@) {
            lemma_kept_lines_are_from(ls.skip(1), i);
            let k = choose|k: int|
                0 <= k < ls.skip(1).len() && #[trigger] ls.skip(1)[k] == kept_lines(ls)[i];
            assert(ls[k + 1] == kept_lines(ls)[i]);
        } else if i == 0 {
            assert(ls[0] == kept_lines(ls)[i]);
        } else {
            lemma_kept_lines_are_from(ls.skip(1), i - 1);
            let k = choose|k: int|
                0 <= k < ls.skip(1).len() && #[trigger] ls.skip(1)[k] == kept_lines(
                    ls.skip(1),
                )[i - 1];
            assert(ls[k + 1] == kept_lines(ls)[i]);
        }
    }
}

/// A configuration of line feeds only stays one when the anchor is put into it.
#[verifier::spinoff_prover]
#[verifier::rlimit(40)]
proof fn lemma_no_pair_comes_in(content: Seq<char>, newline: Seq<char>)
    requires
        newline == seq!['\n'],
        can_be_set_up(content, newline),
        !has_pair(content),
    ensures
        !has_pair((anchored(content, newline)->Ok_0).0),
{
    let rest = text_without_anchors(root_parts(content)->Ok_0.segments);
    let root = (anchored(content, newline)->Ok_0).0;
    lemma_anchored_lines(content, newline);
    lemma_anchor_text_lines(newline);
    let all = raw_lines(root);
    let a = anchor_lines(newline);
    let ls = raw_lines(rest);
    let pre = if blank(rest) {
        Seq::empty()
    } else {
        lines_before(rest, newline)
    };
    if has_pair(root) {
        lemma_raw_lines_are_lines(root, Seq::empty());
        law_lines_lose_nothing(root);
        lemma_pair_in_lines(all);
        let i = choose|i: int| 0 <= i < all.len() && has_pair(#[trigger] all[i]);
        law_lines_lose_nothing(content);
        if pre.len() <= i < pre.len() + 3 {
            let l = a[i - pre.len()];
            assert(all[i] == l);
            let k = choose|k: int|
                0 <= k < l.len() - 1 && #[trigger] l[k] == '\r' && l[k + 1] == '\n';
            assert(is_full_line(l));
            if k + 1 < l.len() - 1 {
                assert(l.drop_last()[k + 1] == '\n');
            }
        } else {
            lemma_before_and_behind(rest);
            lemma_anchor_line_bound(ls);
            let at = anchor_line(ls);
            if i < pre.len() {
                if missing_end(rest, newline).len() > 0 && i == pre.len() - 1 {
                    let l = ls[at - 1];
                    assert(all[i] == l + newline);
                    lemma_raw_lines_are_lines(rest, Seq::empty());
                    lemma_lines_are_found(ls);
                    law_lines_lose_nothing(rest);
                    assert(rest.last() == l.last());
                    let t = l + newline;
                    let k = choose|k: int|
                        0 <= k < t.len() - 1 && #[trigger] t[k] == '\r' && t[k + 1] == '\n';
                    if k + 1 < l.len() {
                        assert(l[k] == '\r' && l[k + 1] == '\n');
                        assert(has_pair(ls[at - 1]));
                        lemma_pair_reaches(content, at - 1);
                    } else {
                        assert(l[k] == l.last());
                    }
                } else {
                    assert(all[i] == ls[i]);
                    lemma_pair_reaches(content, i);
                }
            } else {
                let k = i - pre.len() - 3 + at;
                assert(all[i] == ls[k]);
                lemma_pair_reaches(content, k);
            }
        }
    }
}

proof fn lemma_pair_reaches(content: Seq<char>, i: int)
    requires
        0 <= i < kept_lines(raw_lines(content)).len(),
        has_pair(kept_lines(raw_lines(content))[i]),
    ensures
        has_pair(content),
{
    let ls = raw_lines(content);
    lemma_kept_lines_are_from(ls, i);
    let k = choose|k: int| 0 <= k < ls.len() && #[trigger] ls[k] == kept_lines(ls)[i];
    lemma_pair_of_line(ls, k);
    law_lines_lose_nothing(content);
}

/// Setting up a second time writes nothing.
#[verifier::spinoff_prover]
#[verifier::rlimit(40)]
pub proof fn law_setting_up_twice_writes_nothing(content: Seq<char>, windows: bool)
    requires
        can_be_set_up(content, newline_of(content, windows)),
    ensures
        ({
            let root = (anchored(content, newline_of(content, windows))->Ok_0).0;
            anchored(root, newline_of(root, windows)) == Ok::<(Seq<char>, bool), Seq<char>>(
                (root, true),
            )
        }),
{
    let newline = newline_of(content, windows);
    let root = (anchored(content, newline)->Ok_0).0;
    reveal_strlit("\r\n");
    reveal_strlit("\n");
    assert("\r\n"@ =~= seq!['\r', '\n']);
    assert("\n"@ =~= seq!['\n']);
    law_anchoring_twice_changes_nothing(content, newline);
    lemma_pair_is_text(content);
    lemma_pair_is_text(root);
    if newline == seq!['\n'] {
        lemma_no_pair_comes_in(content, newline);
    } else {
        lemma_anchored_lines(content, newline);
        let rest = text_without_anchors(root_parts(content)->Ok_0.segments);
        let pre = if blank(rest) {
            Seq::empty()
        } else {
            lines_before(rest, newline)
        };
        let all = raw_lines(root);
        let l = all[pre.len() as int];
        assert(l == anchor_lines(newline)[0]);
        let k = l.len() - 2;
        assert(l[k] == '\r' && l[k + 1] == '\n');
        assert(has_pair(l));
        lemma_pair_of_line(all, pre.len() as int);
        law_lines_lose_nothing(root);
    }
}

// ---------------------------------------------------------------------------
// The place of the anchor, and what is kept
// ---------------------------------------------------------------------------

/// How many lines stand before the anchor once it is in its place.
pub open spec fn anchor_place(content: Seq<char>, newline: Seq<char>) -> int {
    let rest = text_without_anchors(root_parts(content)->Ok_0.segments);
    if blank(rest) {
        0
    } else {
        lines_before(rest, newline).len() as int
    }
}

/// The anchor stands before every `Host` and every `Match` line, and nowhere else.
pub proof fn law_anchor_stands_before_every_block(content: Seq<char>, newline: Seq<char>)
    requires
        is_newline(newline),
        can_be_set_up(content, newline),
    ensures
        ({
            let ls = raw_lines((anchored(content, newline)->Ok_0).0);
            let k = anchor_place(content, newline);
            &&& 0 <= k && k + 3 <= ls.len()
            &&& ls.subrange(k, k + 3) == anchor_lines(newline)
            &&& forall|i: int| 0 <= i < ls.len() && is_conditional(#[trigger] ls[i]) ==> k <= i
            &&& forall|i: int|
                0 <= i < ls.len() && !(k <= i < k + 3) ==> !is_marker(#[trigger] ls[i])
        }),
{
    let rest = text_without_anchors(root_parts(content)->Ok_0.segments);
    let ls = raw_lines((anchored(content, newline)->Ok_0).0);
    let k = anchor_place(content, newline);
    let a = anchor_lines(newline);
    lemma_anchored_lines(content, newline);
    lemma_kept_lines_have_no_marker(raw_lines(content));
    if blank(rest) {
        assert(ls =~= a);
        assert(ls.subrange(0, 3) =~= a);
    } else {
        let pre = lines_before(rest, newline);
        let post = lines_behind(rest);
        lemma_lines_before(rest, newline);
        assert(ls.subrange(k, k + 3) =~= a);
        assert forall|i: int| 0 <= i < ls.len() && is_conditional(#[trigger] ls[i]) implies k <= i by {
            if i < k {
                assert(ls[i] == pre[i]);
            }
        }
        assert forall|i: int| 0 <= i < ls.len() && !(k <= i < k + 3) implies !is_marker(
            #[trigger] ls[i],
        ) by {
            if i < k {
                assert(ls[i] == pre[i]);
            } else {
                assert(ls[i] == post[i - k - 3]);
            }
        }
    }
}

/// The lines that are not blank, without their ends.
pub open spec fn told_lines(ls: Seq<Seq<char>>) -> Seq<Seq<char>>
    decreases ls.len(),
{
    if ls.len() == 0 {
        Seq::empty()
    } else {
        let before = told_lines(ls.drop_last());
        let l = strip_line_end(ls.last());
        if blank(l) {
            before
        } else {
            before.push(l)
        }
    }
}

proof fn lemma_blank_lines(ls: Seq<Seq<char>>)
    requires
        blank(concat(ls)),
    ensures
        told_lines(ls).len() == 0,
    decreases ls.len(),
{
    if ls.len() > 0 {
        let head = ls.drop_last();
        let l = ls.last();
        assert(head + seq![l] =~= ls);
        lemma_concat_append(head, seq![l]);
        lemma_concat_one(l);
        let whole = concat(head) + l;
        lemma_blank(whole);
        assert forall|i: int| 0 <= i < concat(head).len() implies is_ws(
            #[trigger] concat(head)[i],
        ) by {
            assert(whole[i] == concat(head)[i]);
        }
        lemma_blank(concat(head));
        lemma_blank_lines(head);
        let s = strip_line_end(l);
        assert forall|i: int| 0 <= i < s.len() implies is_ws(#[trigger] s[i]) by {
            assert(whole[concat(head).len() + i] == l[i]);
            assert(s[i] == l[i]);
        }
        lemma_blank(s);
    }
}

/// The lines of an anchored configuration that belong to no anchor.
proof fn lemma_kept_lines_of_anchored(content: Seq<char>, newline: Seq<char>)
    requires
        is_newline(newline),
        can_be_set_up(content, newline),
    ensures
        ({
            let rest = text_without_anchors(root_parts(content)->Ok_0.segments);
            let root = (anchored(content, newline)->Ok_0).0;
            kept_lines(raw_lines(root)) == (if blank(rest) {
                Seq::<Seq<char>>::empty()
            } else {
                lines_before(rest, newline) + lines_behind(rest)
            })
        }),
{
    let rest = text_without_anchors(root_parts(content)->Ok_0.segments);
    let root = (anchored(content, newline)->Ok_0).0;
    let none = Seq::<Seq<char>>::empty();
    let pre = if blank(rest) {
        none
    } else {
        lines_before(rest, newline)
    };
    let post = if blank(rest) {
        none
    } else {
        lines_behind(rest)
    };
    lemma_anchored_lines(content, newline);
    lemma_kept_lines_have_no_marker(raw_lines(content));
    if !blank(rest) {
        lemma_lines_before(rest, newline);
    }
    lemma_anchored_lines_are_taken_apart(pre, post, newline);
    lemma_kept_text(root);
    lemma_raw_lines_are_lines(root, Seq::empty());
    lemma_kept_lines_are_lines(raw_lines(root));
    lemma_lines_are_found(kept_lines(raw_lines(root)));
    lemma_concat_append(pre, post);
    lemma_full_lines_append(pre, post);
    lemma_lines_are_found(pre + post);
    assert(none + none =~= none);
}

proof fn lemma_told_lines_with_end(head: Seq<Seq<char>>, l: Seq<char>, newline: Seq<char>)
    requires
        is_newline(newline),
        l.len() > 0,
        l.last() != '\r',
        l.last() != '\n',
    ensures
        told_lines(head.push(l + newline)) == told_lines(head.push(l)),
{
    lemma_line_end(l, newline);
    assert(head.push(l + newline).drop_last() =~= head);
    assert(head.push(l).drop_last() =~= head);
}

/// Setting up keeps every line but blank ones and those of an anchor, in its place among the
/// others; and a second time nothing is written, and the anchor is found.
#[verifier::spinoff_prover]
#[verifier::rlimit(40)]
pub proof fn law_setting_up_keeps_the_lines(content: Seq<char>, windows: bool)
    requires
        can_be_set_up(content, newline_of(content, windows)),
    ensures
        ({
            let root = (anchored(content, newline_of(content, windows))->Ok_0).0;
            &&& told_lines(kept_lines(raw_lines(root))) == told_lines(
                kept_lines(raw_lines(content)),
            )
            &&& anchored(root, newline_of(root, windows)) == Ok::<(Seq<char>, bool), Seq<char>>(
                (root, true),
            )
            &&& has_block(root)
        }),
{
    let newline = newline_of(content, windows);
    reveal_strlit("\r\n");
    reveal_strlit("\n");
    assert("\r\n"@ =~= seq!['\r', '\n']);
    assert("\n"@ =~= seq!['\n']);
    assert(is_newline(newline));
    law_setting_up_twice_writes_nothing(content, windows);
    lemma_anchored_root_has_block(content, newline);
    lemma_kept_lines_of_anchored(content, newline);
    lemma_anchored_lines(content, newline);
    lemma_kept_text(content);
    let rest = text_without_anchors(root_parts(content)->Ok_0.segments);
    let ls = raw_lines(rest);
    assert(ls == kept_lines(raw_lines(content)));
    if blank(rest) {
        lemma_blank_lines(ls);
        assert(told_lines(ls) =~= Seq::<Seq<char>>::empty());
    } else {
        let k = anchor_line(ls);
        let head = ls.take(k);
        lemma_before_and_behind(rest);
        if missing_end(rest, newline).len() == 0 {
            assert(head + ls.skip(k) =~= ls);
        } else {
            assert(k == ls.len());
            assert(head =~= ls);
            assert(ls.skip(k) =~= Seq::<Seq<char>>::empty());
            let l = ls.last();
            lemma_raw_lines_are_lines(rest, Seq::empty());
            lemma_lines_are_found(ls);
            assert(ls.len() > 0);
            assert(concat(ls).last() == l.last());
            assert(concat(ls) == rest);
            assert(is_full_line(ls[ls.len() - 1]) || ls[ls.len() - 1].len() > 0);
            let firsts = ls.drop_last();
            lemma_told_lines_with_end(firsts, l, newline);
            assert(firsts.push(l) =~= ls);
            assert(lines_before(rest, newline) + lines_behind(rest) =~= firsts.push(l + newline));
        }
    }
}

} // verus!
