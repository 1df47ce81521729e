//! Which blocks of a root configuration are moved, and where to.

use vstd::prelude::*;

use crate::commands::init::{
    HostBlockView, SegmentView, SplitView, is_trivia, split_lines_from, trailing_trivia, trivia_run,
};
use crate::commands::migrate::{
    MigrationView, MovedView, PlannedView, block_label, claim_patterns, judged, moved_reports,
    nothing_moved, segment_step, segments_step, until_patterns,
};
use crate::config::block_laws::{are_inner_lines, is_include_line, is_inner_line, is_line_of};
use crate::config::model::ManagedView;
use crate::config::parser::parse_block;
use crate::config::root_config::until_end;
use crate::config::validate::issues_of;
use crate::layout::MANAGED_BLOCK_START;
use crate::text::{concat, lines, raw_lines, trim};

verus! {

// ---------------------------------------------------------------------------
// Blocks
// ---------------------------------------------------------------------------

proof fn lemma_until_end(inner: Seq<Seq<char>>, rest: Seq<Seq<char>>)
    requires
        are_inner_lines(inner),
        rest.len() > 0 ==> !is_inner_line(rest[0]),
    ensures
        until_end(inner + rest) == inner.len(),
    decreases inner.len(),
{
    let all = inner + rest;
    if inner.len() == 0 {
        assert(all =~= rest);
    } else {
        assert(all[0] == inner[0]);
        assert(is_inner_line(inner[0]));
        assert(all.skip(1) =~= inner.skip(1) + rest);
        assert forall|i: int| 0 <= i < inner.skip(1).len() implies is_inner_line(
            #[trigger] inner.skip(1)[i],
        ) by {
            assert(is_inner_line(inner[i + 1]));
        }
        lemma_until_end(inner.skip(1), rest);
    }
}

proof fn lemma_trivia_run(body: Seq<Seq<char>>, trivia: Seq<Seq<char>>)
    requires
        body.len() > 0 ==> !is_trivia(body.last()),
        forall|i: int| 0 <= i < trivia.len() ==> is_trivia(#[trigger] trivia[i]),
    ensures
        trivia_run(body + trivia) == trivia.len(),
    decreases trivia.len(),
{
    let all = body + trivia;
    if trivia.len() == 0 {
        assert(all =~= body);
    } else {
        assert(all.last() == trivia[trivia.len() - 1]);
        assert(all.drop_last() =~= body + trivia.drop_last());
        assert forall|i: int| 0 <= i < trivia.drop_last().len() implies is_trivia(
            #[trigger] trivia.drop_last()[i],
        ) by {
            assert(is_trivia(trivia[i]));
        }
        lemma_trivia_run(body, trivia.drop_last());
    }
}

/// A `Host` block is the line that starts it and all behind it up to the next section, without the
/// blank lines and comments at its end: those stay for what follows. The text before the block is
/// kept, and the blank lines and comments at its end go with the block.
pub proof fn law_host_block_is_found(
    header: Seq<char>,
    inner: Seq<Seq<char>>,
    trivia: Seq<Seq<char>>,
    rest: Seq<Seq<char>>,
    n: int,
    st: SplitView,
)
    requires
        is_line_of(header, "Host"@),
        trim(header) != MANAGED_BLOCK_START@,
        !is_include_line(header),
        are_inner_lines(inner),
        are_inner_lines(trivia),
        inner.len() > 0 ==> !is_trivia(inner.last()),
        forall|i: int| 0 <= i < trivia.len() ==> is_trivia(#[trigger] trivia[i]),
        rest.len() > 0,
        !is_inner_line(rest[0]),
    ensures
        split_lines_from(seq![header] + inner + trivia + rest, n, st) == split_lines_from(
            rest,
            n + 1 + inner.len() + trivia.len(),
            SplitView {
                segments: (if st.preserved.len() > 0 {
                    st.segments.push(SegmentView::Preserved(st.preserved))
                } else {
                    st.segments
                }).push(
                    SegmentView::HostBlock(
                        HostBlockView {
                            leading_trivia: trailing_trivia(st.preserved),
                            raw: concat(seq![header] + inner),
                            start_line: n + 1,
                            end_line: n + 1 + inner.len(),
                        },
                    ),
                ),
                preserved: concat(trivia),
                anchor_index: st.anchor_index,
                anchor_count: st.anchor_count,
            },
        ),
{
    let ls = seq![header] + inner + trivia + rest;
    let more = inner + trivia;
    assert(ls[0] == header);
    assert(ls.skip(1) =~= more + rest);
    assert forall|i: int| 0 <= i < more.len() implies is_inner_line(#[trigger] more[i]) by {
        if i < inner.len() {
            assert(more[i] == inner[i]);
        } else {
            assert(more[i] == trivia[i - inner.len()]);
        }
    }
    lemma_until_end(more, rest);
    let k = 1 + more.len() as int;
    assert(ls.subrange(1, k) =~= more);
    lemma_trivia_run(inner, trivia);
    let body = k - trivia.len();
    assert(ls.take(body) =~= seq![header] + inner);
    assert(ls.subrange(body, k) =~= trivia);
    assert(ls.skip(k) =~= rest);
}

/// The blank lines and comments at the end of a text are those behind its last other line.
pub proof fn law_trivia_at_the_end(
    content: Seq<char>,
    body: Seq<Seq<char>>,
    trivia: Seq<Seq<char>>,
)
    requires
        raw_lines(content) == body + trivia,
        body.len() > 0 ==> !is_trivia(body.last()),
        forall|i: int| 0 <= i < trivia.len() ==> is_trivia(#[trigger] trivia[i]),
    ensures
        trailing_trivia(content) == concat(trivia),
{
    lemma_trivia_run(body, trivia);
    let ls = raw_lines(content);
    assert(ls.subrange(ls.len() - trivia.len(), ls.len() as int) =~= trivia);
}

// ---------------------------------------------------------------------------
// Judging
// ---------------------------------------------------------------------------

/// None of the patterns is taken, and none stands there twice.
pub open spec fn are_free(
    patterns: Seq<Seq<char>>,
    existing: Seq<Seq<char>>,
    seen: Seq<Seq<char>>,
) -> bool {
    &&& patterns.no_duplicates()
    &&& forall|i: int|
        0 <= i < patterns.len() ==> !existing.contains(#[trigger] patterns[i]) && !seen.contains(
            patterns[i],
        )
}

#[verifier::rlimit(30)]
proof fn lemma_claim(
    patterns: Seq<Seq<char>>,
    existing: Seq<Seq<char>>,
    seen: Seq<Seq<char>>,
    label: Seq<char>,
)
    ensures
        claim_patterns(patterns, existing, seen, label).1 is None <==> are_free(
            patterns,
            existing,
            seen,
        ),
        are_free(patterns, existing, seen) ==> claim_patterns(patterns, existing, seen, label).0
            == seen + patterns,
    decreases patterns.len(),
{
    if patterns.len() == 0 {
        assert(seen + patterns =~= seen);
    } else {
        let p = patterns[0];
        let rest = patterns.skip(1);
        let next = seen.push(p);
        lemma_claim(rest, existing, next, label);
        if are_free(patterns, existing, seen) {
            assert forall|i: int| 0 <= i < rest.len() implies !existing.contains(
                #[trigger] rest[i],
            ) && !next.contains(rest[i]) by {
                assert(rest[i] == patterns[i + 1]);
                assert(patterns[i + 1] != patterns[0]);
                if next.contains(rest[i]) {
                    let k = choose|k: int| 0 <= k < next.len() && next[k] == rest[i];
                    if k < seen.len() {
                        assert(seen[k] == rest[i]);
                    }
                }
            }
            assert(rest.no_duplicates());
            assert(next + rest =~= seen + patterns);
        }
        if !existing.contains(p) && !seen.contains(p) && are_free(rest, existing, next) {
            assert forall|i: int| 0 <= i < patterns.len() implies !existing.contains(
                #[trigger] patterns[i],
            ) && !seen.contains(patterns[i]) by {
                if i > 0 {
                    assert(rest[i - 1] == patterns[i]);
                    if seen.contains(patterns[i]) {
                        let k = choose|k: int| 0 <= k < seen.len() && seen[k] == patterns[i];
                        assert(next[k] == patterns[i]);
                    }
                }
            }
            assert forall|i: int, j: int|
                0 <= i < patterns.len() && 0 <= j < patterns.len() && i != j implies patterns[i]
                != patterns[j] by {
                assert(next[seen.len() as int] == p);
                if i == 0 {
                    assert(rest[j - 1] == patterns[j]);
                    assert(!next.contains(rest[j - 1]));
                } else if j == 0 {
                    assert(rest[i - 1] == patterns[i]);
                    assert(!next.contains(rest[i - 1]));
                } else {
                    assert(rest[i - 1] == patterns[i]);
                    assert(rest[j - 1] == patterns[j]);
                }
            }
        }
    }
}

/// A block is moved exactly where it can be read, what it says is valid, and none of its patterns
/// is listed already; the entry is what the block says, and its patterns are then taken.
pub proof fn law_block_is_moved_where_it_can_be(
    b: HostBlockView,
    existing: Seq<Seq<char>>,
    seen: Seq<Seq<char>>,
)
    ensures
        ({
            let (after, verdict) = judged(b, existing, seen);
            let read = parse_block("root-config"@, b.raw, true);
            &&& verdict is Ok <==> read is Ok && issues_of(read->Ok_0).len() == 0 && are_free(
                (read->Ok_0).host_patterns,
                existing,
                seen,
            )
            &&& verdict is Ok ==> verdict->Ok_0 == read->Ok_0 && after == seen
                + (read->Ok_0).host_patterns
            &&& verdict matches Err(s) ==> s.source_start_line == b.start_line && s.source_end_line
                == b.end_line
        }),
{
    match parse_block("root-config"@, b.raw, true) {
        Ok(entry) => {
            lemma_claim(
                entry.host_patterns,
                existing,
                seen,
                block_label(lines(b.raw)),
            );
        },
        Err(_) => {},
    }
}

// ---------------------------------------------------------------------------
// Places
// ---------------------------------------------------------------------------

/// The reports are on the entries that are moved, in the order of their lines, and no entry that is
/// to stand behind the managed ones was moved before one that is to stand before them.
pub open spec fn in_step(m: MigrationView, from: int, anchor: Option<int>) -> bool {
    let moved = m.before + m.after;
    &&& m.reports.len() == moved.len()
    &&& forall|i: int|
        0 <= i < moved.len() ==> (#[trigger] m.reports[i]).host_patterns
            == moved[i].entry.host_patterns
    &&& m.after.len() > 0 ==> anchor is Some && anchor->0 < from
}

#[verifier::rlimit(30)]
proof fn lemma_in_step(
    m: MigrationView,
    ss: Seq<SegmentView>,
    from: int,
    anchor: Option<int>,
    existing: Seq<Seq<char>>,
)
    requires
        in_step(m, from, anchor),
        segments_step(m, ss, from, anchor, existing) is Ok,
    ensures
        ({
            let r = segments_step(m, ss, from, anchor, existing)->Ok_0;
            &&& in_step(r, from + ss.len(), anchor)
            &&& m.before.is_prefix_of(r.before)
            &&& m.after.is_prefix_of(r.after)
        }),
    decreases ss.len(),
{
    assert(m.before =~= m.before.take(m.before.len() as int));
    assert(m.after =~= m.after.take(m.after.len() as int));
    if ss.len() > 0 {
        let next = segment_step(m, ss[0], from, anchor, existing)->Ok_0;
        let was = m.before + m.after;
        let now = next.before + next.after;
        assert(in_step(next, from + 1, anchor)) by {
            if let SegmentView::HostBlock(b) = ss[0] {
                let (seen, verdict) = judged(b, existing, m.seen);
                if verdict is Ok {
                    let first = anchor is None || from < anchor->0;
                    if first {
                        assert(m.after.len() == 0);
                    }
                    assert(now =~= was.push(now.last()));
                    assert forall|i: int| 0 <= i < now.len() implies (
                    #[trigger] next.reports[i]).host_patterns == now[i].entry.host_patterns by {
                        if i < was.len() {
                            assert(next.reports[i] == m.reports[i]);
                        }
                    }
                } else {
                    assert(now =~= was);
                }
            } else {
                assert(now =~= was);
            }
        }
        assert(m.before.is_prefix_of(next.before)) by {
            assert(m.before =~= next.before.take(m.before.len() as int));
        }
        assert(m.after.is_prefix_of(next.after)) by {
            assert(m.after =~= next.after.take(m.after.len() as int));
        }
        lemma_in_step(next, ss.skip(1), from + 1, anchor, existing);
        let r = segments_step(m, ss, from, anchor, existing)->Ok_0;
        assert(r.before.take(m.before.len() as int) =~= next.before.take(m.before.len() as int));
        assert(r.after.take(m.after.len() as int) =~= next.after.take(m.after.len() as int));
    }
}

/// What is moved is told in the order in which it stood, and stands in it: before the managed
/// entries what stood before the line that names them, behind them the rest. Without such a line
/// all of it stands before them.
pub proof fn law_moved_blocks_keep_their_order(
    ss: Seq<SegmentView>,
    anchor: Option<int>,
    existing: Seq<Seq<char>>,
)
    requires
        segments_step(nothing_moved(), ss, 0, anchor, existing) is Ok,
    ensures
        ({
            let m = segments_step(nothing_moved(), ss, 0, anchor, existing)->Ok_0;
            let moved = m.before + m.after;
            &&& m.reports.len() == moved.len()
            &&& forall|i: int|
                0 <= i < moved.len() ==> (#[trigger] m.reports[i]).host_patterns
                    == moved[i].entry.host_patterns
            &&& anchor is None ==> m.after.len() == 0
        }),
{
    assert(nothing_moved().before + nothing_moved().after =~= Seq::<ManagedView>::empty());
    lemma_in_step(nothing_moved(), ss, 0, anchor, existing);
}

/// Blocks that stand before the line that names the managed entries are moved before them, and
/// blocks behind it behind them.
pub proof fn law_moved_blocks_stay_on_their_side(
    m: MigrationView,
    s: SegmentView,
    index: int,
    anchor: Option<int>,
    existing: Seq<Seq<char>>,
)
    requires
        segment_step(m, s, index, anchor, existing) is Ok,
    ensures
        ({
            let r = segment_step(m, s, index, anchor, existing)->Ok_0;
            &&& anchor is Some && anchor->0 <= index ==> r.before == m.before
            &&& anchor is None || index < anchor->0 ==> r.after == m.after
            &&& s matches SegmentView::HostBlock(b) ==> r.attempted == m.attempted + 1 && (r.skipped
                == m.skipped) == (judged(b, existing, m.seen).1 is Ok) && (r.reports == m.reports)
                == (judged(b, existing, m.seen).1 is Err)
            &&& s matches SegmentView::HostBlock(b) ==> (judged(b, existing, m.seen).1 matches Ok(e)
                ==> {
                &&& r.reports.len() == m.reports.len() + 1 && r.reports.drop_last() == m.reports
                &&& r.reports.last().host_patterns == e.host_patterns
                &&& r.reports.last().host == e.primary()
                &&& r.reports.last().kind == e.kind().spec_label()
                &&& r.reports.last().source_start_line == b.start_line
                &&& r.reports.last().source_end_line == b.end_line
                &&& if anchor is None || index < anchor->0 {
                    r.before.len() == m.before.len() + 1 && r.before.last().entry == e
                        && r.before.last().raw_content == b.leading_trivia + b.raw
                } else {
                    r.after.len() == m.after.len() + 1 && r.after.last().entry == e
                        && r.after.last().raw_content == b.leading_trivia + b.raw
                }
            })
            &&& s matches SegmentView::Preserved(raw) ==> r == (MigrationView {
                output: m.output + raw,
                ..m
            })
        }),
{
    if let SegmentView::HostBlock(b) = s {
        let r = segment_step(m, s, index, anchor, existing)->Ok_0;
        if judged(b, existing, m.seen).1 is Ok {
            assert(r.reports.len() == m.reports.len() + 1);
            assert(r.reports.drop_last() =~= m.reports);
        } else {
            assert(r.skipped.len() == m.skipped.len() + 1);
        }
    }
}

/// Each report names the order and the file of the first entry with the patterns that were moved.
#[verifier::rlimit(30)]
pub proof fn law_reports_name_the_files(
    ps: Seq<PlannedView>,
    es: Seq<ManagedView>,
    acc: Seq<MovedView>,
)
    requires
        moved_reports(ps, es, acc) is Ok,
    ensures
        ({
            let r = moved_reports(ps, es, acc)->Ok_0;
            &&& r.len() == acc.len() + ps.len()
            &&& r.take(acc.len() as int) == acc
            &&& forall|i: int|
                0 <= i < ps.len() ==> {
                    let x = #[trigger] r[acc.len() + i];
                    &&& x.planned == ps[i]
                    &&& exists|k: int|
                        0 <= k < es.len() && (#[trigger] es[k]).entry.host_patterns
                            == ps[i].host_patterns && x.order == es[k].order && x.managed_path
                            == es[k].path
                }
        }),
    decreases ps.len(),
{
    if ps.len() == 0 {
        assert(acc.take(acc.len() as int) =~= acc);
    } else {
        let n = until_patterns(es, ps[0].host_patterns) as int;
        lemma_until_patterns(es, ps[0].host_patterns);
        let x = MovedView { planned: ps[0], order: es[n].order, managed_path: es[n].path };
        let next = acc.push(x);
        law_reports_name_the_files(ps.skip(1), es, next);
        let r = moved_reports(ps, es, acc)->Ok_0;
        assert(r.take(acc.len() as int) =~= next.take(acc.len() as int));
        assert(next.take(acc.len() as int) =~= acc);
        assert(r[acc.len() as int] == next[acc.len() as int]);
        assert forall|i: int| 0 <= i < ps.len() implies {
            let y = #[trigger] r[acc.len() + i];
            &&& y.planned == ps[i]
            &&& exists|k: int|
                0 <= k < es.len() && (#[trigger] es[k]).entry.host_patterns == ps[i].host_patterns
                    && y.order == es[k].order && y.managed_path == es[k].path
        } by {
            if i > 0 {
                assert(r[acc.len() + i] == r[next.len() + (i - 1)]);
                assert(ps.skip(1)[i - 1] == ps[i]);
            } else {
                assert(es[n].entry.host_patterns == ps[0].host_patterns);
            }
        }
    }
}

proof fn lemma_until_patterns(es: Seq<ManagedView>, patterns: Seq<Seq<char>>)
    ensures
        until_patterns(es, patterns) < es.len() ==> es[until_patterns(es, patterns) as int].entry.host_patterns
            == patterns,
    decreases es.len(),
{
    if es.len() > 0 && es[0].entry.host_patterns != patterns {
        lemma_until_patterns(es.skip(1), patterns);
    }
}

} // verus!
