//! What the reports tell.

use vstd::prelude::*;

use crate::backup::{dropped, label_of, latest_first, law_latest_snapshots_first};
use crate::commands::init::{
    HostBlockView, SegmentView, SplitView, root_parts, split_lines_from, trailing_trivia,
    trivia_run, until_close,
};
use crate::commands::validate::{
    ExternalView, ReportView, entry_file_issues, external_lines, has_anchor, is_anchored_twice,
    issue_lines, law_shared_orders_are_told, order_issues, order_uses, report_lines, report_of,
    report_summary, root_issues, root_lines,
};
use crate::config::match_header::BlockView;
use crate::config::model::ManagedView;
use crate::config::root_config::{
    added_once, blocks_of, is_directive, unsupported_count, unsupported_of, until_end,
};
use crate::config::validate::issues_of;
use crate::layout::{
    MANAGED_BLOCK_END, MANAGED_BLOCK_START, MANAGED_INCLUDE_LINE, names_managed_entries,
};
use crate::text::{
    concat, contains_text, decimal, lines, lower, raw_lines, same_ignoring_case, starts_with,
    text_less, trim, without,
};
use crate::text_laws::law_number_of_decimal;

verus! {

// ---------------------------------------------------------------------------
// Snapshots
// ---------------------------------------------------------------------------

/// The later snapshots are kept, as many as are to be kept, and all others are dropped.
pub proof fn law_later_snapshots_are_kept(dirs: Seq<Seq<char>>, keep: int, windows: bool)
    requires
        keep >= 0,
    ensures
        exists|kept: Seq<Seq<char>>|
            {
                &&& kept.len() == (if keep < dirs.len() {
                    keep
                } else {
                    dirs.len() as int
                })
                &&& (#[trigger] kept.to_multiset()).add(
                    dropped(dirs, keep, None, windows).to_multiset(),
                ) == dirs.to_multiset()
                &&& forall|i: int, j: int|
                    0 <= i < kept.len() && 0 <= j < dropped(dirs, keep, None, windows).len()
                        ==> !text_less(
                        label_of(#[trigger] kept[i], windows),
                        label_of(#[trigger] dropped(dirs, keep, None, windows)[j], windows),
                    )
            },
{
    let all = latest_first(dirs, windows);
    law_latest_snapshots_first(dirs, windows);
    let n = if keep < dirs.len() {
        keep
    } else {
        dirs.len() as int
    };
    let kept = all.take(n);
    let old = dropped(dirs, keep, None, windows);
    assert(old =~= all.skip(n));
    assert(kept + old =~= all);
    vstd::seq_lib::lemma_multiset_commutative(kept, old);
    assert forall|i: int, j: int| 0 <= i < kept.len() && 0 <= j < old.len() implies !text_less(
        label_of(#[trigger] kept[i], windows),
        label_of(#[trigger] old[j], windows),
    ) by {
        assert(kept[i] == all[i]);
        assert(old[j] == all[n + j]);
    }
}

pub open spec fn is_another(x: Seq<char>) -> spec_fn(Seq<char>) -> bool {
    |y: Seq<char>| y != x
}

/// A snapshot that is to be spared is the only one that stays besides.
pub proof fn law_spared_snapshot_alone_stays(
    dirs: Seq<Seq<char>>,
    keep: int,
    spared: Seq<char>,
    windows: bool,
)
    ensures
        dropped(dirs, keep, Some(spared), windows) == dropped(dirs, keep, None, windows).filter(
            is_another(spared),
        ),
{
    lemma_without(dropped(dirs, keep, None, windows), spared);
}

proof fn lemma_without(v: Seq<Seq<char>>, x: Seq<char>)
    ensures
        without(v, x) == v.filter(is_another(x)),
    decreases v.len(),
{
    reveal(Seq::filter);
    if v.len() > 0 {
        lemma_without(v.drop_last(), x);
    } else {
        assert(v.filter(is_another(x)) =~= v);
    }
}

// ---------------------------------------------------------------------------
// Validation
// ---------------------------------------------------------------------------

/// The managed entries are named in the root configuration: by the marked block, or by a line of
/// their own.
pub open spec fn is_anchored(content: Seq<char>) -> bool {
    ||| contains_text(content, MANAGED_BLOCK_START@) && contains_text(content, MANAGED_BLOCK_END@)
    ||| exists|i: int|
        0 <= i < lines(content).len() && lower(trim(#[trigger] lines(content)[i])) == lower(
            MANAGED_INCLUDE_LINE@,
        )
}

/// More than one part of the root configuration names the managed entries.
pub open spec fn is_named_twice(content: Seq<char>) -> bool {
    root_parts(content) is Ok && root_parts(content)->Ok_0.segments.filter(is_anchor()).len() > 1
}

pub open spec fn is_anchor() -> spec_fn(SegmentView) -> bool {
    |s: SegmentView| s is Anchor
}

#[verifier::rlimit(30)]
proof fn lemma_counted(ls: Seq<Seq<char>>, n: int, st: SplitView)
    requires
        split_lines_from(ls, n, st) is Ok,
        st.anchor_count == st.segments.filter(is_anchor()).len(),
    ensures
        ({
            let r = split_lines_from(ls, n, st)->Ok_0;
            r.anchor_count == r.segments.filter(is_anchor()).len()
        }),
    decreases ls.len(),
{
    lemma_flushed(st);
    if ls.len() > 0 {
        let line = trim(ls[0]);
        if line == MANAGED_BLOCK_START@ {
            let k = until_close(ls);
            if k < ls.len() {
                let raw = concat(ls.take(k as int + 1));
                lemma_one_more_segment(st.flushed(), SegmentView::Anchor(raw));
                lemma_counted(ls.skip(k as int + 1), n + k + 1, st.with_anchor(raw));
            }
        } else if same_ignoring_case(line, MANAGED_INCLUDE_LINE@) {
            lemma_one_more_segment(st.flushed(), SegmentView::Anchor(ls[0]));
            lemma_counted(ls.skip(1), n + 1, st.with_anchor(ls[0]));
        } else if is_directive(line, "Host"@) {
            let k = 1 + until_end(ls.skip(1));
            let j = trivia_run(ls.subrange(1, k as int));
            let at_end = k >= ls.len();
            let body = if at_end {
                k as int
            } else {
                k - j
            };
            let block = HostBlockView {
                leading_trivia: trailing_trivia(st.preserved),
                raw: concat(ls.take(body)),
                start_line: n + 1,
                end_line: n + k - j,
            };
            let after = if at_end {
                Seq::empty()
            } else {
                ls.skip(k as int)
            };
            lemma_one_more_segment(st.flushed(), SegmentView::HostBlock(block));
            lemma_counted(
                after,
                n + k,
                st.with_block(block, concat(ls.subrange(body, k as int))),
            );
        } else {
            lemma_counted(
                ls.skip(1),
                n + 1,
                SplitView { preserved: st.preserved + ls[0], ..st },
            );
        }
    }
}

proof fn lemma_flushed(st: SplitView)
    ensures
        st.flushed().segments.filter(is_anchor()).len() == st.segments.filter(is_anchor()).len(),
{
    lemma_one_more_segment(st, SegmentView::Preserved(st.preserved));
}

proof fn lemma_one_more_segment(st: SplitView, s: SegmentView)
    ensures
        st.segments.push(s).filter(is_anchor()).len() == st.segments.filter(is_anchor()).len() + (
        if s is Anchor {
            1int
        } else {
            0
        }),
{
    reveal(Seq::filter);
    assert(st.segments.push(s).drop_last() =~= st.segments);
}

proof fn lemma_twice(content: Seq<char>)
    ensures
        is_anchored_twice(content) <==> is_named_twice(content),
{
    let st = SplitView {
        segments: Seq::empty(),
        preserved: Seq::empty(),
        anchor_index: None,
        anchor_count: 0,
    };
    assert(st.segments.filter(is_anchor()).len() == 0) by {
        reveal(Seq::filter);
    }
    if root_parts(content) is Ok {
        lemma_counted(raw_lines(content), 0, st);
    }
}

proof fn lemma_anchored(content: Seq<char>)
    ensures
        has_anchor(content) <==> is_anchored(content),
{
    if names_managed_entries(content) {
        let i = choose|i: int|
            0 <= i < lines(content).len() && same_ignoring_case(
                trim(#[trigger] lines(content)[i]),
                MANAGED_INCLUDE_LINE@,
            );
        assert(lower(trim(lines(content)[i])) == lower(MANAGED_INCLUDE_LINE@));
    }
    if exists|i: int|
        0 <= i < lines(content).len() && lower(trim(#[trigger] lines(content)[i])) == lower(
            MANAGED_INCLUDE_LINE@,
        ) {
        let i = choose|i: int|
            0 <= i < lines(content).len() && lower(trim(#[trigger] lines(content)[i])) == lower(
                MANAGED_INCLUDE_LINE@,
            );
        assert(same_ignoring_case(trim(lines(content)[i]), MANAGED_INCLUDE_LINE@));
    }
}

pub open spec fn all_valid(es: Seq<ManagedView>) -> bool {
    forall|i: int| 0 <= i < es.len() ==> issues_of((#[trigger] es[i]).entry).len() == 0
}

pub open spec fn orders_differ(es: Seq<ManagedView>) -> bool {
    forall|i: int, j: int|
        0 <= i < j < es.len() ==> (#[trigger] es[i]).order != (#[trigger] es[j]).order
}

#[verifier::rlimit(30)]
proof fn lemma_entry_issues(es: Seq<ManagedView>)
    ensures
        entry_file_issues(es).len() == 0 <==> all_valid(es),
        forall|i: int, k: int|
            0 <= i < es.len() && 0 <= k < issues_of(es[i].entry).len() ==> entry_file_issues(
                es,
            ).contains(es[i].path + ": "@ + #[trigger] issues_of(es[i].entry)[k]),
    decreases es.len(),
{
    if es.len() > 0 {
        let head = es.drop_last();
        let e = es.last();
        lemma_entry_issues(head);
        let before = entry_file_issues(head);
        let now = entry_file_issues(es);
        assert(es[es.len() - 1] == e);
        if all_valid(es) {
            assert forall|i: int| 0 <= i < head.len() implies issues_of(
                (#[trigger] head[i]).entry,
            ).len() == 0 by {
                assert(issues_of(es[i].entry).len() == 0);
            }
        } else if all_valid(head) {
            let i = choose|i: int|
                0 <= i < es.len() && issues_of((#[trigger] es[i]).entry).len() != 0;
            if i < head.len() {
                assert(issues_of(head[i].entry).len() == 0);
            }
        }
        assert forall|i: int, k: int|
            0 <= i < es.len() && 0 <= k < issues_of(es[i].entry).len() implies now.contains(
            es[i].path + ": "@ + #[trigger] issues_of(es[i].entry)[k],
        ) by {
            let x = es[i].path + ": "@ + issues_of(es[i].entry)[k];
            if i < head.len() {
                assert(head[i] == es[i]);
                assert(before.contains(head[i].path + ": "@ + issues_of(head[i].entry)[k]));
                let j = choose|j: int| 0 <= j < before.len() && before[j] == x;
                assert(now[j] == x);
            } else {
                assert(now[before.len() + k] == x);
            }
        }
    }
}

/// Nothing is found exactly where there is a root configuration that names the managed entries
/// once, each entry is valid, no two have one order, and the client found nothing.
pub proof fn law_nothing_is_found_where_all_is_well(
    path: Seq<char>,
    content: Option<Seq<char>>,
    es: Seq<ManagedView>,
    external: Option<ExternalView>,
    external_issues: Seq<Seq<char>>,
)
    ensures
        report_of(path, content, es, external, external_issues).issues.len() == 0 <==> {
            &&& content is Some
            &&& is_anchored(content->0)
            &&& !is_named_twice(content->0)
            &&& all_valid(es)
            &&& orders_differ(es)
            &&& external_issues.len() == 0
        },
{
    lemma_entry_issues(es);
    law_shared_orders_are_told(es);
    if let Some(c) = content {
        lemma_anchored(c);
        lemma_twice(c);
    }
}

/// The order is that of at least two entries.
pub open spec fn is_shared(es: Seq<ManagedView>, order: u16) -> bool {
    exists|i: int, j: int|
        0 <= i < j < es.len() && (#[trigger] es[i]).order == order && (#[trigger] es[j]).order
            == order
}

pub open spec fn shared_text(order: u16) -> Seq<char> {
    "order "@ + decimal(order as nat) + " is used by more than one managed entry"@
}

/// The text tells that an order is shared.
pub open spec fn tells_of_shared(es: Seq<ManagedView>, text: Seq<char>) -> bool {
    exists|o: u16| #[trigger] is_shared(es, o) && text == shared_text(o)
}

#[verifier::rlimit(30)]
proof fn lemma_uses(es: Seq<ManagedView>, order: u16)
    ensures
        order_uses(es, order) >= 1 <==> exists|i: int|
            0 <= i < es.len() && (#[trigger] es[i]).order == order,
        order_uses(es, order) >= 2 <==> is_shared(es, order),
    decreases es.len(),
{
    if es.len() > 0 {
        let head = es.drop_last();
        let n = es.len() - 1;
        lemma_uses(head, order);
        assert(es[n] == es.last());
        assert(forall|i: int| 0 <= i < n ==> #[trigger] head[i] == es[i]);
        if order_uses(head, order) >= 1 {
            let i = choose|i: int| 0 <= i < head.len() && (#[trigger] head[i]).order == order;
            assert(es[i].order == order);
            if es.last().order == order {
                assert(es[i].order == order && es[n].order == order);
            }
        }
        if is_shared(head, order) {
            let (i, j) = choose|i: int, j: int|
                0 <= i < j < head.len() && (#[trigger] head[i]).order == order && (
                #[trigger] head[j]).order == order;
            assert(es[i].order == order && es[j].order == order);
        }
        if exists|i: int| 0 <= i < es.len() && (#[trigger] es[i]).order == order {
            let i = choose|i: int| 0 <= i < es.len() && (#[trigger] es[i]).order == order;
            if i < n {
                assert(head[i].order == order);
            }
        }
        if is_shared(es, order) {
            let (i, j) = choose|i: int, j: int|
                0 <= i < j < es.len() && (#[trigger] es[i]).order == order && (
                #[trigger] es[j]).order == order;
            assert(head[i].order == order);
            if j < n {
                assert(head[j].order == order);
            }
        }
    }
}

proof fn lemma_order_texts(a: u16, b: u16)
    ensures
        shared_text(a) == shared_text(b) ==> a == b,
{
    let x = shared_text(a);
    let y = shared_text(b);
    if x == y {
        reveal_strlit("order ");
        reveal_strlit(" is used by more than one managed entry");
        let n = " is used by more than one managed entry"@.len() as int;
        let da = decimal(a as nat);
        let db = decimal(b as nat);
        assert(x.len() == 6 + da.len() + n);
        assert(y.len() == 6 + db.len() + n);
        assert(x.subrange(6, 6 + da.len() as int) =~= da);
        assert(y.subrange(6, 6 + db.len() as int) =~= db);
        law_number_of_decimal(a as nat);
        law_number_of_decimal(b as nat);
    }
}

/// Each order that several entries share is told, once, and no other is.
#[verifier::rlimit(30)]
pub proof fn law_each_shared_order_is_told_once(es: Seq<ManagedView>, order: u16)
    ensures
        order_issues(es).contains(shared_text(order)) <==> is_shared(es, order),
        order_issues(es).no_duplicates(),
        forall|i: int|
            0 <= i < order_issues(es).len() ==> tells_of_shared(es, #[trigger] order_issues(es)[i]),
    decreases es.len(),
{
    if es.len() > 0 {
        let head = es.drop_last();
        let top = es.last().order;
        law_each_shared_order_is_told_once(head, order);
        law_each_shared_order_is_told_once(head, top);
        lemma_uses(head, order);
        lemma_uses(es, order);
        lemma_uses(head, top);
        lemma_uses(es, top);
        lemma_order_texts(order, top);
        let before = order_issues(head);
        let now = order_issues(es);
        assert forall|o: u16| #[trigger] is_shared(head, o) implies is_shared(es, o) by {
            lemma_uses(head, o);
            lemma_uses(es, o);
        }
        assert forall|i: int| 0 <= i < now.len() implies tells_of_shared(es, #[trigger] now[i]) by {
            if i < before.len() {
                assert(tells_of_shared(head, before[i]));
                let o = choose|o: u16| #[trigger] is_shared(head, o) && before[i] == shared_text(o);
                assert(is_shared(es, o) && now[i] == shared_text(o));
            } else {
                assert(is_shared(es, top) && now[i] == shared_text(top));
            }
        }
        if order_uses(head, top) == 1 {
            assert(now[before.len() as int] == shared_text(top));
            if before.contains(shared_text(order)) {
                let k = choose|k: int| 0 <= k < before.len() && before[k] == shared_text(order);
                assert(now[k] == shared_text(order));
            }
            if now.contains(shared_text(order)) && order != top {
                let k = choose|k: int| 0 <= k < now.len() && now[k] == shared_text(order);
                assert(before[k] == shared_text(order));
            }
        }
    }
}

/// All that is wrong is told: what is wrong with the root configuration, each fault of each entry
/// with the file that it is in, and what the client found.
#[verifier::rlimit(30)]
pub proof fn law_all_faults_are_told(
    path: Seq<char>,
    content: Option<Seq<char>>,
    es: Seq<ManagedView>,
    external: Option<ExternalView>,
    external_issues: Seq<Seq<char>>,
)
    ensures
        ({
            let found = report_of(path, content, es, external, external_issues).issues;
            &&& content is None ==> found.contains("root config does not exist: "@ + path)
            &&& content is Some && !is_anchored(content->0) ==> found.contains(
                "root config is missing `Include ~/.ssh/config.d/*`: "@ + path,
            )
            &&& content is Some && is_named_twice(content->0) ==> found.contains(
                "root config contains multiple include anchors: "@ + path,
            )
            &&& forall|i: int, k: int|
                0 <= i < es.len() && 0 <= k < issues_of(es[i].entry).len() ==> found.contains(
                    es[i].path + ": "@ + #[trigger] issues_of(es[i].entry)[k],
                )
            &&& forall|k: int|
                0 <= k < external_issues.len() ==> found.contains(#[trigger] external_issues[k])
        }),
{
    lemma_entry_issues(es);
    let a = root_issues(path, content);
    let b = entry_file_issues(es);
    let c = order_issues(es);
    let found = a + b + c + external_issues;
    assert forall|x: Seq<char>| #[trigger] a.contains(x) implies found.contains(x) by {
        let k = choose|k: int| 0 <= k < a.len() && a[k] == x;
        assert(found[k] == x);
    }
    assert forall|x: Seq<char>| #[trigger] b.contains(x) implies found.contains(x) by {
        let k = choose|k: int| 0 <= k < b.len() && b[k] == x;
        assert(found[a.len() + k] == x);
    }
    assert forall|k: int| 0 <= k < external_issues.len() implies found.contains(
        #[trigger] external_issues[k],
    ) by {
        assert(found[a.len() + b.len() + c.len() + k] == external_issues[k]);
    }
    match content {
        None => {
            assert(a[0] == "root config does not exist: "@ + path);
            assert(a.contains("root config does not exist: "@ + path));
        },
        Some(text) => {
            lemma_anchored(text);
            lemma_twice(text);
            if !is_anchored(text) {
                assert(a[0] == "root config is missing `Include ~/.ssh/config.d/*`: "@ + path);
                assert(a.contains("root config is missing `Include ~/.ssh/config.d/*`: "@ + path));
            }
            if is_anchored_twice(text) {
                assert(a.last() == "root config contains multiple include anchors: "@ + path);
                assert(a[a.len() - 1] == a.last());
                assert(a.contains("root config contains multiple include anchors: "@ + path));
            }
        },
    }
}

pub open spec fn has_unsupported() -> spec_fn(BlockView) -> bool {
    |b: BlockView| b.unsupported.len() > 0
}

proof fn lemma_unsupported_count(bs: Seq<BlockView>)
    ensures
        unsupported_count(bs) == bs.filter(has_unsupported()).len(),
    decreases bs.len(),
{
    reveal(Seq::filter);
    if bs.len() > 0 {
        lemma_unsupported_count(bs.drop_last());
    }
}

/// The blocks of the root configuration and those of them that cannot be judged are counted.
pub proof fn law_blocks_are_counted(
    path: Seq<char>,
    content: Seq<char>,
    es: Seq<ManagedView>,
    external: Option<ExternalView>,
    external_issues: Seq<Seq<char>>,
)
    ensures
        ({
            let r = report_of(path, Some(content), es, external, external_issues);
            &&& r.managed_entries == es.len()
            &&& r.root_config_exists
            &&& r.match_blocks == blocks_of(content).len()
            &&& r.unsupported_blocks == blocks_of(content).filter(has_unsupported()).len()
            &&& r.has_managed_block || r.has_include_line <==> is_anchored(content)
            &&& r.external_ssh == external
        }),
{
    lemma_unsupported_count(blocks_of(content));
    lemma_anchored(content);
}

/// Each condition that cannot be judged is told, once.
pub proof fn law_unjudged_conditions_are_told(bs: Seq<BlockView>, x: Seq<char>)
    ensures
        unsupported_of(bs).contains(x) <==> exists|i: int|
            0 <= i < bs.len() && (#[trigger] bs[i]).unsupported.contains(x),
        unsupported_of(bs).no_duplicates(),
    decreases bs.len(),
{
    if bs.len() > 0 {
        let head = bs.drop_last();
        law_unjudged_conditions_are_told(head, x);
        lemma_added_once(unsupported_of(head), bs.last().unsupported, x);
        assert(bs[bs.len() - 1] == bs.last());
        if exists|i: int| 0 <= i < head.len() && (#[trigger] head[i]).unsupported.contains(x) {
            let i = choose|i: int|
                0 <= i < head.len() && (#[trigger] head[i]).unsupported.contains(x);
            assert(bs[i].unsupported.contains(x));
        }
        if exists|i: int| 0 <= i < bs.len() && (#[trigger] bs[i]).unsupported.contains(x) {
            let i = choose|i: int| 0 <= i < bs.len() && (#[trigger] bs[i]).unsupported.contains(x);
            if i < head.len() {
                assert(head[i].unsupported.contains(x));
            }
        }
    }
}

#[verifier::rlimit(30)]
proof fn lemma_added_once(seen: Seq<Seq<char>>, more: Seq<Seq<char>>, x: Seq<char>)
    requires
        seen.no_duplicates(),
    ensures
        added_once(seen, more).contains(x) <==> seen.contains(x) || more.contains(x),
        added_once(seen, more).no_duplicates(),
    decreases more.len(),
{
    if more.len() > 0 {
        let head = more.drop_last();
        let last = more.last();
        lemma_added_once(seen, head, x);
        lemma_added_once(seen, head, last);
        let before = added_once(seen, head);
        let now = added_once(seen, more);
        assert(more[more.len() - 1] == last);
        if more.contains(x) && x != last {
            let i = choose|i: int| 0 <= i < more.len() && more[i] == x;
            assert(head[i] == x);
        }
        if head.contains(x) {
            let i = choose|i: int| 0 <= i < head.len() && head[i] == x;
            assert(more[i] == x);
        }
        if !before.contains(last) {
            assert(now[before.len() as int] == last);
            if before.contains(x) {
                let i = choose|i: int| 0 <= i < before.len() && before[i] == x;
                assert(now[i] == x);
            }
            if now.contains(x) && x != last {
                let i = choose|i: int| 0 <= i < now.len() && now[i] == x;
                assert(before[i] == x);
            }
        }
    }
}

/// The written report shows each issue in a line of its own, and says that there is none where
/// there is none.
pub proof fn law_report_shows_each_issue(r: ReportView)
    ensures
        forall|i: int|
            0 <= i < r.issues.len() ==> report_lines(r).contains("- "@ + #[trigger] r.issues[i]),
        r.issues.len() == 0 ==> report_lines(r).contains("No validation issues found."@),
        r.issues.len() > 0 ==> starts_with(report_summary(r), "Validation failed with "@),
        r.issues.len() == 0 ==> starts_with(report_summary(r), "Validation passed | "@),
{
    let head = root_lines(r) + (match r.external_ssh {
        Some(x) => external_lines(x),
        None => Seq::empty(),
    });
    let tail = issue_lines(r.issues);
    let all = report_lines(r);
    assert(all =~= head + tail);
    assert forall|i: int| 0 <= i < r.issues.len() implies all.contains(
        "- "@ + #[trigger] r.issues[i],
    ) by {
        assert(tail[i + 2] == "- "@ + r.issues[i]);
        assert(all[head.len() + i + 2] == "- "@ + r.issues[i]);
    }
    if r.issues.len() == 0 {
        assert(all[head.len() as int + 1] == "No validation issues found."@);
        let p = "Validation passed | "@;
        let n = p.len() as int;
        let s = report_summary(r);
        assert(s.len() >= n);
        assert(s.take(n) =~= p);
    } else {
        let p = "Validation failed with "@;
        assert(report_summary(r).take(p.len() as int) =~= p);
    }
}

/// The written report shows what was counted, and what the client was asked for.
pub proof fn law_report_shows_the_counts(r: ReportView)
    ensures
        report_lines(r).contains("managed entries checked: "@ + decimal(r.managed_entries as nat)),
        report_lines(r).contains("root Match block count: "@ + decimal(r.match_blocks as nat)),
        report_lines(r).contains(
            "unsupported root Match block count: "@ + decimal(r.unsupported_blocks as nat),
        ),
        r.root_config_exists ==> report_lines(r).contains("root config exists: "@ + "true"@),
        !r.root_config_exists ==> report_lines(r).contains("root config exists: "@ + "false"@),
        r.external_ssh matches Some(x) ==> {
            &&& report_lines(r).contains("checked exact targets: "@ + decimal(x.checked as nat))
            &&& report_lines(r).contains(
                "skipped pattern-only entries: "@ + decimal(x.skipped_patterns as nat),
            )
            &&& report_lines(r).contains(
                "managed semantic mismatches: "@ + decimal(x.managed_semantic as nat),
            )
            &&& report_lines(r).contains("unclassified mismatches: "@ + decimal(x.unclassified as nat))
        },
{
    let all = report_lines(r);
    let root = root_lines(r);
    assert forall|i: int| 0 <= i < root.len() implies all[i] == #[trigger] root[i] by {}
    assert(all[0] == root[0]);
    assert(all[1] == root[1]);
    assert(all[4] == root[4]);
    assert(all[5] == root[5]);
    if let Some(x) = r.external_ssh {
        let ls = external_lines(x);
        let n = ls.len() - 8;
        assert forall|i: int| 0 <= i < ls.len() implies all[7 + i] == #[trigger] ls[i] by {}
        assert(ls[n] == "checked exact targets: "@ + decimal(x.checked as nat));
        assert(ls[n + 1] == "skipped pattern-only entries: "@ + decimal(x.skipped_patterns as nat));
        assert(ls[n + 6] == "managed semantic mismatches: "@ + decimal(x.managed_semantic as nat));
        assert(ls[n + 7] == "unclassified mismatches: "@ + decimal(x.unclassified as nat));
        assert(all[7 + n] == ls[n]);
        assert(all[7 + (n + 1)] == ls[n + 1]);
        assert(all[7 + (n + 6)] == ls[n + 6]);
        assert(all[7 + (n + 7)] == ls[n + 7]);
    }
}

} // verus!
