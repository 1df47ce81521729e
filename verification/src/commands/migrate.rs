//! Moving `Host` blocks of the root configuration into files of their own.

#![verifier::loop_isolation(false)]

use vstd::prelude::*;

use crate::commands::init::{
    HostBlockView, ManagedAnchorPlan, ParsedRootConfig, RootHostBlock, RootSegment, SegmentView,
    anchored, insert_managed_block_before_first_conditional, normalize_root_with_managed_anchor,
    opt_int, parse_root_config, root_parts, with_anchor_placed,
};
use crate::config::describe::push_all;
use crate::config::model::{HostEntry, HostView, ManagedEntry, ManagedView, copy_slice};
use crate::config::parser::{parse_block, parse_host_entry, parsed};
use crate::config::root_config::is_directive;
use crate::config::store::{managed, slug_of, slugify_host_pattern};
use crate::config::validate::{issues_of, validate_entry};
use crate::error::ConfigError;
use crate::strings::{
    before_suffix, concat2, concat3, concat4, concat5, copy_strs, decimal3_text, decimal_text,
    equal_ignoring_case, holds, joined, same, same_strs, split_key_value, split_lines, trimmed,
};
use crate::text::{decimal, decimal3, ends_with, join, key_value, lines, strs, trim, views};

verus! {

broadcast use crate::text::group_text;

// ---------------------------------------------------------------------------
// The types
// ---------------------------------------------------------------------------

/// A block that stays, and why.
#[derive(Debug, PartialEq, Eq)]
pub struct SkippedHostBlock {
    pub host: String,
    pub reason: String,
    pub source_start_line: usize,
    pub source_end_line: usize,
}

/// What a [`SkippedHostBlock`] holds.
#[verifier::ext_equal]
pub struct SkippedView {
    pub host: Seq<char>,
    pub reason: Seq<char>,
    pub source_start_line: int,
    pub source_end_line: int,
}

impl View for SkippedHostBlock {
    type V = SkippedView;

    open spec fn view(&self) -> SkippedView {
        SkippedView {
            host: self.host@,
            reason: self.reason@,
            source_start_line: self.source_start_line as int,
            source_end_line: self.source_end_line as int,
        }
    }
}

/// A block that is moved.
#[derive(Debug, PartialEq, Eq)]
pub struct PlannedMigratedHostBlock {
    pub host: String,
    pub host_patterns: Vec<String>,
    pub kind: String,
    pub source_start_line: usize,
    pub source_end_line: usize,
}

/// What a [`PlannedMigratedHostBlock`] holds.
#[verifier::ext_equal]
pub struct PlannedView {
    pub host: Seq<char>,
    pub host_patterns: Seq<Seq<char>>,
    pub kind: Seq<char>,
    pub source_start_line: int,
    pub source_end_line: int,
}

impl View for PlannedMigratedHostBlock {
    type V = PlannedView;

    open spec fn view(&self) -> PlannedView {
        PlannedView {
            host: self.host@,
            host_patterns: strs(self.host_patterns@),
            kind: self.kind@,
            source_start_line: self.source_start_line as int,
            source_end_line: self.source_end_line as int,
        }
    }
}

/// A block that was moved, and where to.
#[derive(Debug, PartialEq, Eq)]
pub struct MigrationEntryReport {
    pub host: String,
    pub host_patterns: Vec<String>,
    pub kind: String,
    pub source_start_line: usize,
    pub source_end_line: usize,
    pub order: u16,
    pub managed_path: String,
}

/// What a [`MigrationEntryReport`] holds.
#[verifier::ext_equal]
pub struct MovedView {
    pub planned: PlannedView,
    pub order: u16,
    pub managed_path: Seq<char>,
}

impl View for MigrationEntryReport {
    type V = MovedView;

    open spec fn view(&self) -> MovedView {
        MovedView {
            planned: PlannedView {
                host: self.host@,
                host_patterns: strs(self.host_patterns@),
                kind: self.kind@,
                source_start_line: self.source_start_line as int,
                source_end_line: self.source_end_line as int,
            },
            order: self.order,
            managed_path: self.managed_path@,
        }
    }
}

/// What is to be done.
#[derive(Debug)]
pub struct MigrationPlan {
    pub rewritten_root: String,
    pub ordered_entries: Vec<ManagedEntry>,
    pub attempted_blocks: usize,
    pub migrated_blocks: usize,
    pub migrated_entries: Vec<PlannedMigratedHostBlock>,
    pub skipped_blocks: Vec<SkippedHostBlock>,
    pub include_written: bool,
    pub include_already_present: bool,
}

/// What a [`MigrationPlan`] holds.
#[verifier::ext_equal]
pub struct PlanView {
    pub rewritten_root: Seq<char>,
    pub ordered_entries: Seq<ManagedView>,
    pub attempted_blocks: int,
    pub migrated_blocks: int,
    pub migrated_entries: Seq<PlannedView>,
    pub skipped_blocks: Seq<SkippedView>,
    pub include_written: bool,
    pub include_already_present: bool,
}

impl View for MigrationPlan {
    type V = PlanView;

    open spec fn view(&self) -> PlanView {
        PlanView {
            rewritten_root: self.rewritten_root@,
            ordered_entries: views(self.ordered_entries@),
            attempted_blocks: self.attempted_blocks as int,
            migrated_blocks: self.migrated_blocks as int,
            migrated_entries: views(self.migrated_entries@),
            skipped_blocks: views(self.skipped_blocks@),
            include_written: self.include_written,
            include_already_present: self.include_already_present,
        }
    }
}

// ---------------------------------------------------------------------------
// One block
// ---------------------------------------------------------------------------

/// What stands behind `Host` in the first such line.
pub open spec fn block_label(ls: Seq<Seq<char>>) -> Seq<char>
    decreases ls.len(),
{
    if ls.len() == 0 {
        "<unknown>"@
    } else if is_directive(trim(ls[0]), "Host"@) {
        (key_value(trim(ls[0]))->0).1
    } else {
        block_label(ls.skip(1))
    }
}

fn summarize_host_block(raw: &str) -> (r: String)
    ensures
        r@ == block_label(lines(raw@)),
{
    let all: Vec<String> = split_lines(raw);
    let ghost ls = strs(all@);
    let mut i: usize = 0;
    while i < all.len()
        invariant
            i <= all@.len(),
            ls == strs(all@),
            block_label(ls) == block_label(ls.skip(i as int)),
        decreases all@.len() - i,
    {
        assert(ls.skip(i as int)[0] == all@[i as int]@);
        let line: String = trimmed(&all[i]);
        match split_key_value(&line) {
            Some((key, value)) => {
                if equal_ignoring_case(&key, "Host") {
                    return value;
                }
            },
            None => {},
        }
        i += 1;
    }
    "<unknown>".to_owned()
}

/// Goes through the patterns of a block: gives the patterns seen so far, and the host and reason
/// where one of them is taken.
pub open spec fn claim_patterns(
    patterns: Seq<Seq<char>>,
    existing: Seq<Seq<char>>,
    seen: Seq<Seq<char>>,
    label: Seq<char>,
) -> (Seq<Seq<char>>, Option<(Seq<char>, Seq<char>)>)
    decreases patterns.len(),
{
    if patterns.len() == 0 {
        (seen, None)
    } else if existing.contains(patterns[0]) {
        (
            seen,
            Some(
                (label, "host pattern `"@ + patterns[0] + "` already exists in managed config"@),
            ),
        )
    } else if seen.contains(patterns[0]) {
        (
            seen,
            Some((patterns[0], "host pattern is duplicated within migrated root config"@)),
        )
    } else {
        claim_patterns(patterns.skip(1), existing, seen.push(patterns[0]), label)
    }
}

/// The entry of a block that can be moved, or why it stays; and the patterns seen so far.
pub open spec fn judged(
    b: HostBlockView,
    existing: Seq<Seq<char>>,
    seen: Seq<Seq<char>>,
) -> (Seq<Seq<char>>, Result<HostView, SkippedView>) {
    let label = block_label(lines(b.raw));
    match parse_block("root-config"@, b.raw, true) {
        Err(e) => (seen, Err(skipped(b, label, e.message))),
        Ok(entry) => if issues_of(entry).len() > 0 {
            (seen, Err(skipped(b, label, join(issues_of(entry), "; "@))))
        } else {
            let (after, taken) = claim_patterns(entry.host_patterns, existing, seen, label);
            match taken {
                Some((host, reason)) => (after, Err(skipped(b, host, reason))),
                None => (after, Ok(entry)),
            }
        },
    }
}

pub open spec fn skipped(b: HostBlockView, host: Seq<char>, reason: Seq<char>) -> SkippedView {
    SkippedView {
        host,
        reason,
        source_start_line: b.start_line,
        source_end_line: b.end_line,
    }
}

fn make_skipped(b: &RootHostBlock, host: String, reason: String) -> (r: SkippedHostBlock)
    ensures
        r@ == skipped(b@, host@, reason@),
{
    SkippedHostBlock {
        host,
        reason,
        source_start_line: b.start_line,
        source_end_line: b.end_line,
    }
}

fn evaluate_host_block(
    block: &RootHostBlock,
    existing: &Vec<String>,
    seen: &mut Vec<String>,
) -> (r: Result<HostEntry, SkippedHostBlock>)
    ensures
        judged(block@, strs(existing@), strs(old(seen)@)) == (
            strs(final(seen)@),
            match r {
                Ok(e) => Ok(e@),
                Err(s) => Err(s@),
            },
        ),
{
    let label: String = summarize_host_block(&block.raw);
    let entry: HostEntry = match parse_host_entry("root-config", &block.raw) {
        Ok(e) => e,
        Err(e) => {
            return Err(make_skipped(block, label, e.message));
        },
    };
    match validate_entry(&entry) {
        Ok(_) => {},
        Err(e) => {
            return Err(make_skipped(block, label, e.text()));
        },
    }
    let ghost ps = strs(entry.host_patterns@);
    let ghost whole = claim_patterns(ps, strs(existing@), strs(seen@), label@);
    let mut i: usize = 0;
    while i < entry.host_patterns.len()
        invariant
            i <= entry.host_patterns@.len(),
            ps == strs(entry.host_patterns@),
            whole == claim_patterns(ps.skip(i as int), strs(existing@), strs(seen@), label@),
        decreases entry.host_patterns@.len() - i,
    {
        let pattern: &String = &entry.host_patterns[i];
        assert(ps.skip(i as int)[0] == pattern@);
        if holds(existing, pattern) {
            let reason: String = concat3(
                "host pattern `",
                pattern,
                "` already exists in managed config",
            );
            return Err(make_skipped(block, label, reason));
        }
        if holds(seen, pattern) {
            return Err(
                make_skipped(
                    block,
                    pattern.clone(),
                    "host pattern is duplicated within migrated root config".to_owned(),
                ),
            );
        }
        seen.push(pattern.clone());
        i += 1;
    }
    Ok(entry)
}

// ---------------------------------------------------------------------------
// All blocks
// ---------------------------------------------------------------------------

/// How far the root configuration has been gone through. `before` and `after` are the entries
/// that go before and behind those that are already managed.
struct Migration {
    output: String,
    before: Vec<ManagedEntry>,
    after: Vec<ManagedEntry>,
    reports: Vec<PlannedMigratedHostBlock>,
    seen: Vec<String>,
    skipped: Vec<SkippedHostBlock>,
    attempted: usize,
}

/// How far the root configuration has been gone through.
#[verifier::ext_equal]
pub struct MigrationView {
    pub output: Seq<char>,
    pub before: Seq<ManagedView>,
    pub after: Seq<ManagedView>,
    pub reports: Seq<PlannedView>,
    pub seen: Seq<Seq<char>>,
    pub skipped: Seq<SkippedView>,
    pub attempted: int,
}

impl View for Migration {
    type V = MigrationView;

    closed spec fn view(&self) -> MigrationView {
        MigrationView {
            output: self.output@,
            before: views(self.before@),
            after: views(self.after@),
            reports: views(self.reports@),
            seen: strs(self.seen@),
            skipped: views(self.skipped@),
            attempted: self.attempted as int,
        }
    }
}

/// An entry that has no file yet.
pub open spec fn unplaced(e: HostView, raw: Seq<char>) -> ManagedView {
    ManagedView {
        order: 0,
        slug: slug_of(e.primary()),
        path: Seq::empty(),
        raw_content: raw,
        entry: e,
    }
}

pub open spec fn planned(b: HostBlockView, e: HostView) -> PlannedView {
    PlannedView {
        host: e.primary(),
        host_patterns: e.host_patterns,
        kind: e.kind().spec_label(),
        source_start_line: b.start_line,
        source_end_line: b.end_line,
    }
}

/// What a stretch of the root configuration makes of `m`. A block that is moved takes the trivia
/// before it along.
pub open spec fn segment_step(
    m: MigrationView,
    s: SegmentView,
    index: int,
    anchor: Option<int>,
    existing: Seq<Seq<char>>,
) -> Result<MigrationView, Seq<char>> {
    match s {
        SegmentView::Preserved(raw) => Ok(MigrationView { output: m.output + raw, ..m }),
        SegmentView::Anchor(_) => Ok(m),
        SegmentView::HostBlock(b) => {
            let (seen, verdict) = judged(b, existing, m.seen);
            match verdict {
                Err(s) => Ok(
                    MigrationView {
                        output: m.output + b.raw,
                        seen,
                        skipped: m.skipped.push(s),
                        attempted: m.attempted + 1,
                        ..m
                    },
                ),
                Ok(e) => if !ends_with(m.output, b.leading_trivia) {
                    Err(
                        "failed to trim leading trivia for migrated host `"@ + e.primary()
                            + "`: expected content to end with tracked leading trivia"@,
                    )
                } else {
                    let entry = unplaced(e, b.leading_trivia + b.raw);
                    let first = anchor is None || index < anchor->0;
                    Ok(
                        MigrationView {
                            output: m.output.take(m.output.len() - b.leading_trivia.len()),
                            before: if first {
                                m.before.push(entry)
                            } else {
                                m.before
                            },
                            after: if first {
                                m.after
                            } else {
                                m.after.push(entry)
                            },
                            reports: m.reports.push(planned(b, e)),
                            seen,
                            attempted: m.attempted + 1,
                            ..m
                        },
                    )
                },
            }
        },
    }
}

/// What all stretches from index `from` on make of `m`, or the first refusal.
pub open spec fn segments_step(
    m: MigrationView,
    ss: Seq<SegmentView>,
    from: int,
    anchor: Option<int>,
    existing: Seq<Seq<char>>,
) -> Result<MigrationView, Seq<char>>
    decreases ss.len(),
{
    if ss.len() == 0 {
        Ok(m)
    } else {
        match segment_step(m, ss[0], from, anchor, existing) {
            Err(e) => Err(e),
            Ok(next) => segments_step(next, ss.skip(1), from + 1, anchor, existing),
        }
    }
}

/// The patterns of the entries, one behind the other.
pub open spec fn all_host_patterns(es: Seq<ManagedView>) -> Seq<Seq<char>>
    decreases es.len(),
{
    if es.len() == 0 {
        Seq::empty()
    } else {
        all_host_patterns(es.drop_last()) + es.last().entry.host_patterns
    }
}

pub open spec fn nothing_moved() -> MigrationView {
    MigrationView {
        output: Seq::empty(),
        before: Seq::empty(),
        after: Seq::empty(),
        reports: Seq::empty(),
        seen: Seq::empty(),
        skipped: Seq::empty(),
        attempted: 0,
    }
}

/// What moving the blocks of a root configuration comes to, or why it cannot be done.
pub open spec fn migration_plan(content: Seq<char>, es: Seq<ManagedView>, newline: Seq<char>) -> Result<
    PlanView,
    Seq<char>,
> {
    match root_parts(content) {
        Err(e) => Err(e),
        Ok(p) => if p.anchor_count > 1 {
            Err("root config contains multiple include anchors; migration is not safe"@)
        } else {
            match segments_step(
                nothing_moved(),
                p.segments,
                0,
                p.anchor_index,
                all_host_patterns(es),
            ) {
                Err(e) => Err(e),
                Ok(m) => Ok(
                    PlanView {
                        rewritten_root: with_anchor_placed(m.output, newline),
                        ordered_entries: m.before + es + m.after,
                        attempted_blocks: m.attempted,
                        migrated_blocks: (m.before.len() + m.after.len()) as int,
                        migrated_entries: m.reports,
                        skipped_blocks: m.skipped,
                        include_written: (anchored(content, newline)->Ok_0).0 != content,
                        include_already_present: p.anchor_index is Some,
                    },
                ),
            }
        },
    }
}

fn collect_patterns(entries: &[ManagedEntry]) -> (r: Vec<String>)
    ensures
        strs(r@) == all_host_patterns(views(entries@)),
{
    let ghost es = views(entries@);
    let mut out: Vec<String> = Vec::new();
    let mut i: usize = 0;
    while i < entries.len()
        invariant
            i <= entries@.len(),
            es == views(entries@),
            strs(out@) == all_host_patterns(es.take(i as int)),
        decreases entries@.len() - i,
    {
        push_all(&mut out, copy_strs(&entries[i].entry.host_patterns));
        i += 1;
    }
    out
}

fn unmanaged_entry_to_managed(entry: &HostEntry, raw_content: String) -> (r: ManagedEntry)
    ensures
        r@ == unplaced(entry@, raw_content@),
{
    let r = ManagedEntry {
        order: 0,
        slug: slugify_host_pattern(entry.primary_pattern()),
        path: String::new(),
        raw_content,
        entry: entry.clone(),
    };
    assert(r@ =~= unplaced(entry@, raw_content@));
    r
}

fn migrate_block(
    m: &mut Migration,
    b: &RootHostBlock,
    first: bool,
    existing: &Vec<String>,
) -> (r: Result<(), ConfigError>)
    requires
        old(m)@.attempted < usize::MAX,
    ensures
        ({
            let anchor = if first {
                None
            } else {
                Some(0int)
            };
            segment_step(
                old(m)@,
                SegmentView::HostBlock(b@),
                0,
                anchor,
                strs(existing@),
            ) == (match r {
                Ok(_) => Ok(final(m)@),
                Err(e) => Err(e@),
            })
        }),
{
    let ghost was = m@;
    let ghost anchor = if first {
        None
    } else {
        Some(0int)
    };
    let verdict: Result<HostEntry, SkippedHostBlock> = evaluate_host_block(
        b,
        existing,
        &mut m.seen,
    );
    m.attempted = m.attempted + 1;
    match verdict {
        Err(s) => {
            m.skipped.push(s);
            m.output.push_str(&b.raw);
            assert(m@ =~= segment_step(
                was,
                SegmentView::HostBlock(b@),
                0,
                anchor,
                strs(existing@),
            )->Ok_0);
            Ok(())
        },
        Ok(e) => {
            match before_suffix(&m.output, &b.leading_trivia) {
                None => {
                    return Err(
                        ConfigError::new(
                            concat3(
                                "failed to trim leading trivia for migrated host `",
                                e.primary_pattern(),
                                "`: expected content to end with tracked leading trivia",
                            ),
                        ),
                    );
                },
                Some(rest) => {
                    m.output = rest;
                },
            }
            m.reports.push(
                PlannedMigratedHostBlock {
                    host: e.primary_pattern().to_owned(),
                    host_patterns: copy_strs(&e.host_patterns),
                    kind: e.kind().label().to_owned(),
                    source_start_line: b.start_line,
                    source_end_line: b.end_line,
                },
            );
            let entry: ManagedEntry = unmanaged_entry_to_managed(
                &e,
                concat2(&b.leading_trivia, &b.raw),
            );
            if first {
                m.before.push(entry);
            } else {
                m.after.push(entry);
            }
            assert(m@ =~= segment_step(
                was,
                SegmentView::HostBlock(b@),
                0,
                anchor,
                strs(existing@),
            )->Ok_0);
            Ok(())
        },
    }
}

fn migrate_segments(parsed: &ParsedRootConfig, existing: &Vec<String>) -> (r: Result<
    Migration,
    ConfigError,
>)
    ensures
        segments_step(
            nothing_moved(),
            parsed@.segments,
            0,
            parsed@.anchor_index,
            strs(existing@),
        ) == (match r {
            Ok(m) => Ok(m@),
            Err(e) => Err(e@),
        }),
        r matches Ok(m) ==> m@.before.len() + m@.after.len() <= parsed@.segments.len(),
{
    let mut m = Migration {
        output: String::new(),
        before: Vec::new(),
        after: Vec::new(),
        reports: Vec::new(),
        seen: Vec::new(),
        skipped: Vec::new(),
        attempted: 0,
    };
    assert(m@ =~= nothing_moved());
    let ghost ss = parsed@.segments;
    let ghost anchor = parsed@.anchor_index;
    let ghost known = strs(existing@);
    let mut i: usize = 0;
    while i < parsed.segments.len()
        invariant
            i <= parsed.segments.len(),
            ss == views(parsed.segments@),
            anchor == opt_int(parsed.anchor_index),
            known == strs(existing@),
            m@.attempted <= i,
            m@.before.len() + m@.after.len() <= i,
            segments_step(nothing_moved(), ss, 0, anchor, known) == segments_step(
                m@,
                ss.skip(i as int),
                i as int,
                anchor,
                known,
            ),
        decreases parsed.segments@.len() - i,
    {
        assert(ss.skip(i as int)[0] == parsed.segments@[i as int]@);
        match &parsed.segments[i] {
            RootSegment::Preserved(raw) => {
                let ghost was = m@;
                m.output.push_str(raw);
                assert(m@ =~= MigrationView { output: was.output + raw@, ..was });
            },
            RootSegment::Anchor(_) => {},
            RootSegment::HostBlock(b) => {
                let first: bool = match parsed.anchor_index {
                    None => true,
                    Some(a) => i < a,
                };
                match migrate_block(&mut m, b, first, existing) {
                    Ok(_) => {},
                    Err(e) => {
                        return Err(e);
                    },
                }
            },
        }
        i += 1;
    }
    Ok(m)
}

pub fn plan_root_migration(content: &str, existing_entries: &[ManagedEntry], newline: &str) -> (r:
    Result<MigrationPlan, ConfigError>)
    ensures
        migration_plan(content@, views(existing_entries@), newline@) == (match r {
            Ok(p) => Ok(p@),
            Err(e) => Err(e@),
        }),
{
    let parsed: ParsedRootConfig = match parse_root_config(content) {
        Ok(p) => p,
        Err(e) => {
            return Err(e);
        },
    };
    if parsed.anchor_count > 1 {
        return Err(
            ConfigError::of(
                "root config contains multiple include anchors; migration is not safe",
            ),
        );
    }
    let anchor_plan: ManagedAnchorPlan = match normalize_root_with_managed_anchor(
        content,
        newline,
    ) {
        Ok(p) => p,
        Err(e) => {
            return Err(e);
        },
    };
    let existing: Vec<String> = collect_patterns(existing_entries);
    let segments: usize = parsed.segments.len();
    let m: Migration = match migrate_segments(&parsed, &existing) {
        Ok(m) => m,
        Err(e) => {
            return Err(e);
        },
    };
    let ghost done = m@;
    let ghost es = views(existing_entries@);
    assert(views(m.before@).len() == m.before@.len());
    assert(views(m.after@).len() == m.after@.len());
    assert(done.before.len() + done.after.len() <= segments);
    let migrated_blocks: usize = m.before.len() + m.after.len();
    let rewritten_root: String = insert_managed_block_before_first_conditional(&m.output, newline);
    let mut ordered_entries: Vec<ManagedEntry> = m.before;
    let mut managed: Vec<ManagedEntry> = copy_slice(existing_entries);
    let mut after: Vec<ManagedEntry> = m.after;
    ordered_entries.append(&mut managed);
    ordered_entries.append(&mut after);
    assert(views(ordered_entries@) =~= done.before + es + done.after);
    let include_written: bool = !same(&anchor_plan.rewritten_root, content);
    let r = MigrationPlan {
        rewritten_root,
        ordered_entries,
        attempted_blocks: m.attempted,
        migrated_blocks,
        migrated_entries: m.reports,
        skipped_blocks: m.skipped,
        include_written,
        include_already_present: anchor_plan.had_anchor,
    };
    Ok(r)
}

// ---------------------------------------------------------------------------
// Reports
// ---------------------------------------------------------------------------

/// How many entries stand before the first with the same patterns.
pub open spec fn until_patterns(es: Seq<ManagedView>, patterns: Seq<Seq<char>>) -> nat
    decreases es.len(),
{
    if es.len() == 0 || es[0].entry.host_patterns == patterns {
        0
    } else {
        1 + until_patterns(es.skip(1), patterns)
    }
}

/// What is told of the blocks that were moved, behind `acc`, or the first refusal.
pub open spec fn moved_reports(
    ps: Seq<PlannedView>,
    es: Seq<ManagedView>,
    acc: Seq<MovedView>,
) -> Result<Seq<MovedView>, Seq<char>>
    decreases ps.len(),
{
    if ps.len() == 0 {
        Ok(acc)
    } else {
        let n = until_patterns(es, ps[0].host_patterns);
        if n >= es.len() {
            Err(
                "migrated entry `"@ + ps[0].host + "` disappeared before report generation"@,
            )
        } else {
            moved_reports(
                ps.skip(1),
                es,
                acc.push(
                    MovedView {
                        planned: ps[0],
                        order: es[n as int].order,
                        managed_path: es[n as int].path,
                    },
                ),
            )
        }
    }
}

fn find_by_patterns(entries: &[ManagedEntry], patterns: &Vec<String>) -> (r: usize)
    ensures
        r == until_patterns(views(entries@), strs(patterns@)),
        r <= entries@.len(),
{
    let ghost es = views(entries@);
    let mut i: usize = 0;
    while i < entries.len() && !same_strs(&entries[i].entry.host_patterns, patterns)
        invariant
            i <= entries@.len(),
            es == views(entries@),
            until_patterns(es, strs(patterns@)) == i + until_patterns(
                es.skip(i as int),
                strs(patterns@),
            ),
        decreases entries@.len() - i,
    {
        assert(es.skip(i as int)[0] == entries@[i as int]@);
        i += 1;
    }
    assert(i < entries@.len() ==> es.skip(i as int)[0] == entries@[i as int]@);
    i
}

pub fn build_migrated_entry_reports(
    planned: &Vec<PlannedMigratedHostBlock>,
    final_entries: &[ManagedEntry],
) -> (r: Result<Vec<MigrationEntryReport>, ConfigError>)
    ensures
        moved_reports(views(planned@), views(final_entries@), Seq::empty()) == (match r {
            Ok(v) => Ok(views(v@)),
            Err(e) => Err(e@),
        }),
{
    let ghost ps = views(planned@);
    let ghost es = views(final_entries@);
    let mut out: Vec<MigrationEntryReport> = Vec::new();
    let mut i: usize = 0;
    while i < planned.len()
        invariant
            i <= planned@.len(),
            ps == views(planned@),
            es == views(final_entries@),
            moved_reports(ps, es, Seq::empty()) == moved_reports(
                ps.skip(i as int),
                es,
                views(out@),
            ),
        decreases planned@.len() - i,
    {
        let p: &PlannedMigratedHostBlock = &planned[i];
        assert(ps.skip(i as int)[0] == p@);
        let n: usize = find_by_patterns(final_entries, &p.host_patterns);
        if n >= final_entries.len() {
            return Err(
                ConfigError::new(
                    concat3(
                        "migrated entry `",
                        &p.host,
                        "` disappeared before report generation",
                    ),
                ),
            );
        }
        out.push(
            MigrationEntryReport {
                host: p.host.clone(),
                host_patterns: copy_strs(&p.host_patterns),
                kind: p.kind.clone(),
                source_start_line: p.source_start_line,
                source_end_line: p.source_end_line,
                order: final_entries[n].order,
                managed_path: final_entries[n].path.clone(),
            },
        );
        i += 1;
    }
    Ok(out)
}

pub open spec fn moved_text(m: MovedView) -> Seq<char> {
    "migrated lines "@ + decimal(m.planned.source_start_line as nat) + "-"@ + decimal(
        m.planned.source_end_line as nat,
    ) + " `"@ + m.planned.host + "` ["@ + m.planned.kind + "] -> "@ + decimal3(m.order as nat)
        + " "@ + m.managed_path + (if m.planned.host_patterns.len() > 1 {
        " | patterns "@ + join(m.planned.host_patterns, ","@)
    } else {
        Seq::empty()
    })
}

/// A block that was moved, in words.
pub fn migrated_line(m: &MigrationEntryReport) -> (r: String)
    ensures
        r@ == moved_text(m@),
{
    let a: String = concat4(
        "migrated lines ",
        &decimal_text(m.source_start_line),
        "-",
        &decimal_text(m.source_end_line),
    );
    let b: String = concat5(&a, " `", &m.host, "` [", &m.kind);
    let mut out: String = concat5(&b, "] -> ", &decimal3_text(m.order), " ", &m.managed_path);
    assert(strs(m.host_patterns@).len() == m.host_patterns@.len());
    let ghost was = out@;
    if m.host_patterns.len() > 1 {
        out.push_str(&concat2(" | patterns ", &joined(&m.host_patterns, ",")));
    } else {
        assert(was + Seq::<char>::empty() =~= was);
    }
    out
}

pub open spec fn skipped_text(s: SkippedView) -> Seq<char> {
    "skipped lines "@ + decimal(s.source_start_line as nat) + "-"@ + decimal(
        s.source_end_line as nat,
    ) + " `"@ + s.host + "`: "@ + s.reason
}

/// A block that stays, in words.
pub fn skipped_line(s: &SkippedHostBlock) -> (r: String)
    ensures
        r@ == skipped_text(s@),
{
    let a: String = concat4(
        "skipped lines ",
        &decimal_text(s.source_start_line),
        "-",
        &decimal_text(s.source_end_line),
    );
    concat5(&a, " `", &s.host, "`: ", &s.reason)
}

} // verus!
