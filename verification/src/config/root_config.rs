//! The `Match` blocks of the root configuration: where they stand, and when they apply.

#![verifier::loop_isolation(false)]

use vstd::prelude::*;

use crate::config::local_networks::{local_network_matches, networks_match};
use crate::config::match_header::{
    BlockView, ContextView, CriterionView, MatchCondition, MatchContext, MatchCriterion,
    MatchKeyword, RootMatchBlock, criterion, header_meaning, parse_match_condition,
};
use crate::config::model::{HostEntry, HostView, empty_host};
use crate::config::parser::{parse_block, parse_match_entry, parsed};
use crate::config::pattern::{
    lemma_portable_list, list_matches_optional, list_may_say, list_portable, pattern_list_matches,
    pattern_list_matches_optional, verdict,
};
use crate::error::{ConfigError, FaultView};
use crate::layout::{MANAGED_BLOCK_END, MANAGED_BLOCK_START, MANAGED_INCLUDE_LINE};
use crate::strings::{
    equal_ignoring_case, holds, joined, same, split_key_value, split_lines, split_raw_lines,
    trimmed,
};
use crate::text::{
    concat, join, key_value, lines, opt_str, raw_lines, same_ignoring_case, strs, trim, views,
};

verus! {

broadcast use crate::text::group_text;

// ---------------------------------------------------------------------------
// Finding the blocks
// ---------------------------------------------------------------------------

/// The line is a directive of that name.
pub open spec fn is_directive(line: Seq<char>, name: Seq<char>) -> bool {
    key_value(line) matches Some((key, _)) && same_ignoring_case(key, name)
}

/// A line that ends the block before it.
pub open spec fn ends_block(raw: Seq<char>) -> bool {
    let line = trim(raw);
    ||| line == MANAGED_BLOCK_START@
    ||| same_ignoring_case(line, MANAGED_INCLUDE_LINE@)
    ||| is_directive(line, "Host"@)
    ||| is_directive(line, "Match"@)
}

/// How many lines stand before the first that ends a block.
pub open spec fn until_end(ls: Seq<Seq<char>>) -> nat
    decreases ls.len(),
{
    if ls.len() == 0 || ends_block(ls[0]) {
        0
    } else {
        1 + until_end(ls.skip(1))
    }
}

/// The directives of a block: all its lines but the first.
pub open spec fn body_of(raw: Seq<char>) -> Result<HostView, FaultView> {
    parse_block("root-match"@, join(without_first(lines(raw)), "\n"@), false)
}

pub open spec fn without_first(ls: Seq<Seq<char>>) -> Seq<Seq<char>> {
    if ls.len() == 0 {
        ls
    } else {
        ls.skip(1)
    }
}

/// What the lines `raw` of a block say, the first of which is `header`; or why they say nothing,
/// without a further cause.
pub open spec fn block_meaning(header: Seq<char>, raw: Seq<char>) -> Result<
    (Option<Seq<CriterionView>>, Seq<Seq<char>>, HostView),
    Seq<char>,
> {
    match key_value(header) {
        None => Err("invalid Match header"@),
        Some((key, body)) => if !same_ignoring_case(key, "Match"@) {
            Err("not a Match header"@)
        } else {
            match header_meaning(body) {
                Err(e) => Err(e),
                Ok((condition, unsupported)) => match body_of(raw) {
                    Err(e) => Err(e.message),
                    Ok(entry) => Ok((condition, unsupported, entry)),
                },
            }
        },
    }
}

/// The block whose lines are `ls`, the first of which has the number `start`. One that cannot
/// be read has the refusal for its only condition, and never applies.
pub open spec fn block_of(ls: Seq<Seq<char>>, start: int, before_anchor: bool) -> BlockView {
    let raw = concat(ls);
    match block_meaning(trim(ls[0]), raw) {
        Ok((condition, unsupported, entry)) => BlockView {
            raw,
            start_line: start,
            end_line: start + ls.len() - 1,
            condition,
            entry,
            unsupported,
            before_anchor,
        },
        Err(e) => BlockView {
            raw,
            start_line: start,
            end_line: start + ls.len() - 1,
            condition: None,
            entry: empty_host(),
            unsupported: seq![e],
            before_anchor,
        },
    }
}

/// The `Match` blocks among the lines `ls`, of which `n` stand before the first. `inside` holds
/// between the lines of the managed block, `anchor` once the managed entries have been seen.
pub open spec fn blocks_from(ls: Seq<Seq<char>>, n: int, inside: bool, anchor: bool) -> Seq<
    BlockView,
>
    decreases ls.len(),
{
    if ls.len() == 0 {
        Seq::empty()
    } else {
        let line = trim(ls[0]);
        let rest = ls.skip(1);
        if inside {
            let over = line == MANAGED_BLOCK_END@;
            blocks_from(rest, n + 1, !over, anchor || over)
        } else if line == MANAGED_BLOCK_START@ {
            blocks_from(rest, n + 1, true, anchor)
        } else if same_ignoring_case(line, MANAGED_INCLUDE_LINE@) {
            blocks_from(rest, n + 1, false, true)
        } else if is_directive(line, "Match"@) {
            let k = 1 + until_end(rest);
            let after = if k <= ls.len() {
                ls.skip(k as int)
            } else {
                Seq::empty()
            };
            seq![block_of(ls.take(k as int), n + 1, !anchor)] + blocks_from(
                after,
                n + k,
                false,
                anchor,
            )
        } else {
            blocks_from(rest, n + 1, false, anchor)
        }
    }
}

/// The `Match` blocks of a root configuration.
pub open spec fn blocks_of(content: Seq<char>) -> Seq<BlockView> {
    blocks_from(raw_lines(content), 0, false, false)
}

/// Whether the line is a directive of that name.
pub fn line_is_directive(line: &str, name: &str) -> (r: bool)
    ensures
        r == is_directive(line@, name@),
{
    match split_key_value(line) {
        Some((key, _)) => equal_ignoring_case(&key, name),
        None => false,
    }
}

pub fn line_ends_block(raw: &str) -> (r: bool)
    ensures
        r == ends_block(raw@),
{
    let line: String = trimmed(raw);
    same(&line, MANAGED_BLOCK_START) || equal_ignoring_case(&line, MANAGED_INCLUDE_LINE)
        || line_is_directive(&line, "Host") || line_is_directive(&line, "Match")
}

fn parse_match_body(raw: &str) -> (r: Result<HostEntry, ConfigError>)
    ensures
        parsed(r) == body_of(raw@),
{
    let all: Vec<String> = split_lines(raw);
    let mut rest: Vec<String> = Vec::new();
    let ghost ls = strs(all@);
    let mut i: usize = 1;
    while i < all.len()
        invariant
            1 <= i,
            i <= all@.len() || i == 1,
            ls == strs(all@),
            ls.len() > 0 ==> strs(rest@) == ls.skip(1).take(i - 1),
            ls.len() == 0 ==> rest@.len() == 0,
        decreases all.len() - i,
    {
        rest.push(all[i].clone());
        assert(ls.skip(1)[i - 1] == all@[i as int]@);
        i += 1;
    }
    assert(strs(rest@) =~= without_first(ls));
    parse_match_entry("root-match", &joined(&rest, "\n"))
}

/// Reads the lines of a block.
fn parse_match_block(header: &str, raw: &str) -> (r: Result<
    (MatchCondition, Vec<String>, HostEntry),
    String,
>)
    ensures
        match r {
            Ok((c, u, e)) => block_meaning(header@, raw@) == Ok::<
                (Option<Seq<CriterionView>>, Seq<Seq<char>>, HostView),
                Seq<char>,
            >((c@, strs(u@), e@)),
            Err(e) => block_meaning(header@, raw@) == Err::<
                (Option<Seq<CriterionView>>, Seq<Seq<char>>, HostView),
                Seq<char>,
            >(e@),
        },
{
    match split_key_value(header) {
        None => Err("invalid Match header".to_string()),
        Some((key, body)) => {
            if !equal_ignoring_case(&key, "Match") {
                return Err("not a Match header".to_string());
            }
            match parse_match_condition(&body) {
                Err(e) => Err(e.text()),
                Ok((condition, unsupported)) => match parse_match_body(raw) {
                    Err(e) => Err(e.message),
                    Ok(entry) => Ok((condition, unsupported, entry)),
                },
            }
        },
    }
}

/// Reads the block that starts at the line of index `at`, and gives back where it ends.
fn read_block(all: &Vec<String>, at: usize, before_anchor: bool) -> (r: (RootMatchBlock, usize))
    requires
        at < all.len(),
    ensures
        r.1 == at + 1 + until_end(strs(all@).skip(at as int).skip(1)),
        at < r.1 <= all@.len(),
        r.0@ == block_of(strs(all@).skip(at as int).take(r.1 - at), at + 1, before_anchor),
{
    let ghost ls = strs(all@);
    let ghost left = ls.skip(at as int);
    let header: String = trimmed(&all[at]);
    let mut raw: String = all[at].clone();
    let mut i: usize = at + 1;
    proof {
        reveal_with_fuel(concat, 2);
        assert(left.take(1).drop_last() =~= Seq::<Seq<char>>::empty());
        assert(left.take(1).last() == all@[at as int]@);
        assert(raw@ =~= concat(left.take(1)));
    }
    while i < all.len() && !line_ends_block(&all[i])
        invariant
            at < i <= all@.len(),
            ls == strs(all@),
            left == ls.skip(at as int),
            raw@ == concat(left.take(i - at)),
            until_end(left.skip(1)) == i - at - 1 + until_end(left.skip(i - at)),
        decreases all@.len() - i,
    {
        assert(left.skip(i - at)[0] == all@[i as int]@);
        assert(left[i - at] == all@[i as int]@);
        raw.push_str(&all[i]);
        i += 1;
        assert(left.skip(i - at - 1).skip(1) =~= left.skip(i - at));
        assert(left.take(i - at).drop_last() =~= left.take(i - at - 1));
    }
    assert(i < all@.len() ==> left.skip(i - at)[0] == all@[i as int]@);
    let block = match parse_match_block(&header, &raw) {
        Ok((condition, unsupported_conditions, entry)) => RootMatchBlock {
            raw,
            start_line: at + 1,
            end_line: i,
            condition,
            entry,
            unsupported_conditions,
            appears_before_managed_anchor: before_anchor,
        },
        Err(e) => {
            let unsupported_conditions: Vec<String> = vec![e];
            assert(strs(unsupported_conditions@) =~= seq![e@]);
            RootMatchBlock {
                raw,
                start_line: at + 1,
                end_line: i,
                condition: MatchCondition::Unsupported,
                entry: HostEntry::default(),
                unsupported_conditions,
                appears_before_managed_anchor: before_anchor,
            }
        },
    };
    assert(left.take(i - at)[0] == all@[at as int]@);
    (block, i)
}

#[verifier::spinoff_prover]
#[verifier::rlimit(40)]
pub fn extract_match_blocks(content: &str) -> (r: Vec<RootMatchBlock>)
    ensures
        views(r@) == blocks_of(content@),
{
    let all: Vec<String> = split_raw_lines(content);
    let ghost ls = strs(all@);
    let mut blocks: Vec<RootMatchBlock> = Vec::new();
    let mut i: usize = 0;
    let mut inside: bool = false;
    let mut anchor: bool = false;
    while i < all.len()
        invariant
            i <= all@.len(),
            ls == strs(all@),
            blocks_of(content@) == views(blocks@) + blocks_from(
                ls.skip(i as int),
                i as int,
                inside,
                anchor,
            ),
        decreases all@.len() - i,
    {
        let ghost left = ls.skip(i as int);
        assert(left[0] == all@[i as int]@);
        let line: String = trimmed(&all[i]);
        if inside {
            if same(&line, MANAGED_BLOCK_END) {
                inside = false;
                anchor = true;
            }
            i += 1;
        } else if same(&line, MANAGED_BLOCK_START) {
            inside = true;
            i += 1;
        } else if equal_ignoring_case(&line, MANAGED_INCLUDE_LINE) {
            anchor = true;
            i += 1;
        } else if line_is_directive(&line, "Match") {
            let ghost before = views(blocks@);
            let (block, next) = read_block(&all, i, !anchor);
            let ghost b = block@;
            blocks.push(block);
            proof {
                assert(left.skip(next - i) =~= ls.skip(next as int));
                let more = blocks_from(ls.skip(next as int), next as int, false, anchor);
                assert(before + (seq![b] + more) =~= before.push(b) + more);
            }
            i = next;
        } else {
            i += 1;
        }
    }
    assert(views(blocks@) + Seq::<BlockView>::empty() =~= views(blocks@));
    blocks
}

// ---------------------------------------------------------------------------
// When a block applies
// ---------------------------------------------------------------------------

pub open spec fn turned(r: Result<bool, Seq<char>>, negated: bool) -> Result<bool, Seq<char>> {
    match r {
        Ok(b) => Ok(b != negated),
        Err(e) => Err(e),
    }
}

pub open spec fn or_empty(o: Option<Seq<char>>) -> Seq<char> {
    match o {
        Some(s) => s,
        None => Seq::empty(),
    }
}

/// The text that the patterns behind a keyword are held against.
pub open spec fn subject(keyword: MatchKeyword, c: ContextView) -> Option<Seq<char>> {
    match keyword {
        MatchKeyword::Host => Some(c.current_host),
        MatchKeyword::OriginalHost => Some(c.original_host),
        MatchKeyword::User => c.current_user,
        MatchKeyword::LocalUser => c.local_user,
        MatchKeyword::Tagged => Some(or_empty(c.current_tag)),
        MatchKeyword::Version => c.current_ssh_version,
        MatchKeyword::Command => Some(or_empty(c.command)),
        MatchKeyword::SessionType => c.session_type,
        _ => None,
    }
}

pub open spec fn criterion_holds(k: CriterionView, c: ContextView) -> Result<bool, Seq<char>> {
    match k.keyword {
        MatchKeyword::All => turned(Ok(true), k.negated),
        MatchKeyword::Canonical => turned(Ok(c.is_canonical), k.negated),
        MatchKeyword::Final => turned(Ok(c.is_final), k.negated),
        MatchKeyword::LocalNetwork => turned(
            networks_match(k.patterns, c.local_networks),
            k.negated,
        ),
        _ => turned(list_matches_optional(k.patterns, subject(k.keyword, c)), k.negated),
    }
}

/// What the criterion says is the same on every machine.
pub open spec fn criterion_portable(k: CriterionView, c: ContextView) -> bool {
    subject(k.keyword, c) matches Some(t) ==> list_portable(k.patterns, t)
}

/// All criteria hold; the first that does not, or that cannot be judged, decides.
pub open spec fn criteria_hold(ks: Seq<CriterionView>, c: ContextView) -> Result<bool, Seq<char>>
    decreases ks.len(),
{
    if ks.len() == 0 {
        Ok(true)
    } else {
        match criterion_holds(ks[0], c) {
            Ok(true) => criteria_hold(ks.skip(1), c),
            other => other,
        }
    }
}

pub open spec fn block_applies(b: BlockView, c: ContextView) -> Result<bool, Seq<char>> {
    if b.unsupported.len() > 0 {
        Ok(false)
    } else {
        match b.condition {
            Some(ks) => criteria_hold(ks, c),
            None => Ok(false),
        }
    }
}

/// Whether the block applies is the same on every machine: there are conditions that cannot be
/// judged, or none, or each criterion says the same everywhere.
pub open spec fn block_portable(b: BlockView, c: ContextView) -> bool {
    b.unsupported.len() == 0 ==> (b.condition matches Some(ks) ==> forall|i: int|
        0 <= i < ks.len() ==> criterion_portable(#[trigger] ks[i], c))
}

/// What a criterion may say, whatever the machine.
pub open spec fn criterion_may_say(
    k: CriterionView,
    c: ContextView,
    v: Result<bool, Seq<char>>,
) -> bool {
    match subject(k.keyword, c) {
        Some(t) => list_may_say(k.patterns, t, turned(v, k.negated)),
        None => v == criterion_holds(k, c),
    }
}

/// What the criteria may say together: one that does not hold, or that cannot be judged, decides
/// where all before it hold.
pub open spec fn criteria_may_say(
    ks: Seq<CriterionView>,
    c: ContextView,
    v: Result<bool, Seq<char>>,
) -> bool
    decreases ks.len(),
{
    if ks.len() == 0 {
        v == Ok::<bool, Seq<char>>(true)
    } else {
        ||| v != Ok::<bool, Seq<char>>(true) && criterion_may_say(ks[0], c, v)
        ||| criterion_may_say(ks[0], c, Ok(true)) && criteria_may_say(ks.skip(1), c, v)
    }
}

/// Whether the block may apply, whatever the machine. One with conditions that cannot be judged,
/// or with none, applies nowhere.
pub open spec fn block_may_apply(
    b: BlockView,
    c: ContextView,
    v: Result<bool, Seq<char>>,
) -> bool {
    if b.unsupported.len() > 0 {
        v == Ok::<bool, Seq<char>>(false)
    } else {
        match b.condition {
            Some(ks) => criteria_may_say(ks, c, v),
            None => v == Ok::<bool, Seq<char>>(false),
        }
    }
}

proof fn lemma_portable_criterion(k: CriterionView, c: ContextView, v: Result<bool, Seq<char>>)
    requires
        criterion_portable(k, c),
        criterion_may_say(k, c, v),
    ensures
        v == criterion_holds(k, c),
{
    if let Some(t) = subject(k.keyword, c) {
        lemma_portable_list(k.patterns, t, turned(v, k.negated));
        assert(turned(turned(v, k.negated), k.negated) == v);
    }
}

proof fn lemma_portable_criteria(
    ks: Seq<CriterionView>,
    c: ContextView,
    v: Result<bool, Seq<char>>,
)
    requires
        forall|i: int| 0 <= i < ks.len() ==> criterion_portable(#[trigger] ks[i], c),
        criteria_may_say(ks, c, v),
    ensures
        v == criteria_hold(ks, c),
    decreases ks.len(),
{
    if ks.len() > 0 {
        assert(criterion_portable(ks[0], c));
        if v != Ok::<bool, Seq<char>>(true) && criterion_may_say(ks[0], c, v) {
            lemma_portable_criterion(ks[0], c, v);
        } else {
            lemma_portable_criterion(ks[0], c, Ok(true));
            lemma_portable_criteria(ks.skip(1), c, v);
        }
    }
}

/// Where all is the same on every machine, a block applies or does not.
pub proof fn lemma_portable_block(b: BlockView, c: ContextView, v: Result<bool, Seq<char>>)
    requires
        block_portable(b, c),
        block_may_apply(b, c, v),
    ensures
        v == block_applies(b, c),
{
    if b.unsupported.len() == 0 {
        if let Some(ks) = b.condition {
            lemma_portable_criteria(ks, c, v);
        }
    }
}

fn apply_negation(r: Result<bool, ConfigError>, negated: bool) -> (out: Result<bool, ConfigError>)
    ensures
        verdict(out) == turned(verdict(r), negated),
{
    match r {
        Ok(b) => Ok(b != negated),
        Err(e) => Err(e),
    }
}

fn or_empty_str<'a>(o: Option<&'a str>) -> (r: &'a str)
    ensures
        r@ == or_empty(opt_str(o)),
{
    match o {
        Some(s) => s,
        None => {
            proof {
                reveal_strlit("");
            }
            assert(""@ =~= Seq::<char>::empty());
            ""
        },
    }
}

fn criterion_matches(criterion: &MatchCriterion, context: &MatchContext<'_>) -> (r: Result<
    bool,
    ConfigError,
>)
    ensures
        criterion_may_say(criterion@, context@, verdict(r)),
{
    match criterion {
        MatchCriterion::All { negated } => apply_negation(Ok(true), *negated),
        MatchCriterion::Host { patterns, negated } => apply_negation(
            pattern_list_matches(patterns, context.current_host),
            *negated,
        ),
        MatchCriterion::OriginalHost { patterns, negated } => apply_negation(
            pattern_list_matches(patterns, context.original_host),
            *negated,
        ),
        MatchCriterion::User { patterns, negated } => apply_negation(
            pattern_list_matches_optional(patterns, context.current_user),
            *negated,
        ),
        MatchCriterion::LocalUser { patterns, negated } => apply_negation(
            pattern_list_matches_optional(patterns, context.local_user),
            *negated,
        ),
        MatchCriterion::Tagged { patterns, negated } => apply_negation(
            pattern_list_matches(patterns, or_empty_str(context.current_tag)),
            *negated,
        ),
        MatchCriterion::Version { patterns, negated } => apply_negation(
            pattern_list_matches_optional(patterns, context.current_ssh_version),
            *negated,
        ),
        MatchCriterion::Command { patterns, negated } => apply_negation(
            pattern_list_matches(patterns, or_empty_str(context.command)),
            *negated,
        ),
        MatchCriterion::SessionType { patterns, negated } => apply_negation(
            pattern_list_matches_optional(patterns, context.session_type),
            *negated,
        ),
        MatchCriterion::LocalNetwork { patterns, negated } => apply_negation(
            local_network_matches(patterns, context.local_networks),
            *negated,
        ),
        MatchCriterion::Canonical { negated } => apply_negation(Ok(context.is_canonical), *negated),
        MatchCriterion::Final { negated } => apply_negation(Ok(context.is_final), *negated),
    }
}

fn criteria_match(criteria: &Vec<MatchCriterion>, context: &MatchContext<'_>) -> (r: Result<
    bool,
    ConfigError,
>)
    ensures
        criteria_may_say(views(criteria@), context@, verdict(r)),
{
    let ghost ks = views(criteria@);
    let mut i: usize = 0;
    assert(ks.skip(0) =~= ks);
    while i < criteria.len()
        invariant
            i <= criteria@.len(),
            ks == views(criteria@),
            forall|v: Result<bool, Seq<char>>| #[trigger]
                criteria_may_say(ks.skip(i as int), context@, v) ==> criteria_may_say(
                    ks,
                    context@,
                    v,
                ),
        decreases criteria@.len() - i,
    {
        assert(ks[i as int] == criteria@[i as int]@);
        assert(ks.skip(i as int)[0] == ks[i as int]);
        assert(ks.skip(i as int).skip(1) =~= ks.skip(i + 1));
        match criterion_matches(&criteria[i], context) {
            Ok(true) => {},
            Ok(false) => {
                assert(criteria_may_say(ks.skip(i as int), context@, Ok(false)));
                return Ok(false);
            },
            Err(e) => {
                assert(criteria_may_say(ks.skip(i as int), context@, Err(e@)));
                return Err(e);
            },
        }
        assert forall|v: Result<bool, Seq<char>>| #[trigger]
            criteria_may_say(ks.skip(i + 1), context@, v) implies criteria_may_say(
            ks,
            context@,
            v,
        ) by {
            assert(criteria_may_say(ks.skip(i as int), context@, v));
        }
        i += 1;
    }
    assert(criteria_may_say(ks.skip(i as int), context@, Ok(true)));
    Ok(true)
}

pub fn match_block_applies(block: &RootMatchBlock, context: &MatchContext<'_>) -> (r: Result<
    bool,
    ConfigError,
>)
    ensures
        block_may_apply(block@, context@, verdict(r)),
        block_portable(block@, context@) ==> verdict(r) == block_applies(block@, context@),
{
    assert(block@.unsupported.len() == block.unsupported_conditions@.len());
    let r: Result<bool, ConfigError> = if block.unsupported_conditions.len() > 0 {
        Ok(false)
    } else {
        match &block.condition {
            MatchCondition::Criteria(criteria) => criteria_match(criteria, context),
            MatchCondition::Unsupported => Ok(false),
        }
    };
    proof {
        if block_portable(block@, context@) {
            lemma_portable_block(block@, context@, verdict(r));
        }
    }
    r
}

pub open spec fn uses_version(b: BlockView) -> bool {
    b.condition matches Some(ks) && exists|i: int|
        0 <= i < ks.len() && (#[trigger] ks[i]).keyword == MatchKeyword::Version
}

pub fn block_uses_ssh_version(block: &RootMatchBlock) -> (r: bool)
    ensures
        r == uses_version(block@),
{
    match &block.condition {
        MatchCondition::Criteria(criteria) => {
            let ghost ks = views(criteria@);
            let mut i: usize = 0;
            while i < criteria.len()
                invariant
                    i <= criteria@.len(),
                    ks == views(criteria@),
                    forall|k: int| 0 <= k < i ==> (#[trigger] ks[k]).keyword != MatchKeyword::Version,
                decreases criteria@.len() - i,
            {
                assert(ks[i as int] == criteria@[i as int]@);
                if let MatchCriterion::Version { .. } = &criteria[i] {
                    assert(ks[i as int].keyword == MatchKeyword::Version);
                    return true;
                }
                i += 1;
            }
            false
        },
        MatchCondition::Unsupported => false,
    }
}

pub open spec fn unsupported_count(bs: Seq<BlockView>) -> nat
    decreases bs.len(),
{
    if bs.len() == 0 {
        0
    } else {
        unsupported_count(bs.drop_last()) + if bs.last().unsupported.len() > 0 {
            1nat
        } else {
            0nat
        }
    }
}

pub fn unsupported_match_block_count(blocks: &Vec<RootMatchBlock>) -> (r: usize)
    ensures
        r == unsupported_count(views(blocks@)),
{
    let ghost bs = views(blocks@);
    let mut n: usize = 0;
    let mut i: usize = 0;
    while i < blocks.len()
        invariant
            n <= i <= blocks.len(),
            bs == views(blocks@),
            n == unsupported_count(bs.take(i as int)),
        decreases blocks@.len() - i,
    {
        assert(bs[i as int] == blocks@[i as int]@);
        assert(bs[i as int].unsupported.len() == blocks@[i as int].unsupported_conditions@.len());
        if blocks[i].unsupported_conditions.len() > 0 {
            n += 1;
        }
        i += 1;
    }
    n
}

/// `more` behind `seen`, without what already stands there.
pub open spec fn added_once(seen: Seq<Seq<char>>, more: Seq<Seq<char>>) -> Seq<Seq<char>>
    decreases more.len(),
{
    if more.len() == 0 {
        seen
    } else {
        let before = added_once(seen, more.drop_last());
        if before.contains(more.last()) {
            before
        } else {
            before.push(more.last())
        }
    }
}

/// The unread stretches of all headers, each once, in the order in which they first occur.
pub open spec fn unsupported_of(bs: Seq<BlockView>) -> Seq<Seq<char>>
    decreases bs.len(),
{
    if bs.len() == 0 {
        Seq::empty()
    } else {
        added_once(unsupported_of(bs.drop_last()), bs.last().unsupported)
    }
}

pub fn unsupported_match_conditions(blocks: &Vec<RootMatchBlock>) -> (r: Vec<String>)
    ensures
        strs(r@) == unsupported_of(views(blocks@)),
{
    let ghost bs = views(blocks@);
    let mut values: Vec<String> = Vec::new();
    let mut i: usize = 0;
    while i < blocks.len()
        invariant
            i <= blocks@.len(),
            bs == views(blocks@),
            strs(values@) == unsupported_of(bs.take(i as int)),
        decreases blocks@.len() - i,
    {
        let ghost seen = strs(values@);
        let more: &Vec<String> = &blocks[i].unsupported_conditions;
        assert(bs[i as int].unsupported == strs(more@));
        let mut j: usize = 0;
        while j < more.len()
            invariant
                j <= more@.len(),
                strs(values@) == added_once(seen, strs(more@).take(j as int)),
            decreases more@.len() - j,
        {
            if !holds(&values, &more[j]) {
                values.push(more[j].clone());
            }
            j += 1;
        }
        i += 1;
    }
    values
}

} // verus!
