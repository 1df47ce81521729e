//! Shell patterns and lists of them.

#![verifier::loop_isolation(false)]

use vstd::prelude::*;

use crate::error::ConfigError;
use crate::strings::{chars_of, string_of};
use crate::text::strs;

verus! {

broadcast use crate::text::group_text;

/// What `glob::Pattern` makes of a pattern and a text: whether the pattern matches the text, or
/// what is wrong with the pattern.
pub uninterp spec fn glob_outcome(pattern: Seq<char>, target: Seq<char>) -> Result<bool, Seq<char>>;

/// A pattern without wildcards and ranges.
pub open spec fn is_literal(pattern: Seq<char>) -> bool {
    !pattern.contains('*') && !pattern.contains('?') && !pattern.contains('[')
}

/// Two stars stand side by side.
pub open spec fn has_double_star(pattern: Seq<char>) -> bool {
    exists|i: int|
        0 <= i < pattern.len() - 1 && #[trigger] pattern[i] == '*' && pattern[i + 1] == '*'
}

/// What the pattern matches is the same on every machine. Whether a backslash separates the
/// components of a path depends on the machine: where it does, it is taken for a slash, and two
/// stars in a row, which speak of components, see it. So either there is no backslash, or there
/// is neither a slash nor a pair of stars.
pub open spec fn is_portable(pattern: Seq<char>, target: Seq<char>) -> bool {
    ||| !pattern.contains('\\') && !target.contains('\\')
    ||| !pattern.contains('/') && !target.contains('/') && !has_double_star(pattern)
}

/// A pattern that matches itself alone on every machine.
pub open spec fn is_plain(pattern: Seq<char>, target: Seq<char>) -> bool {
    is_literal(pattern) && is_portable(pattern, target)
}

/// A result by what it holds.
pub open spec fn outcome(r: Result<bool, String>) -> Result<bool, Seq<char>> {
    match r {
        Ok(b) => Ok(b),
        Err(e) => Err(e@),
    }
}

/// A result by what it holds.
pub open spec fn verdict(r: Result<bool, ConfigError>) -> Result<bool, Seq<char>> {
    match r {
        Ok(b) => Ok(b),
        Err(e) => Err(e@),
    }
}

/// Compiles the pattern with `glob::Pattern::new` and asks `glob::Pattern::matches` of the
/// target, by default options. Where [`is_portable`] holds, what comes out is a function of the
/// two texts; elsewhere it depends on the machine, and nothing is said of which it is. A pattern
/// without wildcards and ranges is never refused, and where [`is_portable`] holds it matches
/// itself alone; a single star matches everything; without `[` and without two stars in a row
/// nothing is refused.
#[verifier::external_body]
fn glob_test(pattern: &str, target: &str) -> (r: Result<bool, String>)
    ensures
        is_portable(pattern@, target@) ==> outcome(r) == glob_outcome(pattern@, target@),
        is_plain(pattern@, target@) ==> r is Ok && r->Ok_0 == (pattern@ == target@),
        pattern@ == seq!['*'] ==> r is Ok && r->Ok_0,
        !pattern@.contains('[') && !has_double_star(pattern@) ==> r is Ok,
{
    match glob::Pattern::new(pattern) {
        Ok(p) => Ok(p.matches(target)),
        Err(e) => Err(e.to_string()),
    }
}

pub open spec fn is_negated(pattern: Seq<char>) -> bool {
    pattern.len() > 0 && pattern[0] == '!'
}

/// The pattern without the exclamation mark that negates it.
pub open spec fn bare(pattern: Seq<char>) -> Seq<char> {
    if is_negated(pattern) {
        pattern.skip(1)
    } else {
        pattern
    }
}

/// What a list of patterns says, given what came out for each of them without its exclamation
/// mark: the first negated pattern that matches, and the first refusal, decide at once; else
/// some pattern must match.
pub open spec fn decide(
    patterns: Seq<Seq<char>>,
    outcomes: Seq<Result<bool, Seq<char>>>,
    hit: bool,
) -> Result<bool, Seq<char>>
    decreases patterns.len(),
{
    if patterns.len() == 0 {
        Ok(hit)
    } else {
        match outcomes[0] {
            Err(e) => Err(e),
            Ok(matched) => if is_negated(patterns[0]) && matched {
                Ok(false)
            } else {
                decide(
                    patterns.skip(1),
                    outcomes.skip(1),
                    hit || (matched && !is_negated(patterns[0])),
                )
            },
        }
    }
}

/// What comes out for each pattern of a list without its exclamation mark.
pub open spec fn glob_outcomes(patterns: Seq<Seq<char>>, target: Seq<char>) -> Seq<
    Result<bool, Seq<char>>,
> {
    Seq::new(patterns.len(), |i: int| glob_outcome(bare(patterns[i]), target))
}

/// Whether the list of patterns matches the target.
pub open spec fn list_matches(patterns: Seq<Seq<char>>, target: Seq<char>) -> Result<
    bool,
    Seq<char>,
> {
    decide(patterns, glob_outcomes(patterns, target), false)
}

pub open spec fn list_portable(patterns: Seq<Seq<char>>, target: Seq<char>) -> bool {
    forall|i: int|
        0 <= i < patterns.len() ==> is_portable(bare(#[trigger] patterns[i]), target)
}

/// What `glob::Pattern` may make of a pattern and a text, whatever the machine.
pub open spec fn glob_may_say(
    pattern: Seq<char>,
    target: Seq<char>,
    o: Result<bool, Seq<char>>,
) -> bool {
    &&& is_portable(pattern, target) ==> o == glob_outcome(pattern, target)
    &&& is_plain(pattern, target) ==> o == Ok::<bool, Seq<char>>(pattern == target)
    &&& pattern == seq!['*'] ==> o == Ok::<bool, Seq<char>>(true)
    &&& !pattern.contains('[') && !has_double_star(pattern) ==> o is Ok
}

/// What may come out for each pattern of a list without its exclamation mark.
pub open spec fn outcomes_may_be(
    patterns: Seq<Seq<char>>,
    target: Seq<char>,
    outcomes: Seq<Result<bool, Seq<char>>>,
) -> bool {
    &&& outcomes.len() == patterns.len()
    &&& forall|k: int|
        0 <= k < patterns.len() ==> glob_may_say(
            bare(#[trigger] patterns[k]),
            target,
            outcomes[k],
        )
}

/// What a list of patterns may say of a text, whatever the machine.
pub open spec fn list_may_say(
    patterns: Seq<Seq<char>>,
    target: Seq<char>,
    v: Result<bool, Seq<char>>,
) -> bool {
    exists|os: Seq<Result<bool, Seq<char>>>| #[trigger]
        outcomes_may_be(patterns, target, os) && v == decide(patterns, os, false)
}

/// Like `list_matches` for a text that may be missing: nothing matches then.
pub open spec fn list_matches_optional(
    patterns: Seq<Seq<char>>,
    target: Option<Seq<char>>,
) -> Result<bool, Seq<char>> {
    match target {
        Some(t) => list_matches(patterns, t),
        None => Ok(false),
    }
}

/// The results of a row of tests by what they hold.
pub open spec fn outcomes_of(v: Seq<Result<bool, String>>) -> Seq<Result<bool, Seq<char>>> {
    Seq::new(v.len(), |i: int| outcome(v[i]))
}

/// Whether a pattern starts with an exclamation mark.
pub fn pattern_is_negated(pattern: &str) -> (r: bool)
    ensures
        r == is_negated(pattern@),
{
    let v: Vec<char> = chars_of(pattern);
    v.len() > 0 && v[0] == '!'
}

/// The pattern without its exclamation mark.
pub fn bare_pattern(pattern: &str) -> (r: String)
    ensures
        r@ == bare(pattern@),
{
    let v: Vec<char> = chars_of(pattern);
    let from: usize = if v.len() > 0 && v[0] == '!' {
        1
    } else {
        0
    };
    let r: String = string_of(&v, from, v.len());
    assert(r@ =~= bare(pattern@));
    r
}

/// Decides on a list of patterns by what came out for each of them.
pub fn decide_patterns(patterns: &Vec<String>, outcomes: &Vec<Result<bool, String>>) -> (r: Result<
    bool,
    ConfigError,
>)
    requires
        outcomes@.len() == patterns@.len(),
    ensures
        verdict(r) == decide(strs(patterns@), outcomes_of(outcomes@), false),
{
    let ghost ps = strs(patterns@);
    let ghost os = outcomes_of(outcomes@);
    let mut hit: bool = false;
    let mut i: usize = 0;
    while i < patterns.len()
        invariant
            i <= patterns@.len(),
            ps == strs(patterns@),
            os == outcomes_of(outcomes@),
            decide(ps, os, false) == decide(ps.skip(i as int), os.skip(i as int), hit),
        decreases patterns@.len() - i,
    {
        assert(ps.skip(i as int)[0] == patterns@[i as int]@);
        assert(os.skip(i as int)[0] == outcome(outcomes@[i as int]));
        let negated: bool = pattern_is_negated(&patterns[i]);
        match &outcomes[i] {
            Err(e) => {
                return Err(ConfigError::new(e.clone()));
            },
            Ok(matched) => {
                if negated && *matched {
                    return Ok(false);
                }
                hit = hit || (*matched && !negated);
            },
        }
        i += 1;
    }
    Ok(hit)
}

/// Whether the list of patterns matches the target: some pattern does, and no negated one.
pub fn pattern_list_matches(patterns: &Vec<String>, target: &str) -> (r: Result<bool, ConfigError>)
    ensures
        list_may_say(strs(patterns@), target@, verdict(r)),
        list_portable(strs(patterns@), target@) ==> verdict(r) == list_matches(
            strs(patterns@),
            target@,
        ),
        (forall|i: int|
            0 <= i < patterns@.len() ==> is_plain(bare(#[trigger] strs(patterns@)[i]), target@))
            ==> verdict(r) == Ok::<bool, Seq<char>>(literals_match(strs(patterns@), target@)),
{
    let ghost ps = strs(patterns@);
    let mut outcomes: Vec<Result<bool, String>> = Vec::new();
    let mut i: usize = 0;
    while i < patterns.len()
        invariant
            i <= patterns@.len(),
            ps == strs(patterns@),
            outcomes@.len() == i,
            forall|k: int|
                0 <= k < i ==> glob_may_say(
                    bare(ps[k]),
                    target@,
                    outcome(#[trigger] outcomes@[k]),
                ),
        decreases patterns@.len() - i,
    {
        assert(ps[i as int] == patterns@[i as int]@);
        let pattern: String = bare_pattern(&patterns[i]);
        outcomes.push(glob_test(&pattern, target));
        i += 1;
    }
    proof {
        let os = outcomes_of(outcomes@);
        assert forall|k: int| 0 <= k < ps.len() implies glob_may_say(
            bare(#[trigger] ps[k]),
            target@,
            os[k],
        ) by {
            assert(os[k] == outcome(outcomes@[k]));
        }
        assert(outcomes_may_be(ps, target@, os));
        assert(list_may_say(ps, target@, decide(ps, os, false)));
        if list_portable(ps, target@) {
            lemma_portable_list(ps, target@, decide(ps, os, false));
        }
        if forall|i: int| 0 <= i < patterns@.len() ==> is_plain(bare(#[trigger] ps[i]), target@) {
            assert forall|k: int| 0 <= k < ps.len() implies #[trigger] outcomes_of(outcomes@)[k]
                == Ok::<bool, Seq<char>>(bare(ps[k]) == target@) by {
                assert(is_plain(bare(ps[k]), target@));
                assert(outcome(outcomes@[k]) == Ok::<bool, Seq<char>>(bare(ps[k]) == target@));
            }
            lemma_decide_literals(ps, outcomes_of(outcomes@), target@, false);
        }
    }
    decide_patterns(patterns, &outcomes)
}

/// Like [`pattern_list_matches`] for a text that may be missing.
pub fn pattern_list_matches_optional(patterns: &Vec<String>, target: Option<&str>) -> (r: Result<
    bool,
    ConfigError,
>)
    ensures
        target is Some ==> list_may_say(strs(patterns@), target->0@, verdict(r)),
        (target is Some ==> list_portable(strs(patterns@), target->0@)) ==> verdict(r)
            == list_matches_optional(
            strs(patterns@),
            match target {
                Some(t) => Some(t@),
                None => None,
            },
        ),
{
    match target {
        Some(t) => pattern_list_matches(patterns, t),
        None => Ok(false),
    }
}

// ---------------------------------------------------------------------------
// Laws
// ---------------------------------------------------------------------------

/// Where all is the same on every machine, a list says one thing only.
pub proof fn lemma_portable_list(
    patterns: Seq<Seq<char>>,
    target: Seq<char>,
    v: Result<bool, Seq<char>>,
)
    requires
        list_portable(patterns, target),
        list_may_say(patterns, target, v),
    ensures
        v == list_matches(patterns, target),
{
    let os = choose|os: Seq<Result<bool, Seq<char>>>| #[trigger]
        outcomes_may_be(patterns, target, os) && v == decide(patterns, os, false);
    assert forall|k: int| 0 <= k < os.len() implies os[k] == #[trigger] glob_outcomes(
        patterns,
        target,
    )[k] by {
        assert(glob_may_say(bare(patterns[k]), target, os[k]));
        assert(is_portable(bare(patterns[k]), target));
    }
    assert(os =~= glob_outcomes(patterns, target));
}

/// Among patterns without wildcards: `target` itself is listed, and is not excluded.
pub open spec fn literals_match(patterns: Seq<Seq<char>>, target: Seq<char>) -> bool {
    patterns.contains(target) && !is_negated(target) && !patterns.contains(seq!['!'] + target)
}

pub proof fn lemma_decide_literals(
    patterns: Seq<Seq<char>>,
    outcomes: Seq<Result<bool, Seq<char>>>,
    target: Seq<char>,
    hit: bool,
)
    requires
        outcomes.len() == patterns.len(),
        forall|k: int|
            0 <= k < patterns.len() ==> #[trigger] outcomes[k] == Ok::<bool, Seq<char>>(
                bare(patterns[k]) == target,
            ),
    ensures
        decide(patterns, outcomes, hit) == Ok::<bool, Seq<char>>(
            (hit || (patterns.contains(target) && !is_negated(target))) && !patterns.contains(
                seq!['!'] + target,
            ),
        ),
    decreases patterns.len(),
{
    if patterns.len() > 0 {
        let p = patterns[0];
        let excluded = seq!['!'] + target;
        assert(outcomes[0] == Ok::<bool, Seq<char>>(bare(p) == target));
        assert(is_negated(excluded));
        assert(excluded.skip(1) =~= target);
        if is_negated(p) && p.skip(1) == target {
            assert(p =~= excluded);
            assert(patterns.contains(excluded));
        } else {
            let hit2 = hit || (bare(p) == target && !is_negated(p));
            assert forall|k: int| 0 <= k < patterns.skip(1).len() implies #[trigger] outcomes.skip(
                1,
            )[k] == Ok::<bool, Seq<char>>(bare(patterns.skip(1)[k]) == target) by {
                assert(outcomes[k + 1] == Ok::<bool, Seq<char>>(bare(patterns[k + 1]) == target));
            }
            lemma_decide_literals(patterns.skip(1), outcomes.skip(1), target, hit2);
            lemma_contains_head(patterns, target);
            lemma_contains_head(patterns, excluded);
            if p == excluded {
                assert(p.skip(1) == target);
            }
        }
    }
}

proof fn lemma_contains_head<A>(s: Seq<A>, x: A)
    requires
        s.len() > 0,
    ensures
        s.contains(x) <==> (s[0] == x || s.skip(1).contains(x)),
{
    if s.contains(x) && s[0] != x {
        let i = choose|i: int| 0 <= i < s.len() && s[i] == x;
        assert(s.skip(1)[i - 1] == x);
    }
    if s.skip(1).contains(x) {
        let i = choose|i: int| 0 <= i < s.skip(1).len() && s.skip(1)[i] == x;
        assert(s[i + 1] == x);
    }
}

/// A negated pattern that matches keeps the whole list from matching, wherever it stands.
pub proof fn law_negated_pattern_excludes(
    patterns: Seq<Seq<char>>,
    outcomes: Seq<Result<bool, Seq<char>>>,
    hit: bool,
    i: int,
)
    requires
        outcomes.len() == patterns.len(),
        0 <= i < patterns.len(),
        is_negated(patterns[i]),
        outcomes[i] == Ok::<bool, Seq<char>>(true),
    ensures
        decide(patterns, outcomes, hit) != Ok::<bool, Seq<char>>(true),
    decreases patterns.len(),
{
    if i > 0 {
        match outcomes[0] {
            Ok(matched) => {
                law_negated_pattern_excludes(
                    patterns.skip(1),
                    outcomes.skip(1),
                    hit || (matched && !is_negated(patterns[0])),
                    i - 1,
                );
            },
            Err(_) => {},
        }
    }
}

/// A list in which only negated patterns stand matches nothing.
pub proof fn law_only_negated_matches_nothing(
    patterns: Seq<Seq<char>>,
    outcomes: Seq<Result<bool, Seq<char>>>,
)
    requires
        outcomes.len() == patterns.len(),
        forall|i: int| 0 <= i < patterns.len() ==> is_negated(#[trigger] patterns[i]),
    ensures
        decide(patterns, outcomes, false) != Ok::<bool, Seq<char>>(true),
    decreases patterns.len(),
{
    if patterns.len() > 0 && outcomes[0] is Ok {
        assert(is_negated(patterns[0]));
        assert forall|i: int| 0 <= i < patterns.skip(1).len() implies is_negated(
            #[trigger] patterns.skip(1)[i],
        ) by {
            assert(is_negated(patterns[i + 1]));
        }
        law_only_negated_matches_nothing(patterns.skip(1), outcomes.skip(1));
    }
}

/// A list of patterns, none of which is refused, passes a text by where no pattern matches it
/// or a negated one does.
pub proof fn law_list_passes_by(
    patterns: Seq<Seq<char>>,
    outcomes: Seq<Result<bool, Seq<char>>>,
    hit: bool,
)
    requires
        outcomes.len() == patterns.len(),
        forall|i: int| 0 <= i < patterns.len() ==> (#[trigger] outcomes[i]) is Ok,
        (!hit && forall|i: int|
            0 <= i < patterns.len() && !is_negated(#[trigger] patterns[i]) ==> outcomes[i] == Ok::<
                bool,
                Seq<char>,
            >(false)) || (exists|i: int|
            0 <= i < patterns.len() && is_negated(#[trigger] patterns[i]) && outcomes[i] == Ok::<
                bool,
                Seq<char>,
            >(true)),
    ensures
        decide(patterns, outcomes, hit) == Ok::<bool, Seq<char>>(false),
    decreases patterns.len(),
{
    if patterns.len() > 0 {
        let ps = patterns.skip(1);
        let os = outcomes.skip(1);
        assert(outcomes[0] is Ok);
        let matched = outcomes[0]->Ok_0;
        let first = is_negated(patterns[0]);
        if !(first && matched) {
            assert forall|i: int| 0 <= i < ps.len() implies (#[trigger] os[i]) is Ok by {
                assert(outcomes[i + 1] is Ok);
            }
            if exists|i: int|
                0 <= i < patterns.len() && is_negated(#[trigger] patterns[i]) && outcomes[i] == Ok::<
                    bool,
                    Seq<char>,
                >(true) {
                let i = choose|i: int|
                    0 <= i < patterns.len() && is_negated(#[trigger] patterns[i]) && outcomes[i]
                        == Ok::<bool, Seq<char>>(true);
                assert(is_negated(ps[i - 1]) && os[i - 1] == Ok::<bool, Seq<char>>(true));
            } else {
                assert(first || !matched);
                assert forall|i: int| 0 <= i < ps.len() && !is_negated(#[trigger] ps[i]) implies os[i]
                    == Ok::<bool, Seq<char>>(false) by {
                    assert(!is_negated(patterns[i + 1]));
                }
            }
            law_list_passes_by(ps, os, hit || (matched && !first));
        }
    }
}

} // verus!
