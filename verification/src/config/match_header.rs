//! `Match` blocks and the reading of their headers.

#![verifier::loop_isolation(false)]

use vstd::prelude::*;

use crate::config::model::{HostEntry, HostView};
use crate::config::pattern::{bare, bare_pattern, is_negated, pattern_is_negated};
use crate::error::ConfigError;
use crate::strings::{
    chars_of, is_whitespace, joined, lowered, same, split_at_any, string_of, trimmed,
};
use crate::text::{is_ws, join, lower, opt_str, piece, split, strs, trim, views};

verus! {

broadcast use crate::text::group_text;

// ---------------------------------------------------------------------------
// The types
// ---------------------------------------------------------------------------

/// What the criteria of a `Match` block are held against.
#[derive(Debug, Clone, Copy, PartialEq, Eq)]
pub struct MatchContext<'a> {
    pub original_host: &'a str,
    pub current_host: &'a str,
    pub current_user: Option<&'a str>,
    pub local_user: Option<&'a str>,
    pub current_tag: Option<&'a str>,
    pub current_ssh_version: Option<&'a str>,
    pub session_type: Option<&'a str>,
    pub command: Option<&'a str>,
    pub local_networks: &'a [String],
    pub is_canonical: bool,
    pub is_final: bool,
}

/// What a [`MatchContext`] holds.
#[verifier::ext_equal]
pub struct ContextView {
    pub original_host: Seq<char>,
    pub current_host: Seq<char>,
    pub current_user: Option<Seq<char>>,
    pub local_user: Option<Seq<char>>,
    pub current_tag: Option<Seq<char>>,
    pub current_ssh_version: Option<Seq<char>>,
    pub session_type: Option<Seq<char>>,
    pub command: Option<Seq<char>>,
    pub local_networks: Seq<Seq<char>>,
    pub is_canonical: bool,
    pub is_final: bool,
}

impl<'a> View for MatchContext<'a> {
    type V = ContextView;

    open spec fn view(&self) -> ContextView {
        ContextView {
            original_host: self.original_host@,
            current_host: self.current_host@,
            current_user: opt_str(self.current_user),
            local_user: opt_str(self.local_user),
            current_tag: opt_str(self.current_tag),
            current_ssh_version: opt_str(self.current_ssh_version),
            session_type: opt_str(self.session_type),
            command: opt_str(self.command),
            local_networks: strs(self.local_networks@),
            is_canonical: self.is_canonical,
            is_final: self.is_final,
        }
    }
}

impl<'a> MatchContext<'a> {
    pub fn new(
        original_host: &'a str,
        current_host: &'a str,
        current_user: Option<&'a str>,
        local_user: Option<&'a str>,
        current_tag: Option<&'a str>,
        current_ssh_version: Option<&'a str>,
        session_type: Option<&'a str>,
        command: Option<&'a str>,
        local_networks: &'a [String],
        is_canonical: bool,
        is_final: bool,
    ) -> (r: MatchContext<'a>)
        ensures
            r@ == (ContextView {
                original_host: original_host@,
                current_host: current_host@,
                current_user: opt_str(current_user),
                local_user: opt_str(local_user),
                current_tag: opt_str(current_tag),
                current_ssh_version: opt_str(current_ssh_version),
                session_type: opt_str(session_type),
                command: opt_str(command),
                local_networks: strs(local_networks@),
                is_canonical,
                is_final,
            }),
    {
        MatchContext {
            original_host,
            current_host,
            current_user,
            local_user,
            current_tag,
            current_ssh_version,
            session_type,
            command,
            local_networks,
            is_canonical,
            is_final,
        }
    }

    /// A context without a session, a command and local networks.
    pub fn new_basic(
        original_host: &'a str,
        current_host: &'a str,
        current_user: Option<&'a str>,
        local_user: Option<&'a str>,
        current_tag: Option<&'a str>,
        current_ssh_version: Option<&'a str>,
        is_canonical: bool,
        is_final: bool,
    ) -> (r: MatchContext<'a>)
        ensures
            r@ == (ContextView {
                original_host: original_host@,
                current_host: current_host@,
                current_user: opt_str(current_user),
                local_user: opt_str(local_user),
                current_tag: opt_str(current_tag),
                current_ssh_version: opt_str(current_ssh_version),
                session_type: None,
                command: None,
                local_networks: Seq::empty(),
                is_canonical,
                is_final,
            }),
    {
        let none: &'a [String] = &[];
        assert(strs(none@) =~= Seq::<Seq<char>>::empty());
        MatchContext::new(
            original_host,
            current_host,
            current_user,
            local_user,
            current_tag,
            current_ssh_version,
            None,
            None,
            none,
            is_canonical,
            is_final,
        )
    }
}

/// A `Match` block with the lines that it stands on.
#[derive(Debug, PartialEq, Eq)]
pub struct RootMatchBlock {
    pub raw: String,
    pub start_line: usize,
    pub end_line: usize,
    pub condition: MatchCondition,
    pub entry: HostEntry,
    pub unsupported_conditions: Vec<String>,
    pub appears_before_managed_anchor: bool,
}

/// What a [`RootMatchBlock`] holds.
#[verifier::ext_equal]
pub struct BlockView {
    pub raw: Seq<char>,
    pub start_line: int,
    pub end_line: int,
    pub condition: Option<Seq<CriterionView>>,
    pub entry: HostView,
    pub unsupported: Seq<Seq<char>>,
    pub before_anchor: bool,
}

/// When a block applies: where all criteria hold, or never as far as can be told.
#[derive(Debug, PartialEq, Eq)]
pub enum MatchCondition {
    Criteria(Vec<MatchCriterion>),
    Unsupported,
}

impl View for MatchCondition {
    type V = Option<Seq<CriterionView>>;

    open spec fn view(&self) -> Option<Seq<CriterionView>> {
        match self {
            MatchCondition::Criteria(v) => Some(views(v@)),
            MatchCondition::Unsupported => None,
        }
    }
}

#[derive(Debug, PartialEq, Eq)]
pub enum MatchCriterion {
    All { negated: bool },
    Host { patterns: Vec<String>, negated: bool },
    OriginalHost { patterns: Vec<String>, negated: bool },
    User { patterns: Vec<String>, negated: bool },
    LocalUser { patterns: Vec<String>, negated: bool },
    Tagged { patterns: Vec<String>, negated: bool },
    Version { patterns: Vec<String>, negated: bool },
    Command { patterns: Vec<String>, negated: bool },
    SessionType { patterns: Vec<String>, negated: bool },
    LocalNetwork { patterns: Vec<String>, negated: bool },
    Canonical { negated: bool },
    Final { negated: bool },
}

/// What a [`MatchCriterion`] holds: the keyword, the patterns behind it, and whether an
/// exclamation mark turns it round.
#[verifier::ext_equal]
pub struct CriterionView {
    pub keyword: MatchKeyword,
    pub patterns: Seq<Seq<char>>,
    pub negated: bool,
}

pub open spec fn criterion(keyword: MatchKeyword, patterns: Seq<Seq<char>>, negated: bool) -> CriterionView {
    CriterionView { keyword, patterns, negated }
}

impl View for MatchCriterion {
    type V = CriterionView;

    open spec fn view(&self) -> CriterionView {
        match self {
            MatchCriterion::All { negated } => criterion(MatchKeyword::All, Seq::empty(), *negated),
            MatchCriterion::Host { patterns, negated } => criterion(
                MatchKeyword::Host,
                strs(patterns@),
                *negated,
            ),
            MatchCriterion::OriginalHost { patterns, negated } => criterion(
                MatchKeyword::OriginalHost,
                strs(patterns@),
                *negated,
            ),
            MatchCriterion::User { patterns, negated } => criterion(
                MatchKeyword::User,
                strs(patterns@),
                *negated,
            ),
            MatchCriterion::LocalUser { patterns, negated } => criterion(
                MatchKeyword::LocalUser,
                strs(patterns@),
                *negated,
            ),
            MatchCriterion::Tagged { patterns, negated } => criterion(
                MatchKeyword::Tagged,
                strs(patterns@),
                *negated,
            ),
            MatchCriterion::Version { patterns, negated } => criterion(
                MatchKeyword::Version,
                strs(patterns@),
                *negated,
            ),
            MatchCriterion::Command { patterns, negated } => criterion(
                MatchKeyword::Command,
                strs(patterns@),
                *negated,
            ),
            MatchCriterion::SessionType { patterns, negated } => criterion(
                MatchKeyword::SessionType,
                strs(patterns@),
                *negated,
            ),
            MatchCriterion::LocalNetwork { patterns, negated } => criterion(
                MatchKeyword::LocalNetwork,
                strs(patterns@),
                *negated,
            ),
            MatchCriterion::Canonical { negated } => criterion(
                MatchKeyword::Canonical,
                Seq::empty(),
                *negated,
            ),
            MatchCriterion::Final { negated } => criterion(
                MatchKeyword::Final,
                Seq::empty(),
                *negated,
            ),
        }
    }
}

impl View for RootMatchBlock {
    type V = BlockView;

    open spec fn view(&self) -> BlockView {
        BlockView {
            raw: self.raw@,
            start_line: self.start_line as int,
            end_line: self.end_line as int,
            condition: self.condition@,
            entry: self.entry@,
            unsupported: strs(self.unsupported_conditions@),
            before_anchor: self.appears_before_managed_anchor,
        }
    }
}

/// The words that start a criterion.
#[derive(Debug, Clone, Copy, PartialEq, Eq, Structural)]
pub enum MatchKeyword {
    All,
    Host,
    OriginalHost,
    User,
    LocalUser,
    Tagged,
    Version,
    Command,
    SessionType,
    LocalNetwork,
    Canonical,
    Final,
    Unsupported,
}

// ---------------------------------------------------------------------------
// Reading a header
// ---------------------------------------------------------------------------

/// The keyword that a token is, whatever its case and with or without an exclamation mark.
pub open spec fn keyword_of(token: Seq<char>) -> Option<MatchKeyword> {
    let k = lower(bare(token));
    if k == "all"@ {
        Some(MatchKeyword::All)
    } else if k == "host"@ {
        Some(MatchKeyword::Host)
    } else if k == "originalhost"@ {
        Some(MatchKeyword::OriginalHost)
    } else if k == "user"@ {
        Some(MatchKeyword::User)
    } else if k == "localuser"@ {
        Some(MatchKeyword::LocalUser)
    } else if k == "tagged"@ {
        Some(MatchKeyword::Tagged)
    } else if k == "version"@ {
        Some(MatchKeyword::Version)
    } else if k == "command"@ {
        Some(MatchKeyword::Command)
    } else if k == "sessiontype"@ {
        Some(MatchKeyword::SessionType)
    } else if k == "localnetwork"@ {
        Some(MatchKeyword::LocalNetwork)
    } else if k == "canonical"@ {
        Some(MatchKeyword::Canonical)
    } else if k == "final"@ {
        Some(MatchKeyword::Final)
    } else if k == "exec"@ || k == "address"@ {
        Some(MatchKeyword::Unsupported)
    } else {
        None
    }
}

fn match_keyword(token: &str) -> (r: Option<MatchKeyword>)
    ensures
        r == keyword_of(token@),
{
    let k: String = lowered(&bare_pattern(token));
    if same(&k, "all") {
        Some(MatchKeyword::All)
    } else if same(&k, "host") {
        Some(MatchKeyword::Host)
    } else if same(&k, "originalhost") {
        Some(MatchKeyword::OriginalHost)
    } else if same(&k, "user") {
        Some(MatchKeyword::User)
    } else if same(&k, "localuser") {
        Some(MatchKeyword::LocalUser)
    } else if same(&k, "tagged") {
        Some(MatchKeyword::Tagged)
    } else if same(&k, "version") {
        Some(MatchKeyword::Version)
    } else if same(&k, "command") {
        Some(MatchKeyword::Command)
    } else if same(&k, "sessiontype") {
        Some(MatchKeyword::SessionType)
    } else if same(&k, "localnetwork") {
        Some(MatchKeyword::LocalNetwork)
    } else if same(&k, "canonical") {
        Some(MatchKeyword::Canonical)
    } else if same(&k, "final") {
        Some(MatchKeyword::Final)
    } else if same(&k, "exec") || same(&k, "address") {
        Some(MatchKeyword::Unsupported)
    } else {
        None
    }
}

/// A keyword other than one whose criteria cannot be judged.
pub open spec fn is_supported_keyword(token: Seq<char>) -> bool {
    keyword_of(token) matches Some(k) && k != MatchKeyword::Unsupported
}

fn is_supported_match_keyword(token: &str) -> (r: bool)
    ensures
        r == is_supported_keyword(token@),
{
    match match_keyword(token) {
        Some(k) => k != MatchKeyword::Unsupported,
        None => false,
    }
}

fn is_match_keyword(token: &str) -> (r: bool)
    ensures
        r == (keyword_of(token@) is Some),
{
    match_keyword(token).is_some()
}

/// The tokens of a header, the first of which starts with `cur`; `quote` is the quotation mark
/// that `cur` stands inside of. White space separates tokens except between quotation marks,
/// which stay in the token.
pub open spec fn tokens_from(s: Seq<char>, cur: Seq<char>, quote: Option<char>) -> Seq<Seq<char>>
    decreases s.len(),
{
    if s.len() == 0 {
        piece(cur)
    } else {
        let c = s[0];
        let rest = s.skip(1);
        match quote {
            Some(q) => tokens_from(
                rest,
                cur.push(c),
                if c == q {
                    None
                } else {
                    quote
                },
            ),
            None => if c == '"' || c == '\'' {
                tokens_from(rest, cur.push(c), Some(c))
            } else if is_ws(c) {
                piece(cur) + tokens_from(rest, Seq::empty(), None)
            } else {
                tokens_from(rest, cur.push(c), None)
            },
        }
    }
}

pub open spec fn header_tokens(s: Seq<char>) -> Seq<Seq<char>> {
    tokens_from(s, Seq::empty(), None)
}

fn tokenize_match_header(input: &str) -> (r: Vec<String>)
    ensures
        strs(r@) == header_tokens(input@),
{
    let v: Vec<char> = chars_of(input);
    let mut out: Vec<String> = Vec::new();
    let mut cur: String = String::new();
    let mut quote: Option<char> = None;
    let mut i: usize = 0;
    while i < v.len()
        invariant
            i <= v@.len(),
            header_tokens(v@) == strs(out@) + tokens_from(v@.skip(i as int), cur@, quote),
        decreases v@.len() - i,
    {
        let c: char = v[i];
        let ghost before = strs(out@);
        let ghost rest = v@.skip(i as int + 1);
        match quote {
            Some(q) => {
                cur.push(c);
                if c == q {
                    quote = None;
                }
            },
            None => {
                if c == '"' || c == '\'' {
                    cur.push(c);
                    quote = Some(c);
                } else if is_whitespace(c) {
                    let ghost was = cur@;
                    if !cur.as_str().is_empty() {
                        out.push(cur);
                        cur = String::new();
                    }
                    assert(strs(out@) =~= before + piece(was));
                    assert(before + (piece(was) + tokens_from(rest, Seq::empty(), None)) =~= (before
                        + piece(was)) + tokens_from(rest, Seq::empty(), None));
                    assert(cur@ =~= Seq::<char>::empty());
                } else {
                    cur.push(c);
                }
            },
        }
        i += 1;
    }
    let ghost before = strs(out@);
    let ghost was = cur@;
    if !cur.as_str().is_empty() {
        out.push(cur);
    }
    assert(strs(out@) =~= before + piece(was));
    out
}

/// A text without the pair of equal quotation marks round it.
pub open spec fn unquote(s: Seq<char>) -> Seq<char> {
    if s.len() >= 2 && s[0] == s.last() && (s[0] == '"' || s[0] == '\'') {
        s.subrange(1, s.len() - 1)
    } else {
        s
    }
}

fn normalize_match_pattern_value(value: &str) -> (r: String)
    ensures
        r@ == unquote(value@),
{
    let v: Vec<char> = chars_of(value);
    let n: usize = v.len();
    if n >= 2 && v[0] == v[n - 1] && (v[0] == '"' || v[0] == '\'') {
        string_of(&v, 1, n - 1)
    } else {
        value.to_owned()
    }
}

/// The parts of a row without quotation marks and white space round them; empty ones only where
/// `keep_empty` holds.
pub open spec fn cleaned(parts: Seq<Seq<char>>, keep_empty: bool) -> Seq<Seq<char>>
    decreases parts.len(),
{
    if parts.len() == 0 {
        Seq::empty()
    } else {
        let before = cleaned(parts.drop_last(), keep_empty);
        let value = unquote(trim(parts.last()));
        if keep_empty || value.len() > 0 {
            before.push(value)
        } else {
            before
        }
    }
}

/// The patterns of a token, which commas separate.
pub open spec fn patterns_of(token: Seq<char>, keep_empty: bool) -> Seq<Seq<char>> {
    cleaned(split(token, ","@), keep_empty)
}

fn split_pattern_list(token: &str, preserve_empty: bool) -> (r: Vec<String>)
    ensures
        strs(r@) == patterns_of(token@, preserve_empty),
{
    let parts: Vec<String> = split_at_any(token, ",");
    let ghost all = strs(parts@);
    let mut out: Vec<String> = Vec::new();
    let mut i: usize = 0;
    while i < parts.len()
        invariant
            i <= parts@.len(),
            all == strs(parts@),
            strs(out@) == cleaned(all.take(i as int), preserve_empty),
        decreases parts@.len() - i,
    {
        let value: String = normalize_match_pattern_value(&trimmed(&parts[i]));
        if preserve_empty || !value.as_str().is_empty() {
            out.push(value);
        }
        i += 1;
    }
    out
}

/// The patterns of a row of tokens.
pub open spec fn all_patterns(tokens: Seq<Seq<char>>) -> Seq<Seq<char>>
    decreases tokens.len(),
{
    if tokens.len() == 0 {
        Seq::empty()
    } else {
        all_patterns(tokens.drop_last()) + patterns_of(tokens.last(), false)
    }
}

/// How many tokens stand before the first keyword.
pub open spec fn until_keyword(tokens: Seq<Seq<char>>) -> nat
    decreases tokens.len(),
{
    if tokens.len() == 0 || keyword_of(tokens[0]) is Some {
        0
    } else {
        1 + until_keyword(tokens.skip(1))
    }
}

fn count_until_keyword(tokens: &Vec<String>, from: usize) -> (r: usize)
    requires
        from <= tokens@.len(),
    ensures
        r == until_keyword(strs(tokens@).skip(from as int)),
        from + r <= tokens@.len(),
{
    let ghost all = strs(tokens@);
    let mut n: usize = 0;
    while n < tokens.len() - from && !is_match_keyword(&tokens[from + n])
        invariant
            from + n <= tokens.len(),
            all == strs(tokens@),
            until_keyword(all.skip(from as int)) == n + until_keyword(all.skip(from + n)),
        decreases tokens@.len() - n,
    {
        assert(all.skip(from + n)[0] == tokens@[from + n]@);
        n += 1;
    }
    assert(from + n < tokens@.len() ==> all.skip(from + n)[0] == tokens@[from + n]@);
    n
}

/// How the patterns behind a keyword are written.
pub enum PatternStyle {
    /// No patterns.
    Bare,
    /// All tokens up to the next keyword.
    Many,
    /// One token, whose empty patterns do not count.
    One,
    /// One token, whose empty patterns count too.
    OneOrEmpty,
    /// Nothing that could be judged.
    Skipped,
}

pub open spec fn style_of(keyword: Option<MatchKeyword>) -> PatternStyle {
    match keyword {
        Some(MatchKeyword::All) | Some(MatchKeyword::Canonical) | Some(
            MatchKeyword::Final,
        ) => PatternStyle::Bare,
        Some(MatchKeyword::Host) | Some(MatchKeyword::OriginalHost) | Some(
            MatchKeyword::User,
        ) | Some(MatchKeyword::LocalUser) => PatternStyle::Many,
        Some(MatchKeyword::Version) | Some(MatchKeyword::SessionType) | Some(
            MatchKeyword::LocalNetwork,
        ) => PatternStyle::One,
        Some(MatchKeyword::Tagged) | Some(MatchKeyword::Command) => PatternStyle::OneOrEmpty,
        Some(MatchKeyword::Unsupported) | None => PatternStyle::Skipped,
    }
}

/// The criteria of a header and the stretches of it that could not be read as such.
#[verifier::ext_equal]
pub struct HeaderView {
    pub criteria: Seq<CriterionView>,
    pub unsupported: Seq<Seq<char>>,
}

impl HeaderView {
    pub open spec fn with(self, c: CriterionView) -> HeaderView {
        HeaderView { criteria: self.criteria.push(c), ..self }
    }
}

pub open spec fn missing_patterns() -> Seq<char> {
    "Match criterion is missing patterns"@
}

/// What reading `tokens` adds to `acc`, or the first refusal.
pub open spec fn read_tokens(tokens: Seq<Seq<char>>, acc: HeaderView) -> Result<
    HeaderView,
    Seq<char>,
>
    decreases tokens.len(),
{
    if tokens.len() == 0 {
        Ok(acc)
    } else {
        let token = tokens[0];
        let rest = tokens.skip(1);
        let keyword = keyword_of(token);
        let negated = is_negated(token);
        let n = until_keyword(rest);
        let after = if n <= rest.len() {
            rest.skip(n as int)
        } else {
            Seq::empty()
        };
        match style_of(keyword) {
            PatternStyle::Bare => read_tokens(
                rest,
                acc.with(criterion(keyword->0, Seq::empty(), negated)),
            ),
            PatternStyle::Many => {
                let patterns = all_patterns(rest.take(n as int));
                if patterns.len() == 0 {
                    Err(missing_patterns())
                } else {
                    read_tokens(after, acc.with(criterion(keyword->0, patterns, negated)))
                }
            },
            PatternStyle::One => if rest.len() == 0 || is_supported_keyword(rest[0]) || patterns_of(
                rest[0],
                false,
            ).len() == 0 {
                Err(missing_patterns())
            } else {
                read_tokens(
                    rest.skip(1),
                    acc.with(criterion(keyword->0, patterns_of(rest[0], false), negated)),
                )
            },
            PatternStyle::OneOrEmpty => if rest.len() == 0 || is_supported_keyword(rest[0])
                || patterns_of(rest[0], true).len() == 0 {
                Err(missing_patterns())
            } else {
                read_tokens(
                    rest.skip(1),
                    acc.with(criterion(keyword->0, patterns_of(rest[0], true), negated)),
                )
            },
            PatternStyle::Skipped => read_tokens(
                after,
                HeaderView {
                    unsupported: acc.unsupported.push(
                        join(seq![token] + rest.take(n as int), " "@),
                    ),
                    ..acc
                },
            ),
        }
    }
}

/// The criteria and the unread stretches of what stands behind `Match`, or the refusal.
pub open spec fn read_header(body: Seq<char>) -> Result<HeaderView, Seq<char>> {
    let tokens = header_tokens(body);
    if tokens.len() == 0 {
        Err("empty Match condition"@)
    } else {
        read_tokens(
            tokens,
            HeaderView { criteria: Seq::empty(), unsupported: Seq::empty() },
        )
    }
}

/// Criteria make a condition; without any there is none.
pub open spec fn condition_of(criteria: Seq<CriterionView>) -> Option<Seq<CriterionView>> {
    if criteria.len() == 0 {
        None
    } else {
        Some(criteria)
    }
}

fn make_criterion(keyword: MatchKeyword, patterns: Vec<String>, negated: bool) -> (r: MatchCriterion)
    requires
        keyword != MatchKeyword::Unsupported,
        style_of(Some(keyword)) is Bare ==> patterns@.len() == 0,
    ensures
        r@ == criterion(keyword, strs(patterns@), negated),
{
    assert(patterns@.len() == 0 ==> strs(patterns@) =~= Seq::<Seq<char>>::empty());
    match keyword {
        MatchKeyword::Host => MatchCriterion::Host { patterns, negated },
        MatchKeyword::OriginalHost => MatchCriterion::OriginalHost { patterns, negated },
        MatchKeyword::User => MatchCriterion::User { patterns, negated },
        MatchKeyword::LocalUser => MatchCriterion::LocalUser { patterns, negated },
        MatchKeyword::Tagged => MatchCriterion::Tagged { patterns, negated },
        MatchKeyword::Version => MatchCriterion::Version { patterns, negated },
        MatchKeyword::Command => MatchCriterion::Command { patterns, negated },
        MatchKeyword::SessionType => MatchCriterion::SessionType { patterns, negated },
        MatchKeyword::LocalNetwork => MatchCriterion::LocalNetwork { patterns, negated },
        MatchKeyword::All => MatchCriterion::All { negated },
        MatchKeyword::Canonical => MatchCriterion::Canonical { negated },
        _ => MatchCriterion::Final { negated },
    }
}

/// The patterns of `count` tokens from `from` on.
fn collect_match_patterns(tokens: &Vec<String>, from: usize, count: usize) -> (r: Vec<String>)
    requires
        from + count <= tokens@.len(),
    ensures
        strs(r@) == all_patterns(strs(tokens@).skip(from as int).take(count as int)),
{
    let ghost all = strs(tokens@).skip(from as int);
    let mut out: Vec<String> = Vec::new();
    let mut i: usize = 0;
    while i < count
        invariant
            i <= count,
            from + count <= tokens.len(),
            all == strs(tokens@).skip(from as int),
            strs(out@) == all_patterns(all.take(i as int)),
        decreases count - i,
    {
        assert(all[i as int] == tokens@[from + i]@);
        let ghost before = strs(out@);
        let mut more: Vec<String> = split_pattern_list(&tokens[from + i], false);
        let ghost added = strs(more@);
        out.append(&mut more);
        assert(strs(out@) =~= before + added);
        i += 1;
    }
    out
}

/// The patterns of the token at `at`, if it can hold patterns and does.
fn collect_single_match_patterns(tokens: &Vec<String>, at: usize, preserve_empty: bool) -> (r: Option<
    Vec<String>,
>)
    requires
        at <= tokens@.len(),
    ensures
        match r {
            Some(v) => at < tokens@.len() && !is_supported_keyword(strs(tokens@)[at as int])
                && strs(v@) == patterns_of(strs(tokens@)[at as int], preserve_empty) && v@.len() > 0,
            None => at == tokens@.len() || is_supported_keyword(strs(tokens@)[at as int])
                || patterns_of(strs(tokens@)[at as int], preserve_empty).len() == 0,
        },
{
    if at == tokens.len() {
        return None;
    }
    assert(strs(tokens@)[at as int] == tokens@[at as int]@);
    if is_supported_match_keyword(&tokens[at]) {
        return None;
    }
    let patterns: Vec<String> = split_pattern_list(&tokens[at], preserve_empty);
    assert(strs(patterns@).len() == patterns@.len());
    if patterns.len() == 0 {
        None
    } else {
        Some(patterns)
    }
}

/// `count` tokens from `from` on, with spaces between them.
fn join_tokens(tokens: &Vec<String>, from: usize, count: usize) -> (r: String)
    requires
        from + count <= tokens@.len(),
    ensures
        r@ == join(strs(tokens@).skip(from as int).take(count as int), " "@),
{
    let mut part: Vec<String> = Vec::new();
    let ghost all = strs(tokens@).skip(from as int);
    let mut i: usize = 0;
    while i < count
        invariant
            i <= count,
            from + count <= tokens.len(),
            all == strs(tokens@).skip(from as int),
            strs(part@) == all.take(i as int),
        decreases count - i,
    {
        assert(all[i as int] == tokens@[from + i]@);
        part.push(tokens[from + i].clone());
        i += 1;
    }
    joined(&part, " ")
}

/// What a header says, by what it holds.
pub open spec fn header_result(r: Result<(MatchCondition, Vec<String>), ConfigError>) -> Result<
    (Option<Seq<CriterionView>>, Seq<Seq<char>>),
    Seq<char>,
> {
    match r {
        Ok((c, u)) => Ok((c@, strs(u@))),
        Err(e) => Err(e@),
    }
}

pub open spec fn header_meaning(body: Seq<char>) -> Result<
    (Option<Seq<CriterionView>>, Seq<Seq<char>>),
    Seq<char>,
> {
    match read_header(body) {
        Ok(h) => Ok((condition_of(h.criteria), h.unsupported)),
        Err(e) => Err(e),
    }
}

/// Reads the criterion that starts at `i` and gives back where the next one starts.
#[verifier::spinoff_prover]
#[verifier::rlimit(60)]
fn read_criterion(
    tokens: &Vec<String>,
    i: usize,
    criteria: &mut Vec<MatchCriterion>,
    unsupported: &mut Vec<String>,
) -> (r: Result<usize, ConfigError>)
    requires
        i < tokens.len(),
    ensures
        match r {
            Ok(next) => i < next <= tokens@.len() && read_tokens(
                strs(tokens@).skip(i as int),
                HeaderView {
                    criteria: views(old(criteria)@),
                    unsupported: strs(old(unsupported)@),
                },
            ) == read_tokens(
                strs(tokens@).skip(next as int),
                HeaderView {
                    criteria: views(final(criteria)@),
                    unsupported: strs(final(unsupported)@),
                },
            ),
            Err(e) => read_tokens(
                strs(tokens@).skip(i as int),
                HeaderView {
                    criteria: views(old(criteria)@),
                    unsupported: strs(old(unsupported)@),
                },
            ) == Err::<HeaderView, Seq<char>>(e@),
        },
{
    let ghost all = strs(tokens@);
    let ghost left = all.skip(i as int);
    let ghost rest = all.skip(i + 1);
    let ghost acc = HeaderView { criteria: views(criteria@), unsupported: strs(unsupported@) };
    assert(left[0] == tokens@[i as int]@);
    assert(left.skip(1) == rest);
    let negated: bool = pattern_is_negated(&tokens[i]);
    let keyword: Option<MatchKeyword> = match_keyword(&tokens[i]);
    match keyword {
        Some(MatchKeyword::All) | Some(MatchKeyword::Canonical) | Some(MatchKeyword::Final) => {
            let c: MatchCriterion = make_criterion(keyword.unwrap(), Vec::new(), negated);
            assert(c@ == criterion(keyword->0, Seq::empty(), negated));
            criteria.push(c);
            Ok(i + 1)
        },
        Some(MatchKeyword::Unsupported) | None => {
            let n: usize = count_until_keyword(tokens, i + 1);
            assert(rest.skip(n as int) =~= all.skip(i + 1 + n));
            let text: String = join_tokens(tokens, i, n + 1);
            assert(left.take(n + 1) =~= seq![left[0]] + rest.take(n as int));
            unsupported.push(text);
            Ok(i + n + 1)
        },
        Some(MatchKeyword::Host)
        | Some(MatchKeyword::OriginalHost)
        | Some(MatchKeyword::User)
        | Some(MatchKeyword::LocalUser) => {
            let n: usize = count_until_keyword(tokens, i + 1);
            assert(rest.skip(n as int) =~= all.skip(i + 1 + n));
            let patterns: Vec<String> = collect_match_patterns(tokens, i + 1, n);
            assert(strs(patterns@).len() == patterns@.len());
            if patterns.len() == 0 {
                return Err(ConfigError::of("Match criterion is missing patterns"));
            }
            criteria.push(make_criterion(keyword.unwrap(), patterns, negated));
            Ok(i + n + 1)
        },
        Some(k) => {
            let keep: bool = k == MatchKeyword::Tagged || k == MatchKeyword::Command;
            assert(i + 1 < tokens@.len() ==> rest[0] == all[i + 1]);
            match collect_single_match_patterns(tokens, i + 1, keep) {
                Some(patterns) => {
                    assert(rest.skip(1) =~= all.skip(i + 2));
                    criteria.push(make_criterion(k, patterns, negated));
                    Ok(i + 2)
                },
                None => Err(ConfigError::of("Match criterion is missing patterns")),
            }
        },
    }
}

/// Reads what stands behind `Match`.
pub fn parse_match_condition(header_body: &str) -> (r: Result<
    (MatchCondition, Vec<String>),
    ConfigError,
>)
    ensures
        header_result(r) == header_meaning(header_body@),
{
    let tokens: Vec<String> = tokenize_match_header(header_body);
    let ghost all = strs(tokens@);
    assert(all.len() == tokens@.len());
    if tokens.len() == 0 {
        return Err(ConfigError::of("empty Match condition"));
    }
    let mut criteria: Vec<MatchCriterion> = Vec::new();
    let mut unsupported: Vec<String> = Vec::new();
    let mut i: usize = 0;
    while i < tokens.len()
        invariant
            i <= tokens@.len(),
            all == strs(tokens@),
            read_header(header_body@) == read_tokens(
                all.skip(i as int),
                HeaderView { criteria: views(criteria@), unsupported: strs(unsupported@) },
            ),
        decreases tokens@.len() - i,
    {
        match read_criterion(&tokens, i, &mut criteria, &mut unsupported) {
            Ok(next) => {
                i = next;
            },
            Err(e) => {
                return Err(e);
            },
        }
    }
    assert(views(criteria@).len() == criteria@.len());
    if criteria.len() == 0 {
        return Ok((MatchCondition::Unsupported, unsupported));
    }
    Ok((MatchCondition::Criteria(criteria), unsupported))
}

} // verus!
