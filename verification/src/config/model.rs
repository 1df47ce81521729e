//! Host entries and what a resolved target is made of.

#![verifier::loop_isolation(false)]

use vstd::prelude::*;

use crate::strings::{
    begins_with, copy_opt, copy_pairs, copy_strs, has_char, same, same_opt, same_strs,
};
use crate::text::{opt, pairs, strs, views};

verus! {

broadcast use crate::text::group_text;

/// The directives of one `Host` block, or of the body of a `Match` block.
#[derive(Debug, PartialEq, Eq)]
pub struct HostEntry {
    pub host_patterns: Vec<String>,
    pub hostname: Option<String>,
    pub user: Option<String>,
    pub port: Option<u16>,
    pub proxy_jump: Option<String>,
    pub identity_files: Vec<String>,
    pub local_forwards: Vec<String>,
    pub remote_forwards: Vec<String>,
    pub strict_host_key_checking: Option<String>,
    pub user_known_hosts_file: Option<String>,
    pub host_key_algorithms: Option<String>,
    pub pubkey_accepted_algorithms: Option<String>,
    pub forward_agent: Option<String>,
    pub tag: Option<String>,
    pub extra_options: Vec<(String, String)>,
}

/// What a [`HostEntry`] holds.
#[verifier::ext_equal]
pub struct HostView {
    pub host_patterns: Seq<Seq<char>>,
    pub hostname: Option<Seq<char>>,
    pub user: Option<Seq<char>>,
    pub port: Option<u16>,
    pub proxy_jump: Option<Seq<char>>,
    pub identity_files: Seq<Seq<char>>,
    pub local_forwards: Seq<Seq<char>>,
    pub remote_forwards: Seq<Seq<char>>,
    pub strict_host_key_checking: Option<Seq<char>>,
    pub user_known_hosts_file: Option<Seq<char>>,
    pub host_key_algorithms: Option<Seq<char>>,
    pub pubkey_accepted_algorithms: Option<Seq<char>>,
    pub forward_agent: Option<Seq<char>>,
    pub tag: Option<Seq<char>>,
    pub extra_options: Seq<(Seq<char>, Seq<char>)>,
}

impl View for HostEntry {
    type V = HostView;

    open spec fn view(&self) -> HostView {
        HostView {
            host_patterns: strs(self.host_patterns@),
            hostname: opt(self.hostname),
            user: opt(self.user),
            port: self.port,
            proxy_jump: opt(self.proxy_jump),
            identity_files: strs(self.identity_files@),
            local_forwards: strs(self.local_forwards@),
            remote_forwards: strs(self.remote_forwards@),
            strict_host_key_checking: opt(self.strict_host_key_checking),
            user_known_hosts_file: opt(self.user_known_hosts_file),
            host_key_algorithms: opt(self.host_key_algorithms),
            pubkey_accepted_algorithms: opt(self.pubkey_accepted_algorithms),
            forward_agent: opt(self.forward_agent),
            tag: opt(self.tag),
            extra_options: pairs(self.extra_options@),
        }
    }
}

/// An entry without any directive.
pub open spec fn empty_host() -> HostView {
    HostView {
        host_patterns: Seq::empty(),
        hostname: None,
        user: None,
        port: None,
        proxy_jump: None,
        identity_files: Seq::empty(),
        local_forwards: Seq::empty(),
        remote_forwards: Seq::empty(),
        strict_host_key_checking: None,
        user_known_hosts_file: None,
        host_key_algorithms: None,
        pubkey_accepted_algorithms: None,
        forward_agent: None,
        tag: None,
        extra_options: Seq::empty(),
    }
}

impl Default for HostEntry {
    fn default() -> (r: HostEntry)
        ensures
            r@ == empty_host(),
    {
        let r = HostEntry {
            host_patterns: Vec::new(),
            hostname: None,
            user: None,
            port: None,
            proxy_jump: None,
            identity_files: Vec::new(),
            local_forwards: Vec::new(),
            remote_forwards: Vec::new(),
            strict_host_key_checking: None,
            user_known_hosts_file: None,
            host_key_algorithms: None,
            pubkey_accepted_algorithms: None,
            forward_agent: None,
            tag: None,
            extra_options: Vec::new(),
        };
        assert(r@ =~= empty_host());
        r
    }
}

impl Clone for HostEntry {
    fn clone(&self) -> (r: HostEntry)
        ensures
            r@ == self@,
    {
        HostEntry {
            host_patterns: copy_strs(&self.host_patterns),
            hostname: copy_opt(&self.hostname),
            user: copy_opt(&self.user),
            port: self.port,
            proxy_jump: copy_opt(&self.proxy_jump),
            identity_files: copy_strs(&self.identity_files),
            local_forwards: copy_strs(&self.local_forwards),
            remote_forwards: copy_strs(&self.remote_forwards),
            strict_host_key_checking: copy_opt(&self.strict_host_key_checking),
            user_known_hosts_file: copy_opt(&self.user_known_hosts_file),
            host_key_algorithms: copy_opt(&self.host_key_algorithms),
            pubkey_accepted_algorithms: copy_opt(&self.pubkey_accepted_algorithms),
            forward_agent: copy_opt(&self.forward_agent),
            tag: copy_opt(&self.tag),
            extra_options: copy_pairs(&self.extra_options),
        }
    }
}

/// Whether an entry speaks of exact host names or of patterns.
#[derive(Debug, Clone, Copy, PartialEq, Eq, Structural)]
pub enum EntryKind {
    Host,
    Pattern,
}

impl EntryKind {
    pub open spec fn spec_label(self) -> Seq<char> {
        match self {
            EntryKind::Host => "host"@,
            EntryKind::Pattern => "pattern"@,
        }
    }

    pub fn label(self) -> (r: &'static str)
        ensures
            r@ == self.spec_label(),
    {
        match self {
            EntryKind::Host => "host",
            EntryKind::Pattern => "pattern",
        }
    }
}

/// A pattern with a wildcard, or a negated one.
pub open spec fn is_wild(pattern: Seq<char>) -> bool {
    pattern.contains('*') || pattern.contains('?') || (pattern.len() > 0 && pattern[0] == '!')
}

impl HostView {
    /// The first pattern, or nothing where there is none.
    pub open spec fn primary(self) -> Seq<char> {
        if self.host_patterns.len() > 0 {
            self.host_patterns[0]
        } else {
            Seq::empty()
        }
    }

    /// `Pattern` where any of the patterns is wild.
    pub open spec fn kind(self) -> EntryKind {
        if exists|i: int|
            0 <= i < self.host_patterns.len() && is_wild(#[trigger] self.host_patterns[i]) {
            EntryKind::Pattern
        } else {
            EntryKind::Host
        }
    }
}

/// Whether a pattern has a wildcard or is negated.
pub fn pattern_is_wild(pattern: &str) -> (r: bool)
    ensures
        r == is_wild(pattern@),
{
    proof {
        reveal_strlit("!");
    }
    let negated: bool = begins_with(pattern, "!");
    assert(negated == (pattern@.len() > 0 && pattern@[0] == '!')) by {
        if pattern@.len() > 0 {
            assert("!"@ =~= seq!['!']);
            assert(pattern@.take(1) =~= seq![pattern@[0]]);
            assert(seq![pattern@[0]][0] == pattern@[0]);
        }
    }
    has_char(pattern, '*') || has_char(pattern, '?') || negated
}

impl HostEntry {
    pub fn primary_pattern(&self) -> (r: &str)
        ensures
            r@ == self@.primary(),
    {
        if self.host_patterns.len() > 0 {
            self.host_patterns[0].as_str()
        } else {
            proof {
                reveal_strlit("");
            }
            assert(""@ =~= Seq::<char>::empty());
            ""
        }
    }

    pub fn kind(&self) -> (r: EntryKind)
        ensures
            r == self@.kind(),
    {
        let mut i: usize = 0;
        while i < self.host_patterns.len()
            invariant
                i <= self.host_patterns@.len(),
                forall|k: int| 0 <= k < i ==> !is_wild(#[trigger] self@.host_patterns[k]),
            decreases self.host_patterns@.len() - i,
        {
            if pattern_is_wild(&self.host_patterns[i]) {
                assert(is_wild(self@.host_patterns[i as int]));
                return EntryKind::Pattern;
            }
            i += 1;
        }
        EntryKind::Host
    }
}

/// Whether both hold the same pairs in the same order.
fn same_pairs(a: &Vec<(String, String)>, b: &Vec<(String, String)>) -> (r: bool)
    ensures
        r == (pairs(a@) == pairs(b@)),
{
    if a.len() != b.len() {
        assert(pairs(a@).len() != pairs(b@).len());
        return false;
    }
    let mut i: usize = 0;
    while i < a.len()
        invariant
            i <= a@.len() == b@.len(),
            forall|k: int| 0 <= k < i ==> #[trigger] pairs(a@)[k] == pairs(b@)[k],
        decreases a@.len() - i,
    {
        if !same(&a[i].0, &b[i].0) || !same(&a[i].1, &b[i].1) {
            assert(pairs(a@)[i as int] != pairs(b@)[i as int]);
            return false;
        }
        i += 1;
    }
    assert(pairs(a@) =~= pairs(b@));
    true
}

/// Whether both entries hold the same directives.
pub fn same_entry(a: &HostEntry, b: &HostEntry) -> (r: bool)
    ensures
        r == (a@ == b@),
{
    let r: bool = same_strs(&a.host_patterns, &b.host_patterns) && same_opt(
        &a.hostname,
        &b.hostname,
    ) && same_opt(&a.user, &b.user) && a.port == b.port && same_opt(&a.proxy_jump, &b.proxy_jump)
        && same_strs(&a.identity_files, &b.identity_files) && same_strs(
        &a.local_forwards,
        &b.local_forwards,
    ) && same_strs(&a.remote_forwards, &b.remote_forwards) && same_opt(
        &a.strict_host_key_checking,
        &b.strict_host_key_checking,
    ) && same_opt(&a.user_known_hosts_file, &b.user_known_hosts_file) && same_opt(
        &a.host_key_algorithms,
        &b.host_key_algorithms,
    ) && same_opt(&a.pubkey_accepted_algorithms, &b.pubkey_accepted_algorithms) && same_opt(
        &a.forward_agent,
        &b.forward_agent,
    ) && same_opt(&a.tag, &b.tag) && same_pairs(&a.extra_options, &b.extra_options);
    if r {
        assert(a@ =~= b@);
    }
    r
}

/// An entry together with the file that holds it.
#[derive(Debug)]
pub struct ManagedEntry {
    pub order: u16,
    pub slug: String,
    pub path: String,
    pub raw_content: String,
    pub entry: HostEntry,
}

/// What a [`ManagedEntry`] holds.
#[verifier::ext_equal]
pub struct ManagedView {
    pub order: u16,
    pub slug: Seq<char>,
    pub path: Seq<char>,
    pub raw_content: Seq<char>,
    pub entry: HostView,
}

impl View for ManagedEntry {
    type V = ManagedView;

    open spec fn view(&self) -> ManagedView {
        ManagedView {
            order: self.order,
            slug: self.slug@,
            path: self.path@,
            raw_content: self.raw_content@,
            entry: self.entry@,
        }
    }
}

impl Clone for ManagedEntry {
    fn clone(&self) -> (r: ManagedEntry)
        ensures
            r@ == self@,
    {
        ManagedEntry {
            order: self.order,
            slug: self.slug.clone(),
            path: self.path.clone(),
            raw_content: self.raw_content.clone(),
            entry: self.entry.clone(),
        }
    }
}

/// A copy of a row of entries.
pub fn copy_slice(v: &[ManagedEntry]) -> (r: Vec<ManagedEntry>)
    ensures
        views(r@) == views(v@),
{
    let mut r: Vec<ManagedEntry> = Vec::new();
    let mut i: usize = 0;
    while i < v.len()
        invariant
            i <= v@.len(),
            views(r@) == views(v@).take(i as int),
        decreases v@.len() - i,
    {
        r.push(v[i].clone());
        i += 1;
        assert(views(r@) =~= views(v@).take(i as int));
    }
    r
}

/// The block of configuration that a directive was taken from.
#[derive(Debug, PartialEq, Eq)]
pub struct DirectiveOrigin {
    pub order: u16,
    pub entry_kind: EntryKind,
    pub host_patterns: Vec<String>,
    pub path: String,
}

/// What a [`DirectiveOrigin`] holds.
#[verifier::ext_equal]
pub struct OriginView {
    pub order: u16,
    pub entry_kind: EntryKind,
    pub host_patterns: Seq<Seq<char>>,
    pub path: Seq<char>,
}

impl View for DirectiveOrigin {
    type V = OriginView;

    open spec fn view(&self) -> OriginView {
        OriginView {
            order: self.order,
            entry_kind: self.entry_kind,
            host_patterns: strs(self.host_patterns@),
            path: self.path@,
        }
    }
}

impl Clone for DirectiveOrigin {
    fn clone(&self) -> (r: DirectiveOrigin)
        ensures
            r@ == self@,
    {
        DirectiveOrigin {
            order: self.order,
            entry_kind: self.entry_kind,
            host_patterns: copy_strs(&self.host_patterns),
            path: self.path.clone(),
        }
    }
}

/// A directive of a resolved target, with the block that gave it.
#[derive(Debug, PartialEq, Eq)]
pub struct ResolvedDirectiveSource {
    pub key: String,
    pub value: String,
    pub origin: DirectiveOrigin,
}

/// What a [`ResolvedDirectiveSource`] holds.
#[verifier::ext_equal]
pub struct SourceView {
    pub key: Seq<char>,
    pub value: Seq<char>,
    pub origin: OriginView,
}

impl View for ResolvedDirectiveSource {
    type V = SourceView;

    open spec fn view(&self) -> SourceView {
        SourceView { key: self.key@, value: self.value@, origin: self.origin@ }
    }
}

impl Clone for ResolvedDirectiveSource {
    fn clone(&self) -> (r: ResolvedDirectiveSource)
        ensures
            r@ == self@,
    {
        ResolvedDirectiveSource {
            key: self.key.clone(),
            value: self.value.clone(),
            origin: self.origin.clone(),
        }
    }
}

/// A later value for a directive that had already been given one.
#[derive(Debug, PartialEq, Eq)]
pub struct IgnoredScalarOverride {
    pub key: String,
    pub attempted_value: String,
    pub attempted_origin: DirectiveOrigin,
    pub winning_value: String,
    pub winning_origin: DirectiveOrigin,
}

/// What an [`IgnoredScalarOverride`] holds.
#[verifier::ext_equal]
pub struct IgnoredView {
    pub key: Seq<char>,
    pub attempted_value: Seq<char>,
    pub attempted_origin: OriginView,
    pub winning_value: Seq<char>,
    pub winning_origin: OriginView,
}

impl View for IgnoredScalarOverride {
    type V = IgnoredView;

    open spec fn view(&self) -> IgnoredView {
        IgnoredView {
            key: self.key@,
            attempted_value: self.attempted_value@,
            attempted_origin: self.attempted_origin@,
            winning_value: self.winning_value@,
            winning_origin: self.winning_origin@,
        }
    }
}

/// What the configuration says of one target.
#[derive(Debug)]
pub struct ResolvedEntry {
    pub target: String,
    pub matched_entries: Vec<ManagedEntry>,
    pub merged_entry: HostEntry,
    pub directive_sources: Vec<ResolvedDirectiveSource>,
    pub ignored_scalar_overrides: Vec<IgnoredScalarOverride>,
    pub root_match_notes: Vec<String>,
}

/// What a [`ResolvedEntry`] holds.
#[verifier::ext_equal]
pub struct ResolvedView {
    pub target: Seq<char>,
    pub matched_entries: Seq<ManagedView>,
    pub merged_entry: HostView,
    pub directive_sources: Seq<SourceView>,
    pub ignored_scalar_overrides: Seq<IgnoredView>,
    pub root_match_notes: Seq<Seq<char>>,
}

impl View for ResolvedEntry {
    type V = ResolvedView;

    open spec fn view(&self) -> ResolvedView {
        ResolvedView {
            target: self.target@,
            matched_entries: views(self.matched_entries@),
            merged_entry: self.merged_entry@,
            directive_sources: views(self.directive_sources@),
            ignored_scalar_overrides: views(self.ignored_scalar_overrides@),
            root_match_notes: strs(self.root_match_notes@),
        }
    }
}

} // verus!
