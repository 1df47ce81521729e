//! What the configuration says of a target, all blocks taken together.

#![verifier::loop_isolation(false)]

use vstd::prelude::*;

use crate::config::match_header::{BlockView, ContextView, MatchContext, RootMatchBlock};
use crate::config::model::{
    DirectiveOrigin, EntryKind, HostEntry, HostView, IgnoredScalarOverride, IgnoredView,
    ManagedEntry, ManagedView, OriginView, ResolvedDirectiveSource, ResolvedEntry, ResolvedView,
    SourceView, empty_host,
};
use crate::config::pattern::{
    bare, is_plain, lemma_portable_list, list_matches, list_may_say, list_portable, literals_match,
    pattern_list_matches, verdict,
};
use crate::config::render::{directives, directives_of, port_text};
use crate::config::root_config::{
    block_applies, block_may_apply, block_portable, block_uses_ssh_version, lemma_portable_block,
    match_block_applies, uses_version,
};
use crate::error::ConfigError;
use crate::strings::{
    concat3, concat4, copy_opt, copy_strs, decimal_text, equal_ignoring_case, joined, same,
    split_lines, trimmed,
};
use crate::text::{
    decimal, join, lines, lower, opt, opt_str, pairs, same_ignoring_case, strs, trim, views,
};

verus! {

broadcast use crate::text::group_text;

/// What is known of a connection besides the configuration.
#[derive(Debug, Clone, Copy)]
pub struct RootMatchResolveOptions<'a> {
    pub local_user: Option<&'a str>,
    pub current_user: Option<&'a str>,
    pub initial_tag: Option<&'a str>,
    pub ssh_version: Option<&'a str>,
    pub session_type: Option<&'a str>,
    pub command: Option<&'a str>,
    pub local_networks: &'a [String],
    pub is_canonical: bool,
    pub is_final: bool,
}

/// What [`RootMatchResolveOptions`] hold.
#[verifier::ext_equal]
pub struct OptionsView {
    pub local_user: Option<Seq<char>>,
    pub current_user: Option<Seq<char>>,
    pub initial_tag: Option<Seq<char>>,
    pub ssh_version: Option<Seq<char>>,
    pub session_type: Option<Seq<char>>,
    pub command: Option<Seq<char>>,
    pub local_networks: Seq<Seq<char>>,
    pub is_canonical: bool,
    pub is_final: bool,
}

impl<'a> View for RootMatchResolveOptions<'a> {
    type V = OptionsView;

    open spec fn view(&self) -> OptionsView {
        OptionsView {
            local_user: opt_str(self.local_user),
            current_user: opt_str(self.current_user),
            initial_tag: opt_str(self.initial_tag),
            ssh_version: opt_str(self.ssh_version),
            session_type: opt_str(self.session_type),
            command: opt_str(self.command),
            local_networks: strs(self.local_networks@),
            is_canonical: self.is_canonical,
            is_final: self.is_final,
        }
    }
}

/// Options that say nothing.
pub open spec fn no_options() -> OptionsView {
    OptionsView {
        local_user: None,
        current_user: None,
        initial_tag: None,
        ssh_version: None,
        session_type: None,
        command: None,
        local_networks: Seq::empty(),
        is_canonical: false,
        is_final: false,
    }
}

impl<'a> Default for RootMatchResolveOptions<'a> {
    fn default() -> (r: RootMatchResolveOptions<'a>)
        ensures
            r@ == no_options(),
    {
        let none: &'a [String] = &[];
        assert(strs(none@) =~= Seq::<Seq<char>>::empty());
        RootMatchResolveOptions {
            local_user: None,
            current_user: None,
            initial_tag: None,
            ssh_version: None,
            session_type: None,
            command: None,
            local_networks: none,
            is_canonical: false,
            is_final: false,
        }
    }
}

/// What the machine says of itself; `local_user` is empty where it is not known.
#[derive(Debug)]
pub struct MachineFacts {
    pub local_user: String,
    pub local_networks: Vec<String>,
    pub ssh_version: Option<String>,
}

// ---------------------------------------------------------------------------
// Merging
// ---------------------------------------------------------------------------

pub open spec fn opt_view<T: View>(o: Option<T>) -> Option<T::V> {
    match o {
        Some(x) => Some(x@),
        None => None,
    }
}

/// The block that gave each scalar directive its value.
pub struct Winners {
    pub hostname: Option<ResolvedDirectiveSource>,
    pub user: Option<ResolvedDirectiveSource>,
    pub port: Option<ResolvedDirectiveSource>,
    pub proxy_jump: Option<ResolvedDirectiveSource>,
    pub strict_host_key_checking: Option<ResolvedDirectiveSource>,
    pub user_known_hosts_file: Option<ResolvedDirectiveSource>,
    pub host_key_algorithms: Option<ResolvedDirectiveSource>,
    pub pubkey_accepted_algorithms: Option<ResolvedDirectiveSource>,
    pub forward_agent: Option<ResolvedDirectiveSource>,
    pub tag: Option<ResolvedDirectiveSource>,
}

/// What [`Winners`] hold.
#[verifier::ext_equal]
pub struct WinnersView {
    pub hostname: Option<SourceView>,
    pub user: Option<SourceView>,
    pub port: Option<SourceView>,
    pub proxy_jump: Option<SourceView>,
    pub strict_host_key_checking: Option<SourceView>,
    pub user_known_hosts_file: Option<SourceView>,
    pub host_key_algorithms: Option<SourceView>,
    pub pubkey_accepted_algorithms: Option<SourceView>,
    pub forward_agent: Option<SourceView>,
    pub tag: Option<SourceView>,
}

impl View for Winners {
    type V = WinnersView;

    open spec fn view(&self) -> WinnersView {
        WinnersView {
            hostname: opt_view(self.hostname),
            user: opt_view(self.user),
            port: opt_view(self.port),
            proxy_jump: opt_view(self.proxy_jump),
            strict_host_key_checking: opt_view(self.strict_host_key_checking),
            user_known_hosts_file: opt_view(self.user_known_hosts_file),
            host_key_algorithms: opt_view(self.host_key_algorithms),
            pubkey_accepted_algorithms: opt_view(self.pubkey_accepted_algorithms),
            forward_agent: opt_view(self.forward_agent),
            tag: opt_view(self.tag),
        }
    }
}

pub open spec fn no_winners() -> WinnersView {
    WinnersView {
        hostname: None,
        user: None,
        port: None,
        proxy_jump: None,
        strict_host_key_checking: None,
        user_known_hosts_file: None,
        host_key_algorithms: None,
        pubkey_accepted_algorithms: None,
        forward_agent: None,
        tag: None,
    }
}

/// How far a target has been resolved.
pub struct Merge {
    pub matched: Vec<ManagedEntry>,
    pub merged: HostEntry,
    pub winners: Winners,
    pub sources: Vec<ResolvedDirectiveSource>,
    pub ignored: Vec<IgnoredScalarOverride>,
    pub notes: Vec<String>,
}

/// What a [`Merge`] holds.
#[verifier::ext_equal]
pub struct MergeView {
    pub matched: Seq<ManagedView>,
    pub merged: HostView,
    pub winners: WinnersView,
    pub sources: Seq<SourceView>,
    pub ignored: Seq<IgnoredView>,
    pub notes: Seq<Seq<char>>,
}

impl View for Merge {
    type V = MergeView;

    open spec fn view(&self) -> MergeView {
        MergeView {
            matched: views(self.matched@),
            merged: self.merged@,
            winners: self.winners@,
            sources: views(self.sources@),
            ignored: views(self.ignored@),
            notes: strs(self.notes@),
        }
    }
}

impl MergeView {
    /// A scalar directive has a value exactly where a block gave it one.
    pub open spec fn wf(self) -> bool {
        &&& (self.merged.hostname is Some <==> self.winners.hostname is Some)
        &&& (self.merged.user is Some <==> self.winners.user is Some)
        &&& (self.merged.port is Some <==> self.winners.port is Some)
        &&& (self.merged.proxy_jump is Some <==> self.winners.proxy_jump is Some)
        &&& (self.merged.strict_host_key_checking is Some
            <==> self.winners.strict_host_key_checking is Some)
        &&& (self.merged.user_known_hosts_file is Some
            <==> self.winners.user_known_hosts_file is Some)
        &&& (self.merged.host_key_algorithms is Some <==> self.winners.host_key_algorithms is Some)
        &&& (self.merged.pubkey_accepted_algorithms is Some
            <==> self.winners.pubkey_accepted_algorithms is Some)
        &&& (self.merged.forward_agent is Some <==> self.winners.forward_agent is Some)
        &&& (self.merged.tag is Some <==> self.winners.tag is Some)
    }
}

/// The first value wins.
pub open spec fn first<A>(a: Option<A>, b: Option<A>) -> Option<A> {
    match a {
        Some(_) => a,
        None => b,
    }
}

pub open spec fn source(key: Seq<char>, value: Seq<char>, origin: OriginView) -> SourceView {
    SourceView { key, value, origin }
}

/// The source of a scalar directive once a further block has been read.
pub open spec fn winner_after(
    winner: Option<SourceView>,
    key: Seq<char>,
    value: Option<Seq<char>>,
    origin: OriginView,
) -> Option<SourceView> {
    match (winner, value) {
        (None, Some(v)) => Some(source(key, v, origin)),
        _ => winner,
    }
}

/// The source that a further block adds for a scalar directive.
pub open spec fn source_added(
    winner: Option<SourceView>,
    key: Seq<char>,
    value: Option<Seq<char>>,
    origin: OriginView,
) -> Seq<SourceView> {
    match (winner, value) {
        (None, Some(v)) => seq![source(key, v, origin)],
        _ => Seq::empty(),
    }
}

/// The value of a further block for a scalar directive that comes too late.
pub open spec fn ignored_added(
    winner: Option<SourceView>,
    key: Seq<char>,
    value: Option<Seq<char>>,
    origin: OriginView,
) -> Seq<IgnoredView> {
    match (winner, value) {
        (Some(w), Some(v)) => seq![
            IgnoredView {
                key,
                attempted_value: v,
                attempted_origin: origin,
                winning_value: w.value,
                winning_origin: w.origin,
            },
        ],
        _ => Seq::empty(),
    }
}

pub open spec fn sources_each(key: Seq<char>, values: Seq<Seq<char>>, origin: OriginView) -> Seq<
    SourceView,
> {
    Seq::new(values.len(), |i: int| source(key, values[i], origin))
}

pub open spec fn sources_extra(extras: Seq<(Seq<char>, Seq<char>)>, origin: OriginView) -> Seq<
    SourceView,
> {
    Seq::new(extras.len(), |i: int| source(extras[i].0, extras[i].1, origin))
}

/// The merged directives once a further block has been read: a scalar one keeps its first value,
/// the values of the others are put one behind the other.
pub open spec fn merged_with(m: HostView, e: HostView) -> HostView {
    HostView {
        host_patterns: m.host_patterns,
        hostname: first(m.hostname, e.hostname),
        user: first(m.user, e.user),
        port: first(m.port, e.port),
        proxy_jump: first(m.proxy_jump, e.proxy_jump),
        identity_files: m.identity_files + e.identity_files,
        local_forwards: m.local_forwards + e.local_forwards,
        remote_forwards: m.remote_forwards + e.remote_forwards,
        strict_host_key_checking: first(m.strict_host_key_checking, e.strict_host_key_checking),
        user_known_hosts_file: first(m.user_known_hosts_file, e.user_known_hosts_file),
        host_key_algorithms: first(m.host_key_algorithms, e.host_key_algorithms),
        pubkey_accepted_algorithms: first(
            m.pubkey_accepted_algorithms,
            e.pubkey_accepted_algorithms,
        ),
        forward_agent: first(m.forward_agent, e.forward_agent),
        tag: first(m.tag, e.tag),
        extra_options: m.extra_options + e.extra_options,
    }
}

pub open spec fn winners_with(w: WinnersView, e: HostView, o: OriginView) -> WinnersView {
    WinnersView {
        hostname: winner_after(w.hostname, "HostName"@, e.hostname, o),
        user: winner_after(w.user, "User"@, e.user, o),
        port: winner_after(w.port, "Port"@, port_text(e.port), o),
        proxy_jump: winner_after(w.proxy_jump, "ProxyJump"@, e.proxy_jump, o),
        strict_host_key_checking: winner_after(
            w.strict_host_key_checking,
            "StrictHostKeyChecking"@,
            e.strict_host_key_checking,
            o,
        ),
        user_known_hosts_file: winner_after(
            w.user_known_hosts_file,
            "UserKnownHostsFile"@,
            e.user_known_hosts_file,
            o,
        ),
        host_key_algorithms: winner_after(
            w.host_key_algorithms,
            "HostKeyAlgorithms"@,
            e.host_key_algorithms,
            o,
        ),
        pubkey_accepted_algorithms: winner_after(
            w.pubkey_accepted_algorithms,
            "PubkeyAcceptedAlgorithms"@,
            e.pubkey_accepted_algorithms,
            o,
        ),
        forward_agent: winner_after(w.forward_agent, "ForwardAgent"@, e.forward_agent, o),
        tag: winner_after(w.tag, "Tag"@, e.tag, o),
    }
}

/// `base` and behind it the sources that the block `e` from `o` adds.
pub open spec fn sources_with(
    base: Seq<SourceView>,
    w: WinnersView,
    e: HostView,
    o: OriginView,
) -> Seq<SourceView> {
    scalar_sources_with(base, w, e, o) + sources_each("IdentityFile"@, e.identity_files, o)
        + sources_each("LocalForward"@, e.local_forwards, o) + sources_each(
        "RemoteForward"@,
        e.remote_forwards,
        o,
    ) + sources_extra(e.extra_options, o)
}

pub open spec fn scalar_sources_with(
    base: Seq<SourceView>,
    w: WinnersView,
    e: HostView,
    o: OriginView,
) -> Seq<SourceView> {
    base + source_added(w.hostname, "HostName"@, e.hostname, o) + source_added(
        w.user,
        "User"@,
        e.user,
        o,
    ) + source_added(w.port, "Port"@, port_text(e.port), o) + source_added(
        w.proxy_jump,
        "ProxyJump"@,
        e.proxy_jump,
        o,
    ) + source_added(
        w.strict_host_key_checking,
        "StrictHostKeyChecking"@,
        e.strict_host_key_checking,
        o,
    ) + source_added(
        w.user_known_hosts_file,
        "UserKnownHostsFile"@,
        e.user_known_hosts_file,
        o,
    ) + source_added(w.host_key_algorithms, "HostKeyAlgorithms"@, e.host_key_algorithms, o)
        + source_added(
        w.pubkey_accepted_algorithms,
        "PubkeyAcceptedAlgorithms"@,
        e.pubkey_accepted_algorithms,
        o,
    ) + source_added(w.forward_agent, "ForwardAgent"@, e.forward_agent, o) + source_added(
        w.tag,
        "Tag"@,
        e.tag,
        o,
    )
}

/// `base` and behind it the values of the block `e` from `o` that come too late.
pub open spec fn ignored_with(
    base: Seq<IgnoredView>,
    w: WinnersView,
    e: HostView,
    o: OriginView,
) -> Seq<IgnoredView> {
    base + ignored_added(w.hostname, "HostName"@, e.hostname, o) + ignored_added(
        w.user,
        "User"@,
        e.user,
        o,
    ) + ignored_added(w.port, "Port"@, port_text(e.port), o) + ignored_added(
        w.proxy_jump,
        "ProxyJump"@,
        e.proxy_jump,
        o,
    ) + ignored_added(
        w.strict_host_key_checking,
        "StrictHostKeyChecking"@,
        e.strict_host_key_checking,
        o,
    ) + ignored_added(
        w.user_known_hosts_file,
        "UserKnownHostsFile"@,
        e.user_known_hosts_file,
        o,
    ) + ignored_added(w.host_key_algorithms, "HostKeyAlgorithms"@, e.host_key_algorithms, o)
        + ignored_added(
        w.pubkey_accepted_algorithms,
        "PubkeyAcceptedAlgorithms"@,
        e.pubkey_accepted_algorithms,
        o,
    ) + ignored_added(w.forward_agent, "ForwardAgent"@, e.forward_agent, o) + ignored_added(
        w.tag,
        "Tag"@,
        e.tag,
        o,
    )
}

/// `m` once the block `e` from `o` has been read.
pub open spec fn absorbed(m: MergeView, e: HostView, o: OriginView) -> MergeView {
    MergeView {
        merged: merged_with(m.merged, e),
        winners: winners_with(m.winners, e, o),
        sources: sources_with(m.sources, m.winners, e, o),
        ignored: ignored_with(m.ignored, m.winners, e, o),
        ..m
    }
}

pub open spec fn entry_origin(e: ManagedView) -> OriginView {
    OriginView {
        order: e.order,
        entry_kind: e.entry.kind(),
        host_patterns: e.entry.host_patterns,
        path: e.path,
    }
}

/// The first line of a block.
pub open spec fn block_header(raw: Seq<char>) -> Seq<char> {
    let ls = lines(raw);
    trim(
        if ls.len() > 0 {
            ls[0]
        } else {
            "Match <unknown>"@
        },
    )
}

pub open spec fn line_span(b: BlockView) -> Seq<char> {
    decimal(b.start_line as nat) + "-"@ + decimal(b.end_line as nat)
}

pub open spec fn block_origin(b: BlockView) -> OriginView {
    OriginView {
        order: (if b.start_line <= 65535 {
            b.start_line
        } else {
            65535
        }) as u16,
        entry_kind: EntryKind::Pattern,
        host_patterns: seq![block_header(b.raw)],
        path: "<root-config:"@ + line_span(b) + ">"@,
    }
}

/// What the criteria of a block are held against, given what earlier blocks said.
pub open spec fn context_of(target: Seq<char>, m: HostView, o: OptionsView) -> ContextView {
    ContextView {
        original_host: target,
        current_host: match m.hostname {
            Some(h) => h,
            None => target,
        },
        current_user: first(first(m.user, o.current_user), o.local_user),
        local_user: o.local_user,
        current_tag: first(m.tag, o.initial_tag),
        current_ssh_version: o.ssh_version,
        session_type: o.session_type,
        command: o.command,
        local_networks: o.local_networks,
        is_canonical: o.is_canonical,
        is_final: o.is_final,
    }
}

/// The block is passed over with a note, without a look at its criteria.
pub open spec fn is_passed_over(b: BlockView, o: OptionsView) -> bool {
    b.unsupported.len() > 0 || (uses_version(b) && o.ssh_version is None)
}

/// `m` with the note on a block that is passed over.
pub open spec fn passed_over(m: MergeView, b: BlockView) -> MergeView {
    MergeView {
        notes: m.notes.push(
            if b.unsupported.len() > 0 {
                "root Match lines "@ + line_span(b) + " skipped: unsupported conditions "@ + join(
                    b.unsupported,
                    ", "@,
                )
            } else {
                "root Match lines "@ + line_span(b)
                    + " skipped: ssh version unavailable for Match version evaluation"@
            },
        ),
        ..m
    }
}

/// `m` with what a block that applies gives, and with the note on it.
pub open spec fn applied(m: MergeView, b: BlockView) -> MergeView {
    absorbed(
        MergeView {
            notes: m.notes.push(
                "root Match lines "@ + line_span(b) + " applied: "@ + block_header(b.raw),
            ),
            ..m
        },
        b.entry,
        block_origin(b),
    )
}

/// What a `Match` block makes of `m`, or why it cannot be judged.
pub open spec fn block_step(m: MergeView, b: BlockView, target: Seq<char>, o: OptionsView) -> Result<
    MergeView,
    Seq<char>,
> {
    if is_passed_over(b, o) {
        Ok(passed_over(m, b))
    } else {
        match block_applies(b, context_of(target, m.merged, o)) {
            Err(e) => Err(e),
            Ok(false) => Ok(m),
            Ok(true) => Ok(applied(m, b)),
        }
    }
}

/// What a block makes of `m` is the same on every machine.
pub open spec fn step_portable(m: MergeView, b: BlockView, target: Seq<char>, o: OptionsView) -> bool {
    is_passed_over(b, o) || block_portable(b, context_of(target, m.merged, o))
}

/// What a block may make of `m`, whatever the machine.
pub open spec fn block_may_give(
    m: MergeView,
    b: BlockView,
    target: Seq<char>,
    o: OptionsView,
    r: Result<MergeView, Seq<char>>,
) -> bool {
    let c = context_of(target, m.merged, o);
    if is_passed_over(b, o) {
        r == Ok::<MergeView, Seq<char>>(passed_over(m, b))
    } else {
        match r {
            Ok(next) => {
                ||| next == applied(m, b) && block_may_apply(b, c, Ok(true))
                ||| next == m && block_may_apply(b, c, Ok(false))
            },
            Err(e) => block_may_apply(b, c, Err(e)),
        }
    }
}

/// What the blocks on one side of the managed entries make of `m`, or the first refusal.
pub open spec fn blocks_step(
    m: MergeView,
    bs: Seq<BlockView>,
    before: bool,
    target: Seq<char>,
    o: OptionsView,
) -> Result<MergeView, Seq<char>>
    decreases bs.len(),
{
    if bs.len() == 0 {
        Ok(m)
    } else if bs[0].before_anchor != before {
        blocks_step(m, bs.skip(1), before, target, o)
    } else {
        match block_step(m, bs[0], target, o) {
            Ok(next) => blocks_step(next, bs.skip(1), before, target, o),
            Err(e) => Err(e),
        }
    }
}

/// What the blocks on one side of the managed entries make of `m` is the same on every machine.
pub open spec fn blocks_portable(
    m: MergeView,
    bs: Seq<BlockView>,
    before: bool,
    target: Seq<char>,
    o: OptionsView,
) -> bool
    decreases bs.len(),
{
    if bs.len() == 0 {
        true
    } else if bs[0].before_anchor != before {
        blocks_portable(m, bs.skip(1), before, target, o)
    } else {
        &&& step_portable(m, bs[0], target, o)
        &&& match block_step(m, bs[0], target, o) {
            Ok(next) => blocks_portable(next, bs.skip(1), before, target, o),
            Err(e) => true,
        }
    }
}

/// What the blocks on one side of the managed entries may make of `m`, whatever the machine.
pub open spec fn blocks_may_give(
    m: MergeView,
    bs: Seq<BlockView>,
    before: bool,
    target: Seq<char>,
    o: OptionsView,
    r: Result<MergeView, Seq<char>>,
) -> bool
    decreases bs.len(),
{
    if bs.len() == 0 {
        r == Ok::<MergeView, Seq<char>>(m)
    } else {
        let b = bs[0];
        let rest = bs.skip(1);
        let c = context_of(target, m.merged, o);
        if b.before_anchor != before {
            blocks_may_give(m, rest, before, target, o, r)
        } else if is_passed_over(b, o) {
            blocks_may_give(passed_over(m, b), rest, before, target, o, r)
        } else {
            ||| block_may_apply(b, c, Ok(true)) && blocks_may_give(
                applied(m, b),
                rest,
                before,
                target,
                o,
                r,
            )
            ||| block_may_apply(b, c, Ok(false)) && blocks_may_give(m, rest, before, target, o, r)
            ||| r is Err && block_may_apply(b, c, Err(r->Err_0))
        }
    }
}

/// What the managed entries make of `m`, or the first refusal: each that matches the target is
/// read in turn.
pub open spec fn entries_step(m: MergeView, es: Seq<ManagedView>, target: Seq<char>) -> Result<
    MergeView,
    Seq<char>,
>
    decreases es.len(),
{
    if es.len() == 0 {
        Ok(m)
    } else {
        match list_matches(es[0].entry.host_patterns, target) {
            Err(e) => Err(e),
            Ok(false) => entries_step(m, es.skip(1), target),
            Ok(true) => entries_step(taken(m, es[0]), es.skip(1), target),
        }
    }
}

/// `m` with what an entry that matches gives.
pub open spec fn taken(m: MergeView, e: ManagedView) -> MergeView {
    absorbed(MergeView { matched: m.matched.push(e), ..m }, e.entry, entry_origin(e))
}

/// What the managed entries may make of `m`, whatever the machine.
pub open spec fn entries_may_give(
    m: MergeView,
    es: Seq<ManagedView>,
    target: Seq<char>,
    r: Result<MergeView, Seq<char>>,
) -> bool
    decreases es.len(),
{
    if es.len() == 0 {
        r == Ok::<MergeView, Seq<char>>(m)
    } else {
        let ps = es[0].entry.host_patterns;
        ||| list_may_say(ps, target, Ok(true)) && entries_may_give(
            taken(m, es[0]),
            es.skip(1),
            target,
            r,
        )
        ||| list_may_say(ps, target, Ok(false)) && entries_may_give(m, es.skip(1), target, r)
        ||| r is Err && list_may_say(ps, target, Err(r->Err_0))
    }
}

pub open spec fn entries_portable(es: Seq<ManagedView>, target: Seq<char>) -> bool {
    forall|i: int|
        0 <= i < es.len() ==> list_portable((#[trigger] es[i]).entry.host_patterns, target)
}

pub open spec fn start(target: Seq<char>) -> MergeView {
    MergeView {
        matched: Seq::empty(),
        merged: HostView { host_patterns: seq![target], ..empty_host() },
        winners: no_winners(),
        sources: Seq::empty(),
        ignored: Seq::empty(),
        notes: Seq::empty(),
    }
}

/// What all blocks together make of the target: the `Match` blocks before the managed entries,
/// the managed entries, and the `Match` blocks behind them.
pub open spec fn merge_all(
    es: Seq<ManagedView>,
    target: Seq<char>,
    bs: Seq<BlockView>,
    o: OptionsView,
) -> Result<MergeView, Seq<char>> {
    match blocks_step(start(target), bs, true, target, o) {
        Err(e) => Err(e),
        Ok(a) => match entries_step(a, es, target) {
            Err(e) => Err(e),
            Ok(b) => blocks_step(b, bs, false, target, o),
        },
    }
}

/// What is resolved is the same on every machine.
pub open spec fn portable_all(
    es: Seq<ManagedView>,
    target: Seq<char>,
    bs: Seq<BlockView>,
    o: OptionsView,
) -> bool {
    &&& blocks_portable(start(target), bs, true, target, o)
    &&& blocks_step(start(target), bs, true, target, o) matches Ok(a) ==> {
        &&& entries_portable(es, target)
        &&& entries_step(a, es, target) matches Ok(b) ==> blocks_portable(b, bs, false, target, o)
    }
}

/// What all blocks together may make of the target, whatever the machine.
pub open spec fn merge_may_give(
    es: Seq<ManagedView>,
    target: Seq<char>,
    bs: Seq<BlockView>,
    o: OptionsView,
    r: Result<MergeView, Seq<char>>,
) -> bool {
    ||| r is Err && blocks_may_give(start(target), bs, true, target, o, r)
    ||| r is Err && exists|a: MergeView|
        blocks_may_give(start(target), bs, true, target, o, Ok(a)) && #[trigger] entries_may_give(
            a,
            es,
            target,
            r,
        )
    ||| exists|a: MergeView, b: MergeView|
        blocks_may_give(start(target), bs, true, target, o, Ok(a)) && #[trigger] entries_may_give(
            a,
            es,
            target,
            Ok(b),
        ) && blocks_may_give(b, bs, false, target, o, r)
}

proof fn lemma_portable_blocks(
    m: MergeView,
    bs: Seq<BlockView>,
    before: bool,
    target: Seq<char>,
    o: OptionsView,
    r: Result<MergeView, Seq<char>>,
)
    requires
        blocks_portable(m, bs, before, target, o),
        blocks_may_give(m, bs, before, target, o, r),
    ensures
        r == blocks_step(m, bs, before, target, o),
    decreases bs.len(),
{
    if bs.len() > 0 {
        let b = bs[0];
        let rest = bs.skip(1);
        let c = context_of(target, m.merged, o);
        if b.before_anchor != before {
            lemma_portable_blocks(m, rest, before, target, o, r);
        } else if is_passed_over(b, o) {
            lemma_portable_blocks(passed_over(m, b), rest, before, target, o, r);
        } else if block_may_apply(b, c, Ok(true)) && blocks_may_give(
            applied(m, b),
            rest,
            before,
            target,
            o,
            r,
        ) {
            lemma_portable_block(b, c, Ok(true));
            lemma_portable_blocks(applied(m, b), rest, before, target, o, r);
        } else if block_may_apply(b, c, Ok(false)) && blocks_may_give(
            m,
            rest,
            before,
            target,
            o,
            r,
        ) {
            lemma_portable_block(b, c, Ok(false));
            lemma_portable_blocks(m, rest, before, target, o, r);
        } else {
            lemma_portable_block(b, c, Err(r->Err_0));
        }
    }
}

proof fn lemma_portable_entries(
    m: MergeView,
    es: Seq<ManagedView>,
    target: Seq<char>,
    r: Result<MergeView, Seq<char>>,
)
    requires
        entries_portable(es, target),
        entries_may_give(m, es, target, r),
    ensures
        r == entries_step(m, es, target),
    decreases es.len(),
{
    if es.len() > 0 {
        let ps = es[0].entry.host_patterns;
        let rest = es.skip(1);
        assert(list_portable(ps, target));
        assert forall|i: int| 0 <= i < rest.len() implies list_portable(
            (#[trigger] rest[i]).entry.host_patterns,
            target,
        ) by {
            assert(rest[i] == es[i + 1]);
        }
        if list_may_say(ps, target, Ok(true)) && entries_may_give(
            taken(m, es[0]),
            rest,
            target,
            r,
        ) {
            lemma_portable_list(ps, target, Ok(true));
            lemma_portable_entries(taken(m, es[0]), rest, target, r);
        } else if list_may_say(ps, target, Ok(false)) && entries_may_give(m, rest, target, r) {
            lemma_portable_list(ps, target, Ok(false));
            lemma_portable_entries(m, rest, target, r);
        } else {
            lemma_portable_list(ps, target, Err(r->Err_0));
        }
    }
}

proof fn lemma_portable_merge(
    es: Seq<ManagedView>,
    target: Seq<char>,
    bs: Seq<BlockView>,
    o: OptionsView,
    r: Result<MergeView, Seq<char>>,
)
    requires
        portable_all(es, target, bs, o),
        merge_may_give(es, target, bs, o, r),
    ensures
        r == merge_all(es, target, bs, o),
{
    let s = start(target);
    if r is Err && blocks_may_give(s, bs, true, target, o, r) {
        lemma_portable_blocks(s, bs, true, target, o, r);
    } else if r is Err && exists|a: MergeView|
        blocks_may_give(s, bs, true, target, o, Ok(a)) && #[trigger] entries_may_give(
            a,
            es,
            target,
            r,
        ) {
        let a = choose|a: MergeView|
            blocks_may_give(s, bs, true, target, o, Ok(a)) && #[trigger] entries_may_give(
                a,
                es,
                target,
                r,
            );
        lemma_portable_blocks(s, bs, true, target, o, Ok(a));
        lemma_portable_entries(a, es, target, r);
    } else {
        let (a, b) = choose|a: MergeView, b: MergeView|
            blocks_may_give(s, bs, true, target, o, Ok(a)) && #[trigger] entries_may_give(
                a,
                es,
                target,
                Ok(b),
            ) && blocks_may_give(b, bs, false, target, o, r);
        lemma_portable_blocks(s, bs, true, target, o, Ok(a));
        lemma_portable_entries(a, es, target, Ok(b));
        lemma_portable_blocks(b, bs, false, target, o, r);
    }
}

// ---------------------------------------------------------------------------
// The sources in the order of the directives
// ---------------------------------------------------------------------------

pub open spec fn gives(s: SourceView, d: (Seq<char>, Seq<char>)) -> bool {
    lower(s.key) == lower(d.0) && s.value == d.1
}

/// How many sources stand before the first that gives the directive.
pub open spec fn until_source(sources: Seq<SourceView>, d: (Seq<char>, Seq<char>)) -> nat
    decreases sources.len(),
{
    if sources.len() == 0 || gives(sources[0], d) {
        0
    } else {
        1 + until_source(sources.skip(1), d)
    }
}

/// For each directive but `Host` the first source that gives it and was not taken for an
/// earlier one.
pub open spec fn ordered_sources(ds: Seq<(Seq<char>, Seq<char>)>, sources: Seq<SourceView>) -> Seq<
    SourceView,
>
    decreases ds.len(),
{
    if ds.len() == 0 {
        Seq::empty()
    } else {
        let d = ds[0];
        let n = until_source(sources, d);
        if same_ignoring_case(d.0, "Host"@) || n >= sources.len() {
            ordered_sources(ds.skip(1), sources)
        } else {
            seq![sources[n as int]] + ordered_sources(ds.skip(1), sources.remove(n as int))
        }
    }
}

pub open spec fn resolved_from(target: Seq<char>, m: MergeView) -> ResolvedView {
    ResolvedView {
        target,
        matched_entries: m.matched,
        merged_entry: m.merged,
        directive_sources: ordered_sources(directives_of(m.merged), m.sources),
        ignored_scalar_overrides: m.ignored,
        root_match_notes: m.notes,
    }
}

/// What the configuration says of the target, or why that cannot be told.
pub open spec fn resolution(
    es: Seq<ManagedView>,
    target: Seq<char>,
    bs: Seq<BlockView>,
    o: OptionsView,
) -> Result<ResolvedView, Seq<char>> {
    match merge_all(es, target, bs, o) {
        Ok(m) => Ok(resolved_from(target, m)),
        Err(e) => Err(e),
    }
}

/// What the configuration may say of the target, whatever the machine.
pub open spec fn resolution_may_be(
    es: Seq<ManagedView>,
    target: Seq<char>,
    bs: Seq<BlockView>,
    o: OptionsView,
    r: Result<ResolvedView, Seq<char>>,
) -> bool {
    match r {
        Ok(x) => exists|m: MergeView| #[trigger]
            merge_may_give(es, target, bs, o, Ok(m)) && x == resolved_from(target, m),
        Err(e) => merge_may_give(es, target, bs, o, Err(e)),
    }
}

/// Where all is the same on every machine, the configuration says one thing only.
pub proof fn lemma_portable_resolution(
    es: Seq<ManagedView>,
    target: Seq<char>,
    bs: Seq<BlockView>,
    o: OptionsView,
    r: Result<ResolvedView, Seq<char>>,
)
    requires
        portable_all(es, target, bs, o),
        resolution_may_be(es, target, bs, o, r),
    ensures
        r == resolution(es, target, bs, o),
{
    match r {
        Ok(x) => {
            let m = choose|m: MergeView| #[trigger]
                merge_may_give(es, target, bs, o, Ok(m)) && x == resolved_from(target, m);
            lemma_portable_merge(es, target, bs, o, Ok(m));
        },
        Err(e) => lemma_portable_merge(es, target, bs, o, Err(e)),
    }
}

/// A result by what it holds.
pub open spec fn resolved(r: Result<ResolvedEntry, ConfigError>) -> Result<ResolvedView, Seq<char>> {
    match r {
        Ok(x) => Ok(x@),
        Err(e) => Err(e@),
    }
}

// ---------------------------------------------------------------------------
// Resolving
// ---------------------------------------------------------------------------

fn make_source(key: &str, value: &str, origin: &DirectiveOrigin) -> (r: ResolvedDirectiveSource)
    ensures
        r@ == source(key@, value@, origin@),
{
    ResolvedDirectiveSource {
        key: key.to_owned(),
        value: value.to_owned(),
        origin: origin.clone(),
    }
}

fn origin_of_entry(entry: &ManagedEntry) -> (r: DirectiveOrigin)
    ensures
        r@ == entry_origin(entry@),
{
    DirectiveOrigin {
        order: entry.order,
        entry_kind: entry.entry.kind(),
        host_patterns: copy_strs(&entry.entry.host_patterns),
        path: entry.path.clone(),
    }
}

fn header_line(raw: &str) -> (r: String)
    ensures
        r@ == block_header(raw@),
{
    let all: Vec<String> = split_lines(raw);
    assert(strs(all@).len() == all@.len());
    if all.len() > 0 {
        assert(strs(all@)[0] == all@[0]@);
        trimmed(&all[0])
    } else {
        trimmed("Match <unknown>")
    }
}

fn span_text(block: &RootMatchBlock) -> (r: String)
    ensures
        r@ == line_span(block@),
{
    concat3(&decimal_text(block.start_line), "-", &decimal_text(block.end_line))
}

fn origin_of_block(block: &RootMatchBlock) -> (r: DirectiveOrigin)
    ensures
        r@ == block_origin(block@),
{
    let order: u16 = if block.start_line <= 65535 {
        block.start_line as u16
    } else {
        65535
    };
    let host_patterns: Vec<String> = vec![header_line(&block.raw)];
    assert(strs(host_patterns@) =~= seq![block_header(block@.raw)]);
    DirectiveOrigin {
        order,
        entry_kind: EntryKind::Pattern,
        host_patterns,
        path: concat3("<root-config:", &span_text(block), ">"),
    }
}

/// Records the value of a further block for a scalar directive; gives back whether it is the
/// first.
fn apply_scalar(
    winner: &mut Option<ResolvedDirectiveSource>,
    key: &str,
    candidate: &Option<String>,
    origin: &DirectiveOrigin,
    sources: &mut Vec<ResolvedDirectiveSource>,
    ignored: &mut Vec<IgnoredScalarOverride>,
)
    ensures
        opt_view(*final(winner)) == winner_after(
            opt_view(*old(winner)),
            key@,
            opt(*candidate),
            origin@,
        ),
        views(final(sources)@) == views(old(sources)@) + source_added(
            opt_view(*old(winner)),
            key@,
            opt(*candidate),
            origin@,
        ),
        views(final(ignored)@) == views(old(ignored)@) + ignored_added(
            opt_view(*old(winner)),
            key@,
            opt(*candidate),
            origin@,
        ),
{
    let ghost s0 = views(sources@);
    let ghost i0 = views(ignored@);
    let ghost w0 = opt_view(*winner);
    if let Some(value) = candidate {
        match winner {
            None => {
                sources.push(make_source(key, value, origin));
                *winner = Some(make_source(key, value, origin));
            },
            Some(w) => {
                ignored.push(
                    IgnoredScalarOverride {
                        key: key.to_owned(),
                        attempted_value: value.clone(),
                        attempted_origin: origin.clone(),
                        winning_value: w.value.clone(),
                        winning_origin: w.origin.clone(),
                    },
                );
            },
        }
    }
    assert(views(sources@) =~= s0 + source_added(w0, key@, opt(*candidate), origin@));
    assert(views(ignored@) =~= i0 + ignored_added(w0, key@, opt(*candidate), origin@));
}

/// Gives a scalar directive its value, unless it has one.
fn set_first(slot: &mut Option<String>, candidate: &Option<String>)
    ensures
        opt(*final(slot)) == first(opt(*old(slot)), opt(*candidate)),
{
    if slot.is_none() {
        *slot = copy_opt(candidate);
    }
}

fn append_values(
    slot: &mut Vec<String>,
    values: &Vec<String>,
    key: &str,
    origin: &DirectiveOrigin,
    sources: &mut Vec<ResolvedDirectiveSource>,
)
    ensures
        strs(final(slot)@) == strs(old(slot)@) + strs(values@),
        views(final(sources)@) == views(old(sources)@) + sources_each(
            key@,
            strs(values@),
            origin@,
        ),
{
    let ghost v0 = strs(slot@);
    let ghost s0 = views(sources@);
    let ghost all = strs(values@);
    let mut i: usize = 0;
    assert(strs(slot@) =~= v0 + all.take(0));
    assert(views(sources@) =~= s0 + sources_each(key@, all.take(0), origin@));
    while i < values.len()
        invariant
            i <= values@.len(),
            all == strs(values@),
            strs(slot@) == v0 + all.take(i as int),
            views(sources@) == s0 + sources_each(key@, all.take(i as int), origin@),
        decreases values@.len() - i,
    {
        slot.push(values[i].clone());
        sources.push(make_source(key, &values[i], origin));
        i += 1;
        assert(strs(slot@) =~= v0 + all.take(i as int));
        assert(views(sources@) =~= s0 + sources_each(key@, all.take(i as int), origin@));
    }
}

fn append_extras(
    slot: &mut Vec<(String, String)>,
    values: &Vec<(String, String)>,
    origin: &DirectiveOrigin,
    sources: &mut Vec<ResolvedDirectiveSource>,
)
    ensures
        pairs(final(slot)@) == pairs(old(slot)@) + pairs(values@),
        views(final(sources)@) == views(old(sources)@) + sources_extra(pairs(values@), origin@),
{
    let ghost v0 = pairs(slot@);
    let ghost s0 = views(sources@);
    let ghost all = pairs(values@);
    let mut i: usize = 0;
    assert(pairs(slot@) =~= v0 + all.take(0));
    assert(views(sources@) =~= s0 + sources_extra(all.take(0), origin@));
    while i < values.len()
        invariant
            i <= values@.len(),
            all == pairs(values@),
            pairs(slot@) == v0 + all.take(i as int),
            views(sources@) == s0 + sources_extra(all.take(i as int), origin@),
        decreases values@.len() - i,
    {
        slot.push((values[i].0.clone(), values[i].1.clone()));
        sources.push(make_source(&values[i].0, &values[i].1, origin));
        i += 1;
        assert(pairs(slot@) =~= v0 + all.take(i as int));
        assert(views(sources@) =~= s0 + sources_extra(all.take(i as int), origin@));
    }
}

/// Records the scalar directives of a further block.
fn record_scalars(
    winners: &mut Winners,
    sources: &mut Vec<ResolvedDirectiveSource>,
    ignored: &mut Vec<IgnoredScalarOverride>,
    e: &HostEntry,
    origin: &DirectiveOrigin,
)
    ensures
        final(winners)@ == winners_with(old(winners)@, e@, origin@),
        views(final(sources)@) == scalar_sources_with(
            views(old(sources)@),
            old(winners)@,
            e@,
            origin@,
        ),
        views(final(ignored)@) == ignored_with(views(old(ignored)@), old(winners)@, e@, origin@),
{
    let ghost w0 = winners@;
    let port: Option<String> = match e.port {
        Some(n) => Some(decimal_text(n as usize)),
        None => None,
    };
    assert(opt(port) == port_text(e@.port));
    apply_scalar(&mut winners.hostname, "HostName", &e.hostname, origin, sources, ignored);
    apply_scalar(&mut winners.user, "User", &e.user, origin, sources, ignored);
    apply_scalar(&mut winners.port, "Port", &port, origin, sources, ignored);
    apply_scalar(&mut winners.proxy_jump, "ProxyJump", &e.proxy_jump, origin, sources, ignored);
    apply_scalar(
        &mut winners.strict_host_key_checking,
        "StrictHostKeyChecking",
        &e.strict_host_key_checking,
        origin,
        sources,
        ignored,
    );
    apply_scalar(
        &mut winners.user_known_hosts_file,
        "UserKnownHostsFile",
        &e.user_known_hosts_file,
        origin,
        sources,
        ignored,
    );
    apply_scalar(
        &mut winners.host_key_algorithms,
        "HostKeyAlgorithms",
        &e.host_key_algorithms,
        origin,
        sources,
        ignored,
    );
    apply_scalar(
        &mut winners.pubkey_accepted_algorithms,
        "PubkeyAcceptedAlgorithms",
        &e.pubkey_accepted_algorithms,
        origin,
        sources,
        ignored,
    );
    apply_scalar(&mut winners.forward_agent, "ForwardAgent", &e.forward_agent, origin, sources, ignored);
    apply_scalar(&mut winners.tag, "Tag", &e.tag, origin, sources, ignored);
}

/// Reads a further block.
fn absorb(m: &mut Merge, e: &HostEntry, origin: &DirectiveOrigin)
    requires
        old(m)@.wf(),
    ensures
        final(m)@ == absorbed(old(m)@, e@, origin@),
        final(m)@.wf(),
{
    let ghost m0 = m@;
    record_scalars(&mut m.winners, &mut m.sources, &mut m.ignored, e, origin);
    set_first(&mut m.merged.hostname, &e.hostname);
    set_first(&mut m.merged.user, &e.user);
    if m.merged.port.is_none() {
        m.merged.port = e.port;
    }
    set_first(&mut m.merged.proxy_jump, &e.proxy_jump);
    set_first(&mut m.merged.strict_host_key_checking, &e.strict_host_key_checking);
    set_first(&mut m.merged.user_known_hosts_file, &e.user_known_hosts_file);
    set_first(&mut m.merged.host_key_algorithms, &e.host_key_algorithms);
    set_first(&mut m.merged.pubkey_accepted_algorithms, &e.pubkey_accepted_algorithms);
    set_first(&mut m.merged.forward_agent, &e.forward_agent);
    set_first(&mut m.merged.tag, &e.tag);
    append_values(
        &mut m.merged.identity_files,
        &e.identity_files,
        "IdentityFile",
        origin,
        &mut m.sources,
    );
    append_values(
        &mut m.merged.local_forwards,
        &e.local_forwards,
        "LocalForward",
        origin,
        &mut m.sources,
    );
    append_values(
        &mut m.merged.remote_forwards,
        &e.remote_forwards,
        "RemoteForward",
        origin,
        &mut m.sources,
    );
    append_extras(&mut m.merged.extra_options, &e.extra_options, origin, &mut m.sources);
    assert(m@.merged == merged_with(m0.merged, e@));
    assert(m@ == absorbed(m0, e@, origin@));
}

#[verifier::spinoff_prover]
#[verifier::rlimit(40)]
fn apply_root_match_block(
    m: &mut Merge,
    block: &RootMatchBlock,
    target: &str,
    options: &RootMatchResolveOptions<'_>,
) -> (r: Result<(), ConfigError>)
    requires
        old(m)@.wf(),
    ensures
        final(m)@.wf(),
        block_may_give(
            old(m)@,
            block@,
            target@,
            options@,
            match r {
                Ok(_) => Ok(final(m)@),
                Err(e) => Err(e@),
            },
        ),
        step_portable(old(m)@, block@, target@, options@) ==> match r {
            Ok(_) => block_step(old(m)@, block@, target@, options@) == Ok::<MergeView, Seq<char>>(
                final(m)@,
            ),
            Err(e) => block_step(old(m)@, block@, target@, options@) == Err::<MergeView, Seq<char>>(
                e@,
            ),
        },
{
    let ghost m0 = m@;
    assert(block@.unsupported.len() == block.unsupported_conditions@.len());
    if block.unsupported_conditions.len() > 0 {
        m.notes.push(
            concat4(
                "root Match lines ",
                &span_text(block),
                " skipped: unsupported conditions ",
                &joined(&block.unsupported_conditions, ", "),
            ),
        );
        assert(m@ =~= block_step(m0, block@, target@, options@)->Ok_0);
        return Ok(());
    }
    if block_uses_ssh_version(block) && options.ssh_version.is_none() {
        m.notes.push(
            concat3(
                "root Match lines ",
                &span_text(block),
                " skipped: ssh version unavailable for Match version evaluation",
            ),
        );
        assert(m@ =~= block_step(m0, block@, target@, options@)->Ok_0);
        return Ok(());
    }
    let applies: Result<bool, ConfigError> = {
        let current_host: &str = match &m.merged.hostname {
            Some(h) => h.as_str(),
            None => target,
        };
        let current_user: Option<&str> = match &m.merged.user {
            Some(u) => Some(u.as_str()),
            None => match options.current_user {
                Some(u) => Some(u),
                None => options.local_user,
            },
        };
        let current_tag: Option<&str> = match &m.merged.tag {
            Some(t) => Some(t.as_str()),
            None => options.initial_tag,
        };
        let context = MatchContext::new(
            target,
            current_host,
            current_user,
            options.local_user,
            current_tag,
            options.ssh_version,
            options.session_type,
            options.command,
            options.local_networks,
            options.is_canonical,
            options.is_final,
        );
        assert(context@ =~= context_of(target@, m0.merged, options@));
        match_block_applies(block, &context)
    };
    match applies {
        Err(e) => Err(e),
        Ok(false) => Ok(()),
        Ok(true) => {
            m.notes.push(
                concat4(
                    "root Match lines ",
                    &span_text(block),
                    " applied: ",
                    &header_line(&block.raw),
                ),
            );
            let ghost m1 = MergeView {
                notes: m0.notes.push(
                    "root Match lines "@ + line_span(block@) + " applied: "@ + block_header(
                        block@.raw,
                    ),
                ),
                ..m0
            };
            assert(m@ =~= m1);
            absorb(m, &block.entry, &origin_of_block(block));
            Ok(())
        },
    }
}

#[verifier::spinoff_prover]
#[verifier::rlimit(40)]
fn apply_blocks(
    m: &mut Merge,
    blocks: &[RootMatchBlock],
    before: bool,
    target: &str,
    options: &RootMatchResolveOptions<'_>,
) -> (r: Result<(), ConfigError>)
    requires
        old(m)@.wf(),
    ensures
        final(m)@.wf(),
        blocks_may_give(
            old(m)@,
            views(blocks@),
            before,
            target@,
            options@,
            match r {
                Ok(_) => Ok(final(m)@),
                Err(e) => Err(e@),
            },
        ),
{
    let ghost m0 = m@;
    let ghost bs = views(blocks@);
    let mut i: usize = 0;
    assert(bs.skip(0) =~= bs);
    while i < blocks.len()
        invariant
            i <= blocks@.len(),
            bs == views(blocks@),
            m@.wf(),
            forall|r: Result<MergeView, Seq<char>>| #[trigger]
                blocks_may_give(m@, bs.skip(i as int), before, target@, options@, r)
                    ==> blocks_may_give(m0, bs, before, target@, options@, r),
        decreases blocks@.len() - i,
    {
        assert(bs.skip(i as int)[0] == blocks@[i as int]@);
        assert(bs.skip(i as int).skip(1) =~= bs.skip(i + 1));
        let ghost was = m@;
        if blocks[i].appears_before_managed_anchor == before {
            match apply_root_match_block(m, &blocks[i], target, options) {
                Ok(_) => {},
                Err(e) => {
                    assert(blocks_may_give(
                        was,
                        bs.skip(i as int),
                        before,
                        target@,
                        options@,
                        Err(e@),
                    ));
                    return Err(e);
                },
            }
        }
        assert forall|r: Result<MergeView, Seq<char>>| #[trigger]
            blocks_may_give(
                m@,
                bs.skip(i + 1),
                before,
                target@,
                options@,
                r,
            ) implies blocks_may_give(m0, bs, before, target@, options@, r) by {
            assert(blocks_may_give(was, bs.skip(i as int), before, target@, options@, r));
        }
        i += 1;
    }
    assert(blocks_may_give(m@, bs.skip(i as int), before, target@, options@, Ok(m@)));
    Ok(())
}

/// Whether an entry speaks of the target.
pub fn entry_matches_target(entry: &HostEntry, target: &str) -> (r: Result<bool, ConfigError>)
    ensures
        list_may_say(entry@.host_patterns, target@, verdict(r)),
        list_portable(entry@.host_patterns, target@) ==> verdict(r) == list_matches(
            entry@.host_patterns,
            target@,
        ),
        (forall|i: int|
            0 <= i < entry@.host_patterns.len() ==> is_plain(
                bare(#[trigger] entry@.host_patterns[i]),
                target@,
            )) ==> verdict(r) == Ok::<bool, Seq<char>>(
            literals_match(entry@.host_patterns, target@),
        ),
{
    pattern_list_matches(&entry.host_patterns, target)
}

#[verifier::spinoff_prover]
#[verifier::rlimit(40)]
fn apply_entries(m: &mut Merge, entries: &[ManagedEntry], target: &str) -> (r: Result<
    (),
    ConfigError,
>)
    requires
        old(m)@.wf(),
    ensures
        final(m)@.wf(),
        entries_may_give(
            old(m)@,
            views(entries@),
            target@,
            match r {
                Ok(_) => Ok(final(m)@),
                Err(e) => Err(e@),
            },
        ),
{
    let ghost m0 = m@;
    let ghost es = views(entries@);
    let mut i: usize = 0;
    assert(es.skip(0) =~= es);
    while i < entries.len()
        invariant
            i <= entries@.len(),
            es == views(entries@),
            m@.wf(),
            forall|r: Result<MergeView, Seq<char>>| #[trigger]
                entries_may_give(m@, es.skip(i as int), target@, r) ==> entries_may_give(
                    m0,
                    es,
                    target@,
                    r,
                ),
        decreases entries@.len() - i,
    {
        assert(es[i as int] == entries@[i as int]@);
        assert(es.skip(i as int)[0] == es[i as int]);
        assert(es.skip(i as int).skip(1) =~= es.skip(i + 1));
        let ghost was = m@;
        match entry_matches_target(&entries[i].entry, target) {
            Err(e) => {
                assert(entries_may_give(was, es.skip(i as int), target@, Err(e@)));
                return Err(e);
            },
            Ok(false) => {},
            Ok(true) => {
                let ghost before = m@;
                m.matched.push(entries[i].clone());
                assert(m@ =~= MergeView { matched: before.matched.push(es[i as int]), ..before });
                absorb(m, &entries[i].entry, &origin_of_entry(&entries[i]));
                assert(m@ == taken(was, es[i as int]));
            },
        }
        assert forall|r: Result<MergeView, Seq<char>>| #[trigger]
            entries_may_give(m@, es.skip(i + 1), target@, r) implies entries_may_give(
            m0,
            es,
            target@,
            r,
        ) by {
            assert(entries_may_give(was, es.skip(i as int), target@, r));
        }
        i += 1;
    }
    assert(entries_may_give(m@, es.skip(i as int), target@, Ok(m@)));
    Ok(())
}

fn find_source(sources: &Vec<ResolvedDirectiveSource>, key: &str, value: &str) -> (r: usize)
    ensures
        r == until_source(views(sources@), (key@, value@)),
        r <= sources@.len(),
{
    let ghost all = views(sources@);
    let ghost d = (key@, value@);
    let mut i: usize = 0;
    while i < sources.len() && !(equal_ignoring_case(&sources[i].key, key) && same(
        &sources[i].value,
        value,
    ))
        invariant
            i <= sources@.len(),
            all == views(sources@),
            until_source(all, d) == i + until_source(all.skip(i as int), d),
        decreases sources@.len() - i,
    {
        assert(all.skip(i as int)[0] == sources@[i as int]@);
        i += 1;
    }
    assert(i < sources@.len() ==> all.skip(i as int)[0] == sources@[i as int]@);
    i
}

fn order_directive_sources(
    merged_entry: &HostEntry,
    raw_sources: Vec<ResolvedDirectiveSource>,
) -> (r: Vec<ResolvedDirectiveSource>)
    ensures
        views(r@) == ordered_sources(directives_of(merged_entry@), views(raw_sources@)),
{
    let all: Vec<(String, String)> = directives(merged_entry);
    let ghost ds = pairs(all@);
    let ghost whole = ordered_sources(ds, views(raw_sources@));
    let mut left: Vec<ResolvedDirectiveSource> = raw_sources;
    let mut ordered: Vec<ResolvedDirectiveSource> = Vec::new();
    let mut i: usize = 0;
    while i < all.len()
        invariant
            i <= all@.len(),
            ds == pairs(all@),
            whole == views(ordered@) + ordered_sources(ds.skip(i as int), views(left@)),
        decreases all@.len() - i,
    {
        assert(ds.skip(i as int)[0] == (all@[i as int].0@, all@[i as int].1@));
        if !equal_ignoring_case(&all[i].0, "Host") {
            let n: usize = find_source(&left, &all[i].0, &all[i].1);
            if n < left.len() {
                let ghost before = views(ordered@);
                let ghost was = views(left@);
                let taken: ResolvedDirectiveSource = left.remove(n);
                let ghost t = taken@;
                ordered.push(taken);
                proof {
                    assert(views(left@) =~= was.remove(n as int));
                    let more = ordered_sources(ds.skip(i + 1), views(left@));
                    assert(before + (seq![t] + more) =~= before.push(t) + more);
                }
            }
        }
        i += 1;
    }
    assert(views(ordered@) + Seq::<SourceView>::empty() =~= views(ordered@));
    ordered
}

#[verifier::spinoff_prover]
#[verifier::rlimit(40)]
pub fn resolve_target_with_root_matches_and_options(
    entries: &[ManagedEntry],
    target: &str,
    root_match_blocks: &[RootMatchBlock],
    options: RootMatchResolveOptions<'_>,
) -> (r: Result<ResolvedEntry, ConfigError>)
    ensures
        resolution_may_be(
            views(entries@),
            target@,
            views(root_match_blocks@),
            options@,
            resolved(r),
        ),
        portable_all(views(entries@), target@, views(root_match_blocks@), options@) ==> resolved(r)
            == resolution(views(entries@), target@, views(root_match_blocks@), options@),
{
    let ghost es = views(entries@);
    let ghost bs = views(root_match_blocks@);
    let mut merged: HostEntry = HostEntry::default();
    merged.host_patterns.push(target.to_owned());
    let mut m = Merge {
        matched: Vec::new(),
        merged,
        winners: Winners {
            hostname: None,
            user: None,
            port: None,
            proxy_jump: None,
            strict_host_key_checking: None,
            user_known_hosts_file: None,
            host_key_algorithms: None,
            pubkey_accepted_algorithms: None,
            forward_agent: None,
            tag: None,
        },
        sources: Vec::new(),
        ignored: Vec::new(),
        notes: Vec::new(),
    };
    proof {
        assert(m.merged@.host_patterns =~= seq![target@]);
        assert(m@ =~= start(target@));
    }
    match apply_blocks(&mut m, root_match_blocks, true, target, &options) {
        Err(e) => {
            proof {
                assert(merge_may_give(es, target@, bs, options@, Err(e@)));
                if portable_all(es, target@, bs, options@) {
                    lemma_portable_resolution(es, target@, bs, options@, Err(e@));
                }
            }
            return Err(e);
        },
        Ok(_) => {},
    }
    let ghost a = m@;
    match apply_entries(&mut m, entries, target) {
        Err(e) => {
            proof {
                assert(entries_may_give(a, es, target@, Err(e@)));
                assert(merge_may_give(es, target@, bs, options@, Err(e@)));
                if portable_all(es, target@, bs, options@) {
                    lemma_portable_resolution(es, target@, bs, options@, Err(e@));
                }
            }
            return Err(e);
        },
        Ok(_) => {},
    }
    let ghost b = m@;
    assert(entries_may_give(a, es, target@, Ok(b)));
    match apply_blocks(&mut m, root_match_blocks, false, target, &options) {
        Err(e) => {
            proof {
                assert(merge_may_give(es, target@, bs, options@, Err(e@)));
                if portable_all(es, target@, bs, options@) {
                    lemma_portable_resolution(es, target@, bs, options@, Err(e@));
                }
            }
            return Err(e);
        },
        Ok(_) => {},
    }
    assert(merge_may_give(es, target@, bs, options@, Ok(m@)));
    let ghost done = m@;
    let directive_sources: Vec<ResolvedDirectiveSource> = order_directive_sources(
        &m.merged,
        m.sources,
    );
    let r = ResolvedEntry {
        target: target.to_owned(),
        matched_entries: m.matched,
        merged_entry: m.merged,
        directive_sources,
        ignored_scalar_overrides: m.ignored,
        root_match_notes: m.notes,
    };
    assert(r@ =~= resolved_from(target@, done));
    proof {
        assert(resolution_may_be(es, target@, bs, options@, Ok(r@)));
        if portable_all(es, target@, bs, options@) {
            lemma_portable_resolution(es, target@, bs, options@, Ok(r@));
        }
    }
    Ok(r)
}

/// What the managed entries alone say of the target.
pub fn resolve_target(entries: &[ManagedEntry], target: &str) -> (r: Result<
    ResolvedEntry,
    ConfigError,
>)
    ensures
        resolution_may_be(
            views(entries@),
            target@,
            Seq::empty(),
            no_options(),
            resolved(r),
        ),
        entries_portable(views(entries@), target@) ==> resolved(r) == (match entries_step(
            start(target@),
            views(entries@),
            target@,
        ) {
            Ok(m) => Ok(resolved_from(target@, m)),
            Err(e) => Err(e),
        }),
{
    let none: &[RootMatchBlock] = &[];
    assert(views(none@) =~= Seq::<BlockView>::empty());
    resolve_target_with_root_matches_and_options(
        entries,
        target,
        none,
        RootMatchResolveOptions::default(),
    )
}

/// The options for a shell on this machine; its version of ssh counts only where a block asks
/// for it.
pub open spec fn options_here(
    local_user: Seq<char>,
    local_networks: Seq<Seq<char>>,
    ssh_version: Option<Seq<char>>,
    bs: Seq<BlockView>,
) -> OptionsView {
    OptionsView {
        local_user: if local_user.len() == 0 {
            None
        } else {
            Some(local_user)
        },
        current_user: None,
        initial_tag: None,
        ssh_version: if some_uses_version(bs) {
            ssh_version
        } else {
            None
        },
        session_type: Some("shell"@),
        command: Some(Seq::empty()),
        local_networks,
        is_canonical: false,
        is_final: true,
    }
}

pub open spec fn some_uses_version(bs: Seq<BlockView>) -> bool {
    exists|i: int| 0 <= i < bs.len() && uses_version(#[trigger] bs[i])
}

/// Whether a block asks for the version of ssh.
pub fn any_block_uses_ssh_version(blocks: &[RootMatchBlock]) -> (r: bool)
    ensures
        r == some_uses_version(views(blocks@)),
{
    let ghost bs = views(blocks@);
    let mut i: usize = 0;
    while i < blocks.len()
        invariant
            i <= blocks@.len(),
            bs == views(blocks@),
            forall|k: int| 0 <= k < i ==> !uses_version(#[trigger] bs[k]),
        decreases blocks@.len() - i,
    {
        assert(bs[i as int] == blocks@[i as int]@);
        if block_uses_ssh_version(&blocks[i]) {
            assert(uses_version(bs[i as int]));
            return true;
        }
        i += 1;
    }
    false
}

/// What the configuration says of the target for a shell on this machine.
pub fn resolve_target_with_root_matches(
    entries: &[ManagedEntry],
    target: &str,
    root_match_blocks: &[RootMatchBlock],
    facts: &MachineFacts,
) -> (r: Result<ResolvedEntry, ConfigError>)
    ensures
        ({
            let bs = views(root_match_blocks@);
            let o = options_here(
                facts.local_user@,
                strs(facts.local_networks@),
                opt(facts.ssh_version),
                bs,
            );
            &&& resolution_may_be(views(entries@), target@, bs, o, resolved(r))
            &&& portable_all(views(entries@), target@, bs, o) ==> resolved(r) == resolution(
                views(entries@),
                target@,
                bs,
                o,
            )
        }),
{
    proof {
        reveal_strlit("");
        assert(""@ =~= Seq::<char>::empty());
    }
    let ssh_version: Option<&str> = if any_block_uses_ssh_version(root_match_blocks) {
        match &facts.ssh_version {
            Some(v) => Some(v.as_str()),
            None => None,
        }
    } else {
        None
    };
    let options = RootMatchResolveOptions {
        local_user: if facts.local_user.as_str().is_empty() {
            None
        } else {
            Some(facts.local_user.as_str())
        },
        current_user: None,
        initial_tag: None,
        ssh_version,
        session_type: Some("shell"),
        command: Some(""),
        local_networks: facts.local_networks.as_slice(),
        is_canonical: false,
        is_final: true,
    };
    assert(options@ =~= options_here(
        facts.local_user@,
        strs(facts.local_networks@),
        opt(facts.ssh_version),
        views(root_match_blocks@),
    ));
    resolve_target_with_root_matches_and_options(entries, target, root_match_blocks, options)
}

} // verus!
