//! What an entry says that was asked for.

use vstd::prelude::*;

use crate::address::ip_of;
use crate::commands::add::{
    AddPrompt, all_prompts, answered, created, entry_of_args, extra_of, extras_from, extras_of,
    is_open, next_open, template_answer, templated,
};
use crate::commands::cli::{AddArgs, DuplicateArgs};
use crate::commands::duplicate::{duplicate_plan, with_source_record};
use crate::commands::order_laws::{is_first_with, is_listed, law_entry_of_a_host_is_the_first};
use crate::commands::prompt::{answer_or, items_of, list_items};
use crate::config::model::{HostView, ManagedView, is_wild};
use crate::config::state::MetadataView;
use crate::config::store::until_host;
use crate::config::template::{TemplateKind, kind_named, with_template};
use crate::config::validate::issues_of;
use crate::text::{blank, lower, opt, split, strs, trim, until};

verus! {

// ---------------------------------------------------------------------------
// Extra directives
// ---------------------------------------------------------------------------

/// `k` is the place of the first `=` of the item.
pub open spec fn is_first_equals(item: Seq<char>, k: int) -> bool {
    &&& 0 <= k < item.len()
    &&& item[k] == '='
    &&& forall|i: int| 0 <= i < k ==> #[trigger] item[i] != '='
}

/// The item is a name, `=` and a value, neither of which is blank.
pub open spec fn is_pair(item: Seq<char>) -> bool {
    exists|k: int| #[trigger]
        is_first_equals(item, k) && !blank(item.take(k)) && !blank(item.skip(k + 1))
}

proof fn lemma_until_char(s: Seq<char>, c: char)
    ensures
        until(s, c) <= s.len(),
        until(s, c) < s.len() ==> s[until(s, c) as int] == c,
        forall|i: int| 0 <= i < until(s, c) ==> #[trigger] s[i] != c,
    decreases s.len(),
{
    if s.len() > 0 && s[0] != c {
        let rest = s.skip(1);
        lemma_until_char(rest, c);
        assert forall|i: int| 0 <= i < until(s, c) implies #[trigger] s[i] != c by {
            if i > 0 {
                assert(rest[i - 1] != c);
            }
        }
    }
}

/// An item is taken where it is a pair, and its name and value are what stands before and behind
/// its first `=`, without white space round them.
pub proof fn law_extra_is_a_pair(item: Seq<char>)
    ensures
        extra_of(item) is Ok <==> is_pair(item),
        forall|k: int| #[trigger]
            is_first_equals(item, k) && is_pair(item) ==> extra_of(item) == Ok::<
                (Seq<char>, Seq<char>),
                Seq<char>,
            >((trim(item.take(k)), trim(item.skip(k + 1)))),
{
    lemma_until_char(item, '=');
    let n = until(item, '=') as int;
    if n < item.len() {
        assert(is_first_equals(item, n));
    }
    assert forall|k: int| #[trigger] is_first_equals(item, k) implies k == n by {
        if k < n {
            assert(item[k] != '=');
        }
        if n < k {
            assert(item[n] != '=');
        }
    }
}

/// Items are taken together where each is a pair, and give one directive each, in their order.
pub proof fn law_extras_are_pairs(items: Seq<Seq<char>>)
    ensures
        extras_of(items) is Ok <==> forall|i: int|
            0 <= i < items.len() ==> is_pair(#[trigger] items[i]),
        extras_of(items) matches Ok(ds) ==> ds.len() == items.len() && forall|i: int, k: int|
            0 <= i < items.len() && #[trigger] is_first_equals(items[i], k) ==> ds[i] == (
                trim(items[i].take(k)),
                trim(items[i].skip(k + 1)),
            ),
{
    lemma_extras_from(items, Seq::empty());
}

#[verifier::rlimit(30)]
proof fn lemma_extras_from(items: Seq<Seq<char>>, acc: Seq<(Seq<char>, Seq<char>)>)
    ensures
        extras_from(items, acc) is Ok <==> forall|i: int|
            0 <= i < items.len() ==> is_pair(#[trigger] items[i]),
        extras_from(items, acc) matches Ok(ds) ==> ds.len() == acc.len() + items.len()
            && ds.take(acc.len() as int) == acc && forall|i: int, k: int|
            0 <= i < items.len() && #[trigger] is_first_equals(items[i], k) ==> ds[acc.len() + i]
                == (trim(items[i].take(k)), trim(items[i].skip(k + 1))),
    decreases items.len(),
{
    if items.len() == 0 {
        assert(acc.take(acc.len() as int) =~= acc);
    } else {
        let rest = items.skip(1);
        law_extra_is_a_pair(items[0]);
        match extra_of(items[0]) {
            Err(_) => {
                assert(!is_pair(items[0]));
            },
            Ok(d) => {
                let next = acc.push(d);
                lemma_extras_from(rest, next);
                let all = forall|i: int| 0 <= i < items.len() ==> is_pair(#[trigger] items[i]);
                let later = forall|i: int| 0 <= i < rest.len() ==> is_pair(#[trigger] rest[i]);
                if all {
                    assert forall|i: int| 0 <= i < rest.len() implies is_pair(
                        #[trigger] rest[i],
                    ) by {
                        assert(rest[i] == items[i + 1]);
                    }
                }
                if later {
                    assert forall|i: int| 0 <= i < items.len() implies is_pair(
                        #[trigger] items[i],
                    ) by {
                        if i > 0 {
                            assert(items[i] == rest[i - 1]);
                        }
                    }
                }
                if extras_from(rest, next) is Ok {
                    let ds = extras_from(rest, next)->Ok_0;
                    assert(ds.take(acc.len() as int) =~= next.take(acc.len() as int));
                    assert(next.take(acc.len() as int) =~= acc);
                    assert(ds[acc.len() as int] == next[acc.len() as int]);
                    assert forall|i: int, k: int|
                        0 <= i < items.len() && #[trigger] is_first_equals(
                            items[i],
                            k,
                        ) implies ds[acc.len() + i] == (
                        trim(items[i].take(k)),
                        trim(items[i].skip(k + 1)),
                    ) by {
                        if i > 0 {
                            assert(items[i] == rest[i - 1]);
                            assert(is_first_equals(rest[i - 1], k));
                        }
                    }
                }
            },
        }
    }
}

// ---------------------------------------------------------------------------
// Templates
// ---------------------------------------------------------------------------

/// The value that was there, or else the other.
pub open spec fn or_instead(value: Option<Seq<char>>, other: Option<Seq<char>>) -> Option<Seq<char>> {
    if value is Some {
        value
    } else {
        other
    }
}

/// A template is found by its name, whatever the case of its letters, and by nothing else.
pub proof fn law_template_is_found_by_its_name_alone(v: Seq<char>)
    ensures
        kind_named(v) == Some(TemplateKind::Embedded) <==> lower(trim(v)) == "embedded"@,
        kind_named(v) == Some(TemplateKind::Legacy) <==> lower(trim(v)) == "legacy"@,
        kind_named(v) == Some(TemplateKind::Vps) <==> lower(trim(v)) == "vps"@,
        kind_named(v) == Some(TemplateKind::Jump) <==> lower(trim(v)) == "jump"@,
        kind_named(v) == Some(TemplateKind::Forward) <==> lower(trim(v)) == "forward"@,
{
    reveal_strlit("embedded");
    reveal_strlit("legacy");
    reveal_strlit("vps");
    reveal_strlit("jump");
    reveal_strlit("forward");
    assert("embedded"@.len() == 8 && "legacy"@.len() == 6 && "vps"@.len() == 3);
    assert("jump"@.len() == 4 && "forward"@.len() == 7);
}

/// The template for embedded devices turns the check of host keys off, the one for old devices
/// does so too and allows their keys, and the others change nothing. What the entry says itself
/// stays.
pub proof fn law_template_gives_what_is_missing(e: HostView, kind: TemplateKind)
    ensures
        kind == TemplateKind::Embedded || kind == TemplateKind::Legacy ==> {
            let r = with_template(e, kind);
            &&& r.strict_host_key_checking == or_instead(e.strict_host_key_checking, Some("no"@))
            &&& r.user_known_hosts_file == or_instead(
                e.user_known_hosts_file,
                Some("/dev/null"@),
            )
        },
        kind == TemplateKind::Legacy ==> {
            let r = with_template(e, kind);
            &&& r.host_key_algorithms == or_instead(e.host_key_algorithms, Some("+ssh-rsa"@))
            &&& r.pubkey_accepted_algorithms == or_instead(
                e.pubkey_accepted_algorithms,
                Some("+ssh-rsa"@),
            )
        },
        kind == TemplateKind::Embedded ==> {
            let r = with_template(e, kind);
            &&& r.host_key_algorithms == e.host_key_algorithms
            &&& r.pubkey_accepted_algorithms == e.pubkey_accepted_algorithms
        },
        kind != TemplateKind::Embedded && kind != TemplateKind::Legacy ==> with_template(e, kind)
            == e,
{
}

/// Each preset that is shown of a template is one that an entry gets which has no such directive,
/// and each directive that an entry gets is one of those.
pub proof fn law_presets_are_what_is_given(e: HostView, kind: TemplateKind)
    requires
        e.strict_host_key_checking is None,
        e.user_known_hosts_file is None,
        e.host_key_algorithms is None,
        e.pubkey_accepted_algorithms is None,
    ensures
        forall|i: int|
            0 <= i < kind.presets().len() ==> {
                let d = #[trigger] kind.presets()[i];
                let r = with_template(e, kind);
                ||| d.0 == "StrictHostKeyChecking"@ && r.strict_host_key_checking == Some(d.1)
                ||| d.0 == "UserKnownHostsFile"@ && r.user_known_hosts_file == Some(d.1)
                ||| d.0 == "HostKeyAlgorithms"@ && r.host_key_algorithms == Some(d.1)
                ||| d.0 == "PubkeyAcceptedAlgorithms"@ && r.pubkey_accepted_algorithms == Some(d.1)
            },
        with_template(e, kind).strict_host_key_checking matches Some(v)
            ==> kind.presets().contains(("StrictHostKeyChecking"@, v)),
        with_template(e, kind).user_known_hosts_file matches Some(v)
            ==> kind.presets().contains(("UserKnownHostsFile"@, v)),
        with_template(e, kind).host_key_algorithms matches Some(v)
            ==> kind.presets().contains(("HostKeyAlgorithms"@, v)),
        with_template(e, kind).pubkey_accepted_algorithms matches Some(v)
            ==> kind.presets().contains(("PubkeyAcceptedAlgorithms"@, v)),
{
    let ps = kind.presets();
    if ps.len() > 0 {
        assert(ps[0] == ("StrictHostKeyChecking"@, "no"@));
        assert(ps[1] == ("UserKnownHostsFile"@, "/dev/null"@));
    }
    if ps.len() > 2 {
        assert(ps[2] == ("HostKeyAlgorithms"@, "+ssh-rsa"@));
        assert(ps[3] == ("PubkeyAcceptedAlgorithms"@, "+ssh-rsa"@));
    }
}

// ---------------------------------------------------------------------------
// New entries
// ---------------------------------------------------------------------------

/// The order is the one that was asked for, or ten behind the last entry, or ten where there is
/// none.
pub open spec fn is_order_of(es: Seq<ManagedView>, asked: Option<u16>, order: u16) -> bool {
    match asked {
        Some(n) => order == n,
        None => {
            &&& es.len() == 0 ==> order == 10
            &&& es.len() > 0 && es.last().order + 10 <= 65535 ==> order == es.last().order + 10
        },
    }
}

/// A created entry has each directive that was asked for, as it was asked for, and no others but
/// those that a template fills in where nothing was asked for.
#[verifier::rlimit(30)]
pub proof fn law_created_entry_says_what_was_asked(
    es: Seq<ManagedView>,
    files: Seq<Seq<char>>,
    dir: Seq<char>,
    args: AddArgs,
    newline: Seq<char>,
    windows: bool,
)
    requires
        created(es, files, dir, args, newline, windows) is Ok,
    ensures
        ({
            let m = created(es, files, dir, args, newline, windows)->Ok_0;
            let r = m.entry;
            &&& r.host_patterns == seq![args.host@]
            &&& r.hostname == opt(args.hostname)
            &&& r.user == opt(args.user)
            &&& r.port == args.port
            &&& r.proxy_jump == opt(args.proxy_jump)
            &&& r.identity_files == strs(args.identity_files@)
            &&& r.local_forwards == strs(args.local_forwards@)
            &&& r.remote_forwards == strs(args.remote_forwards@)
            &&& r.forward_agent == opt(args.forward_agent)
            &&& r.tag == opt(args.ssh_tag)
            &&& extras_of(strs(args.extras@)) == Ok::<
                Seq<(Seq<char>, Seq<char>)>,
                Seq<char>,
            >(r.extra_options)
            &&& args.strict_host_key_checking is Some || args.template is None
                ==> r.strict_host_key_checking == opt(args.strict_host_key_checking)
            &&& args.user_known_hosts_file is Some || args.template is None
                ==> r.user_known_hosts_file == opt(args.user_known_hosts_file)
            &&& args.host_key_algorithms is Some || args.template is None
                ==> r.host_key_algorithms == opt(args.host_key_algorithms)
            &&& args.pubkey_accepted_algorithms is Some || args.template is None
                ==> r.pubkey_accepted_algorithms == opt(args.pubkey_accepted_algorithms)
            &&& args.template is Some ==> with_template(r, args.template->0) == r
            &&& is_order_of(es, args.order, m.order)
        }),
{
}

/// A request for an entry is refused only where a directive cannot be read, the entry would not be
/// valid, the host is listed already, the order is another's or the file is there.
pub proof fn law_creation_is_refused_only_for_a_reason(
    es: Seq<ManagedView>,
    files: Seq<Seq<char>>,
    dir: Seq<char>,
    args: AddArgs,
    newline: Seq<char>,
    windows: bool,
)
    requires
        extras_of(strs(args.extras@)) is Ok,
        issues_of(templated(entry_of_args(args, extras_of(strs(args.extras@))->Ok_0), args.template)).len()
            == 0,
        !is_listed(es, args.host@),
        args.order is Some,
        forall|i: int| 0 <= i < es.len() ==> (#[trigger] es[i]).order != args.order->0,
        files.len() == 0,
    ensures
        created(es, files, dir, args, newline, windows) is Ok,
{
    law_entry_of_a_host_is_the_first(es, args.host@);
    let e = templated(entry_of_args(args, extras_of(strs(args.extras@))->Ok_0), args.template);
    assert(e.primary() == args.host@);
}

// ---------------------------------------------------------------------------
// Copies
// ---------------------------------------------------------------------------

/// A copy is of the first entry that lists the source, and its host name is the one that was
/// given; or the one of the source, where it was to be kept, or where the source has none or the
/// copy is for a pattern; or the new host itself, where that names a machine.
pub proof fn law_copy_has_its_host_name(
    es: Seq<ManagedView>,
    files: Seq<Seq<char>>,
    dir: Seq<char>,
    a: DuplicateArgs,
    newline: Seq<char>,
    windows: bool,
)
    requires
        duplicate_plan(es, files, dir, a, newline, windows) is Ok,
    ensures
        ({
            let (source, copy) = duplicate_plan(es, files, dir, a, newline, windows)->Ok_0;
            let names_machine = ip_of(a.host@) is Some || a.host@.contains('.') || a.host@.contains(
                ':',
            );
            &&& exists|k: int| #[trigger] is_first_with(es, a.source@, k) && es[k] == source
            &&& !(a.keep_hostname && a.hostname is Some)
            &&& a.hostname is Some ==> copy.entry.hostname == Some(a.hostname->0@)
            &&& a.keep_hostname ==> copy.entry.hostname == source.entry.hostname
            &&& a.hostname is None && !a.keep_hostname && names_machine ==> copy.entry.hostname
                == Some(a.host@)
            &&& a.hostname is None && !a.keep_hostname && !names_machine ==> copy.entry.hostname
                == source.entry.hostname && (source.entry.hostname is None || is_wild(a.host@))
            &&& copy.entry.host_patterns == seq![a.host@]
            &&& copy.entry == (HostView {
                host_patterns: copy.entry.host_patterns,
                hostname: copy.entry.hostname,
                ..source.entry
            })
            &&& is_order_of(es, a.order, copy.order)
        }),
{
    law_entry_of_a_host_is_the_first(es, a.source@);
    assert(is_first_with(es, a.source@, until_host(es, a.source@) as int));
}

/// The record of a copy remembers what the record of the source does, under its own name.
pub proof fn law_copied_record_remembers(m: MetadataView, source: MetadataView, now: Seq<char>)
    ensures
        ({
            let r = with_source_record(m, source, now);
            &&& r.id == m.id && r.primary_pattern == m.primary_pattern && r.host_patterns
                == m.host_patterns && r.order == m.order && r.managed_filename == m.managed_filename
                && r.entry_kind == m.entry_kind && r.created_at == m.created_at
            &&& r.tags == source.tags && r.note == source.note && r.template_source
                == source.template_source
            &&& r.target_os == source.target_os && r.remote_user_home == source.remote_user_home
                && r.authorized_keys_path == source.authorized_keys_path && r.ssh_dir_mode
                == source.ssh_dir_mode && r.authorized_keys_mode == source.authorized_keys_mode
            &&& r.updated_at == now
        }),
{
}

// ---------------------------------------------------------------------------
// Questions
// ---------------------------------------------------------------------------

/// The next question is the first that the request leaves open, in the order of the questions.
pub proof fn law_next_question_is_the_first_open(args: AddArgs, from: nat)
    requires
        from <= 8,
    ensures
        from <= next_open(args, from) <= 8,
        forall|i: int|
            from <= i < next_open(args, from) ==> !is_open(args, #[trigger] all_prompts()[i]),
        next_open(args, from) < 8 ==> is_open(args, all_prompts()[next_open(args, from) as int]),
    decreases 8 - from,
{
    if from < 8 && !is_open(args, all_prompts()[from as int]) {
        law_next_question_is_the_first_open(args, from + 1);
    }
}

/// An answer that says something closes its question and leaves all others as they are; a host
/// name is not asked for where the host is a pattern.
pub proof fn law_answer_closes_its_question(
    args: AddArgs,
    p: AddPrompt,
    v: Seq<char>,
    after: AddArgs,
    q: AddPrompt,
)
    requires
        answered(args, p, Some(v), after),
        p == AddPrompt::Template ==> template_answer(Some(v)) is Some,
        p == AddPrompt::Tags ==> items_of(v).len() > 0,
    ensures
        !is_open(after, p),
        q != p ==> is_open(after, q) == is_open(args, q),
        is_wild(args.host@) ==> !is_open(args, AddPrompt::HostName),
        !is_wild(args.host@) && args.hostname is None ==> is_open(args, AddPrompt::HostName),
        after.host@ == args.host@ && after.extras@ == args.extras@ && after.order == args.order
            && after.identity_files@ == args.identity_files@ && after.local_forwards@
            == args.local_forwards@ && after.remote_forwards@ == args.remote_forwards@,
        p == AddPrompt::User ==> opt(after.user) == Some(v),
        p == AddPrompt::HostName ==> opt(after.hostname) == Some(v),
        p == AddPrompt::ProxyJump ==> opt(after.proxy_jump) == Some(v),
        p == AddPrompt::Note ==> opt(after.note) == Some(v),
        p == AddPrompt::SshTag ==> opt(after.ssh_tag) == Some(v),
        p == AddPrompt::Tags ==> strs(after.tags@) == items_of(v),
        p == AddPrompt::Template ==> after.template == kind_named(v),
{
    assert(strs(after.tags@).len() == after.tags@.len());
}

/// A blank answer is what stands in for it, and any other is taken without white space round it.
pub proof fn law_answers_are_trimmed(input: Seq<char>, default: Seq<char>)
    ensures
        !blank(input) ==> answer_or(input, Some(default)) == Some(trim(input)) && answer_or(
            input,
            None,
        ) == Some(trim(input)),
        blank(input) ==> answer_or(input, None) is None,
        blank(input) && default.len() > 0 ==> answer_or(input, Some(default)) == Some(default),
{
}

pub open spec fn is_not_blank() -> spec_fn(Seq<char>) -> bool {
    |s: Seq<char>| !blank(s)
}

/// The items of a list are its parts between commas and semicolons that are not blank, without
/// white space round them, in their order.
pub proof fn law_items_are_the_parts(value: Seq<char>)
    ensures
        items_of(value) == split(value, ",;"@).filter(is_not_blank()).map_values(
            |s: Seq<char>| trim(s),
        ),
{
    lemma_items(split(value, ",;"@));
}

proof fn lemma_items(parts: Seq<Seq<char>>)
    ensures
        list_items(parts) == parts.filter(is_not_blank()).map_values(|s: Seq<char>| trim(s)),
    decreases parts.len(),
{
    reveal(Seq::filter);
    let form = |s: Seq<char>| trim(s);
    if parts.len() > 0 {
        let rest = parts.drop_last();
        lemma_items(rest);
        let kept = rest.filter(is_not_blank());
        assert(kept.push(parts.last()).map_values(form) =~= kept.map_values(form).push(
            trim(parts.last()),
        ));
    } else {
        assert(parts.filter(is_not_blank()).map_values(form) =~= Seq::<Seq<char>>::empty());
    }
}

} // verus!
