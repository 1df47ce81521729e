//! What an entry says after it was changed.

use vstd::prelude::*;

use crate::commands::add::extras_of;
use crate::commands::cli::EditArgs;
use crate::commands::edit::{
    EditPrompt, InteractiveEditValues, asks_for_change, changes_record, conflict, edit_conflict,
    edit_plan, edit_result, list_conflict, new_note, new_tags, new_template, option_conflict,
    record_conflict, target_conflict, value_taken,
};
use crate::commands::order_laws::{is_first_with, is_listed, law_entry_of_a_host_is_the_first};
use crate::commands::prompt::items_of;
use crate::config::model::{HostView, ManagedView};
use crate::config::store::until_host;
use crate::config::template::{TemplateKind, kind_named};
use crate::text::{blank, opt, strs, trim};

verus! {

/// A value that was given is there, one that was to be cleared is not, and one that the request
/// does not speak of is what it was.
pub open spec fn is_changed_to<A>(before: Option<A>, given: Option<A>, clear: bool, after: Option<A>) -> bool {
    &&& given is Some ==> after == given
    &&& clear ==> after is None
    &&& given is None && !clear ==> after == before
}

/// Values that were given stand in the place of those before.
pub open spec fn are_changed_to<A>(before: Seq<A>, given: Seq<A>, clear: bool, after: Seq<A>) -> bool {
    &&& given.len() > 0 ==> after == given
    &&& clear ==> after.len() == 0
    &&& given.len() == 0 && !clear ==> after == before
}

/// The template gives no value of its own for the first two, or the last two, of the directives
/// that templates speak of.
pub open spec fn leaves_trust(t: Option<TemplateKind>) -> bool {
    t != Some(TemplateKind::Embedded) && t != Some(TemplateKind::Legacy)
}

/// Where an edit is accepted, each directive is what was asked for, whatever it was before: a
/// given value is set, given values replace all that were there, a cleared directive is gone, and
/// all others are as they were. A template fills in only what is then missing.
#[verifier::rlimit(30)]
pub proof fn law_edit_does_what_is_asked(e: HostView, a: EditArgs)
    requires
        edit_result(e, a) is Ok,
    ensures
        ({
            let r = edit_result(e, a)->Ok_0;
            &&& a.new_host is Some ==> r.host_patterns == seq![a.new_host->0@]
            &&& a.new_host is None ==> r.host_patterns == e.host_patterns
            &&& is_changed_to(e.hostname, opt(a.hostname), a.clear_hostname, r.hostname)
            &&& is_changed_to(e.user, opt(a.user), a.clear_user, r.user)
            &&& is_changed_to(e.port, a.port, a.clear_port, r.port)
            &&& is_changed_to(e.proxy_jump, opt(a.proxy_jump), a.clear_proxy_jump, r.proxy_jump)
            &&& is_changed_to(
                e.forward_agent,
                opt(a.forward_agent),
                a.clear_forward_agent,
                r.forward_agent,
            )
            &&& is_changed_to(e.tag, opt(a.ssh_tag), a.clear_ssh_tag, r.tag)
            &&& are_changed_to(
                e.identity_files,
                strs(a.identity_files@),
                a.clear_identity_files,
                r.identity_files,
            )
            &&& are_changed_to(
                e.local_forwards,
                strs(a.local_forwards@),
                a.clear_local_forwards,
                r.local_forwards,
            )
            &&& are_changed_to(
                e.remote_forwards,
                strs(a.remote_forwards@),
                a.clear_remote_forwards,
                r.remote_forwards,
            )
            &&& extras_of(strs(a.extras@)) is Ok
            &&& are_changed_to(
                e.extra_options,
                extras_of(strs(a.extras@))->Ok_0,
                a.clear_extras,
                r.extra_options,
            )
        }),
{
    reveal(target_conflict);
    reveal(list_conflict);
    reveal(option_conflict);
    reveal(record_conflict);
    reveal(conflict);
    lemma_no_conflict(a);
    if a.clear_extras {
        assert(strs(a.extras@).len() == 0);
    }
}

/// The same of the directives that a template may fill in: what was given or kept stays, and
/// without a template what was cleared is gone.
#[verifier::rlimit(30)]
pub proof fn law_edit_does_what_is_asked_of_trust(e: HostView, a: EditArgs)
    requires
        edit_result(e, a) is Ok,
    ensures
        ({
            let r = edit_result(e, a)->Ok_0;
            &&& a.strict_host_key_checking is Some ==> r.strict_host_key_checking == opt(
                a.strict_host_key_checking,
            )
            &&& a.user_known_hosts_file is Some ==> r.user_known_hosts_file == opt(
                a.user_known_hosts_file,
            )
            &&& a.host_key_algorithms is Some ==> r.host_key_algorithms == opt(
                a.host_key_algorithms,
            )
            &&& a.pubkey_accepted_algorithms is Some ==> r.pubkey_accepted_algorithms == opt(
                a.pubkey_accepted_algorithms,
            )
            &&& e.strict_host_key_checking is Some && a.strict_host_key_checking is None
                && !a.clear_strict_host_key_checking ==> r.strict_host_key_checking
                == e.strict_host_key_checking
            &&& e.user_known_hosts_file is Some && a.user_known_hosts_file is None
                && !a.clear_user_known_hosts_file ==> r.user_known_hosts_file
                == e.user_known_hosts_file
            &&& e.host_key_algorithms is Some && a.host_key_algorithms is None
                && !a.clear_host_key_algorithms ==> r.host_key_algorithms == e.host_key_algorithms
            &&& e.pubkey_accepted_algorithms is Some && a.pubkey_accepted_algorithms is None
                && !a.clear_pubkey_accepted_algorithms ==> r.pubkey_accepted_algorithms
                == e.pubkey_accepted_algorithms
            &&& leaves_trust(a.template) ==> {
                &&& is_changed_to(
                    e.strict_host_key_checking,
                    opt(a.strict_host_key_checking),
                    a.clear_strict_host_key_checking,
                    r.strict_host_key_checking,
                )
                &&& is_changed_to(
                    e.user_known_hosts_file,
                    opt(a.user_known_hosts_file),
                    a.clear_user_known_hosts_file,
                    r.user_known_hosts_file,
                )
                &&& is_changed_to(
                    e.host_key_algorithms,
                    opt(a.host_key_algorithms),
                    a.clear_host_key_algorithms,
                    r.host_key_algorithms,
                )
                &&& is_changed_to(
                    e.pubkey_accepted_algorithms,
                    opt(a.pubkey_accepted_algorithms),
                    a.clear_pubkey_accepted_algorithms,
                    r.pubkey_accepted_algorithms,
                )
            }
        }),
{
    lemma_no_conflict(a);
}

/// The request gives a value and asks for it to be cleared.
pub open spec fn contradicts_itself(a: EditArgs) -> bool {
    ||| a.clear_hostname && a.hostname is Some
    ||| a.clear_user && a.user is Some
    ||| a.clear_port && a.port is Some
    ||| a.clear_proxy_jump && a.proxy_jump is Some
    ||| a.clear_identity_files && a.identity_files@.len() > 0
    ||| a.clear_local_forwards && a.local_forwards@.len() > 0
    ||| a.clear_remote_forwards && a.remote_forwards@.len() > 0
    ||| a.clear_strict_host_key_checking && a.strict_host_key_checking is Some
    ||| a.clear_user_known_hosts_file && a.user_known_hosts_file is Some
    ||| a.clear_host_key_algorithms && a.host_key_algorithms is Some
    ||| a.clear_pubkey_accepted_algorithms && a.pubkey_accepted_algorithms is Some
    ||| a.clear_forward_agent && a.forward_agent is Some
    ||| a.clear_ssh_tag && a.ssh_tag is Some
    ||| a.clear_extras && a.extras@.len() > 0
    ||| a.clear_tags && a.tags@.len() > 0
    ||| a.clear_note && a.note is Some
    ||| a.clear_template && a.template is Some
}

proof fn lemma_no_conflict(a: EditArgs)
    ensures
        edit_conflict(a) is Some <==> contradicts_itself(a),
{
    reveal(target_conflict);
    reveal(list_conflict);
    reveal(option_conflict);
    reveal(record_conflict);
    reveal(conflict);
}

/// An edit of the entry is refused only where the request contradicts itself or gives a directive
/// that cannot be read.
pub proof fn law_edit_is_refused_only_for_a_reason(e: HostView, a: EditArgs)
    ensures
        edit_result(e, a) is Err <==> contradicts_itself(a) || extras_of(strs(a.extras@)) is Err,
{
    lemma_no_conflict(a);
}

/// What is edited is the entry of the host that was asked for, it says afterwards what the edit
/// gives, and it stands at the order that was asked for, or where it stood.
pub proof fn law_edit_is_of_the_host(
    es: Seq<ManagedView>,
    files: Seq<Seq<char>>,
    dir: Seq<char>,
    a: EditArgs,
    newline: Seq<char>,
    windows: bool,
)
    requires
        edit_plan(es, files, dir, a, newline, windows) is Ok,
    ensures
        ({
            let (current, saved) = edit_plan(es, files, dir, a, newline, windows)->Ok_0;
            &&& exists|k: int| #[trigger] is_first_with(es, a.host@, k) && es[k] == current
            &&& edit_result(current.entry, a) == Ok::<HostView, Seq<char>>(saved.entry)
            &&& a.order is Some ==> saved.order == a.order->0
            &&& a.order is None ==> saved.order == current.order
        }),
{
    law_entry_of_a_host_is_the_first(es, a.host@);
    assert(is_first_with(es, a.host@, until_host(es, a.host@) as int));
}

/// What an edit does to the record: it clears what is to be cleared, sets what is given, and leaves
/// the rest.
pub proof fn law_edit_of_the_record(a: EditArgs)
    ensures
        a.clear_note ==> new_note(a) == Some(None::<Seq<char>>),
        !a.clear_note && a.note is Some ==> new_note(a) == Some(Some(a.note->0@)),
        !a.clear_note && a.note is None ==> new_note(a) is None,
        a.clear_tags ==> new_tags(a) == Some(Seq::<Seq<char>>::empty()),
        !a.clear_tags && a.tags@.len() > 0 ==> new_tags(a) == Some(strs(a.tags@)),
        !a.clear_tags && a.tags@.len() == 0 ==> new_tags(a) is None,
        a.clear_template ==> new_template(a) == Some(None::<TemplateKind>),
        !a.clear_template && a.template is Some ==> new_template(a) == Some(a.template),
        !a.clear_template && a.template is None ==> new_template(a) is None,
        changes_record(a) <==> a.clear_note || a.note is Some || a.clear_tags || a.tags@.len() > 0
            || a.clear_template || a.template is Some,
{
}

/// A blank answer keeps a value, a dash clears it, and any other answer is the value, without white
/// space round it. Where no answer is given nothing else changes.
#[verifier::rlimit(30)]
pub proof fn law_answers_keep_clear_or_set(
    v: InteractiveEditValues,
    input: Seq<char>,
    after: InteractiveEditValues,
    p: EditPrompt,
)
    requires
        value_taken(v, p, input, after),
    ensures
        blank(input) && p == EditPrompt::HostName ==> opt(after.hostname) == opt(v.hostname),
        blank(input) && p == EditPrompt::User ==> opt(after.user) == opt(v.user),
        blank(input) && p == EditPrompt::Note ==> opt(after.note) == opt(v.note),
        blank(input) && p == EditPrompt::Tags ==> strs(after.tags@) == strs(v.tags@),
        blank(input) ==> after.host@ == v.host@ && after.port == v.port && after.template
            == v.template,
        trim(input) == "-"@ && p == EditPrompt::HostName ==> after.hostname is None,
        trim(input) == "-"@ && p == EditPrompt::User ==> after.user is None,
        trim(input) == "-"@ && p == EditPrompt::ProxyJump ==> after.proxy_jump is None,
        trim(input) == "-"@ && p == EditPrompt::SshTag ==> after.ssh_tag is None,
        trim(input) == "-"@ && p == EditPrompt::Note ==> after.note is None,
        trim(input) == "-"@ && p == EditPrompt::Port ==> after.port is None,
        trim(input) == "-"@ && p == EditPrompt::Template ==> after.template is None,
        trim(input) == "-"@ && p == EditPrompt::Tags ==> after.tags@.len() == 0,
        !blank(input) && trim(input) != "-"@ ==> {
            &&& p == EditPrompt::Host ==> after.host@ == trim(input)
            &&& p == EditPrompt::HostName ==> opt(after.hostname) == Some(trim(input))
            &&& p == EditPrompt::User ==> opt(after.user) == Some(trim(input))
            &&& p == EditPrompt::ProxyJump ==> opt(after.proxy_jump) == Some(trim(input))
            &&& p == EditPrompt::SshTag ==> opt(after.ssh_tag) == Some(trim(input))
            &&& p == EditPrompt::Note ==> opt(after.note) == Some(trim(input))
            &&& p == EditPrompt::Template ==> after.template == kind_named(trim(input))
            &&& p == EditPrompt::Tags ==> strs(after.tags@) == items_of(trim(input))
        },
        p != EditPrompt::Host ==> after.host == v.host,
        p != EditPrompt::HostName ==> after.hostname == v.hostname,
        p != EditPrompt::User ==> after.user == v.user,
        p != EditPrompt::Port ==> after.port == v.port,
        p != EditPrompt::ProxyJump ==> after.proxy_jump == v.proxy_jump,
        p != EditPrompt::SshTag ==> after.ssh_tag == v.ssh_tag,
        p != EditPrompt::Template ==> after.template == v.template,
        p != EditPrompt::Note ==> after.note == v.note,
        p != EditPrompt::Tags ==> after.tags == v.tags,
{
    reveal_strlit("-");
    assert("-"@.len() == 1);
    assert(strs(after.tags@).len() == after.tags@.len());
}

/// An entry that is changed takes no host, no order and no file of another entry.
pub proof fn law_edit_takes_nothing_from_others(
    es: Seq<ManagedView>,
    files: Seq<Seq<char>>,
    dir: Seq<char>,
    a: EditArgs,
    newline: Seq<char>,
    windows: bool,
)
    requires
        edit_plan(es, files, dir, a, newline, windows) is Ok,
    ensures
        ({
            let (current, saved) = edit_plan(es, files, dir, a, newline, windows)->Ok_0;
            saved != current ==> {
                &&& forall|k: int| #[trigger]
                    is_first_with(es, saved.entry.primary(), k) ==> es[k].path == current.path
                &&& forall|i: int|
                    0 <= i < es.len() && (#[trigger] es[i]).order == saved.order ==> es[i].path
                        == current.path
                &&& saved.path == current.path || !files.contains(saved.path)
            }
        }),
{
    let (current, saved) = edit_plan(es, files, dir, a, newline, windows)->Ok_0;
    let host = saved.entry.primary();
    law_entry_of_a_host_is_the_first(es, host);
    let n = until_host(es, host) as int;
    assert forall|k: int| #[trigger] is_first_with(es, host, k) implies k == n && n < es.len() by {
        assert(is_listed(es, host));
        if k < n {
            assert(!es[k].entry.host_patterns.contains(host));
        }
        if n < k {
            assert(!es[n].entry.host_patterns.contains(host));
        }
    }
}

/// A request that asks for nothing changes neither the entry nor its record, and each thing that
/// can be asked for counts.
#[verifier::rlimit(30)]
pub proof fn law_request_that_asks_for_nothing(e: HostView, a: EditArgs)
    ensures
        !asks_for_change(a) ==> edit_result(e, a) == Ok::<HostView, Seq<char>>(e)
            && !changes_record(a) && a.order is None,
        a.new_host is Some || a.hostname is Some || a.user is Some || a.port is Some
            || a.proxy_jump is Some || a.forward_agent is Some || a.ssh_tag is Some || a.note
            is Some || a.template is Some || a.order is Some ==> asks_for_change(a),
        a.identity_files@.len() > 0 || a.local_forwards@.len() > 0 || a.remote_forwards@.len() > 0
            || a.extras@.len() > 0 || a.tags@.len() > 0 ==> asks_for_change(a),
        a.strict_host_key_checking is Some || a.user_known_hosts_file is Some
            || a.host_key_algorithms is Some || a.pubkey_accepted_algorithms is Some
            ==> asks_for_change(a),
        a.clear_hostname || a.clear_user || a.clear_port || a.clear_proxy_jump
            || a.clear_identity_files || a.clear_local_forwards || a.clear_remote_forwards
            || a.clear_extras || a.clear_tags || a.clear_note || a.clear_template
            || a.clear_forward_agent || a.clear_ssh_tag || a.clear_strict_host_key_checking
            || a.clear_user_known_hosts_file || a.clear_host_key_algorithms
            || a.clear_pubkey_accepted_algorithms ==> asks_for_change(a),
{
    if !asks_for_change(a) {
        lemma_no_conflict(a);
        assert(strs(a.extras@).len() == 0);
        assert(strs(a.identity_files@).len() == 0);
        assert(strs(a.local_forwards@).len() == 0);
        assert(strs(a.remote_forwards@).len() == 0);
        assert(extras_of(strs(a.extras@)) is Ok);
        law_edit_does_what_is_asked(e, a);
        law_edit_does_what_is_asked_of_trust(e, a);
        assert(edit_result(e, a)->Ok_0 == e);
    }
}

} // verus!
