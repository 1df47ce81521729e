//! What holds of the form for an entry.

use vstd::prelude::*;

use crate::commands::cli::EditArgs;
use crate::commands::edit::{
    edit_result, list_conflict, lists_edited, option_conflict, record_conflict, replace_or_clear,
    scalars_edited, set_or_clear, target_conflict,
};
use crate::commands::prompt::{items_of, list_items};
use crate::config::model::{HostView, ManagedView};
use crate::config::state::MetadataView;
use crate::config::template::with_template;
use crate::text::{blank, decimal, is_ws, join, split, split_from, strs, trim, trim_end, trim_start};
use crate::text_laws::{
    law_decimal_is_parsed, law_joined_parts_are_found, law_trim_once, law_trimmed_text_stays,
};
use crate::tui::forms::{
    FormField, form_of, is_edit_of, number_or_nothing, or_nothing, port_of, value_if_any,
};

verus! {

broadcast use crate::text::group_text;

/// An item that can stand in a list on one line.
pub open spec fn is_item(s: Seq<char>) -> bool {
    s.len() > 0 && trim(s) == s && !s.contains(',') && !s.contains(';')
}

pub open spec fn are_items(v: Seq<Seq<char>>) -> bool {
    forall|i: int| 0 <= i < v.len() ==> is_item(#[trigger] v[i])
}

/// The items as they stand between the semicolons.
pub open spec fn spaced_items(v: Seq<Seq<char>>) -> Seq<Seq<char>> {
    Seq::new(
        v.len(),
        |i: int|
            if i == 0 {
                v[i]
            } else {
                seq![' '] + v[i]
            },
    )
}

proof fn lemma_joined_items(v: Seq<Seq<char>>)
    ensures
        join(v, "; "@) == join(spaced_items(v), seq![';']),
    decreases v.len(),
{
    reveal_strlit("; ");
    assert("; "@ =~= seq![';', ' ']);
    let w = spaced_items(v);
    if v.len() == 1 {
        assert(w[0] == v[0]);
    } else if v.len() > 1 {
        let head = v.drop_last();
        lemma_joined_items(head);
        assert(w.drop_last() =~= spaced_items(head));
        assert(w.last() == seq![' '] + v.last());
        assert(join(v, "; "@) =~= join(w, seq![';']));
    }
}

proof fn lemma_trim_of_spaced(s: Seq<char>)
    requires
        trim(s) == s,
    ensures
        trim(seq![' '] + s) == s,
{
    let t = seq![' '] + s;
    assert(t[0] == ' ');
    assert(t.skip(1) =~= s);
    assert(trim_start(t) == trim_start(s));
}

proof fn lemma_items_are_listed(v: Seq<Seq<char>>)
    requires
        are_items(v),
    ensures
        list_items(spaced_items(v)) == v,
    decreases v.len(),
{
    let w = spaced_items(v);
    if v.len() == 0 {
        assert(list_items(w) =~= v);
    } else {
        let head = v.drop_last();
        let x = v.last();
        assert(is_item(v[v.len() - 1]));
        assert forall|i: int| 0 <= i < head.len() implies is_item(#[trigger] head[i]) by {
            assert(head[i] == v[i]);
        }
        lemma_items_are_listed(head);
        assert(w.drop_last() =~= spaced_items(head));
        lemma_trim_of_spaced(x);
        assert(trim(w.last()) == x);
        assert(list_items(w) =~= v);
    }
}

/// Items on one line are found again.
pub proof fn law_joined_items_are_found(v: Seq<Seq<char>>)
    requires
        are_items(v),
    ensures
        items_of(join(v, "; "@)) == v,
{
    let seps = ",;"@;
    reveal_strlit(",;");
    assert(seps =~= seq![',', ';']);
    assert(seps[1] == ';');
    assert(seps.contains(';'));
    let w = spaced_items(v);
    lemma_joined_items(v);
    lemma_items_are_listed(v);
    if v.len() == 0 {
        let none = Seq::<char>::empty();
        assert(split(none, seps) =~= seq![none]);
        assert(seq![none].drop_last() =~= Seq::<Seq<char>>::empty());
        assert(seq![none].last() == none);
        assert(trim_start(none) == none);
        assert(blank(none));
        assert(list_items(seq![none].drop_last()) =~= Seq::<Seq<char>>::empty());
        assert(list_items(seq![none]) =~= v);
    } else {
        assert forall|i: int, j: int| 0 <= i < w.len() && 0 <= j < w[i].len() implies !seps.contains(
            #[trigger] w[i][j],
        ) by {
            assert(is_item(v[i]));
            let c = w[i][j];
            if seps.contains(c) {
                let k = choose|k: int| 0 <= k < seps.len() && seps[k] == c;
                assert(c == ',' || c == ';');
                let n = if i == 0 {
                    j
                } else {
                    j - 1
                };
                if n >= 0 {
                    assert(v[i][n] == c);
                    assert(v[i].contains(c));
                }
            }
        }
        law_joined_parts_are_found(w, ';', seps);
    }
}

/// A value that stays as it is when white space round it is left out.
pub open spec fn is_tidy(v: Option<Seq<char>>) -> bool {
    v matches Some(x) ==> x.len() > 0 && trim(x) == x
}

/// An entry that a form can show: values without white space at their ends, and no comma or
/// semicolon in the values of lists.
pub open spec fn can_be_shown(e: HostView) -> bool {
    &&& e.primary().len() > 0
    &&& trim(e.primary()) == e.primary()
    &&& is_tidy(e.hostname)
    &&& is_tidy(e.user)
    &&& is_tidy(e.proxy_jump)
    &&& are_items(e.identity_files)
    &&& are_items(e.local_forwards)
    &&& are_items(e.remote_forwards)
    &&& is_tidy(e.strict_host_key_checking)
    &&& is_tidy(e.user_known_hosts_file)
    &&& is_tidy(e.host_key_algorithms)
    &&& is_tidy(e.pubkey_accepted_algorithms)
    &&& is_tidy(e.forward_agent)
    &&& is_tidy(e.tag)
}

proof fn lemma_tidy_value_is_kept(v: Option<Seq<char>>)
    requires
        is_tidy(v),
    ensures
        value_if_any(or_nothing(v)) == v,
        set_or_clear(v, value_if_any(or_nothing(v)), trim(or_nothing(v)).len() == 0) == v,
        !(trim(or_nothing(v)).len() == 0 && value_if_any(or_nothing(v)) is Some),
{
    assert(trim(Seq::<char>::empty()) == Seq::<char>::empty());
}

proof fn lemma_list_is_kept(v: Seq<Seq<char>>)
    requires
        are_items(v),
    ensures
        items_of(join(v, "; "@)) == v,
        replace_or_clear(v, v, trim(join(v, "; "@)).len() == 0) == v,
        trim(join(v, "; "@)).len() == 0 ==> v.len() == 0,
{
    law_joined_items_are_found(v);
    if v.len() == 0 {
        assert(v =~= Seq::<Seq<char>>::empty());
    } else {
        assert(is_item(v[0]));
        lemma_joined_begins(v);
        let t = join(v, "; "@);
        law_trim_once(v[0]);
        lemma_not_blank(t);
    }
}

proof fn lemma_joined_begins(v: Seq<Seq<char>>)
    requires
        v.len() > 0,
        v[0].len() > 0,
    ensures
        join(v, "; "@).len() > 0,
        join(v, "; "@)[0] == v[0][0],
    decreases v.len(),
{
    if v.len() > 1 {
        assert(v.drop_last()[0] == v[0]);
        lemma_joined_begins(v.drop_last());
    }
}

proof fn lemma_not_blank(s: Seq<char>)
    requires
        s.len() > 0,
        !is_ws(s[0]),
    ensures
        trim(s).len() > 0,
{
    assert(trim_start(s) == s);
    lemma_end_stays(s);
}

proof fn lemma_end_stays(s: Seq<char>)
    requires
        s.len() > 0,
        !is_ws(s[0]),
    ensures
        trim_end(s).len() > 0,
    decreases s.len(),
{
    if is_ws(s.last()) {
        assert(s.len() > 1);
        assert(s.drop_last()[0] == s[0]);
        lemma_end_stays(s.drop_last());
    }
}

proof fn lemma_port_is_kept(port: Option<u16>)
    ensures
        port_of(number_or_nothing(port)) == Ok::<Option<u16>, Seq<char>>(port),
        (trim(number_or_nothing(port)).len() == 0) == (port is None),
{
    match port {
        Some(p) => {
            let d = decimal(p as nat);
            law_decimal_is_parsed(p as nat, 65535);
            assert(!is_ws(d[0]) && !is_ws(d[d.len() - 1]));
            law_trimmed_text_stays(d);
        },
        None => {
            assert(trim(Seq::<char>::empty()) == Seq::<char>::empty());
        },
    }
}

/// The texts of the form, field by field.
proof fn lemma_texts(e: ManagedView, m: Option<MetadataView>)
    ensures
        form_of(e, m).text(FormField::Host) == e.entry.primary(),
        form_of(e, m).text(FormField::Port) == number_or_nothing(e.entry.port),
        form_of(e, m).text(FormField::HostName) == or_nothing(e.entry.hostname),
        form_of(e, m).text(FormField::User) == or_nothing(e.entry.user),
        form_of(e, m).text(FormField::ProxyJump) == or_nothing(e.entry.proxy_jump),
        form_of(e, m).text(FormField::StrictHostKeyChecking) == or_nothing(e.entry.strict_host_key_checking),
        form_of(e, m).text(FormField::UserKnownHostsFile) == or_nothing(e.entry.user_known_hosts_file),
        form_of(e, m).text(FormField::HostKeyAlgorithms) == or_nothing(e.entry.host_key_algorithms),
        form_of(e, m).text(FormField::PubkeyAcceptedAlgorithms) == or_nothing(e.entry.pubkey_accepted_algorithms),
        form_of(e, m).text(FormField::ForwardAgent) == or_nothing(e.entry.forward_agent),
        form_of(e, m).text(FormField::SshTag) == or_nothing(e.entry.tag),
        form_of(e, m).text(FormField::IdentityFiles) == join(e.entry.identity_files, "; "@),
        form_of(e, m).text(FormField::LocalForwards) == join(e.entry.local_forwards, "; "@),
        form_of(e, m).text(FormField::RemoteForwards) == join(e.entry.remote_forwards, "; "@),
{
}

pub open spec fn is_untouched(e: ManagedView, m: Option<MetadataView>, a: EditArgs) -> bool {
    &&& can_be_shown(e.entry)
    &&& is_edit_of(a, form_of(e, m))
    &&& a.template matches Some(k) ==> with_template(e.entry, k) == e.entry
}

proof fn lemma_scalars_stay(e: ManagedView, m: Option<MetadataView>, a: EditArgs)
    requires
        is_untouched(e, m, a),
    ensures
        scalars_edited(e.entry, a) == e.entry,
        target_conflict(a) is None,
        option_conflict(a) is None,
{
    let h = e.entry;
    reveal(target_conflict);
    reveal(option_conflict);
    lemma_texts(e, m);
    lemma_tidy_value_is_kept(h.hostname);
    lemma_tidy_value_is_kept(h.user);
    lemma_tidy_value_is_kept(h.proxy_jump);
    lemma_tidy_value_is_kept(h.strict_host_key_checking);
    lemma_tidy_value_is_kept(h.user_known_hosts_file);
    lemma_tidy_value_is_kept(h.host_key_algorithms);
    lemma_tidy_value_is_kept(h.pubkey_accepted_algorithms);
    lemma_tidy_value_is_kept(h.forward_agent);
    lemma_tidy_value_is_kept(h.tag);
    lemma_port_is_kept(h.port);
    assert(scalars_edited(h, a) =~= h);
}

proof fn lemma_lists_stay(e: ManagedView, m: Option<MetadataView>, a: EditArgs)
    requires
        is_untouched(e, m, a),
    ensures
        lists_edited(e.entry, a, Seq::empty()) == e.entry,
        list_conflict(a) is None,
{
    let h = e.entry;
    reveal(list_conflict);
    lemma_texts(e, m);
    lemma_list_is_kept(h.identity_files);
    lemma_list_is_kept(h.local_forwards);
    lemma_list_is_kept(h.remote_forwards);
    assert(strs(a.identity_files@).len() == a.identity_files@.len());
    assert(strs(a.local_forwards@).len() == a.local_forwards@.len());
    assert(strs(a.remote_forwards@).len() == a.remote_forwards@.len());
    assert(lists_edited(h, a, Seq::empty()) =~= h);
}

proof fn lemma_records_are_free(e: ManagedView, m: Option<MetadataView>, a: EditArgs)
    requires
        is_untouched(e, m, a),
    ensures
        record_conflict(a) is None,
{
    let f = form_of(e, m);
    reveal(record_conflict);
    lemma_blank_list_is_empty(f.text(FormField::Tags));
    assert(strs(a.tags@).len() == a.tags@.len());
}

/// A form that was opened for an entry and saved as it is leaves the directives of the entry
/// as they are. Where the record names a template, it is taken that the entry has what the
/// template gives: saving a form applies the template.
pub proof fn law_untouched_form_changes_nothing(e: ManagedView, m: Option<MetadataView>, a: EditArgs)
    requires
        is_untouched(e, m, a),
    ensures
        edit_result(e.entry, a) == Ok::<HostView, Seq<char>>(e.entry),
{
    lemma_scalars_stay(e, m, a);
    lemma_lists_stay(e, m, a);
    lemma_records_are_free(e, m, a);
    assert(strs(a.extras@) =~= Seq::<Seq<char>>::empty());
}

proof fn lemma_blank_list_is_empty(s: Seq<char>)
    ensures
        trim(s).len() == 0 ==> items_of(s).len() == 0,
{
    if trim(s).len() == 0 {
        lemma_blank_is_white(s);
        lemma_white_list(s, Seq::empty());
    }
}

proof fn lemma_blank_is_white(s: Seq<char>)
    requires
        trim(s).len() == 0,
    ensures
        forall|i: int| 0 <= i < s.len() ==> is_ws(#[trigger] s[i]),
    decreases s.len(),
{
    if s.len() > 0 {
        if is_ws(s[0]) {
            lemma_blank_is_white(s.skip(1));
            assert forall|i: int| 0 <= i < s.len() implies is_ws(#[trigger] s[i]) by {
                if i > 0 {
                    assert(s[i] == s.skip(1)[i - 1]);
                }
            }
        } else {
            lemma_not_blank(s);
        }
    }
}

proof fn lemma_white_list(s: Seq<char>, cur: Seq<char>)
    requires
        forall|i: int| 0 <= i < s.len() ==> is_ws(#[trigger] s[i]),
        forall|i: int| 0 <= i < cur.len() ==> is_ws(#[trigger] cur[i]),
    ensures
        split_from(s, ",;"@, cur) == seq![cur + s],
        list_items(seq![cur + s]).len() == 0,
    decreases s.len(),
{
    let seps = ",;"@;
    reveal_strlit(",;");
    assert(seps =~= seq![',', ';']);
    let all = cur + s;
    assert forall|i: int| 0 <= i < all.len() implies is_ws(#[trigger] all[i]) by {
        if i < cur.len() {
            assert(all[i] == cur[i]);
        } else {
            assert(all[i] == s[i - cur.len()]);
        }
    }
    lemma_white_is_blank(all);
    assert(seq![all].drop_last() =~= Seq::<Seq<char>>::empty());
    assert(list_items(seq![all].drop_last()).len() == 0);
    if s.len() == 0 {
        assert(all =~= cur);
    } else {
        assert(is_ws(s[0]));
        assert(!seps.contains(s[0])) by {
            if seps.contains(s[0]) {
                let k = choose|k: int| 0 <= k < seps.len() && seps[k] == s[0];
            }
        }
        let next = cur.push(s[0]);
        assert forall|i: int| 0 <= i < next.len() implies is_ws(#[trigger] next[i]) by {
            if i < cur.len() {
                assert(next[i] == cur[i]);
            }
        }
        assert forall|i: int| 0 <= i < s.skip(1).len() implies is_ws(#[trigger] s.skip(1)[i]) by {
            assert(s.skip(1)[i] == s[i + 1]);
        }
        lemma_white_list(s.skip(1), next);
        assert(next + s.skip(1) =~= all);
    }
}

proof fn lemma_white_is_blank(s: Seq<char>)
    requires
        forall|i: int| 0 <= i < s.len() ==> is_ws(#[trigger] s[i]),
    ensures
        trim(s).len() == 0,
    decreases s.len(),
{
    if s.len() > 0 {
        assert(is_ws(s[0]));
        assert forall|i: int| 0 <= i < s.skip(1).len() implies is_ws(#[trigger] s.skip(1)[i]) by {
            assert(s.skip(1)[i] == s[i + 1]);
        }
        lemma_white_is_blank(s.skip(1));
    }
}

} // verus!
