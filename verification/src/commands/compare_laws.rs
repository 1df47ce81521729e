//! What the comparison with the client finds.

use vstd::prelude::*;

use crate::commands::compare::{
    FindingsView, ListField, ResolutionsView, agent_value, algorithm_matches, algorithm_value,
    compared_address, compared_algorithms, compared_forwards, compared_list, compared_scalar,
    compared_security, compared_target, config_list, config_scalar, display_of, each_in, equals,
    expected_list, expected_scalar, extras_named, first_value, fits, jump_value, list_fits,
    local_forward_value, opt_display, opt_list, opt_scalar, overrides_explained, path_value,
    path_values, remote_forward_value, remote_forward_values, scalar_step, scalar_value, squeezed,
    switch_value, with_mismatch,
};
use crate::config::model::{HostView, IgnoredView};
use crate::config::openssh::values_of;
use crate::config::render::port_text;
use crate::text::{decimal, join, lower, same_ignoring_case, starts_with, trim, words};
use crate::text_laws::{is_word, law_squeezed_once, law_words_are_words};

verus! {

// ---------------------------------------------------------------------------
// What the client said
// ---------------------------------------------------------------------------

/// `k` is the place of the first value for the key.
pub open spec fn is_first_for(config: Seq<(Seq<char>, Seq<char>)>, key: Seq<char>, k: int) -> bool {
    &&& 0 <= k < config.len()
    &&& config[k].0 == key
    &&& forall|i: int| 0 <= i < k ==> (#[trigger] config[i]).0 != key
}

/// The first value for the key is there and passes the test.
pub open spec fn answers(
    config: Seq<(Seq<char>, Seq<char>)>,
    key: Seq<char>,
    test: spec_fn(Seq<char>) -> bool,
) -> bool {
    exists|k: int| #[trigger] is_first_for(config, key, k) && test(config[k].1)
}

pub open spec fn has_key(key: Seq<char>) -> spec_fn((Seq<char>, Seq<char>)) -> bool {
    |p: (Seq<char>, Seq<char>)| p.0 == key
}

/// The values for the key, in order.
pub open spec fn all_for(config: Seq<(Seq<char>, Seq<char>)>, key: Seq<char>) -> Seq<Seq<char>> {
    config.filter(has_key(key)).map_values(|p: (Seq<char>, Seq<char>)| p.1)
}

/// What the client is read to say for an option is each value with its key, in order, and the
/// first value is the one of the first such line.
#[verifier::rlimit(30)]
pub proof fn law_values_are_those_of_the_key(config: Seq<(Seq<char>, Seq<char>)>, key: Seq<char>)
    ensures
        values_of(config, key) == all_for(config, key),
        values_of(config, key).len() > 0 ==> exists|k: int| #[trigger]
            is_first_for(config, key, k) && values_of(config, key)[0] == config[k].1,
        values_of(config, key).len() == 0 ==> forall|i: int|
            0 <= i < config.len() ==> (#[trigger] config[i]).0 != key,
    decreases config.len(),
{
    reveal(Seq::filter);
    if config.len() == 0 {
        assert(all_for(config, key) =~= Seq::<Seq<char>>::empty());
    } else {
        let rest = config.drop_last();
        law_values_are_those_of_the_key(rest, key);
        assert(all_for(config, key) =~= (if config.last().0 == key {
            all_for(rest, key).push(config.last().1)
        } else {
            all_for(rest, key)
        }));
        let n = config.len() - 1;
        if values_of(rest, key).len() > 0 {
            let k = choose|k: int| #[trigger]
                is_first_for(rest, key, k) && values_of(rest, key)[0] == rest[k].1;
            assert forall|i: int| 0 <= i < k implies (#[trigger] config[i]).0 != key by {
                assert(rest[i] == config[i]);
            }
            assert(config[k] == rest[k]);
            assert(is_first_for(config, key, k));
        } else {
            assert forall|i: int| 0 <= i < n implies (#[trigger] config[i]).0 != key by {
                assert(rest[i] == config[i]);
            }
            if config.last().0 == key {
                assert(is_first_for(config, key, n));
            }
        }
    }
}

proof fn lemma_one_first(config: Seq<(Seq<char>, Seq<char>)>, key: Seq<char>, a: int, b: int)
    requires
        is_first_for(config, key, a),
        is_first_for(config, key, b),
    ensures
        a == b,
{
    if a < b {
        assert(config[a].0 != key);
    }
    if b < a {
        assert(config[b].0 != key);
    }
}

proof fn lemma_answers(
    config: Seq<(Seq<char>, Seq<char>)>,
    field: Seq<char>,
    key: Seq<char>,
    test: spec_fn(Seq<char>) -> bool,
)
    requires
        lower(field) == key,
    ensures
        answers(config, key, test) <==> first_value(config, field) is Some && test(
            first_value(config, field)->0,
        ),
{
    law_values_are_those_of_the_key(config, key);
    if values_of(config, key).len() > 0 {
        let k = choose|k: int| #[trigger]
            is_first_for(config, key, k) && values_of(config, key)[0] == config[k].1;
        if answers(config, key, test) {
            let j = choose|j: int| #[trigger] is_first_for(config, key, j) && test(config[j].1);
            lemma_one_first(config, key, k, j);
        }
    }
}

// ---------------------------------------------------------------------------
// When a directive agrees
// ---------------------------------------------------------------------------

pub open spec fn means_yes(v: Seq<char>) -> bool {
    lower(trim(v)) == "yes"@ || lower(trim(v)) == "true"@ || lower(trim(v)) == "on"@
}

pub open spec fn means_no(v: Seq<char>) -> bool {
    lower(trim(v)) == "no"@ || lower(trim(v)) == "false"@ || lower(trim(v)) == "off"@
}

/// Two values of a switch are the same where both mean yes, both mean no, or they are the same
/// word.
pub open spec fn same_switch(a: Seq<char>, b: Seq<char>) -> bool {
    ||| means_yes(a) && means_yes(b)
    ||| means_no(a) && means_no(b)
    ||| lower(trim(a)) == lower(trim(b))
}

/// The value names no jump host.
pub open spec fn names_no_jump(v: Seq<char>) -> bool {
    ||| words(v).len() == 0
    ||| words(v).len() == 1 && lower(words(v)[0]) == "none"@
}

pub open spec fn same_paths(
    a: Seq<Seq<char>>,
    b: Seq<Seq<char>>,
    home: Seq<char>,
    windows: bool,
) -> bool {
    &&& a.len() == b.len()
    &&& forall|i: int|
        0 <= i < a.len() ==> #[trigger] path_value(a[i], home, windows) == path_value(
            b[i],
            home,
            windows,
        )
}

#[verifier::opaque]
pub open spec fn hostname_agrees(e: HostView, r: ResolutionsView) -> bool {
    e.hostname matches Some(h) ==> answers(
        r.actual,
        "hostname"@,
        |v: Seq<char>| trim(v) == trim(h),
    )
}

#[verifier::opaque]
pub open spec fn user_agrees(e: HostView, r: ResolutionsView) -> bool {
    e.user matches Some(u) ==> answers(r.actual, "user"@, |v: Seq<char>| trim(v) == trim(u))
}

#[verifier::opaque]
pub open spec fn port_agrees(e: HostView, r: ResolutionsView) -> bool {
    e.port matches Some(p) ==> answers(
        r.actual,
        "port"@,
        |v: Seq<char>| trim(v) == decimal(p as nat),
    )
}

#[verifier::opaque]
pub open spec fn proxy_jump_agrees(e: HostView, r: ResolutionsView) -> bool {
    e.proxy_jump matches Some(j) ==> names_no_jump(j) || answers(
        r.actual,
        "proxyjump"@,
        |v: Seq<char>| words(v) == words(j),
    )
}

/// The client offers that identity file.
pub open spec fn is_offered(file: Seq<char>, r: ResolutionsView) -> bool {
    exists|k: int|
        0 <= k < r.actual.len() && (#[trigger] r.actual[k]).0 == "identityfile"@ && path_value(
            r.actual[k].1,
            r.home,
            r.windows,
        ) == path_value(file, r.home, r.windows)
}

#[verifier::opaque]
pub open spec fn identity_files_agree(e: HostView, r: ResolutionsView) -> bool {
    forall|i: int| 0 <= i < e.identity_files.len() ==> is_offered(#[trigger] e.identity_files[i], r)
}

#[verifier::opaque]
pub open spec fn local_forwards_agree(e: HostView, r: ResolutionsView) -> bool {
    let got = all_for(r.actual, "localforward"@);
    e.local_forwards.len() == 0 || {
        &&& got.len() == e.local_forwards.len()
        &&& forall|i: int|
            0 <= i < got.len() ==> #[trigger] local_forward_value(got[i]) == local_forward_value(
                e.local_forwards[i],
            )
    }
}

/// An extra option that is a remote forward.
pub open spec fn is_remote_forward() -> spec_fn((Seq<char>, Seq<char>)) -> bool {
    |p: (Seq<char>, Seq<char>)| same_ignoring_case(p.0, "RemoteForward"@)
}

/// The remote forwards of an entry, those among its extra options last.
pub open spec fn all_remote_forwards(e: HostView) -> Seq<Seq<char>> {
    e.remote_forwards + e.extra_options.filter(is_remote_forward()).map_values(
        |p: (Seq<char>, Seq<char>)| p.1,
    )
}

#[verifier::opaque]
pub open spec fn remote_forwards_agree(e: HostView, r: ResolutionsView) -> bool {
    let got = all_for(r.actual, "remoteforward"@);
    let want = all_remote_forwards(e);
    want.len() == 0 || {
        &&& got.len() == want.len()
        &&& forall|i: int|
            0 <= i < got.len() ==> #[trigger] remote_forward_value(got[i], r.home, r.windows)
                == remote_forward_value(want[i], r.home, r.windows)
    }
}

#[verifier::opaque]
pub open spec fn strict_checking_agrees(e: HostView, r: ResolutionsView) -> bool {
    e.strict_host_key_checking matches Some(s) ==> answers(
        r.actual,
        "stricthostkeychecking"@,
        |v: Seq<char>| same_switch(v, s),
    )
}

#[verifier::opaque]
pub open spec fn known_hosts_agree(e: HostView, r: ResolutionsView) -> bool {
    e.user_known_hosts_file matches Some(s) ==> words(s).len() == 0 || answers(
        r.actual,
        "userknownhostsfile"@,
        |v: Seq<char>| same_paths(words(v), words(s), r.home, r.windows),
    )
}

#[verifier::opaque]
pub open spec fn host_key_algorithms_agree(e: HostView, r: ResolutionsView) -> bool {
    e.host_key_algorithms matches Some(s) ==> answers(
        r.actual,
        "hostkeyalgorithms"@,
        |v: Seq<char>| algorithm_matches(algorithm_value(s), algorithm_value(v)),
    )
}

#[verifier::opaque]
pub open spec fn pubkey_algorithms_agree(e: HostView, r: ResolutionsView) -> bool {
    e.pubkey_accepted_algorithms matches Some(s) ==> answers(
        r.actual,
        "pubkeyacceptedalgorithms"@,
        |v: Seq<char>| algorithm_matches(algorithm_value(s), algorithm_value(v)),
    )
}

#[verifier::opaque]
pub open spec fn forward_agent_agrees(e: HostView, r: ResolutionsView) -> bool {
    e.forward_agent matches Some(s) ==> answers(
        r.actual,
        "forwardagent"@,
        |v: Seq<char>| agent_value(v, r.home, r.windows) == agent_value(s, r.home, r.windows),
    )
}

// ---------------------------------------------------------------------------
// Issues
// ---------------------------------------------------------------------------

/// The issue is on that directive of that target.
pub open spec fn is_on(issue: Seq<char>, target: Seq<char>, field: Seq<char>) -> bool {
    starts_with(issue, "ssh -G mismatch for `"@ + target + "`: "@ + field + " expected `"@)
}

/// Among the issues that `g` has more than `f` is one on that directive.
#[verifier::opaque]
pub open spec fn reports(
    f: FindingsView,
    g: FindingsView,
    target: Seq<char>,
    field: Seq<char>,
) -> bool {
    exists|j: int| f.issues.len() <= j < g.issues.len() && #[trigger] is_on(g.issues[j], target, field)
}

/// `g` is `f` where the directive agrees, and else it has one more issue, on that directive.
pub open spec fn adds_unless(
    f: FindingsView,
    g: FindingsView,
    agrees: bool,
    target: Seq<char>,
    field: Seq<char>,
) -> bool {
    &&& agrees ==> g == f
    &&& !agrees ==> g.issues.len() == f.issues.len() + 1 && g.issues.drop_last() == f.issues && is_on(
        g.issues.last(),
        target,
        field,
    )
}

proof fn lemma_mismatch_is_on(
    f: FindingsView,
    target: Seq<char>,
    field: Seq<char>,
    expected: Seq<char>,
    actual: Option<Seq<char>>,
    managed_matches: Option<bool>,
    managed: Option<Seq<char>>,
    matched: Option<Seq<char>>,
)
    ensures
        adds_unless(
            f,
            with_mismatch(f, target, field, expected, actual, managed_matches, managed, matched),
            false,
            target,
            field,
        ),
{
    let g = with_mismatch(f, target, field, expected, actual, managed_matches, managed, matched);
    let head = "ssh -G mismatch for `"@ + target + "`: "@ + field + " expected `"@;
    let issue = g.issues.last();
    assert(g.issues.drop_last() =~= f.issues);
    assert(issue.take(head.len() as int) =~= head);
}

proof fn lemma_scalar_adds(
    f: FindingsView,
    target: Seq<char>,
    field: Seq<char>,
    expected: Option<Seq<char>>,
    actual: Option<Seq<char>>,
    managed: Option<Seq<char>>,
    matched: Option<Seq<char>>,
)
    ensures
        adds_unless(
            f,
            scalar_step(f, target, field, expected, actual, managed, matched),
            expected is Some ==> actual == expected,
            target,
            field,
        ),
{
    if let Some(e) = expected {
        let eq = equals(managed, e);
        lemma_mismatch_is_on(f, target, field, e, actual, eq, managed, matched);
    }
}

proof fn lemma_algorithms_add(
    f: FindingsView,
    target: Seq<char>,
    field: Seq<char>,
    key: Seq<char>,
    value: Option<Seq<char>>,
    r: ResolutionsView,
)
    requires
        lower(field) == key,
        field == "HostKeyAlgorithms"@ || field == "PubkeyAcceptedAlgorithms"@,
    ensures
        adds_unless(
            f,
            compared_algorithms(f, target, field, value, r),
            value matches Some(s) ==> answers(
                r.actual,
                key,
                |v: Seq<char>| algorithm_matches(algorithm_value(s), algorithm_value(v)),
            ),
            target,
            field,
        ),
{
    lemma_field_names();
    if let Some(s) = value {
        let test = |v: Seq<char>| algorithm_matches(algorithm_value(s), algorithm_value(v));
        lemma_answers(r.actual, field, key, test);
        let e = algorithm_value(s);
        let actual = config_scalar(r.actual, field, r.home, r.windows);
        let managed = opt_scalar(r.managed, field, r.home, r.windows);
        let matched = opt_scalar(r.matched, field, r.home, r.windows);
        let fit = fits(managed, e);
        lemma_mismatch_is_on(f, target, field, e, actual, fit, managed, matched);
        assert(scalar_value(field, s, r.home, r.windows) == Some(e));
    }
}

proof fn lemma_list_adds(
    f: FindingsView,
    target: Seq<char>,
    field: ListField,
    e: HostView,
    r: ResolutionsView,
)
    ensures
        ({
            let expected = expected_list(e, field, r.home, r.windows);
            let found = config_list(r.actual, field, r.home, r.windows);
            let actual = if found is Some {
                found->0
            } else {
                Seq::empty()
            };
            adds_unless(
                f,
                compared_list(f, target, field, e, r),
                expected.len() == 0 || (if field == ListField::IdentityFile {
                    each_in(expected, actual)
                } else {
                    expected == actual
                }),
                target,
                field.spec_name(),
            )
        }),
{
    let expected = expected_list(e, field, r.home, r.windows);
    let found = config_list(r.actual, field, r.home, r.windows);
    let actual = if found is Some {
        found->0
    } else {
        Seq::empty()
    };
    let exact = field != ListField::IdentityFile;
    let managed = opt_list(r.managed, field, r.home, r.windows);
    let matched = opt_list(r.matched, field, r.home, r.windows);
    lemma_mismatch_is_on(
        f,
        target,
        field.spec_name(),
        display_of(expected),
        Some(display_of(actual)),
        match managed {
            Some(m) => Some(list_fits(exact, expected, m)),
            None => None,
        },
        opt_display(managed),
        opt_display(matched),
    );
}

proof fn lemma_field_names()
    ensures
        "HostName"@.len() == 8,
        "User"@.len() == 4,
        "Port"@.len() == 4,
        "User"@ != "Port"@,
        "ProxyJump"@.len() == 9,
        "StrictHostKeyChecking"@.len() == 21,
        "UserKnownHostsFile"@.len() == 18,
        "HostKeyAlgorithms"@.len() == 17,
        "PubkeyAcceptedAlgorithms"@.len() == 24,
        "ForwardAgent"@.len() == 12,
{
    reveal_strlit("HostName");
    reveal_strlit("User");
    reveal_strlit("Port");
    reveal_strlit("ProxyJump");
    reveal_strlit("StrictHostKeyChecking");
    reveal_strlit("UserKnownHostsFile");
    reveal_strlit("HostKeyAlgorithms");
    reveal_strlit("PubkeyAcceptedAlgorithms");
    reveal_strlit("ForwardAgent");
    assert("User"@[0] == 'U' && "Port"@[0] == 'P');
}

pub proof fn lemma_keys_a()
    ensures
        lower("HostName"@) == "hostname"@,
        lower("User"@) == "user"@,
        lower("Port"@) == "port"@,
        lower("ProxyJump"@) == "proxyjump"@,
        lower("IdentityFile"@) == "identityfile"@,
        lower("LocalForward"@) == "localforward"@,
        lower("RemoteForward"@) == "remoteforward"@,
{
    reveal_strlit("HostName");
    reveal_strlit("hostname");
    assert(lower("HostName"@) =~= "hostname"@);
    reveal_strlit("User");
    reveal_strlit("user");
    assert(lower("User"@) =~= "user"@);
    reveal_strlit("Port");
    reveal_strlit("port");
    assert(lower("Port"@) =~= "port"@);
    reveal_strlit("ProxyJump");
    reveal_strlit("proxyjump");
    assert(lower("ProxyJump"@) =~= "proxyjump"@);
    reveal_strlit("IdentityFile");
    reveal_strlit("identityfile");
    assert(lower("IdentityFile"@) =~= "identityfile"@);
    reveal_strlit("LocalForward");
    reveal_strlit("localforward");
    assert(lower("LocalForward"@) =~= "localforward"@);
    reveal_strlit("RemoteForward");
    reveal_strlit("remoteforward");
    assert(lower("RemoteForward"@) =~= "remoteforward"@);
}

pub proof fn lemma_keys_b()
    ensures
        lower("StrictHostKeyChecking"@) == "stricthostkeychecking"@,
        lower("UserKnownHostsFile"@) == "userknownhostsfile"@,
        lower("HostKeyAlgorithms"@) == "hostkeyalgorithms"@,
        lower("PubkeyAcceptedAlgorithms"@) == "pubkeyacceptedalgorithms"@,
        lower("ForwardAgent"@) == "forwardagent"@,
{
    reveal_strlit("StrictHostKeyChecking");
    reveal_strlit("stricthostkeychecking");
    assert(lower("StrictHostKeyChecking"@) =~= "stricthostkeychecking"@);
    reveal_strlit("UserKnownHostsFile");
    reveal_strlit("userknownhostsfile");
    assert(lower("UserKnownHostsFile"@) =~= "userknownhostsfile"@);
    reveal_strlit("HostKeyAlgorithms");
    reveal_strlit("hostkeyalgorithms");
    assert(lower("HostKeyAlgorithms"@) =~= "hostkeyalgorithms"@);
    reveal_strlit("PubkeyAcceptedAlgorithms");
    reveal_strlit("pubkeyacceptedalgorithms");
    assert(lower("PubkeyAcceptedAlgorithms"@) =~= "pubkeyacceptedalgorithms"@);
    reveal_strlit("ForwardAgent");
    reveal_strlit("forwardagent");
    assert(lower("ForwardAgent"@) =~= "forwardagent"@);
}

/// Two switches are in one form exactly where they are the same.
pub proof fn law_switches_are_compared_by_meaning(a: Seq<char>, b: Seq<char>)
    ensures
        switch_value(a) == switch_value(b) <==> same_switch(a, b),
{
    reveal_strlit("yes");
    reveal_strlit("no");
    reveal_strlit("true");
    reveal_strlit("false");
    reveal_strlit("on");
    reveal_strlit("off");
    assert("yes"@.len() == 3 && "no"@.len() == 2 && "true"@.len() == 4 && "false"@.len() == 5);
    assert("on"@.len() == 2 && "off"@.len() == 3);
    assert("on"@[0] == 'o' && "no"@[0] == 'n' && "off"@[0] == 'o' && "yes"@[0] == 'y');
}

/// Jump hosts are compared word by word, and `none` is no host.
pub proof fn law_jump_hosts_are_compared_by_words(a: Seq<char>, b: Seq<char>)
    ensures
        jump_value(a) is None <==> names_no_jump(a),
        !names_no_jump(a) ==> (jump_value(b) == jump_value(a) <==> words(a) == words(b)),
{
    lemma_no_jump(a);
    lemma_no_jump(b);
    law_squeezed_once(a);
    law_squeezed_once(b);
}

proof fn lemma_no_jump(a: Seq<char>)
    ensures
        jump_value(a) is None <==> names_no_jump(a),
{
    let ws = words(a);
    let v = squeezed(a);
    law_words_are_words(a);
    law_squeezed_once(a);
    reveal_strlit("none");
    reveal_strlit(" ");
    assert(lower("none"@) =~= "none"@);
    if ws.len() == 0 {
        assert(v =~= Seq::<char>::empty());
    } else if ws.len() == 1 {
        assert(ws =~= seq![ws[0]]);
        assert(ws.drop_last() =~= Seq::<Seq<char>>::empty());
        assert(v =~= ws[0]);
        assert(is_word(ws[0]));
    } else {
        let k = join(ws.drop_last(), " "@).len() as int;
        assert(v == join(ws.drop_last(), " "@) + " "@ + ws.last());
        assert(v[k] == ' ');
        assert(lower(v)[k] == ' ');
        if lower(v) == "none"@ {
            assert("none"@[k] == ' ');
            assert("none"@[0] == 'n' && "none"@[1] == 'o' && "none"@[2] == 'n' && "none"@[3] == 'e');
            assert(false);
        }
    }
}

proof fn lemma_plain_adds(
    f: FindingsView,
    target: Seq<char>,
    field: Seq<char>,
    key: Seq<char>,
    value: Option<Seq<char>>,
    r: ResolutionsView,
)
    requires
        lower(field) == key,
        field == "HostName"@ || field == "User"@,
    ensures
        adds_unless(
            f,
            compared_scalar(f, target, field, value, r),
            value matches Some(s) ==> answers(r.actual, key, |v: Seq<char>| trim(v) == trim(s)),
            target,
            field,
        ),
{
    let actual = config_scalar(r.actual, field, r.home, r.windows);
    let managed = opt_scalar(r.managed, field, r.home, r.windows);
    let matched = opt_scalar(r.matched, field, r.home, r.windows);
    let expected = expected_scalar(field, value, r.home, r.windows);
    lemma_scalar_adds(f, target, field, expected, actual, managed, matched);
    if let Some(s) = value {
        lemma_answers(r.actual, field, key, |v: Seq<char>| trim(v) == trim(s));
    }
}

/// One issue where the directive does not agree.
pub open spec fn issues_for(agrees: bool) -> nat {
    if agrees {
        0
    } else {
        1
    }
}

proof fn lemma_step(
    f: FindingsView,
    m: FindingsView,
    g: FindingsView,
    agrees: bool,
    target: Seq<char>,
    field: Seq<char>,
)
    requires
        f.issues.is_prefix_of(m.issues),
        adds_unless(m, g, agrees, target, field),
    ensures
        f.issues.is_prefix_of(g.issues),
        g.issues.len() == m.issues.len() + issues_for(agrees),
        !agrees ==> reports(f, g, target, field),
        forall|other: Seq<char>| #[trigger]
            reports(f, m, target, other) ==> reports(f, g, target, other),
{
    reveal(reports);
    if !agrees {
        let n = m.issues.len() as int;
        assert(m.issues =~= g.issues.take(n));
        assert(g.issues.take(f.issues.len() as int) =~= m.issues.take(f.issues.len() as int));
        assert(f.issues =~= g.issues.take(f.issues.len() as int));
        assert(is_on(g.issues[n], target, field));
        assert forall|other: Seq<char>| #[trigger] reports(f, m, target, other) implies reports(
            f,
            g,
            target,
            other,
        ) by {
            let j = choose|j: int|
                f.issues.len() <= j < m.issues.len() && #[trigger] is_on(m.issues[j], target, other);
            assert(g.issues[j] == m.issues[j]);
            assert(is_on(g.issues[j], target, other));
        }
    }
}

proof fn lemma_start(f: FindingsView)
    ensures
        f.issues.is_prefix_of(f.issues),
{
    assert(f.issues =~= f.issues.take(f.issues.len() as int));
}

#[verifier::opaque]
spec fn address_told(
    o: FindingsView,
    f: FindingsView,
    g: FindingsView,
    target: Seq<char>,
    e: HostView,
    r: ResolutionsView,
) -> bool {
    &&& o.issues.is_prefix_of(g.issues)
    &&& g.issues.len() == f.issues.len() + issues_for(hostname_agrees(e, r)) + issues_for(
        user_agrees(e, r),
    ) + issues_for(port_agrees(e, r)) + issues_for(proxy_jump_agrees(e, r))
    &&& !hostname_agrees(e, r) ==> reports(o, g, target, "HostName"@)
    &&& !user_agrees(e, r) ==> reports(o, g, target, "User"@)
    &&& !port_agrees(e, r) ==> reports(o, g, target, "Port"@)
    &&& !proxy_jump_agrees(e, r) ==> reports(o, g, target, "ProxyJump"@)
}

#[verifier::spinoff_prover]
proof fn lemma_address_reports(
    o: FindingsView,
    f: FindingsView,
    target: Seq<char>,
    e: HostView,
    r: ResolutionsView,
)
    requires
        o.issues.is_prefix_of(f.issues),
    ensures
        address_told(o, f, compared_address(f, target, e, r), target, e, r),
{
    reveal(address_told);
    reveal(hostname_agrees);
    reveal(user_agrees);
    lemma_keys_a();
    lemma_field_names();
    let a = compared_scalar(f, target, "HostName"@, e.hostname, r);
    let b = compared_scalar(a, target, "User"@, e.user, r);
    lemma_plain_adds(f, target, "HostName"@, "hostname"@, e.hostname, r);
    lemma_plain_adds(a, target, "User"@, "user"@, e.user, r);
    let actual = config_scalar(r.actual, "Port"@, r.home, r.windows);
    let managed = opt_scalar(r.managed, "Port"@, r.home, r.windows);
    let matched = opt_scalar(r.matched, "Port"@, r.home, r.windows);
    let c = scalar_step(b, target, "Port"@, port_text(e.port), actual, managed, matched);
    lemma_port_adds(b, target, e, r);
    lemma_jump_adds(c, target, e, r);
    let g = compared_scalar(c, target, "ProxyJump"@, e.proxy_jump, r);
    lemma_step(o, f, a, hostname_agrees(e, r), target, "HostName"@);
    lemma_step(o, a, b, user_agrees(e, r), target, "User"@);
    lemma_step(o, b, c, port_agrees(e, r), target, "Port"@);
    lemma_step(o, c, g, proxy_jump_agrees(e, r), target, "ProxyJump"@);
}

proof fn lemma_port_adds(f: FindingsView, target: Seq<char>, e: HostView, r: ResolutionsView)
    ensures
        adds_unless(
            f,
            scalar_step(
                f,
                target,
                "Port"@,
                port_text(e.port),
                config_scalar(r.actual, "Port"@, r.home, r.windows),
                opt_scalar(r.managed, "Port"@, r.home, r.windows),
                opt_scalar(r.matched, "Port"@, r.home, r.windows),
            ),
            port_agrees(e, r),
            target,
            "Port"@,
        ),
{
    reveal(port_agrees);
    lemma_keys_a();
    lemma_field_names();
    let actual = config_scalar(r.actual, "Port"@, r.home, r.windows);
    let managed = opt_scalar(r.managed, "Port"@, r.home, r.windows);
    let matched = opt_scalar(r.matched, "Port"@, r.home, r.windows);
    lemma_scalar_adds(f, target, "Port"@, port_text(e.port), actual, managed, matched);
    if let Some(p) = e.port {
        lemma_answers(
            r.actual,
            "Port"@,
            "port"@,
            |v: Seq<char>| trim(v) == decimal(p as nat),
        );
    }
}

proof fn lemma_jump_adds(f: FindingsView, target: Seq<char>, e: HostView, r: ResolutionsView)
    ensures
        adds_unless(
            f,
            compared_scalar(f, target, "ProxyJump"@, e.proxy_jump, r),
            proxy_jump_agrees(e, r),
            target,
            "ProxyJump"@,
        ),
{
    reveal(proxy_jump_agrees);
    lemma_keys_a();
    lemma_field_names();
    let field = "ProxyJump"@;
    let actual = config_scalar(r.actual, field, r.home, r.windows);
    let managed = opt_scalar(r.managed, field, r.home, r.windows);
    let matched = opt_scalar(r.matched, field, r.home, r.windows);
    let expected = expected_scalar(field, e.proxy_jump, r.home, r.windows);
    lemma_scalar_adds(f, target, field, expected, actual, managed, matched);
    if let Some(j) = e.proxy_jump {
        lemma_answers(r.actual, field, "proxyjump"@, |v: Seq<char>| words(v) == words(j));
        if let Some(v) = first_value(r.actual, field) {
            law_jump_hosts_are_compared_by_words(j, v);
        }
        law_jump_hosts_are_compared_by_words(j, j);
    }
}

proof fn lemma_identity_adds(f: FindingsView, target: Seq<char>, e: HostView, r: ResolutionsView)
    ensures
        adds_unless(
            f,
            compared_list(f, target, ListField::IdentityFile, e, r),
            identity_files_agree(e, r),
            target,
            "IdentityFile"@,
        ),
{
    lemma_keys_a();
    lemma_list_adds(f, target, ListField::IdentityFile, e, r);
    lemma_identity_files_fit(e, r);
    let want = path_values(e.identity_files, r.home, r.windows);
    assert(want.len() == 0 ==> each_in(want, Seq::empty()));
}

#[verifier::rlimit(30)]
proof fn lemma_identity_files_fit(e: HostView, r: ResolutionsView)
    ensures
        identity_files_agree(e, r) <==> each_in(
            path_values(e.identity_files, r.home, r.windows),
            path_values(values_of(r.actual, "identityfile"@), r.home, r.windows),
        ),
{
    reveal(identity_files_agree);
    let key = "identityfile"@;
    let want = path_values(e.identity_files, r.home, r.windows);
    let values = values_of(r.actual, key);
    let got = path_values(values, r.home, r.windows);
    lemma_held_values(r.actual, key);
    if identity_files_agree(e, r) {
        assert forall|i: int| 0 <= i < want.len() implies got.contains(#[trigger] want[i]) by {
            let file = e.identity_files[i];
            assert(is_offered(file, r));
            let k = choose|k: int|
                0 <= k < r.actual.len() && (#[trigger] r.actual[k]).0 == key && path_value(
                    r.actual[k].1,
                    r.home,
                    r.windows,
                ) == path_value(file, r.home, r.windows);
            assert(values.contains(r.actual[k].1));
            let j = choose|j: int| 0 <= j < values.len() && values[j] == r.actual[k].1;
            assert(got[j] == want[i]);
        }
    }
    if each_in(want, got) {
        assert forall|i: int| 0 <= i < e.identity_files.len() implies is_offered(
            #[trigger] e.identity_files[i],
            r,
        ) by {
            assert(got.contains(want[i]));
            let j = choose|j: int| 0 <= j < got.len() && got[j] == want[i];
            assert(values.contains(values[j]));
            let k = choose|k: int|
                0 <= k < r.actual.len() && #[trigger] r.actual[k] == (key, values[j]);
            assert(r.actual[k].0 == key);
        }
    }
}

#[verifier::rlimit(30)]
proof fn lemma_held_values(config: Seq<(Seq<char>, Seq<char>)>, key: Seq<char>)
    ensures
        forall|v: Seq<char>| #[trigger]
            values_of(config, key).contains(v) <==> exists|k: int|
                0 <= k < config.len() && #[trigger] config[k] == (key, v),
        forall|k: int|
            0 <= k < config.len() && (#[trigger] config[k]).0 == key ==> values_of(
                config,
                key,
            ).contains(config[k].1),
    decreases config.len(),
{
    if config.len() > 0 {
        let rest = config.drop_last();
        let n = config.len() - 1;
        lemma_held_values(rest, key);
        let before = values_of(rest, key);
        let now = values_of(config, key);
        assert forall|v: Seq<char>| #[trigger] now.contains(v) implies exists|k: int|
            0 <= k < config.len() && #[trigger] config[k] == (key, v) by {
            if before.contains(v) {
                let k = choose|k: int| 0 <= k < rest.len() && #[trigger] rest[k] == (key, v);
                assert(config[k] == rest[k]);
            } else {
                let j = choose|j: int| 0 <= j < now.len() && now[j] == v;
                if j < before.len() {
                    assert(before[j] == v);
                }
                assert(config[n] == (key, v));
            }
        }
        assert forall|k: int| 0 <= k < config.len() && (#[trigger] config[k]).0
            == key implies now.contains(config[k].1) by {
            if k < n {
                assert(rest[k] == config[k]);
                let j = choose|j: int| 0 <= j < before.len() && before[j] == rest[k].1;
                assert(now[j] == config[k].1);
            } else {
                assert(now[before.len() as int] == config[k].1);
            }
        }
        assert forall|v: Seq<char>| (exists|k: int|
            0 <= k < config.len() && #[trigger] config[k] == (key, v)) implies #[trigger] now.contains(
            v,
        ) by {
            let k = choose|k: int| 0 <= k < config.len() && #[trigger] config[k] == (key, v);
            assert(config[k].0 == key);
        }
    }
}

proof fn lemma_local_forwards_add(f: FindingsView, target: Seq<char>, e: HostView, r: ResolutionsView)
    ensures
        adds_unless(
            f,
            compared_list(f, target, ListField::LocalForward, e, r),
            local_forwards_agree(e, r),
            target,
            "LocalForward"@,
        ),
{
    reveal(local_forwards_agree);
    lemma_keys_a();
    lemma_list_adds(f, target, ListField::LocalForward, e, r);
    law_values_are_those_of_the_key(r.actual, "localforward"@);
    let got = all_for(r.actual, "localforward"@);
    let form = |v: Seq<char>| local_forward_value(v);
    let a = e.local_forwards.map_values(form);
    let b = got.map_values(form);
    assert(expected_list(e, ListField::LocalForward, r.home, r.windows) == a);
    assert(config_list(r.actual, ListField::LocalForward, r.home, r.windows) == Some(b));
    if a == b {
        assert forall|i: int| 0 <= i < got.len() implies #[trigger] local_forward_value(got[i])
            == local_forward_value(e.local_forwards[i]) by {
            assert(a[i] == b[i]);
        }
    }
    if local_forwards_agree(e, r) && e.local_forwards.len() > 0 {
        assert(a =~= b);
    }
}

proof fn lemma_extras_named(extras: Seq<(Seq<char>, Seq<char>)>)
    ensures
        extras_named(extras, "RemoteForward"@) == extras.filter(is_remote_forward()).map_values(
            |p: (Seq<char>, Seq<char>)| p.1,
        ),
    decreases extras.len(),
{
    reveal(Seq::filter);
    let value = |p: (Seq<char>, Seq<char>)| p.1;
    if extras.len() > 0 {
        let rest = extras.drop_last();
        lemma_extras_named(rest);
        let before = rest.filter(is_remote_forward());
        assert(before.push(extras.last()).map_values(value) =~= before.map_values(value).push(
            extras.last().1,
        ));
    } else {
        assert(extras.filter(is_remote_forward()).map_values(value) =~= Seq::<Seq<char>>::empty());
    }
}

proof fn lemma_remote_forwards_add(
    f: FindingsView,
    target: Seq<char>,
    e: HostView,
    r: ResolutionsView,
)
    ensures
        adds_unless(
            f,
            compared_list(f, target, ListField::RemoteForward, e, r),
            remote_forwards_agree(e, r),
            target,
            "RemoteForward"@,
        ),
{
    reveal(remote_forwards_agree);
    lemma_keys_a();
    lemma_list_adds(f, target, ListField::RemoteForward, e, r);
    law_values_are_those_of_the_key(r.actual, "remoteforward"@);
    lemma_extras_named(e.extra_options);
    let got = all_for(r.actual, "remoteforward"@);
    let want = all_remote_forwards(e);
    let a = remote_forward_values(want, r.home, r.windows);
    let b = remote_forward_values(got, r.home, r.windows);
    assert(expected_list(e, ListField::RemoteForward, r.home, r.windows) == a);
    assert(config_list(r.actual, ListField::RemoteForward, r.home, r.windows) == Some(b));
    if a == b {
        assert forall|i: int| 0 <= i < got.len() implies #[trigger] remote_forward_value(
            got[i],
            r.home,
            r.windows,
        ) == remote_forward_value(want[i], r.home, r.windows) by {
            assert(a[i] == b[i]);
        }
    }
    if remote_forwards_agree(e, r) && want.len() > 0 {
        assert(a =~= b);
    }
}

#[verifier::opaque]
spec fn forwards_told(
    o: FindingsView,
    f: FindingsView,
    g: FindingsView,
    target: Seq<char>,
    e: HostView,
    r: ResolutionsView,
) -> bool {
    &&& o.issues.is_prefix_of(g.issues)
    &&& g.issues.len() == f.issues.len() + issues_for(identity_files_agree(e, r))
        + issues_for(local_forwards_agree(e, r)) + issues_for(remote_forwards_agree(e, r))
    &&& !identity_files_agree(e, r) ==> reports(o, g, target, "IdentityFile"@)
    &&& !local_forwards_agree(e, r) ==> reports(o, g, target, "LocalForward"@)
    &&& !remote_forwards_agree(e, r) ==> reports(o, g, target, "RemoteForward"@)
    &&& forall|other: Seq<char>| #[trigger]
        reports(o, f, target, other) ==> reports(o, g, target, other)
}

#[verifier::spinoff_prover]
proof fn lemma_forwards_report(
    o: FindingsView,
    f: FindingsView,
    target: Seq<char>,
    e: HostView,
    r: ResolutionsView,
)
    requires
        o.issues.is_prefix_of(f.issues),
    ensures
        forwards_told(o, f, compared_forwards(f, target, e, r), target, e, r),
{
    reveal(forwards_told);
    let a = compared_list(f, target, ListField::IdentityFile, e, r);
    let b = compared_list(a, target, ListField::LocalForward, e, r);
    let g = compared_list(b, target, ListField::RemoteForward, e, r);
    lemma_identity_adds(f, target, e, r);
    lemma_local_forwards_add(a, target, e, r);
    lemma_remote_forwards_add(b, target, e, r);
    lemma_step(o, f, a, identity_files_agree(e, r), target, "IdentityFile"@);
    lemma_step(o, a, b, local_forwards_agree(e, r), target, "LocalForward"@);
    lemma_step(o, b, g, remote_forwards_agree(e, r), target, "RemoteForward"@);
}

proof fn lemma_strict_adds(f: FindingsView, target: Seq<char>, e: HostView, r: ResolutionsView)
    ensures
        adds_unless(
            f,
            compared_scalar(f, target, "StrictHostKeyChecking"@, e.strict_host_key_checking, r),
            strict_checking_agrees(e, r),
            target,
            "StrictHostKeyChecking"@,
        ),
{
    reveal(strict_checking_agrees);
    lemma_keys_b();
    lemma_field_names();
    let field = "StrictHostKeyChecking"@;
    let value = e.strict_host_key_checking;
    let actual = config_scalar(r.actual, field, r.home, r.windows);
    let managed = opt_scalar(r.managed, field, r.home, r.windows);
    let matched = opt_scalar(r.matched, field, r.home, r.windows);
    let expected = expected_scalar(field, value, r.home, r.windows);
    lemma_scalar_adds(f, target, field, expected, actual, managed, matched);
    if let Some(s) = value {
        lemma_answers(r.actual, field, "stricthostkeychecking"@, |v: Seq<char>| same_switch(v, s));
        if let Some(v) = first_value(r.actual, field) {
            law_switches_are_compared_by_meaning(v, s);
        }
    }
}

proof fn lemma_agent_adds(f: FindingsView, target: Seq<char>, e: HostView, r: ResolutionsView)
    ensures
        adds_unless(
            f,
            compared_scalar(f, target, "ForwardAgent"@, e.forward_agent, r),
            forward_agent_agrees(e, r),
            target,
            "ForwardAgent"@,
        ),
{
    reveal(forward_agent_agrees);
    lemma_keys_b();
    lemma_field_names();
    let field = "ForwardAgent"@;
    let value = e.forward_agent;
    let actual = config_scalar(r.actual, field, r.home, r.windows);
    let managed = opt_scalar(r.managed, field, r.home, r.windows);
    let matched = opt_scalar(r.matched, field, r.home, r.windows);
    let expected = expected_scalar(field, value, r.home, r.windows);
    lemma_scalar_adds(f, target, field, expected, actual, managed, matched);
    if let Some(s) = value {
        lemma_answers(
            r.actual,
            field,
            "forwardagent"@,
            |v: Seq<char>| agent_value(v, r.home, r.windows) == agent_value(s, r.home, r.windows),
        );
    }
}

proof fn lemma_known_hosts_add(f: FindingsView, target: Seq<char>, e: HostView, r: ResolutionsView)
    ensures
        adds_unless(
            f,
            compared_list(f, target, ListField::UserKnownHostsFile, e, r),
            known_hosts_agree(e, r),
            target,
            "UserKnownHostsFile"@,
        ),
{
    reveal(known_hosts_agree);
    lemma_keys_b();
    lemma_list_adds(f, target, ListField::UserKnownHostsFile, e, r);
    if let Some(s) = e.user_known_hosts_file {
        let test = |v: Seq<char>| same_paths(words(v), words(s), r.home, r.windows);
        lemma_answers(r.actual, "UserKnownHostsFile"@, "userknownhostsfile"@, test);
            if let Some(v) = first_value(r.actual, "UserKnownHostsFile"@) {
            lemma_same_paths(words(v), words(s), r.home, r.windows);
        }
        assert(path_values(words(s), r.home, r.windows).len() == words(s).len());
    }
}

proof fn lemma_same_paths(a: Seq<Seq<char>>, b: Seq<Seq<char>>, home: Seq<char>, windows: bool)
    ensures
        path_values(a, home, windows) == path_values(b, home, windows) <==> same_paths(
            a,
            b,
            home,
            windows,
        ),
{
    let x = path_values(a, home, windows);
    let y = path_values(b, home, windows);
    assert(x.len() == a.len() && y.len() == b.len());
    if x == y {
        assert forall|i: int| 0 <= i < a.len() implies #[trigger] path_value(a[i], home, windows)
            == path_value(b[i], home, windows) by {
            assert(x[i] == y[i]);
            assert(y[i] == path_value(b[i], home, windows));
        }
    }
    if same_paths(a, b, home, windows) {
        assert forall|i: int| 0 <= i < a.len() implies x[i] == y[i] by {
            assert(path_value(a[i], home, windows) == path_value(b[i], home, windows));
        }
        assert(x =~= y);
    }
}

#[verifier::opaque]
spec fn security_told(
    o: FindingsView,
    f: FindingsView,
    g: FindingsView,
    target: Seq<char>,
    e: HostView,
    r: ResolutionsView,
) -> bool {
    &&& o.issues.is_prefix_of(g.issues)
    &&& g.issues.len() == f.issues.len() + issues_for(strict_checking_agrees(e, r))
        + issues_for(known_hosts_agree(e, r)) + issues_for(host_key_algorithms_agree(e, r))
        + issues_for(pubkey_algorithms_agree(e, r)) + issues_for(forward_agent_agrees(e, r))
    &&& !strict_checking_agrees(e, r) ==> reports(o, g, target, "StrictHostKeyChecking"@)
    &&& !known_hosts_agree(e, r) ==> reports(o, g, target, "UserKnownHostsFile"@)
    &&& !host_key_algorithms_agree(e, r) ==> reports(o, g, target, "HostKeyAlgorithms"@)
    &&& !pubkey_algorithms_agree(e, r) ==> reports(
        o,
        g,
        target,
        "PubkeyAcceptedAlgorithms"@,
    )
    &&& !forward_agent_agrees(e, r) ==> reports(o, g, target, "ForwardAgent"@)
    &&& forall|other: Seq<char>| #[trigger]
        reports(o, f, target, other) ==> reports(o, g, target, other)
}

#[verifier::spinoff_prover]
#[verifier::rlimit(30)]
proof fn lemma_security_reports(
    o: FindingsView,
    f: FindingsView,
    target: Seq<char>,
    e: HostView,
    r: ResolutionsView,
)
    requires
        o.issues.is_prefix_of(f.issues),
    ensures
        security_told(o, f, compared_security(f, target, e, r), target, e, r),
{
    reveal(security_told);
    reveal(host_key_algorithms_agree);
    reveal(pubkey_algorithms_agree);
    lemma_keys_b();
    let keys = e.host_key_algorithms;
    let pubkeys = e.pubkey_accepted_algorithms;
    let a = compared_scalar(f, target, "StrictHostKeyChecking"@, e.strict_host_key_checking, r);
    let b = compared_list(a, target, ListField::UserKnownHostsFile, e, r);
    let c = compared_algorithms(b, target, "HostKeyAlgorithms"@, keys, r);
    let d = compared_algorithms(c, target, "PubkeyAcceptedAlgorithms"@, pubkeys, r);
    let g = compared_scalar(d, target, "ForwardAgent"@, e.forward_agent, r);
    lemma_strict_adds(f, target, e, r);
    lemma_known_hosts_add(a, target, e, r);
    lemma_algorithms_add(b, target, "HostKeyAlgorithms"@, "hostkeyalgorithms"@, keys, r);
    lemma_algorithms_add(
        c,
        target,
        "PubkeyAcceptedAlgorithms"@,
        "pubkeyacceptedalgorithms"@,
        pubkeys,
        r,
    );
    lemma_agent_adds(d, target, e, r);
    lemma_step(o, f, a, strict_checking_agrees(e, r), target, "StrictHostKeyChecking"@);
    lemma_step(o, a, b, known_hosts_agree(e, r), target, "UserKnownHostsFile"@);
    lemma_step(o, b, c, host_key_algorithms_agree(e, r), target, "HostKeyAlgorithms"@);
    lemma_step(o, c, d, pubkey_algorithms_agree(e, r), target, "PubkeyAcceptedAlgorithms"@);
    lemma_step(o, d, g, forward_agent_agrees(e, r), target, "ForwardAgent"@);
}

#[verifier::opaque]
spec fn all_told(
    f: FindingsView,
    g: FindingsView,
    target: Seq<char>,
    e: HostView,
    r: ResolutionsView,
) -> bool {
    &&& f.issues.is_prefix_of(g.issues)
    &&& !hostname_agrees(e, r) ==> reports(f, g, target, "HostName"@)
    &&& !user_agrees(e, r) ==> reports(f, g, target, "User"@)
    &&& !port_agrees(e, r) ==> reports(f, g, target, "Port"@)
    &&& !proxy_jump_agrees(e, r) ==> reports(f, g, target, "ProxyJump"@)
    &&& !identity_files_agree(e, r) ==> reports(f, g, target, "IdentityFile"@)
    &&& !local_forwards_agree(e, r) ==> reports(f, g, target, "LocalForward"@)
    &&& !remote_forwards_agree(e, r) ==> reports(f, g, target, "RemoteForward"@)
    &&& !strict_checking_agrees(e, r) ==> reports(f, g, target, "StrictHostKeyChecking"@)
    &&& !known_hosts_agree(e, r) ==> reports(f, g, target, "UserKnownHostsFile"@)
    &&& !host_key_algorithms_agree(e, r) ==> reports(f, g, target, "HostKeyAlgorithms"@)
    &&& !pubkey_algorithms_agree(e, r) ==> reports(
        f,
        g,
        target,
        "PubkeyAcceptedAlgorithms"@,
    )
    &&& !forward_agent_agrees(e, r) ==> reports(f, g, target, "ForwardAgent"@)
    &&& g.issues.len() - f.issues.len() == issues_for(hostname_agrees(e, r)) + issues_for(
        user_agrees(e, r),
    ) + issues_for(port_agrees(e, r)) + issues_for(proxy_jump_agrees(e, r)) + issues_for(
        identity_files_agree(e, r),
    ) + issues_for(local_forwards_agree(e, r)) + issues_for(remote_forwards_agree(e, r))
        + issues_for(strict_checking_agrees(e, r)) + issues_for(known_hosts_agree(e, r))
        + issues_for(host_key_algorithms_agree(e, r)) + issues_for(
        pubkey_algorithms_agree(e, r),
    ) + issues_for(forward_agent_agrees(e, r))
}

proof fn lemma_all_told(
    f: FindingsView,
    a: FindingsView,
    b: FindingsView,
    c: FindingsView,
    target: Seq<char>,
    e: HostView,
    r: ResolutionsView,
)
    requires
        address_told(f, f, a, target, e, r),
        forwards_told(f, a, b, target, e, r),
        security_told(f, b, c, target, e, r),
    ensures
        all_told(f, c, target, e, r),
{
    reveal(address_told);
    reveal(forwards_told);
    reveal(security_told);
    reveal(all_told);
}

proof fn lemma_note_is_behind(
    f: FindingsView,
    c: FindingsView,
    g: FindingsView,
    target: Seq<char>,
    note: Seq<char>,
)
    requires
        f.issues.is_prefix_of(c.issues),
        g.issues == c.issues.push(note),
    ensures
        f.issues.is_prefix_of(g.issues),
        forall|other: Seq<char>| #[trigger]
            reports(f, c, target, other) ==> reports(f, g, target, other),
{
    reveal(reports);
    assert(c.issues.take(f.issues.len() as int) =~= g.issues.take(f.issues.len() as int));
    assert(f.issues =~= g.issues.take(f.issues.len() as int));
    assert forall|other: Seq<char>| #[trigger] reports(f, c, target, other) implies reports(
        f,
        g,
        target,
        other,
    ) by {
        let j = choose|j: int|
            f.issues.len() <= j < c.issues.len() && #[trigger] is_on(c.issues[j], target, other);
        assert(g.issues[j] == c.issues[j]);
        assert(is_on(g.issues[j], target, other));
    }
}

/// Each directive that the preview sets and that the client resolved otherwise is reported by
/// name, and nothing else is: there is one issue for each directive that does not agree, and one
/// for the note on the values that were passed over, where there is one.
#[verifier::spinoff_prover]
#[verifier::rlimit(40)]
pub proof fn law_each_difference_is_reported(
    f: FindingsView,
    target: Seq<char>,
    e: HostView,
    os: Seq<IgnoredView>,
    r: ResolutionsView,
)
    ensures
        ({
            let g = compared_target(f, target, e, os, r);
            &&& f.issues.is_prefix_of(g.issues)
            &&& !hostname_agrees(e, r) ==> reports(f, g, target, "HostName"@)
            &&& !user_agrees(e, r) ==> reports(f, g, target, "User"@)
            &&& !port_agrees(e, r) ==> reports(f, g, target, "Port"@)
            &&& !proxy_jump_agrees(e, r) ==> reports(f, g, target, "ProxyJump"@)
            &&& !identity_files_agree(e, r) ==> reports(f, g, target, "IdentityFile"@)
            &&& !local_forwards_agree(e, r) ==> reports(f, g, target, "LocalForward"@)
            &&& !remote_forwards_agree(e, r) ==> reports(f, g, target, "RemoteForward"@)
            &&& !strict_checking_agrees(e, r) ==> reports(f, g, target, "StrictHostKeyChecking"@)
            &&& !known_hosts_agree(e, r) ==> reports(f, g, target, "UserKnownHostsFile"@)
            &&& !host_key_algorithms_agree(e, r) ==> reports(f, g, target, "HostKeyAlgorithms"@)
            &&& !pubkey_algorithms_agree(e, r) ==> reports(
                f,
                g,
                target,
                "PubkeyAcceptedAlgorithms"@,
            )
            &&& !forward_agent_agrees(e, r) ==> reports(f, g, target, "ForwardAgent"@)
            &&& g.issues.len() - f.issues.len() == issues_for(hostname_agrees(e, r)) + issues_for(
                user_agrees(e, r),
            ) + issues_for(port_agrees(e, r)) + issues_for(proxy_jump_agrees(e, r)) + issues_for(
                identity_files_agree(e, r),
            ) + issues_for(local_forwards_agree(e, r)) + issues_for(remote_forwards_agree(e, r))
                + issues_for(strict_checking_agrees(e, r)) + issues_for(known_hosts_agree(e, r))
                + issues_for(host_key_algorithms_agree(e, r)) + issues_for(
                pubkey_algorithms_agree(e, r),
            ) + issues_for(forward_agent_agrees(e, r)) + issues_for(
                overrides_explained(target, os, r) is None,
            )
        }),
{
    let a = compared_address(f, target, e, r);
    let b = compared_forwards(a, target, e, r);
    let c = compared_security(b, target, e, r);
    let g = compared_target(f, target, e, os, r);
    lemma_start(f);
    lemma_address_reports(f, f, target, e, r);
    assert(f.issues.is_prefix_of(a.issues)) by {
        reveal(address_told);
    }
    lemma_forwards_report(f, a, target, e, r);
    assert(f.issues.is_prefix_of(b.issues)) by {
        reveal(forwards_told);
    }
    lemma_security_reports(f, b, target, e, r);
    lemma_all_told(f, a, b, c, target, e, r);
    reveal(all_told);
    if let Some(note) = overrides_explained(target, os, r) {
        lemma_note_is_behind(f, c, g, target, note);
    }
}

} // verus!
