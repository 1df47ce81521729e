//! Which entries are valid.

use vstd::prelude::*;

use crate::config::model::{EntryKind, HostView, is_wild};
use crate::config::store::{entry_file_name, slug_of};
use crate::config::validate::{
    blank_issues, extra_issue, extra_issues, forward_issue, forward_issues, is_blank_value,
    is_host_port, is_local_endpoint, is_path, is_port, is_remote_endpoint, issue_if, issue_of,
    issues_of, some_blank, strictness_issue,
};
use crate::text::{
    after_last, blank, decimal, decimal3, lower, parse_unsigned, same_ignoring_case, trim, until,
    words,
};
use crate::text_laws::law_decimal_is_parsed;

verus! {

// ---------------------------------------------------------------------------
// Endpoints
// ---------------------------------------------------------------------------

/// A port is written as a number from 1 to 65535.
pub proof fn law_ports_are_numbers(n: nat)
    ensures
        is_port(decimal(n)) <==> 1 <= n <= 65535,
{
    if n <= 65535 {
        law_decimal_is_parsed(n, 65535);
    } else {
        law_decimal_is_parsed(n, n);
        let d = decimal(n);
        assert(parse_unsigned(d, n) == Some(n));
    }
}

/// What is no port: an empty text, and one with anything but digits behind its first character.
pub proof fn law_other_texts_are_no_ports(t: Seq<char>, k: int)
    ensures
        t.len() == 0 ==> !is_port(t),
        1 <= k < t.len() && !('0' as u32 <= t[k] as u32 <= '9' as u32) ==> !is_port(t),
        t.len() > 0 && t[0] != '+' && !('0' as u32 <= t[0] as u32 <= '9' as u32) ==> !is_port(t),
{
    if 1 <= k < t.len() && is_port(t) {
        if t[0] == '+' {
            assert(t.skip(1)[k - 1] == t[k]);
        }
    }
    if t.len() > 0 && t[0] != '+' && is_port(t) {
        assert(crate::text::is_digit(t[0]));
    }
}

/// `k` is the place of the only colon of the text.
pub open spec fn is_only_colon(t: Seq<char>, k: int) -> bool {
    &&& 0 <= k < t.len()
    &&& t[k] == ':'
    &&& forall|i: int| 0 <= i < t.len() && i != k ==> #[trigger] t[i] != ':'
}

/// A host, a colon and a port.
pub open spec fn is_plain_endpoint(t: Seq<char>) -> bool {
    exists|k: int| #[trigger]
        is_only_colon(t, k) && k > 0 && t[0] != '[' && is_port(t.skip(k + 1))
}

/// `k` is the place of the first closing bracket of the text.
pub open spec fn is_first_closing(t: Seq<char>, k: int) -> bool {
    &&& 0 <= k < t.len()
    &&& t[k] == ']'
    &&& forall|i: int| 0 <= i < k ==> #[trigger] t[i] != ']'
}

/// A host in brackets, a colon and a port.
pub open spec fn is_bracketed_endpoint(t: Seq<char>) -> bool {
    exists|k: int| #[trigger]
        is_first_closing(t, k) && k > 1 && t[0] == '[' && k + 1 < t.len() && t[k + 1] == ':'
            && is_port(t.skip(k + 2))
}

pub open spec fn is_socket_path(t: Seq<char>) -> bool {
    exists|i: int| 0 <= i < t.len() && (#[trigger] t[i] == '/' || t[i] == '\\')
}

proof fn lemma_until(s: Seq<char>, c: char)
    ensures
        until(s, c) <= s.len(),
        until(s, c) < s.len() ==> s[until(s, c) as int] == c,
        forall|i: int| 0 <= i < until(s, c) ==> #[trigger] s[i] != c,
    decreases s.len(),
{
    if s.len() > 0 && s[0] != c {
        let rest = s.skip(1);
        lemma_until(rest, c);
        assert forall|i: int| 0 <= i < until(s, c) implies #[trigger] s[i] != c by {
            if i > 0 {
                assert(rest[i - 1] != c);
            }
        }
    }
}

proof fn lemma_after_last(s: Seq<char>, c: char)
    ensures
        after_last(s, c) <= s.len(),
        after_last(s, c) < s.len() ==> s[s.len() - after_last(s, c) - 1] == c,
        forall|i: int| s.len() - after_last(s, c) <= i < s.len() ==> #[trigger] s[i] != c,
    decreases s.len(),
{
    if s.len() > 0 && s.last() != c {
        let rest = s.drop_last();
        lemma_after_last(rest, c);
        assert forall|i: int| s.len() - after_last(s, c) <= i < s.len() implies #[trigger] s[i]
            != c by {
            if i < s.len() - 1 {
                assert(rest[i] != c);
            }
        }
    }
}

proof fn lemma_plain_endpoint(t: Seq<char>)
    requires
        t.len() == 0 || t[0] != '[',
    ensures
        is_host_port(t) <==> is_plain_endpoint(t),
{
    lemma_after_last(t, ':');
    let n = t.len() - after_last(t, ':');
    if is_host_port(t) {
        let host = t.take(n - 1);
        assert forall|i: int| 0 <= i < t.len() && i != n - 1 implies #[trigger] t[i] != ':' by {
            if i < n - 1 {
                assert(host[i] == t[i]);
                assert(host.contains(host[i]));
            }
        }
        assert(is_only_colon(t, n - 1));
    }
    if is_plain_endpoint(t) {
        let k = choose|k: int| #[trigger]
            is_only_colon(t, k) && k > 0 && t[0] != '[' && is_port(t.skip(k + 1));
        if n == 0 {
            assert(t[k] != ':');
        }
        assert(k == n - 1);
        let host = t.take(k);
        if host.contains(':') {
            let i = choose|i: int| 0 <= i < host.len() && host[i] == ':';
            assert(t[i] == ':');
        }
    }
}

proof fn lemma_bracketed_endpoint(t: Seq<char>)
    requires
        t.len() > 0,
        t[0] == '[',
    ensures
        is_host_port(t) <==> is_bracketed_endpoint(t),
{
    lemma_until(t, ']');
    let n = until(t, ']') as int;
    let rest = t.skip(n + 1);
    if is_host_port(t) {
        assert(is_first_closing(t, n));
        assert(rest[0] == t[n + 1]);
        assert(rest.skip(1) =~= t.skip(n + 2));
    }
    if is_bracketed_endpoint(t) {
        let k = choose|k: int| #[trigger]
            is_first_closing(t, k) && k > 1 && t[0] == '[' && k + 1 < t.len() && t[k + 1] == ':'
                && is_port(t.skip(k + 2));
        if k < n {
            assert(t[k] != ']');
        }
        if n < k {
            assert(t[n] != ']');
        }
        assert(rest[0] == t[n + 1]);
        assert(rest.skip(1) =~= t.skip(n + 2));
    }
}

/// A connection is forwarded from a path, a port, or a host and a port, and to a path or a host
/// and a port; a host with colons stands in brackets.
pub proof fn law_endpoints(t: Seq<char>)
    ensures
        is_local_endpoint(t) <==> is_socket_path(t) || is_port(t) || is_plain_endpoint(t)
            || is_bracketed_endpoint(t),
        is_remote_endpoint(t) <==> is_socket_path(t) || is_plain_endpoint(t)
            || is_bracketed_endpoint(t),
{
    if is_path(t) {
        if t.contains('/') {
            let i = choose|i: int| 0 <= i < t.len() && t[i] == '/';
            assert(t[i] == '/' || t[i] == '\\');
        } else {
            let i = choose|i: int| 0 <= i < t.len() && t[i] == '\\';
            assert(t[i] == '/' || t[i] == '\\');
        }
    }
    if t.len() > 0 && t[0] == '[' {
        lemma_bracketed_endpoint(t);
        assert(!is_plain_endpoint(t));
    } else {
        lemma_plain_endpoint(t);
        assert(!is_bracketed_endpoint(t));
    }
}

// ---------------------------------------------------------------------------
// Entries
// ---------------------------------------------------------------------------

/// The value says from where to where a connection is forwarded.
pub open spec fn is_forward(value: Seq<char>) -> bool {
    words(value).len() == 2 && is_local_endpoint(words(value)[0]) && is_remote_endpoint(
        words(value)[1],
    )
}

/// A text with a wildcard, or with an exclamation mark before it, stands for any number of hosts.
pub open spec fn is_for_many(pattern: Seq<char>) -> bool {
    ||| exists|i: int| 0 <= i < pattern.len() && (#[trigger] pattern[i] == '*' || pattern[i] == '?')
    ||| pattern.len() > 0 && pattern[0] == '!'
}

pub open spec fn no_blank(values: Seq<Seq<char>>) -> bool {
    forall|i: int| 0 <= i < values.len() ==> !blank(#[trigger] values[i])
}

pub open spec fn all_forwards(values: Seq<Seq<char>>) -> bool {
    forall|i: int| 0 <= i < values.len() ==> is_forward(#[trigger] values[i])
}

pub open spec fn is_sound_extra(d: (Seq<char>, Seq<char>)) -> bool {
    &&& !blank(d.0)
    &&& !blank(d.1)
    &&& same_ignoring_case(d.0, "RemoteForward"@) ==> is_forward(d.1)
}

pub open spec fn all_sound(extras: Seq<(Seq<char>, Seq<char>)>) -> bool {
    forall|i: int| 0 <= i < extras.len() ==> is_sound_extra(#[trigger] extras[i])
}

proof fn lemma_blank_issues(values: Seq<Seq<char>>, issue: Seq<char>)
    ensures
        blank_issues(values, issue).len() == 0 <==> no_blank(values),
        !no_blank(values) ==> blank_issues(values, issue).contains(issue),
    decreases values.len(),
{
    if values.len() > 0 {
        let head = values.drop_last();
        lemma_blank_issues(head, issue);
        assert(values[values.len() - 1] == values.last());
        assert(forall|i: int| 0 <= i < head.len() ==> #[trigger] head[i] == values[i]);
        let before = blank_issues(head, issue);
        let now = blank_issues(values, issue);
        if no_blank(values) {
            assert forall|i: int| 0 <= i < head.len() implies !blank(#[trigger] head[i]) by {
                assert(!blank(values[i]));
            }
        } else if !no_blank(head) {
            let k = choose|k: int| 0 <= k < before.len() && before[k] == issue;
            assert(now[k] == issue);
        } else {
            let i = choose|i: int| 0 <= i < values.len() && blank(#[trigger] values[i]);
            if i < head.len() {
                assert(!blank(head[i]));
            }
            assert(now[before.len() as int] == issue);
        }
    }
}

proof fn lemma_forward_issues(field: Seq<char>, values: Seq<Seq<char>>)
    ensures
        forward_issues(field, values).len() == 0 <==> all_forwards(values),
    decreases values.len(),
{
    if values.len() > 0 {
        let head = values.drop_last();
        lemma_forward_issues(field, head);
        assert(values[values.len() - 1] == values.last());
        assert(is_forward(values.last()) <==> forward_issue(field, values.last()) is None);
        if all_forwards(values) {
            assert forall|i: int| 0 <= i < head.len() implies is_forward(#[trigger] head[i]) by {
                assert(is_forward(values[i]));
            }
        } else if all_forwards(head) {
            let i = choose|i: int| 0 <= i < values.len() && !is_forward(#[trigger] values[i]);
            if i < head.len() {
                assert(is_forward(head[i]));
            }
        }
    }
}

proof fn lemma_extra_issues(extras: Seq<(Seq<char>, Seq<char>)>)
    ensures
        extra_issues(extras).len() == 0 <==> all_sound(extras),
    decreases extras.len(),
{
    if extras.len() > 0 {
        let head = extras.drop_last();
        lemma_extra_issues(head);
        let d = extras.last();
        assert(extras[extras.len() - 1] == d);
        assert(is_sound_extra(d) <==> extra_issue(d.0, d.1) is None);
        if all_sound(extras) {
            assert forall|i: int| 0 <= i < head.len() implies is_sound_extra(#[trigger] head[i]) by {
                assert(is_sound_extra(extras[i]));
            }
        } else if all_sound(head) {
            let i = choose|i: int| 0 <= i < extras.len() && !is_sound_extra(#[trigger] extras[i]);
            if i < head.len() {
                assert(is_sound_extra(head[i]));
            }
        }
    }
}

/// The words for how strictly host keys are checked.
pub open spec fn is_way_to_check(v: Seq<char>) -> bool {
    let w = lower(trim(v));
    w == "yes"@ || w == "no"@ || w == "ask"@ || w == "off"@ || w == "accept-new"@ || w == "true"@ || w
        == "false"@ || w == "on"@
}

pub open spec fn stands_for_one_host(e: HostView) -> bool {
    forall|i: int| 0 <= i < e.host_patterns.len() ==> !is_for_many(#[trigger] e.host_patterns[i])
}

/// An entry is for one host where each of its patterns is, and for a pattern of hosts else.
pub proof fn law_kind_of_an_entry(e: HostView)
    ensures
        e.kind() == EntryKind::Host <==> stands_for_one_host(e),
{
    assert forall|i: int| 0 <= i < e.host_patterns.len() implies is_wild(
        #[trigger] e.host_patterns[i],
    ) == is_for_many(e.host_patterns[i]) by {
        let p = e.host_patterns[i];
        if p.contains('*') {
            let k = choose|k: int| 0 <= k < p.len() && p[k] == '*';
            assert(p[k] == '*' || p[k] == '?');
        }
        if p.contains('?') {
            let k = choose|k: int| 0 <= k < p.len() && p[k] == '?';
            assert(p[k] == '*' || p[k] == '?');
        }
    }
    if !stands_for_one_host(e) {
        let i = choose|i: int|
            0 <= i < e.host_patterns.len() && is_for_many(#[trigger] e.host_patterns[i]);
        assert(is_wild(e.host_patterns[i]));
    }
}

/// An entry is valid exactly where it has a pattern and no blank one, a host name unless it stands
/// for many hosts, no port 0, no blank identity file, only forwards that say from where to where,
/// a known word for how host keys are checked, no blank agent or tag, and no extra directive that
/// is blank or a bad forward.
#[verifier::rlimit(30)]
pub proof fn law_valid_entries(e: HostView)
    ensures
        issues_of(e).len() == 0 <==> {
            &&& e.host_patterns.len() > 0
            &&& no_blank(e.host_patterns)
            &&& stands_for_one_host(e) ==> e.hostname is Some && e.hostname->0.len() > 0
            &&& e.port != Some(0u16)
            &&& no_blank(e.identity_files)
            &&& all_forwards(e.local_forwards)
            &&& all_forwards(e.remote_forwards)
            &&& e.strict_host_key_checking matches Some(v) ==> is_way_to_check(v)
            &&& e.forward_agent matches Some(v) ==> !blank(v)
            &&& e.tag matches Some(v) ==> !blank(v)
            &&& all_sound(e.extra_options)
        },
{
    law_kind_of_an_entry(e);
    lemma_blank_issues(e.identity_files, "IdentityFile cannot be empty"@);
    lemma_forward_issues("LocalForward"@, e.local_forwards);
    lemma_forward_issues("RemoteForward"@, e.remote_forwards);
    lemma_extra_issues(e.extra_options);
    if some_blank(e.host_patterns) {
        let i = choose|i: int|
            0 <= i < e.host_patterns.len() && blank(#[trigger] e.host_patterns[i]);
        assert(!no_blank(e.host_patterns));
    }
}

/// The list is the parts one after the other.
spec fn sum_of(parts: Seq<Seq<Seq<char>>>) -> Seq<Seq<char>> {
    parts.flatten_alt()
}

proof fn lemma_in_sum(parts: Seq<Seq<Seq<char>>>, i: int, x: Seq<char>)
    requires
        0 <= i < parts.len(),
        parts[i].contains(x),
    ensures
        sum_of(parts).contains(x),
    decreases parts.len(),
{
    let head = parts.drop_last();
    let before = head.flatten_alt();
    let all = parts.flatten_alt();
    if i < head.len() {
        lemma_in_sum(head, i, x);
        let k = choose|k: int| 0 <= k < before.len() && before[k] == x;
        assert(all[k] == x);
    } else {
        let k = choose|k: int| 0 <= k < parts[i].len() && parts[i][k] == x;
        assert(all[before.len() + k] == x);
    }
}

proof fn lemma_issues_are_sum(e: HostView)
    ensures
        issues_of(e) == sum_of(issue_parts(e)),
{
    let p = issue_parts(e);
    let p10 = p.drop_last();
    let p9 = p10.drop_last();
    let p8 = p9.drop_last();
    let p7 = p8.drop_last();
    let p6 = p7.drop_last();
    let p5 = p6.drop_last();
    let p4 = p5.drop_last();
    let p3 = p4.drop_last();
    let p2 = p3.drop_last();
    let p1 = p2.drop_last();
    let p0 = p1.drop_last();
    assert(p0.len() == 0);
    assert(p0.flatten_alt() =~= Seq::<Seq<char>>::empty());
    assert(p1.flatten_alt() =~= p[0]);
    assert(p2.flatten_alt() == p[0] + p[1]);
    assert(p3.flatten_alt() == p[0] + p[1] + p[2]);
    assert(p4.flatten_alt() == p[0] + p[1] + p[2] + p[3]);
    assert(p5.flatten_alt() == p[0] + p[1] + p[2] + p[3] + p[4]);
    assert(p6.flatten_alt() == p[0] + p[1] + p[2] + p[3] + p[4] + p[5]);
    assert(p7.flatten_alt() == p[0] + p[1] + p[2] + p[3] + p[4] + p[5] + p[6]);
    assert(p8.flatten_alt() == p[0] + p[1] + p[2] + p[3] + p[4] + p[5] + p[6] + p[7]);
    assert(p9.flatten_alt() == p[0] + p[1] + p[2] + p[3] + p[4] + p[5] + p[6] + p[7] + p[8]);
    assert(p10.flatten_alt() == p9.flatten_alt() + p[9]);
    assert(p.flatten_alt() == p10.flatten_alt() + p[10]);
}

spec fn issue_parts(e: HostView) -> Seq<Seq<Seq<char>>> {
    seq![
        issue_if(e.host_patterns.len() == 0, "host patterns cannot be empty"@),
        issue_if(some_blank(e.host_patterns), "host patterns cannot contain empty items"@),
        issue_if(
            e.kind() == EntryKind::Host && (e.hostname is None || e.hostname->0.len() == 0),
            "HostName is required for non-pattern entries"@,
        ),
        issue_if(e.port == Some(0u16), "Port must be greater than 0"@),
        blank_issues(e.identity_files, "IdentityFile cannot be empty"@),
        forward_issues("LocalForward"@, e.local_forwards),
        forward_issues("RemoteForward"@, e.remote_forwards),
        issue_of(strictness_issue(e.strict_host_key_checking)),
        issue_if(is_blank_value(e.forward_agent), "ForwardAgent cannot be empty"@),
        issue_if(is_blank_value(e.tag), "Tag cannot be empty"@),
        extra_issues(e.extra_options),
    ]
}

/// What is wrong with an entry is named.
#[verifier::rlimit(30)]
pub proof fn law_faults_are_named(e: HostView)
    ensures
        e.host_patterns.len() == 0 ==> issues_of(e).contains("host patterns cannot be empty"@),
        !no_blank(e.host_patterns) ==> issues_of(e).contains(
            "host patterns cannot contain empty items"@,
        ),
        stands_for_one_host(e) && (e.hostname is None || e.hostname->0.len() == 0) ==> issues_of(
            e,
        ).contains("HostName is required for non-pattern entries"@),
        e.port == Some(0u16) ==> issues_of(e).contains("Port must be greater than 0"@),
        !no_blank(e.identity_files) ==> issues_of(e).contains("IdentityFile cannot be empty"@),
        (e.forward_agent is Some && blank(e.forward_agent->0)) ==> issues_of(e).contains(
            "ForwardAgent cannot be empty"@,
        ),
        (e.tag is Some && blank(e.tag->0)) ==> issues_of(e).contains("Tag cannot be empty"@),
        (e.strict_host_key_checking is Some && !is_way_to_check(e.strict_host_key_checking->0))
            ==> issues_of(e).contains(
            "StrictHostKeyChecking expects `yes`, `no`, `ask`, `off`, or `accept-new`, got `"@
                + e.strict_host_key_checking->0 + "`"@,
        ),
{
    law_kind_of_an_entry(e);
    lemma_issues_are_sum(e);
    let p = issue_parts(e);
    lemma_blank_issues(e.identity_files, "IdentityFile cannot be empty"@);
    if e.host_patterns.len() == 0 {
        assert(p[0][0] == "host patterns cannot be empty"@);
        lemma_in_sum(p, 0, "host patterns cannot be empty"@);
    }
    if !no_blank(e.host_patterns) {
        assert(some_blank(e.host_patterns));
        assert(p[1][0] == "host patterns cannot contain empty items"@);
        lemma_in_sum(p, 1, "host patterns cannot contain empty items"@);
    }
    if stands_for_one_host(e) && (e.hostname is None || e.hostname->0.len() == 0) {
        assert(p[2][0] == "HostName is required for non-pattern entries"@);
        lemma_in_sum(p, 2, "HostName is required for non-pattern entries"@);
    }
    if e.port == Some(0u16) {
        assert(p[3][0] == "Port must be greater than 0"@);
        lemma_in_sum(p, 3, "Port must be greater than 0"@);
    }
    if !no_blank(e.identity_files) {
        lemma_in_sum(p, 4, "IdentityFile cannot be empty"@);
    }
    if e.forward_agent is Some && blank(e.forward_agent->0) {
        assert(p[8][0] == "ForwardAgent cannot be empty"@);
        lemma_in_sum(p, 8, "ForwardAgent cannot be empty"@);
    }
    if e.tag is Some && blank(e.tag->0) {
        assert(p[9][0] == "Tag cannot be empty"@);
        lemma_in_sum(p, 9, "Tag cannot be empty"@);
    }
    if e.strict_host_key_checking is Some && !is_way_to_check(e.strict_host_key_checking->0) {
        let told =
            "StrictHostKeyChecking expects `yes`, `no`, `ask`, `off`, or `accept-new`, got `"@
            + e.strict_host_key_checking->0 + "`"@;
        assert(p[7][0] == told);
        lemma_in_sum(p, 7, told);
    }
}

/// The name of the file of an entry tells its order in three digits, whether it is for one host or
/// for a pattern of hosts, and its first pattern.
pub proof fn law_file_name_tells_the_entry(order: u16, e: HostView)
    ensures
        stands_for_one_host(e) ==> entry_file_name(order, e) == decimal3(order as nat) + "-host-"@
            + slug_of(e.primary()) + ".conf"@,
        !stands_for_one_host(e) ==> entry_file_name(order, e) == decimal3(order as nat)
            + "-pattern-"@ + slug_of(e.primary()) + ".conf"@,
{
    law_kind_of_an_entry(e);
    reveal_strlit("-");
    reveal_strlit("host");
    reveal_strlit("pattern");
    reveal_strlit("-host-");
    reveal_strlit("-pattern-");
    assert("-"@ + "host"@ + "-"@ =~= "-host-"@);
    assert("-"@ + "pattern"@ + "-"@ =~= "-pattern-"@);
    let d = decimal3(order as nat);
    let s = slug_of(e.primary());
    assert(d + "-"@ + "host"@ + "-"@ + s + ".conf"@ =~= d + "-host-"@ + s + ".conf"@);
    assert(d + "-"@ + "pattern"@ + "-"@ + s + ".conf"@ =~= d + "-pattern-"@ + s + ".conf"@);
}

} // verus!
