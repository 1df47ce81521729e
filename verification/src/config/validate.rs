//! What an entry must satisfy before it is written.

#![verifier::loop_isolation(false)]

use vstd::prelude::*;

use crate::config::model::{EntryKind, HostEntry, HostView};
use crate::error::ConfigError;
use crate::strings::{
    chars_of, concat3, concat4, count_until, equal_ignoring_case, halves_at_last, has_char,
    is_blank, joined, lowered, parse_u16, same, split_words, string_of, trimmed,
};
use crate::text::{
    blank, join, lower, opt, pairs, parse_unsigned, same_ignoring_case, split_last, strs, trim,
    until, words,
};

verus! {

broadcast use crate::text::group_text;

/// A port number other than zero.
pub open spec fn is_port(token: Seq<char>) -> bool {
    parse_unsigned(token, 65535) matches Some(n) && n > 0
}

pub open spec fn is_path(token: Seq<char>) -> bool {
    token.contains('/') || token.contains('\\')
}

/// `[host]:port`.
pub open spec fn is_bracketed_host_port(token: Seq<char>) -> bool {
    let close = until(token, ']');
    let rest = token.skip(close as int + 1);
    &&& close < token.len()
    &&& close > 1
    &&& rest.len() > 0
    &&& rest[0] == ':'
    &&& is_port(rest.skip(1))
}

/// `host:port`, where a host that holds colons stands in brackets.
pub open spec fn is_host_port(token: Seq<char>) -> bool {
    if token.len() > 0 && token[0] == '[' {
        is_bracketed_host_port(token)
    } else {
        split_last(token, ':') matches Some((host, port)) && host.len() > 0 && !host.contains(':')
            && is_port(port)
    }
}

pub open spec fn is_local_endpoint(token: Seq<char>) -> bool {
    is_path(token) || is_port(token) || is_host_port(token)
}

pub open spec fn is_remote_endpoint(token: Seq<char>) -> bool {
    is_path(token) || is_host_port(token)
}

/// What is wrong with the value of a forwarding directive, if anything is.
pub open spec fn forward_issue(field: Seq<char>, value: Seq<char>) -> Option<Seq<char>> {
    let parts = words(value);
    if parts.len() != 2 {
        Some(field + " must contain exactly two tokens: `"@ + value + "`"@)
    } else if !is_local_endpoint(parts[0]) {
        Some(field + " has invalid local endpoint `"@ + parts[0] + "`: `"@ + value + "`"@)
    } else if !is_remote_endpoint(parts[1]) {
        Some(field + " has invalid remote endpoint `"@ + parts[1] + "`: `"@ + value + "`"@)
    } else {
        None
    }
}

pub open spec fn issue_if(cond: bool, issue: Seq<char>) -> Seq<Seq<char>> {
    if cond {
        seq![issue]
    } else {
        Seq::empty()
    }
}

pub open spec fn issue_of(issue: Option<Seq<char>>) -> Seq<Seq<char>> {
    match issue {
        Some(i) => seq![i],
        None => Seq::empty(),
    }
}

/// One issue for each value that is blank.
pub open spec fn blank_issues(values: Seq<Seq<char>>, issue: Seq<char>) -> Seq<Seq<char>>
    decreases values.len(),
{
    if values.len() == 0 {
        Seq::empty()
    } else {
        blank_issues(values.drop_last(), issue) + issue_if(blank(values.last()), issue)
    }
}

/// The issues of the values of a forwarding directive.
pub open spec fn forward_issues(field: Seq<char>, values: Seq<Seq<char>>) -> Seq<Seq<char>>
    decreases values.len(),
{
    if values.len() == 0 {
        Seq::empty()
    } else {
        forward_issues(field, values.drop_last()) + issue_of(forward_issue(field, values.last()))
    }
}

/// What is wrong with a directive that has no field of its own.
pub open spec fn extra_issue(key: Seq<char>, value: Seq<char>) -> Option<Seq<char>> {
    if blank(key) || blank(value) {
        Some("custom directives require non-empty key and value"@)
    } else if same_ignoring_case(key, "RemoteForward"@) {
        forward_issue("RemoteForward"@, value)
    } else {
        None
    }
}

pub open spec fn extra_issues(extras: Seq<(Seq<char>, Seq<char>)>) -> Seq<Seq<char>>
    decreases extras.len(),
{
    if extras.len() == 0 {
        Seq::empty()
    } else {
        extra_issues(extras.drop_last()) + issue_of(
            extra_issue(extras.last().0, extras.last().1),
        )
    }
}

/// The values that `StrictHostKeyChecking` takes, apart from case and white space at the ends.
pub open spec fn is_strictness(value: Seq<char>) -> bool {
    let v = lower(trim(value));
    ||| v == "yes"@
    ||| v == "no"@
    ||| v == "ask"@
    ||| v == "off"@
    ||| v == "accept-new"@
    ||| v == "true"@
    ||| v == "false"@
    ||| v == "on"@
}

/// There is a value, and it is blank.
pub open spec fn is_blank_value(value: Option<Seq<char>>) -> bool {
    value matches Some(v) && blank(v)
}

pub open spec fn some_blank(values: Seq<Seq<char>>) -> bool {
    exists|i: int| 0 <= i < values.len() && blank(#[trigger] values[i])
}

pub open spec fn strictness_issue(value: Option<Seq<char>>) -> Option<Seq<char>> {
    match value {
        Some(v) => if is_strictness(v) {
            None
        } else {
            Some(
                "StrictHostKeyChecking expects `yes`, `no`, `ask`, `off`, or `accept-new`, got `"@
                    + v + "`"@,
            )
        },
        None => None,
    }
}

/// All that is wrong with an entry, in the order in which it is reported.
pub open spec fn issues_of(e: HostView) -> Seq<Seq<char>> {
    issue_if(e.host_patterns.len() == 0, "host patterns cannot be empty"@) + issue_if(
        some_blank(e.host_patterns),
        "host patterns cannot contain empty items"@,
    ) + issue_if(
        e.kind() == EntryKind::Host && (e.hostname is None || e.hostname->0.len() == 0),
        "HostName is required for non-pattern entries"@,
    ) + issue_if(e.port == Some(0u16), "Port must be greater than 0"@) + blank_issues(
        e.identity_files,
        "IdentityFile cannot be empty"@,
    ) + forward_issues("LocalForward"@, e.local_forwards) + forward_issues(
        "RemoteForward"@,
        e.remote_forwards,
    ) + issue_of(strictness_issue(e.strict_host_key_checking)) + issue_if(
        is_blank_value(e.forward_agent),
        "ForwardAgent cannot be empty"@,
    ) + issue_if(is_blank_value(e.tag), "Tag cannot be empty"@) + extra_issues(e.extra_options)
}

/// Accepts an entry without issues; refuses any other with all its issues.
pub fn validate_entry(entry: &HostEntry) -> (r: Result<(), ConfigError>)
    ensures
        match r {
            Ok(_) => issues_of(entry@).len() == 0,
            Err(e) => issues_of(entry@).len() > 0 && e@ == join(issues_of(entry@), "; "@),
        },
{
    let issues: Vec<String> = collect_entry_issues(entry);
    assert(strs(issues@).len() == issues@.len());
    if issues.len() == 0 {
        return Ok(());
    }
    Err(ConfigError::new(joined(&issues, "; ")))
}

fn push_issue_if(issues: &mut Vec<String>, cond: bool, issue: &str)
    ensures
        strs(final(issues)@) == strs(old(issues)@) + issue_if(cond, issue@),
{
    let ghost was = strs(issues@);
    if cond {
        issues.push(issue.to_owned());
    }
    assert(strs(issues@) =~= was + issue_if(cond, issue@));
}

fn push_issue(issues: &mut Vec<String>, issue: Option<String>)
    ensures
        strs(final(issues)@) == strs(old(issues)@) + issue_of(opt(issue)),
{
    let ghost was = strs(issues@);
    let ghost o = opt(issue);
    if let Some(i) = issue {
        issues.push(i);
    }
    assert(strs(issues@) =~= was + issue_of(o));
}

fn has_blank(values: &Vec<String>) -> (r: bool)
    ensures
        r == some_blank(strs(values@)),
{
    let mut i: usize = 0;
    while i < values.len()
        invariant
            i <= values@.len(),
            forall|k: int| 0 <= k < i ==> !blank(#[trigger] strs(values@)[k]),
        decreases values@.len() - i,
    {
        if is_blank(&values[i]) {
            assert(blank(strs(values@)[i as int]));
            return true;
        }
        i += 1;
    }
    false
}

fn blank_value(value: &Option<String>) -> (r: bool)
    ensures
        r == is_blank_value(opt(*value)),
{
    match value {
        Some(v) => is_blank(v),
        None => false,
    }
}

fn push_forward_issues(issues: &mut Vec<String>, field: &str, values: &Vec<String>)
    ensures
        strs(final(issues)@) == strs(old(issues)@) + forward_issues(field@, strs(values@)),
{
    let ghost was = strs(issues@);
    let mut i: usize = 0;
    assert(strs(issues@) =~= was + forward_issues(field@, strs(values@).take(0)));
    while i < values.len()
        invariant
            i <= values@.len(),
            strs(issues@) == was + forward_issues(field@, strs(values@).take(i as int)),
        decreases values@.len() - i,
    {
        let ghost before = strs(issues@);
        push_issue(issues, validate_port_forward_value(field, &values[i]));
        i += 1;
        assert(strs(issues@) =~= was + forward_issues(field@, strs(values@).take(i as int)));
    }
}

fn push_blank_issues(issues: &mut Vec<String>, values: &Vec<String>, issue: &str)
    ensures
        strs(final(issues)@) == strs(old(issues)@) + blank_issues(strs(values@), issue@),
{
    let ghost was = strs(issues@);
    let mut i: usize = 0;
    assert(strs(issues@) =~= was + blank_issues(strs(values@).take(0), issue@));
    while i < values.len()
        invariant
            i <= values@.len(),
            strs(issues@) == was + blank_issues(strs(values@).take(i as int), issue@),
        decreases values@.len() - i,
    {
        push_issue_if(issues, is_blank(&values[i]), issue);
        i += 1;
        assert(strs(issues@) =~= was + blank_issues(strs(values@).take(i as int), issue@));
    }
}

fn validate_strictness(value: &Option<String>) -> (r: Option<String>)
    ensures
        opt(r) == strictness_issue(opt(*value)),
{
    match value {
        Some(v) => {
            let n: String = lowered(&trimmed(v));
            if same(&n, "yes") || same(&n, "no") || same(&n, "ask") || same(&n, "off") || same(
                &n,
                "accept-new",
            ) || same(&n, "true") || same(&n, "false") || same(&n, "on") {
                None
            } else {
                Some(
                    concat3(
                        "StrictHostKeyChecking expects `yes`, `no`, `ask`, `off`, or `accept-new`, got `",
                        v,
                        "`",
                    ),
                )
            }
        },
        None => None,
    }
}

fn validate_extra(key: &str, value: &str) -> (r: Option<String>)
    ensures
        opt(r) == extra_issue(key@, value@),
{
    if is_blank(key) || is_blank(value) {
        Some("custom directives require non-empty key and value".to_owned())
    } else if equal_ignoring_case(key, "RemoteForward") {
        validate_remote_forward_value(value)
    } else {
        None
    }
}

pub fn collect_entry_issues(entry: &HostEntry) -> (r: Vec<String>)
    ensures
        strs(r@) == issues_of(entry@),
{
    let mut issues: Vec<String> = Vec::new();
    assert(strs(entry.host_patterns@).len() == entry.host_patterns@.len());
    push_issue_if(&mut issues, entry.host_patterns.len() == 0, "host patterns cannot be empty");
    push_issue_if(
        &mut issues,
        has_blank(&entry.host_patterns),
        "host patterns cannot contain empty items",
    );
    let no_hostname: bool = match &entry.hostname {
        Some(h) => h.as_str().is_empty(),
        None => true,
    };
    push_issue_if(
        &mut issues,
        entry.kind() == EntryKind::Host && no_hostname,
        "HostName is required for non-pattern entries",
    );
    let zero_port: bool = match entry.port {
        Some(p) => p == 0,
        None => false,
    };
    push_issue_if(&mut issues, zero_port, "Port must be greater than 0");
    push_blank_issues(&mut issues, &entry.identity_files, "IdentityFile cannot be empty");
    push_forward_issues(&mut issues, "LocalForward", &entry.local_forwards);
    push_forward_issues(&mut issues, "RemoteForward", &entry.remote_forwards);
    push_issue(&mut issues, validate_strictness(&entry.strict_host_key_checking));
    push_issue_if(&mut issues, blank_value(&entry.forward_agent), "ForwardAgent cannot be empty");
    push_issue_if(&mut issues, blank_value(&entry.tag), "Tag cannot be empty");
    let ghost was = strs(issues@);
    let ghost extras = pairs(entry.extra_options@);
    let mut i: usize = 0;
    assert(strs(issues@) =~= was + extra_issues(extras.take(0)));
    while i < entry.extra_options.len()
        invariant
            i <= entry.extra_options@.len(),
            strs(issues@) == was + extra_issues(extras.take(i as int)),
        decreases entry.extra_options@.len() - i,
    {
        push_issue(&mut issues, validate_extra(&entry.extra_options[i].0, &entry.extra_options[i].1));
        i += 1;
        assert(strs(issues@) =~= was + extra_issues(extras.take(i as int)));
    }
    proof {
        assert(strs(Seq::<String>::empty()) + issue_if(
            entry@.host_patterns.len() == 0,
            "host patterns cannot be empty"@,
        ) =~= issue_if(entry@.host_patterns.len() == 0, "host patterns cannot be empty"@));
    }
    issues
}

pub fn validate_local_forward_value(value: &str) -> (r: Option<String>)
    ensures
        opt(r) == forward_issue("LocalForward"@, value@),
{
    validate_port_forward_value("LocalForward", value)
}

pub fn validate_remote_forward_value(value: &str) -> (r: Option<String>)
    ensures
        opt(r) == forward_issue("RemoteForward"@, value@),
{
    validate_port_forward_value("RemoteForward", value)
}

fn validate_port_forward_value(field_name: &str, value: &str) -> (r: Option<String>)
    ensures
        opt(r) == forward_issue(field_name@, value@),
{
    let parts: Vec<String> = split_words(value);
    assert(strs(parts@).len() == parts@.len());
    if parts.len() != 2 {
        return Some(concat4(field_name, " must contain exactly two tokens: `", value, "`"));
    }
    assert(strs(parts@)[0] == parts@[0]@ && strs(parts@)[1] == parts@[1]@);
    if !is_valid_local_forward_endpoint(&parts[0]) {
        let head: String = concat3(field_name, " has invalid local endpoint `", &parts[0]);
        return Some(concat4(&head, "`: `", value, "`"));
    }
    if !is_valid_remote_forward_endpoint(&parts[1]) {
        let head: String = concat3(field_name, " has invalid remote endpoint `", &parts[1]);
        return Some(concat4(&head, "`: `", value, "`"));
    }
    None
}

fn is_valid_local_forward_endpoint(token: &str) -> (r: bool)
    ensures
        r == is_local_endpoint(token@),
{
    is_path_like(token) || is_valid_port(token) || is_valid_host_port(token)
}

fn is_valid_remote_forward_endpoint(token: &str) -> (r: bool)
    ensures
        r == is_remote_endpoint(token@),
{
    is_path_like(token) || is_valid_host_port(token)
}

fn is_path_like(token: &str) -> (r: bool)
    ensures
        r == is_path(token@),
{
    has_char(token, '/') || has_char(token, '\\')
}

fn is_valid_host_port(token: &str) -> (r: bool)
    ensures
        r == is_host_port(token@),
{
    let v: Vec<char> = chars_of(token);
    if v.len() > 0 && v[0] == '[' {
        return is_valid_bracketed_host_port(token);
    }
    match halves_at_last(token, ':') {
        Some((host, port)) => !host.as_str().is_empty() && !has_char(&host, ':') && is_valid_port(
            &port,
        ),
        None => false,
    }
}

fn is_valid_bracketed_host_port(token: &str) -> (r: bool)
    requires
        token@.len() > 0,
        token@[0] == '[',
    ensures
        r == is_bracketed_host_port(token@),
{
    let v: Vec<char> = chars_of(token);
    let close: usize = count_until(&v, ']');
    if close == v.len() {
        return false;
    }
    let rest: String = string_of(&v, close + 1, v.len());
    assert(rest@ =~= token@.skip(close + 1));
    let r: Vec<char> = chars_of(&rest);
    if r.len() == 0 || r[0] != ':' {
        return false;
    }
    let port: String = string_of(&r, 1, r.len());
    assert(port@ =~= rest@.skip(1));
    close > 1 && is_valid_port(&port)
}

fn is_valid_port(token: &str) -> (r: bool)
    ensures
        r == is_port(token@),
{
    match parse_u16(token) {
        Some(n) => n > 0,
        None => false,
    }
}

} // verus!
