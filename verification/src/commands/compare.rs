//! Holding what the OpenSSH client resolves for a target against the managed preview.

#![verifier::loop_isolation(false)]

use vstd::prelude::*;

use crate::config::model::{
    DirectiveOrigin, HostEntry, HostView, IgnoredScalarOverride, IgnoredView, OriginView,
};
use crate::config::openssh::{SshResolvedConfig, values_of};
use crate::config::render::port_text;
use crate::paths::{
    begins_with_drive, has_drive, is_rooted, is_verbatim, join_path, path_in, prefix_end,
    prefix_len, separates,
};
use crate::strings::{
    after_prefix, begins_with, chars_of, concat2, concat3, concat4, concat5, copy_strs,
    decimal3_text, decimal_text, equal_ignoring_case, has_char, holds, joined, lowered, same,
    same_opt, same_strs, split_at_any, split_words, string_of, trimmed, with_char_replaced,
};
use crate::text::{
    decimal3, join, lower, opt, pairs, replace_char, same_ignoring_case, split, starts_with, strs,
    trim, views, words,
};
use crate::text_laws::{
    law_lower_of_trim, law_lower_once, law_squeezed_once, law_trim_once, law_trimmed_text_stays,
};

verus! {

broadcast use crate::text::group_text;

// ---------------------------------------------------------------------------
// Values in one form
// ---------------------------------------------------------------------------

/// The words of a value with one space between them.
pub open spec fn squeezed(value: Seq<char>) -> Seq<char> {
    join(words(value), " "@)
}

/// A jump host; `none` and an empty value name no host.
pub open spec fn jump_value(value: Seq<char>) -> Option<Seq<char>> {
    let v = squeezed(value);
    if same_ignoring_case(v, "none"@) || v.len() == 0 {
        None
    } else {
        Some(v)
    }
}

/// Small letters, and `yes` or `no` for the other words for them.
pub open spec fn switch_value(value: Seq<char>) -> Seq<char> {
    let v = lower(trim(value));
    if v == "true"@ || v == "yes"@ || v == "on"@ {
        "yes"@
    } else if v == "false"@ || v == "no"@ || v == "off"@ {
        "no"@
    } else {
        v
    }
}

/// The parts that are not empty.
pub open spec fn solid(parts: Seq<Seq<char>>) -> Seq<Seq<char>>
    decreases parts.len(),
{
    if parts.len() == 0 {
        Seq::empty()
    } else if parts.last().len() == 0 {
        solid(parts.drop_last())
    } else {
        solid(parts.drop_last()).push(parts.last())
    }
}

/// Where the parts lead from `at`: `.` stays, and `..` goes back.
pub open spec fn walked(at: Seq<Seq<char>>, parts: Seq<Seq<char>>) -> Seq<Seq<char>>
    decreases parts.len(),
{
    if parts.len() == 0 {
        at
    } else {
        let before = walked(at, parts.drop_last());
        if parts.last() == "."@ {
            before
        } else if parts.last() == ".."@ {
            if before.len() > 0 {
                before.drop_last()
            } else {
                before
            }
        } else {
            before.push(parts.last())
        }
    }
}

/// Where `rest` leads from a verbatim home directory, in which `.` and `..` mean nothing.
pub open spec fn from_verbatim(home: Seq<char>, rest: Seq<char>) -> Seq<char> {
    let n = prefix_len(home) as int;
    let at = if is_rooted(rest) {
        Seq::empty()
    } else {
        solid(split(home.skip(n), "\\"@))
    };
    home.take(n) + "\\"@ + join(walked(at, solid(split(rest, "\\/"@))), "\\"@)
}

/// Where a path that is given from the home directory leads: an absolute one replaces the
/// home directory. On Windows one with a prefix of its own does, and one that is rooted replaces
/// all but the prefix of the home directory.
pub open spec fn from_home(home: Seq<char>, rest: Seq<char>, windows: bool) -> Seq<char> {
    if windows && prefix_len(rest) > 0 {
        rest
    } else if windows && is_verbatim(home) && rest.len() > 0 {
        from_verbatim(home, rest)
    } else if windows && is_rooted(rest) {
        home.take(prefix_len(home) as int) + rest
    } else if rest.len() > 0 && rest[0] == '/' {
        rest
    } else {
        path_in(home, rest, windows)
    }
}

/// A path with the home directory written out and with `/` between its components.
pub open spec fn path_value(value: Seq<char>, home: Seq<char>, windows: bool) -> Seq<char> {
    let t = trim(value);
    let full = if starts_with(t, "~/"@) || starts_with(t, "~\\"@) {
        from_home(home, t.skip(2), windows)
    } else {
        t
    };
    let slashed = replace_char(full, '\\', '/');
    if windows {
        lower(slashed)
    } else {
        slashed
    }
}

pub open spec fn path_values(values: Seq<Seq<char>>, home: Seq<char>, windows: bool) -> Seq<
    Seq<char>,
> {
    values.map_values(|v: Seq<char>| path_value(v, home, windows))
}

/// Whether a value is to be read as a path.
pub open spec fn path_like(value: Seq<char>) -> bool {
    let t = trim(value);
    t.contains('/') || t.contains('\\') || has_drive(t)
}

/// How many characters stand before the first `]:`; all of them where there is none.
pub open spec fn until_closing(s: Seq<char>) -> nat
    decreases s.len(),
{
    if s.len() == 0 || (s.len() >= 2 && s[0] == ']' && s[1] == ':') {
        0
    } else {
        1 + until_closing(s.skip(1))
    }
}

/// An endpoint of a forward: brackets that are not needed are left out.
pub open spec fn endpoint_value(token: Seq<char>) -> Seq<char> {
    let rest = token.skip(1);
    let n = until_closing(rest);
    if token.len() == 0 || token[0] != '[' || n >= rest.len() || rest.take(n as int).contains(':') {
        token
    } else {
        rest.take(n as int) + ":"@ + rest.skip(n as int + 2)
    }
}

pub open spec fn local_forward_value(value: Seq<char>) -> Seq<char> {
    join(words(value).map_values(|w: Seq<char>| endpoint_value(w)), " "@)
}

pub open spec fn forward_target_value(token: Seq<char>, home: Seq<char>, windows: bool) -> Seq<
    char,
> {
    if path_like(token) {
        path_value(token, home, windows)
    } else {
        endpoint_value(token)
    }
}

pub open spec fn remote_forward_value(value: Seq<char>, home: Seq<char>, windows: bool) -> Seq<
    char,
> {
    let ws = words(value);
    if ws.len() == 2 {
        endpoint_value(ws[0]) + " "@ + forward_target_value(ws[1], home, windows)
    } else {
        squeezed(value)
    }
}

pub open spec fn remote_forward_values(
    values: Seq<Seq<char>>,
    home: Seq<char>,
    windows: bool,
) -> Seq<Seq<char>> {
    values.map_values(|v: Seq<char>| remote_forward_value(v, home, windows))
}

pub open spec fn agent_value(value: Seq<char>, home: Seq<char>, windows: bool) -> Seq<char> {
    let v = switch_value(value);
    if v == "yes"@ || v == "no"@ {
        v
    } else if path_like(value) {
        path_value(value, home, windows)
    } else {
        trim(value)
    }
}

/// The pieces that are not blank, without white space around them.
pub open spec fn trimmed_items(parts: Seq<Seq<char>>) -> Seq<Seq<char>>
    decreases parts.len(),
{
    if parts.len() == 0 {
        Seq::empty()
    } else {
        let before = trimmed_items(parts.drop_last());
        if trim(parts.last()).len() == 0 {
            before
        } else {
            before.push(trim(parts.last()))
        }
    }
}

/// The algorithms of a list with commas.
pub open spec fn algorithms(list: Seq<char>) -> Seq<Seq<char>> {
    trimmed_items(split(list, ","@))
}

/// Whether a list is one that is added, taken out or put first.
pub open spec fn has_modifier(list: Seq<char>) -> bool {
    list.len() > 0 && (list[0] == '+' || list[0] == '-' || list[0] == '^')
}

pub open spec fn algorithm_value(value: Seq<char>) -> Seq<char> {
    let t = trim(value);
    if has_modifier(t) {
        seq![t[0]] + join(algorithms(t.skip(1)), ","@)
    } else {
        join(algorithms(t), ","@)
    }
}

/// Whether the list `actual` is what the value `expected` asks for: with `+` and `^` each
/// algorithm that is named is in it, with `-` none is, and without a modifier the lists are
/// the same.
pub open spec fn algorithm_matches(expected: Seq<char>, actual: Seq<char>) -> bool {
    let e = algorithm_value(expected);
    let a = algorithm_value(actual);
    let named = algorithms(e.skip(1));
    if !has_modifier(e) {
        e == a
    } else if e[0] == '-' {
        forall|i: int| 0 <= i < named.len() ==> !algorithms(a).contains(#[trigger] named[i])
    } else {
        forall|i: int| 0 <= i < named.len() ==> algorithms(a).contains(#[trigger] named[i])
    }
}

/// Values on one line.
pub open spec fn display_of(values: Seq<Seq<char>>) -> Seq<char> {
    if values.len() == 0 {
        "<missing>"@
    } else {
        join(values, "; "@)
    }
}

/// The value of a directive in the form in which two are compared; `None` for a directive
/// that is not compared as one value.
pub open spec fn scalar_value(
    field: Seq<char>,
    value: Seq<char>,
    home: Seq<char>,
    windows: bool,
) -> Option<Seq<char>> {
    if field == "HostName"@ || field == "User"@ || field == "Port"@ {
        Some(trim(value))
    } else if field == "ProxyJump"@ {
        jump_value(value)
    } else if field == "StrictHostKeyChecking"@ {
        Some(switch_value(value))
    } else if field == "UserKnownHostsFile"@ {
        Some(display_of(path_values(words(value), home, windows)))
    } else if field == "HostKeyAlgorithms"@ || field == "PubkeyAcceptedAlgorithms"@ {
        Some(algorithm_value(value))
    } else if field == "ForwardAgent"@ {
        Some(agent_value(value, home, windows))
    } else {
        None
    }
}

/// The first value that the client resolved for a directive.
pub open spec fn first_value(config: Seq<(Seq<char>, Seq<char>)>, field: Seq<char>) -> Option<
    Seq<char>,
> {
    let vs = values_of(config, lower(field));
    if vs.len() > 0 {
        Some(vs[0])
    } else {
        None
    }
}

pub open spec fn config_scalar(
    config: Seq<(Seq<char>, Seq<char>)>,
    field: Seq<char>,
    home: Seq<char>,
    windows: bool,
) -> Option<Seq<char>> {
    match first_value(config, field) {
        Some(v) => scalar_value(field, v, home, windows),
        None => None,
    }
}

pub fn normalize_plain(value: &str) -> (r: String)
    ensures
        r@ == trim(value@),
{
    trimmed(value)
}

pub fn normalize_compact_whitespace(value: &str) -> (r: String)
    ensures
        r@ == squeezed(value@),
{
    joined(&split_words(value), " ")
}

pub fn normalize_proxy_jump_value(value: &str) -> (r: Option<String>)
    ensures
        opt(r) == jump_value(value@),
{
    let v: String = normalize_compact_whitespace(value);
    if equal_ignoring_case(&v, "none") || v.as_str().is_empty() {
        None
    } else {
        Some(v)
    }
}

pub fn normalize_booleanish(value: &str) -> (r: String)
    ensures
        r@ == switch_value(value@),
{
    let v: String = lowered(&trimmed(value));
    if same(&v, "true") || same(&v, "yes") || same(&v, "on") {
        "yes".to_string()
    } else if same(&v, "false") || same(&v, "no") || same(&v, "off") {
        "no".to_string()
    } else {
        v
    }
}

fn solid_parts(parts: &Vec<String>) -> (r: Vec<String>)
    ensures
        strs(r@) == solid(strs(parts@)),
{
    let ghost all = strs(parts@);
    let mut out: Vec<String> = Vec::new();
    let mut i: usize = 0;
    while i < parts.len()
        invariant
            i <= parts@.len(),
            all == strs(parts@),
            strs(out@) == solid(all.take(i as int)),
        decreases parts@.len() - i,
    {
        assert(all.take(i + 1).drop_last() =~= all.take(i as int));
        assert(all.take(i + 1).last() == parts@[i as int]@);
        if !parts[i].as_str().is_empty() {
            out.push(parts[i].clone());
        }
        i += 1;
    }
    assert(all.take(all.len() as int) =~= all);
    out
}

fn walk(at: Vec<String>, parts: &Vec<String>) -> (r: Vec<String>)
    ensures
        strs(r@) == walked(strs(at@), strs(parts@)),
{
    let ghost all = strs(parts@);
    let ghost from = strs(at@);
    let mut out: Vec<String> = at;
    let mut i: usize = 0;
    while i < parts.len()
        invariant
            i <= parts@.len(),
            all == strs(parts@),
            strs(out@) == walked(from, all.take(i as int)),
        decreases parts@.len() - i,
    {
        assert(all.take(i + 1).drop_last() =~= all.take(i as int));
        assert(all.take(i + 1).last() == parts@[i as int]@);
        let ghost before = strs(out@);
        assert(before.len() == out@.len());
        if same(&parts[i], ".") {
        } else if same(&parts[i], "..") {
            if out.len() > 0 {
                out.pop();
                assert(strs(out@) =~= before.drop_last());
            }
        } else {
            out.push(parts[i].clone());
        }
        i += 1;
    }
    assert(all.take(all.len() as int) =~= all);
    out
}

fn path_from_verbatim(home: &str, rest: &str) -> (r: String)
    ensures
        r@ == from_verbatim(home@, rest@),
{
    let v: Vec<char> = chars_of(home);
    let w: Vec<char> = chars_of(rest);
    let n: usize = prefix_end(home);
    let prefix: String = string_of(&v, 0, n);
    assert(prefix@ =~= home@.take(n as int));
    let at: Vec<String> = if w.len() > 0 && separates(w[0]) {
        Vec::new()
    } else {
        let below: String = string_of(&v, n, v.len());
        assert(below@ =~= home@.skip(n as int));
        solid_parts(&split_at_any(&below, "\\"))
    };
    assert(w@.len() > 0 && is_rooted(w@) ==> strs(at@) =~= Seq::<Seq<char>>::empty());
    let parts: Vec<String> = walk(at, &solid_parts(&split_at_any(rest, "\\/")));
    concat3(&prefix, "\\", &joined(&parts, "\\"))
}

fn path_from_home(home: &str, rest: &str, windows: bool) -> (r: String)
    ensures
        r@ == from_home(home@, rest@, windows),
{
    let v: Vec<char> = chars_of(rest);
    if windows && prefix_end(rest) > 0 {
        rest.to_string()
    } else if windows && v.len() > 0 && begins_with(home, "\\\\?\\") {
        path_from_verbatim(home, rest)
    } else if windows && v.len() > 0 && separates(v[0]) {
        let h: Vec<char> = chars_of(home);
        let prefix: String = string_of(&h, 0, prefix_end(home));
        assert(prefix@ =~= home@.take(prefix_len(home@) as int));
        concat2(&prefix, rest)
    } else if v.len() > 0 && v[0] == '/' {
        rest.to_string()
    } else {
        join_path(home, rest, windows)
    }
}

/// Puts a path in one form. `windows` says that case does not tell paths apart.
pub fn normalize_path_like(value: &str, home_dir: &str, windows: bool) -> (r: String)
    ensures
        r@ == path_value(value@, home_dir@, windows),
{
    proof {
        reveal_strlit("~/");
        reveal_strlit("~\\");
    }
    let t: String = trimmed(value);
    let full: String = match after_prefix(&t, "~/") {
        Some(rest) => path_from_home(home_dir, &rest, windows),
        None => match after_prefix(&t, "~\\") {
            Some(rest) => path_from_home(home_dir, &rest, windows),
            None => t,
        },
    };
    let slashed: String = with_char_replaced(&full, '\\', '/');
    if windows {
        lowered(&slashed)
    } else {
        slashed
    }
}

fn normalize_paths(values: &Vec<String>, home_dir: &str, windows: bool) -> (r: Vec<String>)
    ensures
        strs(r@) == path_values(strs(values@), home_dir@, windows),
{
    let mut out: Vec<String> = Vec::new();
    let mut i: usize = 0;
    while i < values.len()
        invariant
            i <= values.len(),
            strs(out@) =~= path_values(strs(values@).take(i as int), home_dir@, windows),
        decreases values.len() - i,
    {
        out.push(normalize_path_like(&values[i], home_dir, windows));
        i += 1;
    }
    out
}

pub fn normalize_path_list_value(value: &str, home_dir: &str, windows: bool) -> (r: Vec<String>)
    ensures
        strs(r@) == path_values(words(value@), home_dir@, windows),
{
    normalize_paths(&split_words(value), home_dir, windows)
}

pub fn looks_path_like(value: &str) -> (r: bool)
    ensures
        r == path_like(value@),
{
    let t: String = trimmed(value);
    has_char(&t, '/') || has_char(&t, '\\') || begins_with_drive(&t)
}

fn count_until_closing(v: &Vec<char>) -> (r: usize)
    requires
        v@.len() > 0,
    ensures
        r == until_closing(v@.skip(1)),
        r < v@.len(),
{
    let ghost rest = v@.skip(1);
    let mut i: usize = 1;
    while i < v.len() && !(i + 1 < v.len() && v[i] == ']' && v[i + 1] == ':')
        invariant
            rest == v@.skip(1),
            1 <= i <= v.len(),
            until_closing(rest) == i - 1 + until_closing(rest.skip(i - 1)),
        decreases v.len() - i,
    {
        assert(rest.skip(i - 1).skip(1) =~= rest.skip(i as int));
        assert(rest.skip(i - 1)[0] == v@[i as int]);
        assert(i + 1 < v@.len() ==> rest.skip(i - 1)[1] == v@[i + 1]);
        i += 1;
    }
    if i < v.len() {
        assert(rest.skip(i - 1)[0] == v@[i as int]);
        assert(rest.skip(i - 1)[1] == v@[i + 1]);
    }
    i - 1
}

pub fn normalize_local_forward_token(token: &str) -> (r: String)
    ensures
        r@ == endpoint_value(token@),
{
    let v: Vec<char> = chars_of(token);
    if v.len() == 0 || v[0] != '[' {
        return token.to_string();
    }
    let n: usize = count_until_closing(&v);
    let ghost rest = v@.skip(1);
    if n + 1 >= v.len() {
        return token.to_string();
    }
    proof {
        lemma_until_closing(rest);
    }
    let host: String = string_of(&v, 1, n + 1);
    assert(host@ =~= rest.take(n as int));
    if has_char(&host, ':') {
        token.to_string()
    } else {
        let port: String = string_of(&v, n + 3, v.len());
        assert(port@ =~= rest.skip(n as int + 2));
        concat3(&host, ":", &port)
    }
}

proof fn lemma_until_closing(s: Seq<char>)
    ensures
        until_closing(s) < s.len() ==> until_closing(s) + 2 <= s.len(),
    decreases s.len(),
{
    if s.len() > 0 && !(s.len() >= 2 && s[0] == ']' && s[1] == ':') {
        lemma_until_closing(s.skip(1));
    }
}

fn normalize_endpoints(values: &Vec<String>) -> (r: Vec<String>)
    ensures
        strs(r@) == strs(values@).map_values(|w: Seq<char>| endpoint_value(w)),
{
    let mut out: Vec<String> = Vec::new();
    let mut i: usize = 0;
    while i < values.len()
        invariant
            i <= values.len(),
            strs(out@) =~= strs(values@).take(i as int).map_values(
                |w: Seq<char>| endpoint_value(w),
            ),
        decreases values.len() - i,
    {
        out.push(normalize_local_forward_token(&values[i]));
        i += 1;
    }
    out
}

pub fn normalize_local_forward_value(value: &str) -> (r: String)
    ensures
        r@ == local_forward_value(value@),
{
    joined(&normalize_endpoints(&split_words(value)), " ")
}

fn normalize_local_forwards(values: &Vec<String>) -> (r: Vec<String>)
    ensures
        strs(r@) == strs(values@).map_values(|v: Seq<char>| local_forward_value(v)),
{
    let mut out: Vec<String> = Vec::new();
    let mut i: usize = 0;
    while i < values.len()
        invariant
            i <= values.len(),
            strs(out@) =~= strs(values@).take(i as int).map_values(
                |v: Seq<char>| local_forward_value(v),
            ),
        decreases values.len() - i,
    {
        out.push(normalize_local_forward_value(&values[i]));
        i += 1;
    }
    out
}

pub fn normalize_forward_target_token(token: &str, home_dir: &str, windows: bool) -> (r: String)
    ensures
        r@ == forward_target_value(token@, home_dir@, windows),
{
    if looks_path_like(token) {
        normalize_path_like(token, home_dir, windows)
    } else {
        normalize_local_forward_token(token)
    }
}

pub fn normalize_remote_forward_value(value: &str, home_dir: &str, windows: bool) -> (r: String)
    ensures
        r@ == remote_forward_value(value@, home_dir@, windows),
{
    let tokens: Vec<String> = split_words(value);
    if tokens.len() != 2 {
        return joined(&tokens, " ");
    }
    concat3(
        &normalize_local_forward_token(&tokens[0]),
        " ",
        &normalize_forward_target_token(&tokens[1], home_dir, windows),
    )
}

fn normalize_remote_forwards(values: &Vec<String>, home_dir: &str, windows: bool) -> (r: Vec<
    String,
>)
    ensures
        strs(r@) == remote_forward_values(strs(values@), home_dir@, windows),
{
    let mut out: Vec<String> = Vec::new();
    let mut i: usize = 0;
    while i < values.len()
        invariant
            i <= values.len(),
            strs(out@) =~= remote_forward_values(
                strs(values@).take(i as int),
                home_dir@,
                windows,
            ),
        decreases values.len() - i,
    {
        out.push(normalize_remote_forward_value(&values[i], home_dir, windows));
        i += 1;
    }
    out
}

/// The values of the extra options of a name, in order.
pub open spec fn extras_named(extras: Seq<(Seq<char>, Seq<char>)>, name: Seq<char>) -> Seq<
    Seq<char>,
>
    decreases extras.len(),
{
    if extras.len() == 0 {
        Seq::empty()
    } else {
        let before = extras_named(extras.drop_last(), name);
        if same_ignoring_case(extras.last().0, name) {
            before.push(extras.last().1)
        } else {
            before
        }
    }
}

/// The remote forwards that an entry asks for, those among its extra options last.
pub open spec fn expected_remote_forwards(e: HostView, home: Seq<char>, windows: bool) -> Seq<
    Seq<char>,
> {
    remote_forward_values(
        e.remote_forwards + extras_named(e.extra_options, "RemoteForward"@),
        home,
        windows,
    )
}

fn expected_remote_forward_values(entry: &HostEntry, home_dir: &str, windows: bool) -> (r: Vec<
    String,
>)
    ensures
        strs(r@) == expected_remote_forwards(entry@, home_dir@, windows),
{
    let mut values: Vec<String> = copy_strs(&entry.remote_forwards);
    let ghost extras = pairs(entry.extra_options@);
    let mut i: usize = 0;
    while i < entry.extra_options.len()
        invariant
            i <= entry.extra_options.len(),
            extras == pairs(entry.extra_options@),
            strs(values@) =~= strs(entry.remote_forwards@) + extras_named(
                extras.take(i as int),
                "RemoteForward"@,
            ),
        decreases entry.extra_options.len() - i,
    {
        assert(extras.take(i + 1).drop_last() =~= extras.take(i as int));
        let option: &(String, String) = &entry.extra_options[i];
        assert(extras[i as int] == (option.0@, option.1@));
        if equal_ignoring_case(&option.0, "RemoteForward") {
            values.push(option.1.clone());
        }
        i += 1;
    }
    assert(extras.take(extras.len() as int) =~= extras);
    normalize_remote_forwards(&values, home_dir, windows)
}

pub fn normalize_forward_agent_value(value: &str, home_dir: &str, windows: bool) -> (r: String)
    ensures
        r@ == agent_value(value@, home_dir@, windows),
{
    let v: String = normalize_booleanish(value);
    if same(&v, "yes") || same(&v, "no") {
        return v;
    }
    if looks_path_like(value) {
        return normalize_path_like(value, home_dir, windows);
    }
    trimmed(value)
}

fn split_algorithms(list: &str) -> (r: Vec<String>)
    ensures
        strs(r@) == algorithms(list@),
{
    let parts: Vec<String> = split_at_any(list, ",");
    let ghost all = strs(parts@);
    let mut out: Vec<String> = Vec::new();
    let mut i: usize = 0;
    while i < parts.len()
        invariant
            i <= parts.len(),
            all == strs(parts@),
            strs(out@) == trimmed_items(all.take(i as int)),
        decreases parts.len() - i,
    {
        assert(all.take(i + 1).drop_last() =~= all.take(i as int));
        let item: String = trimmed(&parts[i]);
        if !item.as_str().is_empty() {
            out.push(item);
        }
        i += 1;
    }
    assert(all.take(all.len() as int) =~= all);
    out
}

fn begins_with_modifier(v: &Vec<char>) -> (r: bool)
    ensures
        r == has_modifier(v@),
{
    v.len() > 0 && (v[0] == '+' || v[0] == '-' || v[0] == '^')
}

pub fn normalize_algorithm_value(value: &str) -> (r: String)
    ensures
        r@ == algorithm_value(value@),
{
    let t: String = trimmed(value);
    let v: Vec<char> = chars_of(&t);
    if begins_with_modifier(&v) {
        let prefix: String = string_of(&v, 0, 1);
        let body: String = string_of(&v, 1, v.len());
        assert(prefix@ =~= seq![t@[0]]);
        assert(body@ =~= t@.skip(1));
        concat2(&prefix, &joined(&split_algorithms(&body), ","))
    } else {
        joined(&split_algorithms(&t), ",")
    }
}

fn holds_all(values: &Vec<String>, named: &Vec<String>) -> (r: bool)
    ensures
        r == (forall|i: int|
            0 <= i < strs(named@).len() ==> strs(values@).contains(#[trigger] strs(named@)[i])),
{
    let mut i: usize = 0;
    while i < named.len()
        invariant
            i <= named.len(),
            forall|k: int|
                0 <= k < i ==> strs(values@).contains(#[trigger] strs(named@)[k]),
        decreases named.len() - i,
    {
        if !holds(values, &named[i]) {
            assert(!strs(values@).contains(strs(named@)[i as int]));
            return false;
        }
        i += 1;
    }
    true
}

fn holds_none(values: &Vec<String>, named: &Vec<String>) -> (r: bool)
    ensures
        r == (forall|i: int|
            0 <= i < strs(named@).len() ==> !strs(values@).contains(#[trigger] strs(named@)[i])),
{
    let mut i: usize = 0;
    while i < named.len()
        invariant
            i <= named.len(),
            forall|k: int|
                0 <= k < i ==> !strs(values@).contains(#[trigger] strs(named@)[k]),
        decreases named.len() - i,
    {
        if holds(values, &named[i]) {
            assert(strs(values@).contains(strs(named@)[i as int]));
            return false;
        }
        i += 1;
    }
    true
}

pub fn algorithm_value_matches(expected: &str, actual: &str) -> (r: bool)
    ensures
        r == algorithm_matches(expected@, actual@),
{
    let e: String = normalize_algorithm_value(expected);
    let a: String = normalize_algorithm_value(actual);
    let v: Vec<char> = chars_of(&e);
    if !begins_with_modifier(&v) {
        return same(&e, &a);
    }
    let list: String = string_of(&v, 1, v.len());
    assert(list@ =~= e@.skip(1));
    let named: Vec<String> = split_algorithms(&list);
    let found: Vec<String> = split_algorithms(&a);
    if v[0] == '-' {
        holds_none(&found, &named)
    } else {
        holds_all(&found, &named)
    }
}

pub fn display_values(values: &Vec<String>) -> (r: String)
    ensures
        r@ == display_of(strs(values@)),
{
    if values.len() == 0 {
        "<missing>".to_string()
    } else {
        joined(values, "; ")
    }
}

pub fn normalize_scalar_field_value(
    field: &str,
    value: &str,
    home_dir: &str,
    windows: bool,
) -> (r: Option<String>)
    ensures
        opt(r) == scalar_value(field@, value@, home_dir@, windows),
{
    if same(field, "HostName") || same(field, "User") || same(field, "Port") {
        Some(normalize_plain(value))
    } else if same(field, "ProxyJump") {
        normalize_proxy_jump_value(value)
    } else if same(field, "StrictHostKeyChecking") {
        Some(normalize_booleanish(value))
    } else if same(field, "UserKnownHostsFile") {
        Some(display_values(&normalize_path_list_value(value, home_dir, windows)))
    } else if same(field, "HostKeyAlgorithms") || same(field, "PubkeyAcceptedAlgorithms") {
        Some(normalize_algorithm_value(value))
    } else if same(field, "ForwardAgent") {
        Some(normalize_forward_agent_value(value, home_dir, windows))
    } else {
        None
    }
}

pub fn resolved_scalar_field_value(
    config: &SshResolvedConfig,
    field: &str,
    home_dir: &str,
    windows: bool,
) -> (r: Option<String>)
    ensures
        opt(r) == config_scalar(config@, field@, home_dir@, windows),
{
    match config.get_first(field) {
        Some(v) => normalize_scalar_field_value(field, v, home_dir, windows),
        None => None,
    }
}

// ---------------------------------------------------------------------------
// Mismatches
// ---------------------------------------------------------------------------

/// What the comparison found: the issues, and how many mismatches have which cause.
#[derive(Debug, PartialEq, Eq)]
pub struct SshFindings {
    pub issues: Vec<String>,
    pub root_match_influenced: usize,
    pub root_influenced: usize,
    pub managed_semantic: usize,
    pub unclassified: usize,
}

#[verifier::ext_equal]
pub struct FindingsView {
    pub issues: Seq<Seq<char>>,
    pub root_match_influenced: int,
    pub root_influenced: int,
    pub managed_semantic: int,
    pub unclassified: int,
}

impl View for SshFindings {
    type V = FindingsView;

    open spec fn view(&self) -> FindingsView {
        FindingsView {
            issues: strs(self.issues@),
            root_match_influenced: self.root_match_influenced as int,
            root_influenced: self.root_influenced as int,
            managed_semantic: self.managed_semantic as int,
            unclassified: self.unclassified as int,
        }
    }
}

impl FindingsView {
    /// Each mismatch that is counted is among the issues.
    pub open spec fn wf(self) -> bool {
        &&& 0 <= self.root_match_influenced
        &&& 0 <= self.root_influenced
        &&& 0 <= self.managed_semantic
        &&& 0 <= self.unclassified
        &&& self.root_match_influenced + self.root_influenced + self.managed_semantic
            + self.unclassified <= self.issues.len()
    }
}

pub open spec fn with_issue(f: FindingsView, issue: Seq<char>) -> FindingsView {
    FindingsView { issues: f.issues.push(issue), ..f }
}

/// Why the client resolved another value than the preview has.
#[derive(Debug, Clone, Copy, PartialEq, Eq, Structural)]
pub enum MismatchCause {
    RootMatch,
    Root,
    Managed,
    Unclear,
}

/// The cause by what the managed entries alone resolve to, where that is known, and by
/// whether the managed entries with the `Match` blocks give the value that came out.
pub open spec fn cause_of(managed_matches: Option<bool>, with_match: bool) -> MismatchCause {
    match managed_matches {
        Some(true) => if with_match {
            MismatchCause::RootMatch
        } else {
            MismatchCause::Root
        },
        Some(false) => MismatchCause::Managed,
        None => if with_match {
            MismatchCause::RootMatch
        } else {
            MismatchCause::Unclear
        },
    }
}

pub open spec fn or_missing(value: Option<Seq<char>>) -> Seq<char> {
    match value {
        Some(v) => v,
        None => "<missing>"@,
    }
}

/// What is said of the cause.
pub open spec fn cause_note(
    actual: Seq<char>,
    managed_matches: Option<bool>,
    managed: Option<Seq<char>>,
    with_match: bool,
) -> Seq<char> {
    match managed_matches {
        Some(true) => if with_match {
            "synthetic config with root Match blocks also resolved to `"@ + actual
                + "`; root Match blocks likely change this field beyond the current merged preview model"@
        } else {
            "managed-only config matched expected; root/global config likely changes this field"@
        },
        Some(false) => {
            let note = "managed-only config also resolved to `"@ + or_missing(managed)
                + "`; managed merge/render semantics likely differ"@;
            if with_match {
                note + "; root Match blocks also affect the final resolved value after that drift"@
            } else {
                note
            }
        },
        None => if with_match {
            "synthetic config with root Match blocks resolved to `"@ + actual
                + "`; root Match blocks likely change this field, but managed-only reproduction was unavailable"@
        } else {
            "managed-only reproduction unavailable; source of mismatch is unclear"@
        },
    }
}

pub open spec fn counted(f: FindingsView, cause: MismatchCause) -> FindingsView {
    match cause {
        MismatchCause::RootMatch => FindingsView {
            root_match_influenced: f.root_match_influenced + 1,
            ..f
        },
        MismatchCause::Root => FindingsView { root_influenced: f.root_influenced + 1, ..f },
        MismatchCause::Managed => FindingsView { managed_semantic: f.managed_semantic + 1, ..f },
        MismatchCause::Unclear => FindingsView { unclassified: f.unclassified + 1, ..f },
    }
}

/// The findings with one more mismatch.
pub open spec fn with_mismatch(
    f: FindingsView,
    target: Seq<char>,
    field: Seq<char>,
    expected: Seq<char>,
    actual: Option<Seq<char>>,
    managed_matches: Option<bool>,
    managed: Option<Seq<char>>,
    matched: Option<Seq<char>>,
) -> FindingsView {
    let got = or_missing(actual);
    let with_match = matched == Some(got);
    counted(
        with_issue(
            f,
            "ssh -G mismatch for `"@ + target + "`: "@ + field + " expected `"@ + expected
                + "`, got `"@ + got + "` ["@ + cause_note(
                got,
                managed_matches,
                managed,
                with_match,
            ) + "]"@,
        ),
        cause_of(managed_matches, with_match),
    )
}

fn write_cause_note(
    actual: &str,
    managed_matches: Option<bool>,
    managed: &Option<String>,
    with_match: bool,
) -> (r: String)
    ensures
        r@ == cause_note(actual@, managed_matches, opt(*managed), with_match),
{
    match managed_matches {
        Some(true) => {
            if with_match {
                concat3(
                    "synthetic config with root Match blocks also resolved to `",
                    actual,
                    "`; root Match blocks likely change this field beyond the current merged preview model",
                )
            } else {
                "managed-only config matched expected; root/global config likely changes this field".to_string()
            }
        },
        Some(false) => {
            let value: String = match managed {
                Some(v) => v.clone(),
                None => "<missing>".to_string(),
            };
            let note: String = concat3(
                "managed-only config also resolved to `",
                &value,
                "`; managed merge/render semantics likely differ",
            );
            if with_match {
                concat2(
                    &note,
                    "; root Match blocks also affect the final resolved value after that drift",
                )
            } else {
                note
            }
        },
        None => {
            if with_match {
                concat3(
                    "synthetic config with root Match blocks resolved to `",
                    actual,
                    "`; root Match blocks likely change this field, but managed-only reproduction was unavailable",
                )
            } else {
                "managed-only reproduction unavailable; source of mismatch is unclear".to_string()
            }
        },
    }
}

fn find_cause(managed_matches: Option<bool>, with_match: bool) -> (r: MismatchCause)
    ensures
        r == cause_of(managed_matches, with_match),
{
    match managed_matches {
        Some(true) => {
            if with_match {
                MismatchCause::RootMatch
            } else {
                MismatchCause::Root
            }
        },
        Some(false) => MismatchCause::Managed,
        None => {
            if with_match {
                MismatchCause::RootMatch
            } else {
                MismatchCause::Unclear
            }
        },
    }
}

/// Writes a mismatch down, and counts it under its cause.
fn record_mismatch(
    f: &mut SshFindings,
    target: &str,
    field: &str,
    expected: &str,
    actual: &Option<String>,
    managed_matches: Option<bool>,
    managed: &Option<String>,
    matched: &Option<String>,
)
    requires
        old(f)@.wf(),
    ensures
        final(f)@ == with_mismatch(
            old(f)@,
            target@,
            field@,
            expected@,
            opt(*actual),
            managed_matches,
            opt(*managed),
            opt(*matched),
        ),
        final(f)@.wf(),
{
    let got: String = match actual {
        Some(v) => v.clone(),
        None => "<missing>".to_string(),
    };
    let with_match: bool = match matched {
        Some(v) => same(v, &got),
        None => false,
    };
    let note: String = write_cause_note(&got, managed_matches, managed, with_match);
    let head: String = concat4("ssh -G mismatch for `", target, "`: ", field);
    let middle: String = concat5(&head, " expected `", expected, "`, got `", &got);
    let issue: String = concat4(&middle, "` [", &note, "]");
    f.issues.push(issue);
    let total: usize = f.issues.len();
    match find_cause(managed_matches, with_match) {
        MismatchCause::RootMatch => {
            f.root_match_influenced = f.root_match_influenced + 1;
        },
        MismatchCause::Root => {
            f.root_influenced = f.root_influenced + 1;
        },
        MismatchCause::Managed => {
            f.managed_semantic = f.managed_semantic + 1;
        },
        MismatchCause::Unclear => {
            f.unclassified = f.unclassified + 1;
        },
    }
    assert(total == strs(f.issues@).len());
}

// ---------------------------------------------------------------------------
// Fields
// ---------------------------------------------------------------------------

pub open spec fn equals(value: Option<Seq<char>>, expected: Seq<char>) -> Option<bool> {
    match value {
        Some(v) => Some(v == expected),
        None => None,
    }
}

/// One value is held against another; a value that the preview does not set is not compared.
pub open spec fn scalar_step(
    f: FindingsView,
    target: Seq<char>,
    field: Seq<char>,
    expected: Option<Seq<char>>,
    actual: Option<Seq<char>>,
    managed: Option<Seq<char>>,
    matched: Option<Seq<char>>,
) -> FindingsView {
    match expected {
        None => f,
        Some(e) => if actual == Some(e) {
            f
        } else {
            with_mismatch(f, target, field, e, actual, equals(managed, e), managed, matched)
        },
    }
}

pub fn compare_scalar_field(
    f: &mut SshFindings,
    target: &str,
    field: &str,
    expected: &Option<String>,
    actual: &Option<String>,
    managed: &Option<String>,
    matched: &Option<String>,
)
    requires
        old(f)@.wf(),
    ensures
        final(f)@ == scalar_step(
            old(f)@,
            target@,
            field@,
            opt(*expected),
            opt(*actual),
            opt(*managed),
            opt(*matched),
        ),
        final(f)@.wf(),
{
    match expected {
        None => {},
        Some(e) => {
            let equal: bool = match actual {
                Some(a) => same(a, e),
                None => false,
            };
            if !equal {
                let managed_matches: Option<bool> = match managed {
                    Some(m) => Some(same(m, e)),
                    None => None,
                };
                record_mismatch(f, target, field, e, actual, managed_matches, managed, matched);
            }
        },
    }
}

pub open spec fn fits(value: Option<Seq<char>>, expected: Seq<char>) -> Option<bool> {
    match value {
        Some(v) => Some(algorithm_matches(expected, v)),
        None => None,
    }
}

/// A list of algorithms is held against what the preview asks for.
pub open spec fn algorithm_step(
    f: FindingsView,
    target: Seq<char>,
    field: Seq<char>,
    expected: Option<Seq<char>>,
    actual: Option<Seq<char>>,
    managed: Option<Seq<char>>,
    matched: Option<Seq<char>>,
) -> FindingsView {
    match expected {
        None => f,
        Some(e) => if fits(actual, e) == Some(true) {
            f
        } else {
            with_mismatch(f, target, field, e, actual, fits(managed, e), managed, matched)
        },
    }
}

pub fn compare_algorithm_field(
    f: &mut SshFindings,
    target: &str,
    field: &str,
    expected: &Option<String>,
    actual: &Option<String>,
    managed: &Option<String>,
    matched: &Option<String>,
)
    requires
        old(f)@.wf(),
    ensures
        final(f)@ == algorithm_step(
            old(f)@,
            target@,
            field@,
            opt(*expected),
            opt(*actual),
            opt(*managed),
            opt(*matched),
        ),
        final(f)@.wf(),
{
    match expected {
        None => {},
        Some(e) => {
            let fit: bool = match actual {
                Some(a) => algorithm_value_matches(e, a),
                None => false,
            };
            if !fit {
                let managed_matches: Option<bool> = match managed {
                    Some(m) => Some(algorithm_value_matches(e, m)),
                    None => None,
                };
                record_mismatch(f, target, field, e, actual, managed_matches, managed, matched);
            }
        },
    }
}

/// Whether each value of the one list is in the other.
pub open spec fn each_in(part: Seq<Seq<char>>, whole: Seq<Seq<char>>) -> bool {
    forall|i: int| 0 <= i < part.len() ==> whole.contains(#[trigger] part[i])
}

/// Whether a list is what is expected: the same list, or one that holds each value of it.
pub open spec fn list_fits(exact: bool, expected: Seq<Seq<char>>, values: Seq<Seq<char>>) -> bool {
    if exact {
        expected == values
    } else {
        each_in(expected, values)
    }
}

pub open spec fn opt_display(values: Option<Seq<Seq<char>>>) -> Option<Seq<char>> {
    match values {
        Some(v) => Some(display_of(v)),
        None => None,
    }
}

/// One list of values is held against another; an empty list is not compared.
pub open spec fn list_step(
    f: FindingsView,
    exact: bool,
    target: Seq<char>,
    field: Seq<char>,
    expected: Seq<Seq<char>>,
    actual: Seq<Seq<char>>,
    managed: Option<Seq<Seq<char>>>,
    matched: Option<Seq<Seq<char>>>,
) -> FindingsView {
    if expected.len() == 0 || list_fits(exact, expected, actual) {
        f
    } else {
        with_mismatch(
            f,
            target,
            field,
            display_of(expected),
            Some(display_of(actual)),
            match managed {
                Some(m) => Some(list_fits(exact, expected, m)),
                None => None,
            },
            opt_display(managed),
            opt_display(matched),
        )
    }
}

pub open spec fn opt_strs(values: Option<Vec<String>>) -> Option<Seq<Seq<char>>> {
    match values {
        Some(v) => Some(strs(v@)),
        None => None,
    }
}

fn list_is_fit(exact: bool, expected: &Vec<String>, values: &Vec<String>) -> (r: bool)
    ensures
        r == list_fits(exact, strs(expected@), strs(values@)),
{
    if exact {
        same_strs(expected, values)
    } else {
        holds_all(values, expected)
    }
}

fn display_if(values: &Option<Vec<String>>) -> (r: Option<String>)
    ensures
        opt(r) == opt_display(opt_strs(*values)),
{
    match values {
        Some(v) => Some(display_values(v)),
        None => None,
    }
}

fn compare_list(
    f: &mut SshFindings,
    exact: bool,
    target: &str,
    field: &str,
    expected: &Vec<String>,
    actual: &Vec<String>,
    managed: &Option<Vec<String>>,
    matched: &Option<Vec<String>>,
)
    requires
        old(f)@.wf(),
    ensures
        final(f)@ == list_step(
            old(f)@,
            exact,
            target@,
            field@,
            strs(expected@),
            strs(actual@),
            opt_strs(*managed),
            opt_strs(*matched),
        ),
        final(f)@.wf(),
{
    if expected.len() == 0 || list_is_fit(exact, expected, actual) {
        return;
    }
    let managed_matches: Option<bool> = match managed {
        Some(m) => Some(list_is_fit(exact, expected, m)),
        None => None,
    };
    record_mismatch(
        f,
        target,
        field,
        &display_values(expected),
        &Some(display_values(actual)),
        managed_matches,
        &display_if(managed),
        &display_if(matched),
    );
}

pub fn compare_vector_subset_field(
    f: &mut SshFindings,
    target: &str,
    field: &str,
    expected: &Vec<String>,
    actual: &Vec<String>,
    managed: &Option<Vec<String>>,
    matched: &Option<Vec<String>>,
)
    requires
        old(f)@.wf(),
    ensures
        final(f)@ == list_step(
            old(f)@,
            false,
            target@,
            field@,
            strs(expected@),
            strs(actual@),
            opt_strs(*managed),
            opt_strs(*matched),
        ),
        final(f)@.wf(),
{
    compare_list(f, false, target, field, expected, actual, managed, matched);
}

pub fn compare_exact_vector_field(
    f: &mut SshFindings,
    target: &str,
    field: &str,
    expected: &Vec<String>,
    actual: &Vec<String>,
    managed: &Option<Vec<String>>,
    matched: &Option<Vec<String>>,
)
    requires
        old(f)@.wf(),
    ensures
        final(f)@ == list_step(
            old(f)@,
            true,
            target@,
            field@,
            strs(expected@),
            strs(actual@),
            opt_strs(*managed),
            opt_strs(*matched),
        ),
        final(f)@.wf(),
{
    compare_list(f, true, target, field, expected, actual, managed, matched);
}

// ---------------------------------------------------------------------------
// Targets
// ---------------------------------------------------------------------------

/// What the client resolved for one target: with the root config, with the managed entries
/// alone, and with them and the `Match` blocks; and what the values are read with.
pub struct Resolutions<'a> {
    pub actual: &'a SshResolvedConfig,
    pub managed: Option<&'a SshResolvedConfig>,
    pub matched: Option<&'a SshResolvedConfig>,
    pub home: &'a str,
    pub windows: bool,
}

#[verifier::ext_equal]
pub struct ResolutionsView {
    pub actual: Seq<(Seq<char>, Seq<char>)>,
    pub managed: Option<Seq<(Seq<char>, Seq<char>)>>,
    pub matched: Option<Seq<(Seq<char>, Seq<char>)>>,
    pub home: Seq<char>,
    pub windows: bool,
}

pub open spec fn opt_config(c: Option<&SshResolvedConfig>) -> Option<
    Seq<(Seq<char>, Seq<char>)>,
> {
    match c {
        Some(v) => Some(v@),
        None => None,
    }
}

impl<'a> View for Resolutions<'a> {
    type V = ResolutionsView;

    open spec fn view(&self) -> ResolutionsView {
        ResolutionsView {
            actual: self.actual@,
            managed: opt_config(self.managed),
            matched: opt_config(self.matched),
            home: self.home@,
            windows: self.windows,
        }
    }
}

pub open spec fn opt_scalar(
    c: Option<Seq<(Seq<char>, Seq<char>)>>,
    field: Seq<char>,
    home: Seq<char>,
    windows: bool,
) -> Option<Seq<char>> {
    match c {
        Some(v) => config_scalar(v, field, home, windows),
        None => None,
    }
}

/// The value of the preview in the form in which it is compared.
pub open spec fn expected_scalar(
    field: Seq<char>,
    value: Option<Seq<char>>,
    home: Seq<char>,
    windows: bool,
) -> Option<Seq<char>> {
    match value {
        Some(v) => scalar_value(field, v, home, windows),
        None => None,
    }
}

pub open spec fn compared_scalar(
    f: FindingsView,
    target: Seq<char>,
    field: Seq<char>,
    value: Option<Seq<char>>,
    r: ResolutionsView,
) -> FindingsView {
    scalar_step(
        f,
        target,
        field,
        expected_scalar(field, value, r.home, r.windows),
        config_scalar(r.actual, field, r.home, r.windows),
        opt_scalar(r.managed, field, r.home, r.windows),
        opt_scalar(r.matched, field, r.home, r.windows),
    )
}

pub open spec fn compared_algorithms(
    f: FindingsView,
    target: Seq<char>,
    field: Seq<char>,
    value: Option<Seq<char>>,
    r: ResolutionsView,
) -> FindingsView {
    algorithm_step(
        f,
        target,
        field,
        expected_scalar(field, value, r.home, r.windows),
        config_scalar(r.actual, field, r.home, r.windows),
        opt_scalar(r.managed, field, r.home, r.windows),
        opt_scalar(r.matched, field, r.home, r.windows),
    )
}

/// The directives that are compared as lists.
#[derive(Debug, Clone, Copy, PartialEq, Eq, Structural)]
pub enum ListField {
    IdentityFile,
    LocalForward,
    RemoteForward,
    UserKnownHostsFile,
}

impl ListField {
    pub open spec fn spec_name(self) -> Seq<char> {
        match self {
            ListField::IdentityFile => "IdentityFile"@,
            ListField::LocalForward => "LocalForward"@,
            ListField::RemoteForward => "RemoteForward"@,
            ListField::UserKnownHostsFile => "UserKnownHostsFile"@,
        }
    }

    pub fn name(self) -> (r: &'static str)
        ensures
            r@ == self.spec_name(),
    {
        match self {
            ListField::IdentityFile => "IdentityFile",
            ListField::LocalForward => "LocalForward",
            ListField::RemoteForward => "RemoteForward",
            ListField::UserKnownHostsFile => "UserKnownHostsFile",
        }
    }
}

/// The list that the client resolved for a directive. The known hosts files are one value
/// with white space between them, and there is no list where there is no value.
pub open spec fn config_list(
    config: Seq<(Seq<char>, Seq<char>)>,
    field: ListField,
    home: Seq<char>,
    windows: bool,
) -> Option<Seq<Seq<char>>> {
    let values = values_of(config, lower(field.spec_name()));
    match field {
        ListField::IdentityFile => Some(path_values(values, home, windows)),
        ListField::LocalForward => Some(
            values.map_values(|v: Seq<char>| local_forward_value(v)),
        ),
        ListField::RemoteForward => Some(remote_forward_values(values, home, windows)),
        ListField::UserKnownHostsFile => match first_value(config, field.spec_name()) {
            Some(v) => Some(path_values(words(v), home, windows)),
            None => None,
        },
    }
}

pub open spec fn opt_list(
    c: Option<Seq<(Seq<char>, Seq<char>)>>,
    field: ListField,
    home: Seq<char>,
    windows: bool,
) -> Option<Seq<Seq<char>>> {
    match c {
        Some(v) => config_list(v, field, home, windows),
        None => None,
    }
}

/// The list that the preview asks for.
pub open spec fn expected_list(
    e: HostView,
    field: ListField,
    home: Seq<char>,
    windows: bool,
) -> Seq<
    Seq<char>,
> {
    match field {
        ListField::IdentityFile => path_values(e.identity_files, home, windows),
        ListField::LocalForward => e.local_forwards.map_values(
            |v: Seq<char>| local_forward_value(v),
        ),
        ListField::RemoteForward => expected_remote_forwards(e, home, windows),
        ListField::UserKnownHostsFile => match e.user_known_hosts_file {
            Some(v) => path_values(words(v), home, windows),
            None => Seq::empty(),
        },
    }
}

pub open spec fn or_none(values: Option<Seq<Seq<char>>>) -> Seq<Seq<char>> {
    match values {
        Some(v) => v,
        None => Seq::empty(),
    }
}

/// The identity files may be among others; the other lists are compared as they are.
pub open spec fn compared_list(
    f: FindingsView,
    target: Seq<char>,
    field: ListField,
    e: HostView,
    r: ResolutionsView,
) -> FindingsView {
    list_step(
        f,
        field != ListField::IdentityFile,
        target,
        field.spec_name(),
        expected_list(e, field, r.home, r.windows),
        or_none(config_list(r.actual, field, r.home, r.windows)),
        opt_list(r.managed, field, r.home, r.windows),
        opt_list(r.matched, field, r.home, r.windows),
    )
}

pub open spec fn compared_address(
    f: FindingsView,
    target: Seq<char>,
    e: HostView,
    r: ResolutionsView,
) -> FindingsView {
    let f = compared_scalar(f, target, "HostName"@, e.hostname, r);
    let f = compared_scalar(f, target, "User"@, e.user, r);
    let f = scalar_step(
        f,
        target,
        "Port"@,
        port_text(e.port),
        config_scalar(r.actual, "Port"@, r.home, r.windows),
        opt_scalar(r.managed, "Port"@, r.home, r.windows),
        opt_scalar(r.matched, "Port"@, r.home, r.windows),
    );
    compared_scalar(f, target, "ProxyJump"@, e.proxy_jump, r)
}

pub open spec fn compared_forwards(
    f: FindingsView,
    target: Seq<char>,
    e: HostView,
    r: ResolutionsView,
) -> FindingsView {
    let f = compared_list(f, target, ListField::IdentityFile, e, r);
    let f = compared_list(f, target, ListField::LocalForward, e, r);
    compared_list(f, target, ListField::RemoteForward, e, r)
}

pub open spec fn compared_security(
    f: FindingsView,
    target: Seq<char>,
    e: HostView,
    r: ResolutionsView,
) -> FindingsView {
    let f = compared_scalar(f, target, "StrictHostKeyChecking"@, e.strict_host_key_checking, r);
    let f = compared_list(f, target, ListField::UserKnownHostsFile, e, r);
    let f = compared_algorithms(f, target, "HostKeyAlgorithms"@, e.host_key_algorithms, r);
    let f = compared_algorithms(
        f,
        target,
        "PubkeyAcceptedAlgorithms"@,
        e.pubkey_accepted_algorithms,
        r,
    );
    compared_scalar(f, target, "ForwardAgent"@, e.forward_agent, r)
}

/// The directives that are compared, in the order in which they are.
pub open spec fn compared_fields() -> Seq<Seq<char>> {
    seq![
        "HostName"@,
        "User"@,
        "Port"@,
        "ProxyJump"@,
        "IdentityFile"@,
        "LocalForward"@,
        "RemoteForward"@,
        "StrictHostKeyChecking"@,
        "UserKnownHostsFile"@,
        "HostKeyAlgorithms"@,
        "PubkeyAcceptedAlgorithms"@,
        "ForwardAgent"@,
    ]
}

pub fn compared_field_labels() -> (r: Vec<String>)
    ensures
        strs(r@) == compared_fields(),
{
    let mut r: Vec<String> = Vec::new();
    r.push("HostName".to_string());
    r.push("User".to_string());
    r.push("Port".to_string());
    r.push("ProxyJump".to_string());
    r.push("IdentityFile".to_string());
    r.push("LocalForward".to_string());
    r.push("RemoteForward".to_string());
    r.push("StrictHostKeyChecking".to_string());
    r.push("UserKnownHostsFile".to_string());
    r.push("HostKeyAlgorithms".to_string());
    r.push("PubkeyAcceptedAlgorithms".to_string());
    r.push("ForwardAgent".to_string());
    assert(strs(r@) =~= compared_fields());
    r
}

/// A later value that the preview passed over and that the client took nevertheless.
pub open spec fn override_note(o: IgnoredView, root_value: Seq<char>) -> Seq<char> {
    o.key + " later value seems to win under ssh -G: preview locked `"@ + o.winning_value
        + "` from "@ + short_origin(o.winning_origin)
        + ", but managed-only ssh -G resolved `"@ + o.attempted_value + "` from later "@
        + short_origin(o.attempted_origin) + " (root ssh -G: `"@ + root_value + "`)"@
}

pub open spec fn short_origin(o: OriginView) -> Seq<char> {
    decimal3(o.order as nat) + " "@ + o.entry_kind.spec_label() + " "@ + join(
        o.host_patterns,
        ","@,
    )
}

/// Whether the client, on the managed entries alone, took the value that the preview passed
/// over.
pub open spec fn override_won(
    o: IgnoredView,
    managed: Seq<(Seq<char>, Seq<char>)>,
    home: Seq<char>,
    windows: bool,
) -> bool {
    let attempted = scalar_value(o.key, o.attempted_value, home, windows);
    let winning = scalar_value(o.key, o.winning_value, home, windows);
    let found = config_scalar(managed, o.key, home, windows);
    attempted is Some && winning is Some && found is Some && found == attempted && found != winning
}

pub open spec fn override_notes(
    os: Seq<IgnoredView>,
    actual: Seq<(Seq<char>, Seq<char>)>,
    managed: Seq<(Seq<char>, Seq<char>)>,
    home: Seq<char>,
    windows: bool,
) -> Seq<Seq<char>>
    decreases os.len(),
{
    if os.len() == 0 {
        Seq::empty()
    } else {
        let before = override_notes(os.drop_last(), actual, managed, home, windows);
        if override_won(os.last(), managed, home, windows) {
            before.push(
                override_note(
                    os.last(),
                    or_missing(config_scalar(actual, os.last().key, home, windows)),
                ),
            )
        } else {
            before
        }
    }
}

/// The note on the values that the preview passed over.
pub open spec fn overrides_explained(
    target: Seq<char>,
    os: Seq<IgnoredView>,
    r: ResolutionsView,
) -> Option<Seq<char>> {
    match r.managed {
        None => None,
        Some(m) => {
            let notes = override_notes(os, r.actual, m, r.home, r.windows);
            if notes.len() == 0 {
                None
            } else {
                Some("ssh -G note for `"@ + target + "`: "@ + join(notes, " | "@))
            }
        },
    }
}

/// The findings with what is found for one target.
pub open spec fn compared_target(
    f: FindingsView,
    target: Seq<char>,
    e: HostView,
    os: Seq<IgnoredView>,
    r: ResolutionsView,
) -> FindingsView {
    let f = compared_address(f, target, e, r);
    let f = compared_forwards(f, target, e, r);
    let f = compared_security(f, target, e, r);
    match overrides_explained(target, os, r) {
        Some(note) => with_issue(f, note),
        None => f,
    }
}

fn read_scalar(config: Option<&SshResolvedConfig>, field: &str, r: &Resolutions<'_>) -> (v: Option<
    String,
>)
    ensures
        opt(v) == opt_scalar(opt_config(config), field@, r@.home, r@.windows),
{
    match config {
        Some(c) => resolved_scalar_field_value(c, field, r.home, r.windows),
        None => None,
    }
}

fn compare_scalar(
    f: &mut SshFindings,
    target: &str,
    field: &str,
    value: &Option<String>,
    r: &Resolutions<'_>,
)
    requires
        old(f)@.wf(),
    ensures
        final(f)@ == compared_scalar(old(f)@, target@, field@, opt(*value), r@),
        final(f)@.wf(),
{
    let expected: Option<String> = match value {
        Some(v) => normalize_scalar_field_value(field, v, r.home, r.windows),
        None => None,
    };
    compare_scalar_field(
        f,
        target,
        field,
        &expected,
        &read_scalar(Some(r.actual), field, r),
        &read_scalar(r.managed, field, r),
        &read_scalar(r.matched, field, r),
    );
}

fn compare_algorithms(
    f: &mut SshFindings,
    target: &str,
    field: &str,
    value: &Option<String>,
    r: &Resolutions<'_>,
)
    requires
        old(f)@.wf(),
    ensures
        final(f)@ == compared_algorithms(old(f)@, target@, field@, opt(*value), r@),
        final(f)@.wf(),
{
    let expected: Option<String> = match value {
        Some(v) => normalize_scalar_field_value(field, v, r.home, r.windows),
        None => None,
    };
    compare_algorithm_field(
        f,
        target,
        field,
        &expected,
        &read_scalar(Some(r.actual), field, r),
        &read_scalar(r.managed, field, r),
        &read_scalar(r.matched, field, r),
    );
}

fn all_values(config: &SshResolvedConfig, field: &str) -> (v: Vec<String>)
    ensures
        strs(v@) == values_of(config@, lower(field@)),
{
    match config.get_all(field) {
        Some(v) => v,
        None => {
            let v: Vec<String> = Vec::new();
            assert(strs(v@) =~= values_of(config@, lower(field@)));
            v
        },
    }
}

fn read_list(config: Option<&SshResolvedConfig>, field: ListField, r: &Resolutions<'_>) -> (v:
    Option<Vec<String>>)
    ensures
        opt_strs(v) == opt_list(opt_config(config), field, r@.home, r@.windows),
{
    match config {
        None => None,
        Some(c) => match field {
            ListField::IdentityFile => Some(
                normalize_paths(&all_values(c, field.name()), r.home, r.windows),
            ),
            ListField::LocalForward => Some(
                normalize_local_forwards(&all_values(c, field.name())),
            ),
            ListField::RemoteForward => Some(
                normalize_remote_forwards(&all_values(c, field.name()), r.home, r.windows),
            ),
            ListField::UserKnownHostsFile => match c.get_first(field.name()) {
                Some(v) => Some(normalize_path_list_value(v, r.home, r.windows)),
                None => None,
            },
        },
    }
}

fn read_expected_list(
    e: &HostEntry,
    field: ListField,
    home: &str,
    windows: bool,
) -> (r: Vec<String>)
    ensures
        strs(r@) == expected_list(e@, field, home@, windows),
{
    match field {
        ListField::IdentityFile => normalize_paths(&e.identity_files, home, windows),
        ListField::LocalForward => normalize_local_forwards(&e.local_forwards),
        ListField::RemoteForward => expected_remote_forward_values(e, home, windows),
        ListField::UserKnownHostsFile => match &e.user_known_hosts_file {
            Some(v) => normalize_path_list_value(v, home, windows),
            None => Vec::new(),
        },
    }
}

fn compare_list_field(
    f: &mut SshFindings,
    target: &str,
    field: ListField,
    e: &HostEntry,
    r: &Resolutions<'_>,
)
    requires
        old(f)@.wf(),
    ensures
        final(f)@ == compared_list(old(f)@, target@, field, e@, r@),
        final(f)@.wf(),
{
    let expected: Vec<String> = read_expected_list(e, field, r.home, r.windows);
    let actual: Vec<String> = match read_list(Some(r.actual), field, r) {
        Some(v) => v,
        None => Vec::new(),
    };
    let managed: Option<Vec<String>> = read_list(r.managed, field, r);
    let matched: Option<Vec<String>> = read_list(r.matched, field, r);
    match field {
        ListField::IdentityFile => compare_vector_subset_field(
            f,
            target,
            field.name(),
            &expected,
            &actual,
            &managed,
            &matched,
        ),
        _ => compare_exact_vector_field(
            f,
            target,
            field.name(),
            &expected,
            &actual,
            &managed,
            &matched,
        ),
    }
}

fn compare_address(f: &mut SshFindings, target: &str, e: &HostEntry, r: &Resolutions<'_>)
    requires
        old(f)@.wf(),
    ensures
        final(f)@ == compared_address(old(f)@, target@, e@, r@),
        final(f)@.wf(),
{
    compare_scalar(f, target, "HostName", &e.hostname, r);
    compare_scalar(f, target, "User", &e.user, r);
    let port: Option<String> = match e.port {
        Some(p) => Some(decimal_text(p as usize)),
        None => None,
    };
    compare_scalar_field(
        f,
        target,
        "Port",
        &port,
        &read_scalar(Some(r.actual), "Port", r),
        &read_scalar(r.managed, "Port", r),
        &read_scalar(r.matched, "Port", r),
    );
    compare_scalar(f, target, "ProxyJump", &e.proxy_jump, r);
}

fn compare_forwards(f: &mut SshFindings, target: &str, e: &HostEntry, r: &Resolutions<'_>)
    requires
        old(f)@.wf(),
    ensures
        final(f)@ == compared_forwards(old(f)@, target@, e@, r@),
        final(f)@.wf(),
{
    compare_list_field(f, target, ListField::IdentityFile, e, r);
    compare_list_field(f, target, ListField::LocalForward, e, r);
    compare_list_field(f, target, ListField::RemoteForward, e, r);
}

fn compare_security(f: &mut SshFindings, target: &str, e: &HostEntry, r: &Resolutions<'_>)
    requires
        old(f)@.wf(),
    ensures
        final(f)@ == compared_security(old(f)@, target@, e@, r@),
        final(f)@.wf(),
{
    compare_scalar(f, target, "StrictHostKeyChecking", &e.strict_host_key_checking, r);
    compare_list_field(f, target, ListField::UserKnownHostsFile, e, r);
    compare_algorithms(f, target, "HostKeyAlgorithms", &e.host_key_algorithms, r);
    compare_algorithms(f, target, "PubkeyAcceptedAlgorithms", &e.pubkey_accepted_algorithms, r);
    compare_scalar(f, target, "ForwardAgent", &e.forward_agent, r);
}

fn write_short_origin(o: &DirectiveOrigin) -> (r: String)
    ensures
        r@ == short_origin(o@),
{
    concat5(
        &decimal3_text(o.order),
        " ",
        o.entry_kind.label(),
        " ",
        &joined(&o.host_patterns, ","),
    )
}

fn write_override_note(o: &IgnoredScalarOverride, root_value: &str) -> (r: String)
    ensures
        r@ == override_note(o@, root_value@),
{
    let head: String = concat5(
        &o.key,
        " later value seems to win under ssh -G: preview locked `",
        &o.winning_value,
        "` from ",
        &write_short_origin(&o.winning_origin),
    );
    let middle: String = concat5(
        &head,
        ", but managed-only ssh -G resolved `",
        &o.attempted_value,
        "` from later ",
        &write_short_origin(&o.attempted_origin),
    );
    concat4(&middle, " (root ssh -G: `", root_value, "`)")
}

fn override_has_won(
    o: &IgnoredScalarOverride,
    managed: &SshResolvedConfig,
    home_dir: &str,
    windows: bool,
) -> (r: bool)
    ensures
        r == override_won(o@, managed@, home_dir@, windows),
{
    let attempted: Option<String> = normalize_scalar_field_value(
        &o.key,
        &o.attempted_value,
        home_dir,
        windows,
    );
    let winning: Option<String> = normalize_scalar_field_value(
        &o.key,
        &o.winning_value,
        home_dir,
        windows,
    );
    let found: Option<String> = resolved_scalar_field_value(managed, &o.key, home_dir, windows);
    attempted.is_some() && winning.is_some() && found.is_some() && same_opt(&found, &attempted)
        && !same_opt(&found, &winning)
}

pub fn explain_ignored_scalar_overrides(
    target: &str,
    ignored: &Vec<IgnoredScalarOverride>,
    r: &Resolutions<'_>,
) -> (note: Option<String>)
    ensures
        opt(note) == overrides_explained(target@, views(ignored@), r@),
{
    let managed: &SshResolvedConfig = match r.managed {
        Some(m) => m,
        None => {
            return None;
        },
    };
    let ghost os = views(ignored@);
    let mut notes: Vec<String> = Vec::new();
    let mut i: usize = 0;
    while i < ignored.len()
        invariant
            i <= ignored.len(),
            os == views(ignored@),
            strs(notes@) == override_notes(
                os.take(i as int),
                r@.actual,
                managed@,
                r@.home,
                r@.windows,
            ),
        decreases ignored.len() - i,
    {
        assert(os.take(i + 1).drop_last() =~= os.take(i as int));
        let o: &IgnoredScalarOverride = &ignored[i];
        assert(os[i as int] == o@);
        if override_has_won(o, managed, r.home, r.windows) {
            let root_value: String = match resolved_scalar_field_value(
                r.actual,
                &o.key,
                r.home,
                r.windows,
            ) {
                Some(v) => v,
                None => "<missing>".to_string(),
            };
            notes.push(write_override_note(o, &root_value));
        }
        i += 1;
    }
    assert(os.take(os.len() as int) =~= os);
    if notes.len() == 0 {
        None
    } else {
        Some(concat4("ssh -G note for `", target, "`: ", &joined(&notes, " | ")))
    }
}

/// Holds what the client resolved for a target against the merged preview of it, field by
/// field.
pub fn compare_resolved_target(
    f: &mut SshFindings,
    target: &str,
    expected: &HostEntry,
    ignored: &Vec<IgnoredScalarOverride>,
    r: &Resolutions<'_>,
)
    requires
        old(f)@.wf(),
    ensures
        final(f)@ == compared_target(old(f)@, target@, expected@, views(ignored@), r@),
        final(f)@.wf(),
{
    compare_address(f, target, expected, r);
    compare_forwards(f, target, expected, r);
    compare_security(f, target, expected, r);
    match explain_ignored_scalar_overrides(target, ignored, r) {
        Some(note) => {
            f.issues.push(note);
        },
        None => {},
    }
}

// ---------------------------------------------------------------------------
// Laws
// ---------------------------------------------------------------------------

/// Values that are in one form stay in it.
pub proof fn law_values_are_put_in_form_once(value: Seq<char>)
    ensures
        squeezed(squeezed(value)) == squeezed(value),
        jump_value(value) matches Some(v) ==> jump_value(v) == Some(v),
        switch_value(switch_value(value)) == switch_value(value),
{
    law_squeezed_once(value);
    let t = trim(value);
    law_trim_once(value);
    law_lower_of_trim(t);
    law_lower_once(t);
    assert(lower(trim(lower(t))) == lower(t));
    reveal_strlit("yes");
    reveal_strlit("no");
    law_trimmed_text_stays("yes"@);
    law_trimmed_text_stays("no"@);
    assert(lower("yes"@) =~= "yes"@);
    assert(lower("no"@) =~= "no"@);
    assert("yes"@.len() != "no"@.len());
    lemma_lengths();
}

proof fn lemma_lengths()
    ensures
        "no"@ != "true"@,
        "no"@ != "yes"@,
        "no"@ != "on"@,
{
    reveal_strlit("no");
    reveal_strlit("true");
    reveal_strlit("yes");
    reveal_strlit("on");
    assert("no"@[0] == 'n');
    assert("on"@[0] == 'o');
    assert("true"@.len() == 4 && "yes"@.len() == 3 && "no"@.len() == 2);
}

/// A mismatch is one more issue, and it is counted under one cause.
pub proof fn law_each_mismatch_is_counted_once(
    f: FindingsView,
    target: Seq<char>,
    field: Seq<char>,
    expected: Seq<char>,
    actual: Option<Seq<char>>,
    managed_matches: Option<bool>,
    managed: Option<Seq<char>>,
    matched: Option<Seq<char>>,
)
    ensures
        ({
            let r = with_mismatch(
                f,
                target,
                field,
                expected,
                actual,
                managed_matches,
                managed,
                matched,
            );
            &&& r.issues.len() == f.issues.len() + 1
            &&& r.issues.drop_last() == f.issues
            &&& r.root_match_influenced + r.root_influenced + r.managed_semantic + r.unclassified
                == f.root_match_influenced + f.root_influenced + f.managed_semantic
                + f.unclassified + 1
            &&& managed_matches == Some(false) ==> r.managed_semantic == f.managed_semantic + 1
            &&& managed_matches == Some(true) ==> r.managed_semantic == f.managed_semantic
        }),
{
}

/// How many mismatches are counted, under whatever cause.
pub open spec fn mismatches(f: FindingsView) -> int {
    f.root_match_influenced + f.root_influenced + f.managed_semantic + f.unclassified
}

/// `g` has the issues of `f`, and behind them one for each further mismatch.
pub open spec fn adds_mismatches(f: FindingsView, g: FindingsView) -> bool {
    &&& f.issues.is_prefix_of(g.issues)
    &&& g.issues.len() - f.issues.len() == mismatches(g) - mismatches(f)
}

/// What is found so far stays found: comparing a target adds issues behind those that are there,
/// one for each mismatch that is counted, and at last the note on the values that were passed
/// over, where there is one.
pub proof fn law_findings_only_grow(
    f: FindingsView,
    target: Seq<char>,
    e: HostView,
    os: Seq<IgnoredView>,
    r: ResolutionsView,
)
    ensures
        ({
            let g = compared_target(f, target, e, os, r);
            &&& f.issues.is_prefix_of(g.issues)
            &&& g.issues.len() - f.issues.len() == mismatches(g) - mismatches(f) + (
            if overrides_explained(target, os, r) is Some {
                1int
            } else {
                0
            })
        }),
{
    let a = compared_address(f, target, e, r);
    let b = compared_forwards(a, target, e, r);
    let c = compared_security(b, target, e, r);
    lemma_address_grows(f, target, e, r);
    lemma_forwards_grow(a, target, e, r);
    lemma_security_grows(b, target, e, r);
    lemma_prefix(f.issues, a.issues, b.issues);
    lemma_prefix(f.issues, b.issues, c.issues);
    let g = compared_target(f, target, e, os, r);
    if overrides_explained(target, os, r) is Some {
        assert(g.issues.drop_last() =~= c.issues);
        assert(c.issues =~= g.issues.take(c.issues.len() as int));
    }
    lemma_prefix(f.issues, c.issues, g.issues);
}

proof fn lemma_prefix(a: Seq<Seq<char>>, b: Seq<Seq<char>>, c: Seq<Seq<char>>)
    requires
        a.is_prefix_of(b),
        b.is_prefix_of(c) || c == b,
    ensures
        a.is_prefix_of(c),
{
    assert(c.take(a.len() as int) =~= b.take(a.len() as int));
    assert(a =~= c.take(a.len() as int));
}

/// `g` is `f`, or `f` with one more issue, which is counted.
pub open spec fn grows(f: FindingsView, g: FindingsView) -> bool {
    g == f || (g.issues.len() == f.issues.len() + 1 && g.issues.drop_last() == f.issues
        && mismatches(g) == mismatches(f) + 1)
}

proof fn lemma_grows(f: FindingsView, g: FindingsView, h: FindingsView)
    requires
        adds_mismatches(f, g),
        grows(g, h),
    ensures
        adds_mismatches(f, h),
{
    assert(h.issues.take(f.issues.len() as int) =~= g.issues.take(f.issues.len() as int));
    assert(f.issues =~= h.issues.take(f.issues.len() as int));
}

proof fn lemma_starts(f: FindingsView)
    ensures
        adds_mismatches(f, f),
{
    assert(f.issues =~= f.issues.take(f.issues.len() as int));
}

proof fn lemma_scalar_grows(
    f: FindingsView,
    target: Seq<char>,
    field: Seq<char>,
    value: Option<Seq<char>>,
    r: ResolutionsView,
)
    ensures
        grows(f, compared_scalar(f, target, field, value, r)),
{
}

proof fn lemma_algorithms_grow(
    f: FindingsView,
    target: Seq<char>,
    field: Seq<char>,
    value: Option<Seq<char>>,
    r: ResolutionsView,
)
    ensures
        grows(f, compared_algorithms(f, target, field, value, r)),
{
}

proof fn lemma_list_grows(
    f: FindingsView,
    target: Seq<char>,
    field: ListField,
    e: HostView,
    r: ResolutionsView,
)
    ensures
        grows(f, compared_list(f, target, field, e, r)),
{
}

#[verifier::spinoff_prover]
#[verifier::rlimit(40)]
proof fn lemma_address_grows(f: FindingsView, target: Seq<char>, e: HostView, r: ResolutionsView)
    ensures
        adds_mismatches(f, compared_address(f, target, e, r)),
{
    let a = compared_scalar(f, target, "HostName"@, e.hostname, r);
    let b = compared_scalar(a, target, "User"@, e.user, r);
    let c = scalar_step(
        b,
        target,
        "Port"@,
        port_text(e.port),
        config_scalar(r.actual, "Port"@, r.home, r.windows),
        opt_scalar(r.managed, "Port"@, r.home, r.windows),
        opt_scalar(r.matched, "Port"@, r.home, r.windows),
    );
    let d = compared_scalar(c, target, "ProxyJump"@, e.proxy_jump, r);
    lemma_scalar_grows(f, target, "HostName"@, e.hostname, r);
    lemma_scalar_grows(a, target, "User"@, e.user, r);
    lemma_scalar_grows(c, target, "ProxyJump"@, e.proxy_jump, r);
    lemma_starts(f);
    lemma_grows(f, f, a);
    lemma_grows(f, a, b);
    lemma_grows(f, b, c);
    lemma_grows(f, c, d);
}

#[verifier::spinoff_prover]
#[verifier::rlimit(40)]
proof fn lemma_forwards_grow(f: FindingsView, target: Seq<char>, e: HostView, r: ResolutionsView)
    ensures
        adds_mismatches(f, compared_forwards(f, target, e, r)),
{
    let a = compared_list(f, target, ListField::IdentityFile, e, r);
    let b = compared_list(a, target, ListField::LocalForward, e, r);
    let c = compared_list(b, target, ListField::RemoteForward, e, r);
    lemma_list_grows(f, target, ListField::IdentityFile, e, r);
    lemma_list_grows(a, target, ListField::LocalForward, e, r);
    lemma_list_grows(b, target, ListField::RemoteForward, e, r);
    lemma_starts(f);
    lemma_grows(f, f, a);
    lemma_grows(f, a, b);
    lemma_grows(f, b, c);
}

#[verifier::spinoff_prover]
#[verifier::rlimit(40)]
proof fn lemma_security_grows(f: FindingsView, target: Seq<char>, e: HostView, r: ResolutionsView)
    ensures
        adds_mismatches(f, compared_security(f, target, e, r)),
{
    let a = compared_scalar(f, target, "StrictHostKeyChecking"@, e.strict_host_key_checking, r);
    let b = compared_list(a, target, ListField::UserKnownHostsFile, e, r);
    let c = compared_algorithms(b, target, "HostKeyAlgorithms"@, e.host_key_algorithms, r);
    let d = compared_algorithms(
        c,
        target,
        "PubkeyAcceptedAlgorithms"@,
        e.pubkey_accepted_algorithms,
        r,
    );
    let g = compared_scalar(d, target, "ForwardAgent"@, e.forward_agent, r);
    lemma_scalar_grows(f, target, "StrictHostKeyChecking"@, e.strict_host_key_checking, r);
    lemma_list_grows(a, target, ListField::UserKnownHostsFile, e, r);
    lemma_algorithms_grow(b, target, "HostKeyAlgorithms"@, e.host_key_algorithms, r);
    lemma_algorithms_grow(
        c,
        target,
        "PubkeyAcceptedAlgorithms"@,
        e.pubkey_accepted_algorithms,
        r,
    );
    lemma_scalar_grows(d, target, "ForwardAgent"@, e.forward_agent, r);
    lemma_starts(f);
    lemma_grows(f, f, a);
    lemma_grows(f, a, b);
    lemma_grows(f, b, c);
    lemma_grows(f, c, d);
    lemma_grows(f, d, g);
}

} // verus!
