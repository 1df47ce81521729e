//! What is written is read back.

use vstd::prelude::*;

use crate::config::model::{HostView, empty_host};
use crate::config::parser::{
    ParseView, is_comment, parse_block, parse_line, parse_lines, with_directive,
};
use crate::config::render::{
    directive_each, directive_if, directive_line, directives_of, port_text, render_directives,
};
use crate::error::FaultView;
use crate::text::{
    decimal, is_ws, join, key_value, lines, lower, parse_unsigned, raw_lines, raw_lines_from,
    same_ignoring_case, strip_line_end, trim, trim_start, until_ws, words,
};
use crate::text_laws::{
    all_words, is_word, law_decimal_is_parsed, law_joined_words_are_found, law_trim_adds_nothing,
    law_trim_once, law_trimmed_text_stays, law_words_are_words,
};

verus! {

broadcast use crate::text::group_text;

// ---------------------------------------------------------------------------
// Lines
// ---------------------------------------------------------------------------

/// Behind a line feed the lines are those of the rest.
pub proof fn lemma_raw_lines_append(a: Seq<char>, b: Seq<char>, cur: Seq<char>)
    requires
        a.len() > 0,
        a.last() == '\n',
    ensures
        raw_lines_from(a + b, cur) == raw_lines_from(a, cur) + raw_lines(b),
    decreases a.len(),
{
    let rest = a.skip(1);
    assert((a + b)[0] == a[0]);
    assert((a + b).skip(1) =~= rest + b);
    if a.len() == 1 {
        assert(rest + b =~= b);
        assert(raw_lines_from(rest, Seq::empty()) =~= Seq::<Seq<char>>::empty());
        assert(raw_lines_from(a, cur) =~= seq![cur.push('\n')]);
    } else {
        assert(rest.last() == a.last());
        if a[0] == '\n' {
            lemma_raw_lines_append(rest, b, Seq::empty());
            assert(raw_lines_from(a + b, cur) =~= raw_lines_from(a, cur) + raw_lines(b));
        } else {
            lemma_raw_lines_append(rest, b, cur.push(a[0]));
        }
    }
}

/// A text without a line feed, and a line feed behind it, is one line.
pub proof fn lemma_one_raw_line(l: Seq<char>, cur: Seq<char>)
    requires
        !l.contains('\n'),
    ensures
        raw_lines_from(l.push('\n'), cur) == seq![cur + l.push('\n')],
    decreases l.len(),
{
    let s = l.push('\n');
    if l.len() == 0 {
        assert(s[0] == '\n');
        assert(s.skip(1) =~= Seq::<char>::empty());
        assert(raw_lines_from(s.skip(1), Seq::empty()) =~= Seq::<Seq<char>>::empty());
        assert(raw_lines_from(s, cur) =~= seq![cur.push('\n')]);
        assert(cur + s =~= cur.push('\n'));
    } else {
        assert(l[0] != '\n') by {
            assert(l.contains(l[0]));
        }
        assert(s.skip(1) =~= l.skip(1).push('\n'));
        assert(!l.skip(1).contains('\n')) by {
            if l.skip(1).contains('\n') {
                let i = choose|i: int| 0 <= i < l.skip(1).len() && l.skip(1)[i] == '\n';
                assert(l[i + 1] == '\n');
            }
        }
        lemma_one_raw_line(l.skip(1), cur.push(l[0]));
        assert(cur.push(l[0]) + l.skip(1).push('\n') =~= cur + s);
    }
}

pub open spec fn is_newline(newline: Seq<char>) -> bool {
    newline == seq!['\n'] || newline == seq!['\r', '\n']
}

/// A text that stands on one line: nothing in it, and nothing at its end, ends a line.
pub open spec fn on_one_line(l: Seq<char>) -> bool {
    !l.contains('\n') && (l.len() > 0 ==> l.last() != '\r')
}

proof fn lemma_line_with_end(l: Seq<char>, newline: Seq<char>)
    requires
        is_newline(newline),
        on_one_line(l),
    ensures
        raw_lines(l + newline) == seq![l + newline],
        strip_line_end(l + newline) == l,
        (l + newline).len() > 0,
        (l + newline).last() == '\n',
{
    if newline == seq!['\n'] {
        assert(l + newline =~= l.push('\n'));
        lemma_one_raw_line(l, Seq::empty());
        assert(Seq::<char>::empty() + l.push('\n') =~= l + newline);
        assert((l + newline).drop_last() =~= l);
    } else {
        let m = l.push('\r');
        assert(l + newline =~= m.push('\n'));
        assert(!m.contains('\n')) by {
            if m.contains('\n') {
                let i = choose|i: int| 0 <= i < m.len() && m[i] == '\n';
                if i < l.len() {
                    assert(l[i] == '\n');
                }
            }
        }
        lemma_one_raw_line(m, Seq::empty());
        assert(Seq::<char>::empty() + m.push('\n') =~= l + newline);
        assert((l + newline).drop_last() =~= m);
        assert(m.drop_last() =~= l);
    }
}

/// The lines of directives.
pub open spec fn lines_of(ds: Seq<(Seq<char>, Seq<char>)>) -> Seq<Seq<char>> {
    Seq::new(ds.len(), |i: int| directive_line(i == 0, ds[i]))
}

/// Directives, one on a line, are as many lines.
pub proof fn lemma_rendered_lines(ds: Seq<(Seq<char>, Seq<char>)>, newline: Seq<char>)
    requires
        is_newline(newline),
        forall|i: int| 0 <= i < ds.len() ==> on_one_line(#[trigger] lines_of(ds)[i]),
    ensures
        lines(render_directives(ds, newline)) == lines_of(ds),
        ds.len() > 0 ==> render_directives(ds, newline).len() > 0 && render_directives(
            ds,
            newline,
        ).last() == '\n',
    decreases ds.len(),
{
    let text = render_directives(ds, newline);
    if ds.len() == 0 {
        assert(lines(text) =~= lines_of(ds));
    } else {
        let head = ds.drop_last();
        let before = render_directives(head, newline);
        let line = directive_line(ds.len() == 1, ds.last());
        assert(line == lines_of(ds)[ds.len() - 1]);
        assert forall|i: int| 0 <= i < head.len() implies on_one_line(
            #[trigger] lines_of(head)[i],
        ) by {
            assert(lines_of(head)[i] == lines_of(ds)[i]);
        }
        lemma_rendered_lines(head, newline);
        lemma_line_with_end(line, newline);
        assert(text.last() == (line + newline).last());
        if head.len() == 0 {
            assert(text =~= line + newline);
            assert(lines(text) =~= lines_of(ds));
        } else {
            lemma_raw_lines_append(before, line + newline, Seq::empty());
            assert(raw_lines(text) == raw_lines(before) + seq![line + newline]);
            assert(lines(text) =~= lines(before).push(line));
            assert(lines(text) =~= lines_of(ds));
        }
    }
}

// ---------------------------------------------------------------------------
// Directives
// ---------------------------------------------------------------------------

/// A value that can stand behind a key: not empty, no white space at its ends, on one line.
pub open spec fn is_value(s: Seq<char>) -> bool {
    s.len() > 0 && !is_ws(s[0]) && !is_ws(s.last()) && !s.contains('\n')
}

proof fn lemma_until_ws(k: Seq<char>, rest: Seq<char>)
    requires
        forall|i: int| 0 <= i < k.len() ==> !is_ws(#[trigger] k[i]),
        rest.len() > 0,
        is_ws(rest[0]),
    ensures
        until_ws(k + rest) == k.len(),
    decreases k.len(),
{
    if k.len() == 0 {
        assert(k + rest =~= rest);
    } else {
        assert((k + rest)[0] == k[0]);
        assert((k + rest).skip(1) =~= k.skip(1) + rest);
        lemma_until_ws(k.skip(1), rest);
    }
}

/// The line of a directive gives its key and its value.
#[verifier::spinoff_prover]
#[verifier::rlimit(40)]
pub proof fn lemma_directive_is_read(first: bool, d: (Seq<char>, Seq<char>))
    requires
        is_word(d.0),
        is_value(d.1),
    ensures
        trim(directive_line(first, d)) == d.0 + seq![' '] + d.1,
        key_value(d.0 + seq![' '] + d.1) == Some(d),
        on_one_line(directive_line(first, d)),
{
    reveal_strlit(" ");
    reveal_strlit("  ");
    assert(" "@ =~= seq![' ']);
    assert("  "@ =~= seq![' ', ' ']);
    let core = d.0 + seq![' '] + d.1;
    let line = directive_line(first, d);
    assert(core[0] == d.0[0]);
    assert(core.last() == d.1.last());
    law_trimmed_text_stays(core);
    if first {
        assert(line =~= core);
    } else {
        assert(line =~= seq![' ', ' '] + core);
        assert(line.skip(1) =~= seq![' '] + core);
        assert(line.skip(1).skip(1) =~= core);
        assert(trim_start(core) == core);
        assert(line[0] == ' ' && line.skip(1)[0] == ' ');
        assert(trim_start(line.skip(1)) == trim_start(core));
        assert(trim_start(line) == trim_start(line.skip(1)));
    }
    let tail = seq![' '] + d.1;
    assert(core =~= d.0 + tail);
    lemma_until_ws(d.0, tail);
    assert(core.skip(d.0.len() as int) =~= tail);
    assert(core.take(d.0.len() as int) =~= d.0);
    assert(tail.skip(1) =~= d.1);
    assert(tail[0] == ' ');
    assert(trim_start(d.1) == d.1);
    assert(trim_start(tail) == d.1);
    assert(trim(tail) == d.1);
    assert(!line.contains('\n')) by {
        if line.contains('\n') {
            let i = choose|i: int| 0 <= i < line.len() && line[i] == '\n';
            let shift = if first {
                0int
            } else {
                2
            };
            assert(i >= shift);
            assert(core[i - shift] == '\n');
            if i - shift < d.0.len() {
                assert(is_ws(d.0[i - shift]));
            } else if i - shift > d.0.len() {
                assert(d.1[i - shift - d.0.len() - 1] == '\n');
            }
        }
    }
    assert(line.last() == d.1.last());
}

/// What reading directives, one after the other, makes of an entry.
pub open spec fn read_directives(e: HostView, ds: Seq<(Seq<char>, Seq<char>)>) -> Option<HostView>
    decreases ds.len(),
{
    if ds.len() == 0 {
        Some(e)
    } else {
        match read_directives(e, ds.drop_last()) {
            Some(x) => with_directive(x, ds.last().0, ds.last().1),
            None => None,
        }
    }
}

proof fn lemma_read_directives_append(
    e: HostView,
    a: Seq<(Seq<char>, Seq<char>)>,
    b: Seq<(Seq<char>, Seq<char>)>,
)
    ensures
        read_directives(e, a + b) == (match read_directives(e, a) {
            Some(x) => read_directives(x, b),
            None => None,
        }),
    decreases b.len(),
{
    if b.len() == 0 {
        assert(a + b =~= a);
    } else {
        assert((a + b).drop_last() =~= a + b.drop_last());
        assert((a + b).last() == b.last());
        lemma_read_directives_append(e, a, b.drop_last());
    }
}

proof fn lemma_parse_lines_push(
    path: Seq<char>,
    header: bool,
    st: ParseView,
    ls: Seq<Seq<char>>,
    l: Seq<char>,
)
    ensures
        parse_lines(path, header, st, ls.push(l)) == (match parse_lines(path, header, st, ls) {
            Ok(next) => parse_line(path, header, next, l),
            Err(e) => Err(e),
        }),
    decreases ls.len(),
{
    if ls.len() == 0 {
        assert(ls.push(l).skip(1) =~= Seq::<Seq<char>>::empty());
        assert(ls.push(l)[0] == l);
        match parse_line(path, header, st, l) {
            Ok(next) => {
                assert(parse_lines(path, header, next, Seq::empty()) == Ok::<ParseView, FaultView>(
                    next,
                ));
            },
            Err(_) => {},
        }
    } else {
        assert(ls.push(l)[0] == ls[0]);
        assert(ls.push(l).skip(1) =~= ls.skip(1).push(l));
        match parse_line(path, header, st, ls[0]) {
            Ok(next) => lemma_parse_lines_push(path, header, next, ls.skip(1), l),
            Err(_) => {},
        }
    }
}

/// A directive other than `Host` that can be written.
pub open spec fn is_directive_text(d: (Seq<char>, Seq<char>)) -> bool {
    is_word(d.0) && is_value(d.1) && d.0[0] != '#' && !same_ignoring_case(d.0, "Host"@)
}

/// After the line of its patterns, an entry is read directive by directive.
proof fn lemma_block_is_read(
    path: Seq<char>,
    patterns: Seq<char>,
    ds: Seq<(Seq<char>, Seq<char>)>,
)
    requires
        is_value(patterns),
        forall|i: int| 0 <= i < ds.len() ==> is_directive_text(#[trigger] ds[i]),
        read_directives(HostView { host_patterns: words(patterns), ..empty_host() }, ds) is Some,
        words(patterns).len() > 0,
    ensures
        parse_lines(
            path,
            true,
            ParseView { entry: empty_host(), saw_host: false },
            lines_of(seq![("Host"@, patterns)] + ds),
        ) == Ok::<ParseView, FaultView>(
            ParseView {
                entry: read_directives(
                    HostView { host_patterns: words(patterns), ..empty_host() },
                    ds,
                )->0,
                saw_host: true,
            },
        ),
    decreases ds.len(),
{
    let start = ParseView { entry: empty_host(), saw_host: false };
    let e0 = HostView { host_patterns: words(patterns), ..empty_host() };
    let all = seq![("Host"@, patterns)] + ds;
    reveal_strlit("Host");
    if ds.len() == 0 {
        lemma_directive_is_read(true, ("Host"@, patterns));
        let line = directive_line(true, ("Host"@, patterns));
        assert(lines_of(all) =~= Seq::<Seq<char>>::empty().push(line));
        lemma_parse_lines_push(path, true, start, Seq::empty(), line);
        let core = "Host"@ + seq![' '] + patterns;
        assert(core[0] == 'H');
    } else {
        let head = ds.drop_last();
        let d = ds.last();
        assert(d == ds[ds.len() - 1]);
        assert forall|i: int| 0 <= i < head.len() implies is_directive_text(#[trigger] head[i]) by {
            assert(head[i] == ds[i]);
        }
        lemma_block_is_read(path, patterns, head);
        let before = seq![("Host"@, patterns)] + head;
        let line = directive_line(false, d);
        assert(lines_of(all) =~= lines_of(before).push(line));
        lemma_parse_lines_push(path, true, start, lines_of(before), line);
        lemma_directive_is_read(false, d);
        let core = d.0 + seq![' '] + d.1;
        assert(core[0] == d.0[0]);
    }
}

/// The directives that have a place of their own in an entry.
pub open spec fn is_known_key(k: Seq<char>) -> bool {
    ||| same_ignoring_case(k, "HostName"@)
    ||| same_ignoring_case(k, "User"@)
    ||| same_ignoring_case(k, "Port"@)
    ||| same_ignoring_case(k, "ProxyJump"@)
    ||| same_ignoring_case(k, "IdentityFile"@)
    ||| same_ignoring_case(k, "LocalForward"@)
    ||| same_ignoring_case(k, "RemoteForward"@)
    ||| same_ignoring_case(k, "StrictHostKeyChecking"@)
    ||| same_ignoring_case(k, "UserKnownHostsFile"@)
    ||| same_ignoring_case(k, "HostKeyAlgorithms"@)
    ||| same_ignoring_case(k, "PubkeyAcceptedAlgorithms"@)
    ||| same_ignoring_case(k, "ForwardAgent"@)
    ||| same_ignoring_case(k, "Tag"@)
    ||| same_ignoring_case(k, "Host"@)
}

proof fn lemma_lower_hostname()
    ensures
        lower("HostName"@) == "hostname"@,
{
    reveal_strlit("HostName");
    reveal_strlit("hostname");
    assert(lower("HostName"@) =~= "hostname"@);
}

proof fn lemma_lower_user()
    ensures
        lower("User"@) == "user"@,
{
    reveal_strlit("User");
    reveal_strlit("user");
    assert(lower("User"@) =~= "user"@);
}

proof fn lemma_lower_port()
    ensures
        lower("Port"@) == "port"@,
{
    reveal_strlit("Port");
    reveal_strlit("port");
    assert(lower("Port"@) =~= "port"@);
}

proof fn lemma_lower_proxyjump()
    ensures
        lower("ProxyJump"@) == "proxyjump"@,
{
    reveal_strlit("ProxyJump");
    reveal_strlit("proxyjump");
    assert(lower("ProxyJump"@) =~= "proxyjump"@);
}

proof fn lemma_lower_identityfile()
    ensures
        lower("IdentityFile"@) == "identityfile"@,
{
    reveal_strlit("IdentityFile");
    reveal_strlit("identityfile");
    assert(lower("IdentityFile"@) =~= "identityfile"@);
}

proof fn lemma_lower_localforward()
    ensures
        lower("LocalForward"@) == "localforward"@,
{
    reveal_strlit("LocalForward");
    reveal_strlit("localforward");
    assert(lower("LocalForward"@) =~= "localforward"@);
}

proof fn lemma_lower_remoteforward()
    ensures
        lower("RemoteForward"@) == "remoteforward"@,
{
    reveal_strlit("RemoteForward");
    reveal_strlit("remoteforward");
    assert(lower("RemoteForward"@) =~= "remoteforward"@);
}

proof fn lemma_lower_stricthostkeychecking()
    ensures
        lower("StrictHostKeyChecking"@) == "stricthostkeychecking"@,
{
    reveal_strlit("StrictHostKeyChecking");
    reveal_strlit("stricthostkeychecking");
    assert(lower("StrictHostKeyChecking"@) =~= "stricthostkeychecking"@);
}

proof fn lemma_lower_userknownhostsfile()
    ensures
        lower("UserKnownHostsFile"@) == "userknownhostsfile"@,
{
    reveal_strlit("UserKnownHostsFile");
    reveal_strlit("userknownhostsfile");
    assert(lower("UserKnownHostsFile"@) =~= "userknownhostsfile"@);
}

proof fn lemma_lower_hostkeyalgorithms()
    ensures
        lower("HostKeyAlgorithms"@) == "hostkeyalgorithms"@,
{
    reveal_strlit("HostKeyAlgorithms");
    reveal_strlit("hostkeyalgorithms");
    assert(lower("HostKeyAlgorithms"@) =~= "hostkeyalgorithms"@);
}

proof fn lemma_lower_pubkeyacceptedalgorithms()
    ensures
        lower("PubkeyAcceptedAlgorithms"@) == "pubkeyacceptedalgorithms"@,
{
    reveal_strlit("PubkeyAcceptedAlgorithms");
    reveal_strlit("pubkeyacceptedalgorithms");
    assert(lower("PubkeyAcceptedAlgorithms"@) =~= "pubkeyacceptedalgorithms"@);
}

proof fn lemma_lower_forwardagent()
    ensures
        lower("ForwardAgent"@) == "forwardagent"@,
{
    reveal_strlit("ForwardAgent");
    reveal_strlit("forwardagent");
    assert(lower("ForwardAgent"@) =~= "forwardagent"@);
}

proof fn lemma_lower_tag()
    ensures
        lower("Tag"@) == "tag"@,
{
    reveal_strlit("Tag");
    reveal_strlit("tag");
    assert(lower("Tag"@) =~= "tag"@);
}

proof fn lemma_lower_host()
    ensures
        lower("Host"@) == "host"@,
{
    reveal_strlit("Host");
    reveal_strlit("host");
    assert(lower("Host"@) =~= "host"@);
}

/// What each directive with a place of its own does to an entry.
proof fn lemma_known_directives(e: HostView, v: Seq<char>)
    ensures
        with_directive(e, "HostName"@, v) == Some(HostView { hostname: Some(v), ..e }),
        with_directive(e, "User"@, v) == Some(HostView { user: Some(v), ..e }),
        with_directive(e, "ProxyJump"@, v) == Some(HostView { proxy_jump: Some(v), ..e }),
        with_directive(e, "IdentityFile"@, v) == Some(HostView { identity_files: e.identity_files.push(v), ..e }),
        with_directive(e, "LocalForward"@, v) == Some(HostView { local_forwards: e.local_forwards.push(v), ..e }),
        with_directive(e, "RemoteForward"@, v) == Some(HostView { remote_forwards: e.remote_forwards.push(v), ..e }),
        with_directive(e, "StrictHostKeyChecking"@, v) == Some(HostView { strict_host_key_checking: Some(v), ..e }),
        with_directive(e, "UserKnownHostsFile"@, v) == Some(HostView { user_known_hosts_file: Some(v), ..e }),
        with_directive(e, "HostKeyAlgorithms"@, v) == Some(HostView { host_key_algorithms: Some(v), ..e }),
        with_directive(e, "PubkeyAcceptedAlgorithms"@, v) == Some(HostView { pubkey_accepted_algorithms: Some(v), ..e }),
        with_directive(e, "ForwardAgent"@, v) == Some(HostView { forward_agent: Some(v), ..e }),
        with_directive(e, "Tag"@, v) == Some(HostView { tag: Some(v), ..e }),
        with_directive(e, "Port"@, v) == (match parse_unsigned(v, 65535) {
            Some(n) => Some(HostView { port: Some(n as u16), ..e }),
            None => None,
        }),
{
    lemma_lower_hostname();
    lemma_lower_user();
    lemma_lower_proxyjump();
    lemma_lower_identityfile();
    lemma_lower_localforward();
    lemma_lower_remoteforward();
    lemma_lower_stricthostkeychecking();
    lemma_lower_userknownhostsfile();
    lemma_lower_hostkeyalgorithms();
    lemma_lower_pubkeyacceptedalgorithms();
    lemma_lower_forwardagent();
    lemma_lower_tag();
    lemma_lower_port();
    reveal_strlit("hostname");
    assert("hostname"@.len() == 8);
    reveal_strlit("user");
    assert("user"@.len() == 4);
    reveal_strlit("proxyjump");
    assert("proxyjump"@.len() == 9);
    reveal_strlit("identityfile");
    assert("identityfile"@.len() == 12);
    reveal_strlit("localforward");
    assert("localforward"@.len() == 12);
    reveal_strlit("remoteforward");
    assert("remoteforward"@.len() == 13);
    reveal_strlit("stricthostkeychecking");
    assert("stricthostkeychecking"@.len() == 21);
    reveal_strlit("userknownhostsfile");
    assert("userknownhostsfile"@.len() == 18);
    reveal_strlit("hostkeyalgorithms");
    assert("hostkeyalgorithms"@.len() == 17);
    reveal_strlit("pubkeyacceptedalgorithms");
    assert("pubkeyacceptedalgorithms"@.len() == 24);
    reveal_strlit("forwardagent");
    assert("forwardagent"@.len() == 12);
    reveal_strlit("tag");
    assert("tag"@.len() == 3);
    reveal_strlit("port");
    assert("port"@.len() == 4);
    assert("user"@[0] != "port"@[0]);
    assert("identityfile"@[0] != "localforward"@[0]);
    assert("identityfile"@[0] != "forwardagent"@[0]);
    assert("localforward"@[0] != "forwardagent"@[0]);
}

/// A directive without a place of its own is kept as it is.
proof fn lemma_other_directive(e: HostView, d: (Seq<char>, Seq<char>))
    requires
        !is_known_key(d.0),
    ensures
        with_directive(e, d.0, d.1) == Some(
            HostView { extra_options: e.extra_options.push(d), ..e },
        ),
{
    lemma_lower_hostname();
    lemma_lower_user();
    lemma_lower_proxyjump();
    lemma_lower_identityfile();
    lemma_lower_localforward();
    lemma_lower_remoteforward();
    lemma_lower_stricthostkeychecking();
    lemma_lower_userknownhostsfile();
    lemma_lower_hostkeyalgorithms();
    lemma_lower_pubkeyacceptedalgorithms();
    lemma_lower_forwardagent();
    lemma_lower_tag();
    lemma_lower_port();
}

// ---------------------------------------------------------------------------
// Entries
// ---------------------------------------------------------------------------

pub open spec fn is_value_if_any(v: Option<Seq<char>>) -> bool {
    v matches Some(x) ==> is_value(x)
}

pub open spec fn are_values(vs: Seq<Seq<char>>) -> bool {
    forall|i: int| 0 <= i < vs.len() ==> is_value(#[trigger] vs[i])
}

/// An entry whose values can be written each on a line of its own: it has a pattern, patterns
/// are words, and an extra option has a name that no other directive has.
pub open spec fn is_writable(e: HostView) -> bool {
    &&& e.host_patterns.len() > 0
    &&& all_words(e.host_patterns)
    &&& has_values(e)
}

pub open spec fn has_values(e: HostView) -> bool {
    &&& is_value_if_any(e.hostname)
    &&& is_value_if_any(e.user)
    &&& is_value_if_any(e.proxy_jump)
    &&& are_values(e.identity_files)
    &&& are_values(e.local_forwards)
    &&& are_values(e.remote_forwards)
    &&& is_value_if_any(e.strict_host_key_checking)
    &&& is_value_if_any(e.user_known_hosts_file)
    &&& is_value_if_any(e.host_key_algorithms)
    &&& is_value_if_any(e.pubkey_accepted_algorithms)
    &&& is_value_if_any(e.forward_agent)
    &&& is_value_if_any(e.tag)
    &&& forall|i: int|
        0 <= i < e.extra_options.len() ==> is_extra(#[trigger] e.extra_options[i])
}

pub open spec fn is_extra(d: (Seq<char>, Seq<char>)) -> bool {
    is_word(d.0) && d.0[0] != '#' && is_value(d.1) && !is_known_key(d.0)
}

proof fn lemma_one_directive(e: HostView, d: (Seq<char>, Seq<char>))
    ensures
        read_directives(e, seq![d]) == with_directive(e, d.0, d.1),
        read_directives(e, Seq::empty()) == Some(e),
{
    assert(seq![d].drop_last() =~= Seq::<(Seq<char>, Seq<char>)>::empty());
    assert(read_directives(e, seq![d].drop_last()) == Some(e));
}

proof fn lemma_extras_are_read(e: HostView, ds: Seq<(Seq<char>, Seq<char>)>)
    requires
        forall|i: int| 0 <= i < ds.len() ==> !is_known_key((#[trigger] ds[i]).0),
    ensures
        read_directives(e, ds) == Some(
            HostView { extra_options: e.extra_options + ds, ..e },
        ),
    decreases ds.len(),
{
    if ds.len() == 0 {
        assert(e.extra_options + ds =~= e.extra_options);
    } else {
        let head = ds.drop_last();
        assert forall|i: int| 0 <= i < head.len() implies !is_known_key((#[trigger] head[i]).0) by {
            assert(head[i] == ds[i]);
        }
        lemma_extras_are_read(e, head);
        let x = HostView { extra_options: e.extra_options + head, ..e };
        assert(!is_known_key(ds[ds.len() - 1].0));
        lemma_other_directive(x, ds.last());
        assert((e.extra_options + head).push(ds.last()) =~= e.extra_options + ds);
    }
}

proof fn lemma_identity_files_are_read(e: HostView, vs: Seq<Seq<char>>)
    ensures
        read_directives(e, directive_each("IdentityFile"@, vs)) == Some(
            HostView { identity_files: e.identity_files + vs, ..e },
        ),
    decreases vs.len(),
{
    let ds = directive_each("IdentityFile"@, vs);
    if vs.len() == 0 {
        assert(e.identity_files + vs =~= e.identity_files);
    } else {
        let head = vs.drop_last();
        assert(ds.drop_last() =~= directive_each("IdentityFile"@, head));
        lemma_identity_files_are_read(e, head);
        let x = HostView { identity_files: e.identity_files + head, ..e };
        lemma_known_directives(x, vs.last());
        assert((e.identity_files + head).push(vs.last()) =~= e.identity_files + vs);
    }
}

proof fn lemma_local_forwards_are_read(e: HostView, vs: Seq<Seq<char>>)
    ensures
        read_directives(e, directive_each("LocalForward"@, vs)) == Some(
            HostView { local_forwards: e.local_forwards + vs, ..e },
        ),
    decreases vs.len(),
{
    let ds = directive_each("LocalForward"@, vs);
    if vs.len() == 0 {
        assert(e.local_forwards + vs =~= e.local_forwards);
    } else {
        let head = vs.drop_last();
        assert(ds.drop_last() =~= directive_each("LocalForward"@, head));
        lemma_local_forwards_are_read(e, head);
        let x = HostView { local_forwards: e.local_forwards + head, ..e };
        lemma_known_directives(x, vs.last());
        assert((e.local_forwards + head).push(vs.last()) =~= e.local_forwards + vs);
    }
}

proof fn lemma_remote_forwards_are_read(e: HostView, vs: Seq<Seq<char>>)
    ensures
        read_directives(e, directive_each("RemoteForward"@, vs)) == Some(
            HostView { remote_forwards: e.remote_forwards + vs, ..e },
        ),
    decreases vs.len(),
{
    let ds = directive_each("RemoteForward"@, vs);
    if vs.len() == 0 {
        assert(e.remote_forwards + vs =~= e.remote_forwards);
    } else {
        let head = vs.drop_last();
        assert(ds.drop_last() =~= directive_each("RemoteForward"@, head));
        lemma_remote_forwards_are_read(e, head);
        let x = HostView { remote_forwards: e.remote_forwards + head, ..e };
        lemma_known_directives(x, vs.last());
        assert((e.remote_forwards + head).push(vs.last()) =~= e.remote_forwards + vs);
    }
}

proof fn lemma_joined_patterns(ws: Seq<Seq<char>>)
    requires
        ws.len() > 0,
        all_words(ws),
    ensures
        is_value(join(ws, " "@)),
    decreases ws.len(),
{
    reveal_strlit(" ");
    assert(" "@ =~= seq![' ']);
    let text = join(ws, " "@);
    let w = ws.last();
    assert(w == ws[ws.len() - 1]);
    assert(!w.contains('\n')) by {
        if w.contains('\n') {
            let i = choose|i: int| 0 <= i < w.len() && w[i] == '\n';
            assert(!is_ws(w[i]));
        }
    }
    assert(!is_ws(w[0]) && !is_ws(w[w.len() - 1]));
    if ws.len() > 1 {
        let head = ws.drop_last();
        assert forall|i: int| 0 <= i < head.len() implies is_word(#[trigger] head[i]) by {
            assert(head[i] == ws[i]);
        }
        lemma_joined_patterns(head);
        let before = join(head, " "@);
        assert(text[0] == before[0]);
        assert(text.last() == w.last());
        assert(!text.contains('\n')) by {
            if text.contains('\n') {
                let i = choose|i: int| 0 <= i < text.len() && text[i] == '\n';
                if i < before.len() {
                    assert(before[i] == '\n');
                } else if i > before.len() {
                    assert(w[i - before.len() - 1] == '\n');
                }
            }
        }
    }
}

/// The directives behind the line of the patterns.
pub open spec fn body_directives(e: HostView) -> Seq<(Seq<char>, Seq<char>)> {
    address_directives(e) + list_directives(e) + trust_directives(e) + e.extra_options
}

pub open spec fn address_directives(e: HostView) -> Seq<(Seq<char>, Seq<char>)> {
    directive_if("HostName"@, e.hostname) + directive_if("User"@, e.user) + directive_if("Port"@, port_text(e.port)) + directive_if("ProxyJump"@, e.proxy_jump)
}

pub open spec fn list_directives(e: HostView) -> Seq<(Seq<char>, Seq<char>)> {
    directive_each("IdentityFile"@, e.identity_files) + directive_each("LocalForward"@, e.local_forwards) + directive_each("RemoteForward"@, e.remote_forwards)
}

pub open spec fn trust_directives(e: HostView) -> Seq<(Seq<char>, Seq<char>)> {
    directive_if("StrictHostKeyChecking"@, e.strict_host_key_checking) + directive_if("UserKnownHostsFile"@, e.user_known_hosts_file) + directive_if("HostKeyAlgorithms"@, e.host_key_algorithms) + directive_if("PubkeyAcceptedAlgorithms"@, e.pubkey_accepted_algorithms) + directive_if("ForwardAgent"@, e.forward_agent) + directive_if("Tag"@, e.tag)
}

pub proof fn lemma_all_directives(e: HostView)
    ensures
        directives_of(e) == seq![("Host"@, join(e.host_patterns, " "@))] + body_directives(e),
{
    let h = seq![("Host"@, join(e.host_patterns, " "@))];
    let hostname = directive_if("HostName"@, e.hostname);
    let user = directive_if("User"@, e.user);
    let port = directive_if("Port"@, port_text(e.port));
    let jump = directive_if("ProxyJump"@, e.proxy_jump);
    lemma_appended(h, hostname, user);
    lemma_appended(h, hostname + user, port);
    lemma_appended(h, hostname + user + port, jump);
    let a = address_directives(e);
    let files = directive_each("IdentityFile"@, e.identity_files);
    let local = directive_each("LocalForward"@, e.local_forwards);
    let remote = directive_each("RemoteForward"@, e.remote_forwards);
    lemma_appended(h + a, files, local);
    lemma_appended(h + a, files + local, remote);
    let l = list_directives(e);
    lemma_appended(h, a, l);
    let strict = directive_if("StrictHostKeyChecking"@, e.strict_host_key_checking);
    let known = directive_if("UserKnownHostsFile"@, e.user_known_hosts_file);
    let keys = directive_if("HostKeyAlgorithms"@, e.host_key_algorithms);
    let pubkeys = directive_if("PubkeyAcceptedAlgorithms"@, e.pubkey_accepted_algorithms);
    let agent = directive_if("ForwardAgent"@, e.forward_agent);
    let tag = directive_if("Tag"@, e.tag);
    let hal = h + (a + l);
    lemma_appended(hal, strict, known);
    lemma_appended(hal, strict + known, keys);
    lemma_appended(hal, strict + known + keys, pubkeys);
    lemma_appended(hal, strict + known + keys + pubkeys, agent);
    lemma_appended(hal, strict + known + keys + pubkeys + agent, tag);
    let t = trust_directives(e);
    lemma_appended(h, a + l, t);
    lemma_appended(h, a + l + t, e.extra_options);
}

proof fn lemma_appended<A>(a: Seq<A>, b: Seq<A>, c: Seq<A>)
    ensures
        a + b + c == a + (b + c),
{
    assert(a + b + c =~= a + (b + c));
}

proof fn lemma_hostname_is_read(x: HostView, e: HostView)
    requires
        x.hostname is None,
    ensures
        read_directives(x, directive_if("HostName"@, e.hostname)) == Some(HostView { hostname: e.hostname, ..x }),
{
    match e.hostname {
        Some(v) => {
            lemma_one_directive(x, ("HostName"@, v));
            lemma_known_directives(x, v);
        },
        None => {
            lemma_one_directive(x, ("HostName"@, Seq::empty()));
        },
    }
}

proof fn lemma_user_is_read(x: HostView, e: HostView)
    requires
        x.user is None,
    ensures
        read_directives(x, directive_if("User"@, e.user)) == Some(HostView { user: e.user, ..x }),
{
    match e.user {
        Some(v) => {
            lemma_one_directive(x, ("User"@, v));
            lemma_known_directives(x, v);
        },
        None => {
            lemma_one_directive(x, ("User"@, Seq::empty()));
        },
    }
}

proof fn lemma_port_is_read(x: HostView, e: HostView)
    requires
        x.port is None,
    ensures
        read_directives(x, directive_if("Port"@, port_text(e.port))) == Some(HostView { port: e.port, ..x }),
{
    match port_text(e.port) {
        Some(v) => {
            lemma_one_directive(x, ("Port"@, v));
            lemma_known_directives(x, v);
            law_decimal_is_parsed(e.port->0 as nat, 65535);
        },
        None => {
            lemma_one_directive(x, ("Port"@, Seq::empty()));
        },
    }
}

proof fn lemma_proxy_jump_is_read(x: HostView, e: HostView)
    requires
        x.proxy_jump is None,
    ensures
        read_directives(x, directive_if("ProxyJump"@, e.proxy_jump)) == Some(HostView { proxy_jump: e.proxy_jump, ..x }),
{
    match e.proxy_jump {
        Some(v) => {
            lemma_one_directive(x, ("ProxyJump"@, v));
            lemma_known_directives(x, v);
        },
        None => {
            lemma_one_directive(x, ("ProxyJump"@, Seq::empty()));
        },
    }
}

proof fn lemma_strict_host_key_checking_is_read(x: HostView, e: HostView)
    requires
        x.strict_host_key_checking is None,
    ensures
        read_directives(x, directive_if("StrictHostKeyChecking"@, e.strict_host_key_checking)) == Some(HostView { strict_host_key_checking: e.strict_host_key_checking, ..x }),
{
    match e.strict_host_key_checking {
        Some(v) => {
            lemma_one_directive(x, ("StrictHostKeyChecking"@, v));
            lemma_known_directives(x, v);
        },
        None => {
            lemma_one_directive(x, ("StrictHostKeyChecking"@, Seq::empty()));
        },
    }
}

proof fn lemma_user_known_hosts_file_is_read(x: HostView, e: HostView)
    requires
        x.user_known_hosts_file is None,
    ensures
        read_directives(x, directive_if("UserKnownHostsFile"@, e.user_known_hosts_file)) == Some(HostView { user_known_hosts_file: e.user_known_hosts_file, ..x }),
{
    match e.user_known_hosts_file {
        Some(v) => {
            lemma_one_directive(x, ("UserKnownHostsFile"@, v));
            lemma_known_directives(x, v);
        },
        None => {
            lemma_one_directive(x, ("UserKnownHostsFile"@, Seq::empty()));
        },
    }
}

proof fn lemma_host_key_algorithms_is_read(x: HostView, e: HostView)
    requires
        x.host_key_algorithms is None,
    ensures
        read_directives(x, directive_if("HostKeyAlgorithms"@, e.host_key_algorithms)) == Some(HostView { host_key_algorithms: e.host_key_algorithms, ..x }),
{
    match e.host_key_algorithms {
        Some(v) => {
            lemma_one_directive(x, ("HostKeyAlgorithms"@, v));
            lemma_known_directives(x, v);
        },
        None => {
            lemma_one_directive(x, ("HostKeyAlgorithms"@, Seq::empty()));
        },
    }
}

proof fn lemma_pubkey_accepted_algorithms_is_read(x: HostView, e: HostView)
    requires
        x.pubkey_accepted_algorithms is None,
    ensures
        read_directives(x, directive_if("PubkeyAcceptedAlgorithms"@, e.pubkey_accepted_algorithms)) == Some(HostView { pubkey_accepted_algorithms: e.pubkey_accepted_algorithms, ..x }),
{
    match e.pubkey_accepted_algorithms {
        Some(v) => {
            lemma_one_directive(x, ("PubkeyAcceptedAlgorithms"@, v));
            lemma_known_directives(x, v);
        },
        None => {
            lemma_one_directive(x, ("PubkeyAcceptedAlgorithms"@, Seq::empty()));
        },
    }
}

proof fn lemma_forward_agent_is_read(x: HostView, e: HostView)
    requires
        x.forward_agent is None,
    ensures
        read_directives(x, directive_if("ForwardAgent"@, e.forward_agent)) == Some(HostView { forward_agent: e.forward_agent, ..x }),
{
    match e.forward_agent {
        Some(v) => {
            lemma_one_directive(x, ("ForwardAgent"@, v));
            lemma_known_directives(x, v);
        },
        None => {
            lemma_one_directive(x, ("ForwardAgent"@, Seq::empty()));
        },
    }
}

proof fn lemma_tag_is_read(x: HostView, e: HostView)
    requires
        x.tag is None,
    ensures
        read_directives(x, directive_if("Tag"@, e.tag)) == Some(HostView { tag: e.tag, ..x }),
{
    match e.tag {
        Some(v) => {
            lemma_one_directive(x, ("Tag"@, v));
            lemma_known_directives(x, v);
        },
        None => {
            lemma_one_directive(x, ("Tag"@, Seq::empty()));
        },
    }
}

proof fn lemma_address_directives_are_read(x: HostView, e: HostView)
    requires
        x.hostname is None,
        x.user is None,
        x.port is None,
        x.proxy_jump is None,
    ensures
        read_directives(x, address_directives(e)) == Some(HostView { hostname: e.hostname, user: e.user, port: e.port, proxy_jump: e.proxy_jump, ..x }),
{
    lemma_hostname_is_read(x, e);
    let x0 = HostView { hostname: e.hostname, ..x };
    let d0 = directive_if("HostName"@, e.hostname);
    assert(read_directives(x, d0) == Some(x0));
    lemma_user_is_read(x0, e);
    let x1 = HostView { user: e.user, ..x0 };
    lemma_read_directives_append(x, d0, directive_if("User"@, e.user));
    let d1 = d0 + directive_if("User"@, e.user);
    assert(read_directives(x, d1) == Some(x1));
    lemma_port_is_read(x1, e);
    let x2 = HostView { port: e.port, ..x1 };
    lemma_read_directives_append(x, d1, directive_if("Port"@, port_text(e.port)));
    let d2 = d1 + directive_if("Port"@, port_text(e.port));
    assert(read_directives(x, d2) == Some(x2));
    lemma_proxy_jump_is_read(x2, e);
    let x3 = HostView { proxy_jump: e.proxy_jump, ..x2 };
    lemma_read_directives_append(x, d2, directive_if("ProxyJump"@, e.proxy_jump));
    let d3 = d2 + directive_if("ProxyJump"@, e.proxy_jump);
    assert(read_directives(x, d3) == Some(x3));
}

proof fn lemma_list_directives_are_read(x: HostView, e: HostView)
    requires
        x.identity_files.len() == 0,
        x.local_forwards.len() == 0,
        x.remote_forwards.len() == 0,
    ensures
        read_directives(x, list_directives(e)) == Some(HostView { identity_files: e.identity_files, local_forwards: e.local_forwards, remote_forwards: e.remote_forwards, ..x }),
{
    lemma_identity_files_are_read(x, e.identity_files);
    assert(x.identity_files + e.identity_files =~= e.identity_files);
    let x0 = HostView { identity_files: e.identity_files, ..x };
    let d0 = directive_each("IdentityFile"@, e.identity_files);
    assert(read_directives(x, d0) == Some(x0));
    lemma_local_forwards_are_read(x0, e.local_forwards);
    assert(x0.local_forwards + e.local_forwards =~= e.local_forwards);
    let x1 = HostView { local_forwards: e.local_forwards, ..x0 };
    lemma_read_directives_append(x, d0, directive_each("LocalForward"@, e.local_forwards));
    let d1 = d0 + directive_each("LocalForward"@, e.local_forwards);
    assert(read_directives(x, d1) == Some(x1));
    lemma_remote_forwards_are_read(x1, e.remote_forwards);
    assert(x1.remote_forwards + e.remote_forwards =~= e.remote_forwards);
    let x2 = HostView { remote_forwards: e.remote_forwards, ..x1 };
    lemma_read_directives_append(x, d1, directive_each("RemoteForward"@, e.remote_forwards));
    let d2 = d1 + directive_each("RemoteForward"@, e.remote_forwards);
    assert(read_directives(x, d2) == Some(x2));
}

proof fn lemma_trust_directives_are_read(x: HostView, e: HostView)
    requires
        x.strict_host_key_checking is None,
        x.user_known_hosts_file is None,
        x.host_key_algorithms is None,
        x.pubkey_accepted_algorithms is None,
        x.forward_agent is None,
        x.tag is None,
    ensures
        read_directives(x, trust_directives(e)) == Some(HostView { strict_host_key_checking: e.strict_host_key_checking, user_known_hosts_file: e.user_known_hosts_file, host_key_algorithms: e.host_key_algorithms, pubkey_accepted_algorithms: e.pubkey_accepted_algorithms, forward_agent: e.forward_agent, tag: e.tag, ..x }),
{
    lemma_strict_host_key_checking_is_read(x, e);
    let x0 = HostView { strict_host_key_checking: e.strict_host_key_checking, ..x };
    let d0 = directive_if("StrictHostKeyChecking"@, e.strict_host_key_checking);
    assert(read_directives(x, d0) == Some(x0));
    lemma_user_known_hosts_file_is_read(x0, e);
    let x1 = HostView { user_known_hosts_file: e.user_known_hosts_file, ..x0 };
    lemma_read_directives_append(x, d0, directive_if("UserKnownHostsFile"@, e.user_known_hosts_file));
    let d1 = d0 + directive_if("UserKnownHostsFile"@, e.user_known_hosts_file);
    assert(read_directives(x, d1) == Some(x1));
    lemma_host_key_algorithms_is_read(x1, e);
    let x2 = HostView { host_key_algorithms: e.host_key_algorithms, ..x1 };
    lemma_read_directives_append(x, d1, directive_if("HostKeyAlgorithms"@, e.host_key_algorithms));
    let d2 = d1 + directive_if("HostKeyAlgorithms"@, e.host_key_algorithms);
    assert(read_directives(x, d2) == Some(x2));
    lemma_pubkey_accepted_algorithms_is_read(x2, e);
    let x3 = HostView { pubkey_accepted_algorithms: e.pubkey_accepted_algorithms, ..x2 };
    lemma_read_directives_append(x, d2, directive_if("PubkeyAcceptedAlgorithms"@, e.pubkey_accepted_algorithms));
    let d3 = d2 + directive_if("PubkeyAcceptedAlgorithms"@, e.pubkey_accepted_algorithms);
    assert(read_directives(x, d3) == Some(x3));
    lemma_forward_agent_is_read(x3, e);
    let x4 = HostView { forward_agent: e.forward_agent, ..x3 };
    lemma_read_directives_append(x, d3, directive_if("ForwardAgent"@, e.forward_agent));
    let d4 = d3 + directive_if("ForwardAgent"@, e.forward_agent);
    assert(read_directives(x, d4) == Some(x4));
    lemma_tag_is_read(x4, e);
    let x5 = HostView { tag: e.tag, ..x4 };
    lemma_read_directives_append(x, d4, directive_if("Tag"@, e.tag));
    let d5 = d4 + directive_if("Tag"@, e.tag);
    assert(read_directives(x, d5) == Some(x5));
}

proof fn lemma_body_is_read(e: HostView)
    requires
        is_writable(e),
    ensures
        read_directives(
            HostView { host_patterns: e.host_patterns, ..empty_host() },
            body_directives(e),
        ) == Some(e),
{
    let x = HostView { host_patterns: e.host_patterns, ..empty_host() };
    lemma_address_directives_are_read(x, e);
    let a = read_directives(x, address_directives(e))->0;
    lemma_list_directives_are_read(a, e);
    lemma_read_directives_append(x, address_directives(e), list_directives(e));
    let b = read_directives(a, list_directives(e))->0;
    lemma_trust_directives_are_read(b, e);
    let ab = address_directives(e) + list_directives(e);
    lemma_read_directives_append(x, ab, trust_directives(e));
    let c = read_directives(b, trust_directives(e))->0;
    let abc = ab + trust_directives(e);
    lemma_read_directives_append(x, abc, e.extra_options);
    assert forall|i: int| 0 <= i < e.extra_options.len() implies !is_known_key(
        (#[trigger] e.extra_options[i]).0,
    ) by {
        assert(is_extra(e.extra_options[i]));
    }
    lemma_extras_are_read(c, e.extra_options);
    assert(c.extra_options + e.extra_options =~= e.extra_options);
    assert(read_directives(x, body_directives(e)) == Some(
        HostView { extra_options: e.extra_options, ..c },
    ));
    assert(HostView { extra_options: e.extra_options, ..c } == e);
}

/// The names of the directives can stand before a value.
proof fn lemma_names_are_keys(v: Seq<char>)
    requires
        is_value(v),
    ensures
        is_directive_text(("HostName"@, v)),
        is_directive_text(("User"@, v)),
        is_directive_text(("Port"@, v)),
        is_directive_text(("ProxyJump"@, v)),
        is_directive_text(("IdentityFile"@, v)),
        is_directive_text(("LocalForward"@, v)),
        is_directive_text(("RemoteForward"@, v)),
        is_directive_text(("StrictHostKeyChecking"@, v)),
        is_directive_text(("UserKnownHostsFile"@, v)),
        is_directive_text(("HostKeyAlgorithms"@, v)),
        is_directive_text(("PubkeyAcceptedAlgorithms"@, v)),
        is_directive_text(("ForwardAgent"@, v)),
        is_directive_text(("Tag"@, v)),
{
    lemma_lower_host();
    reveal_strlit("host");
    lemma_lower_hostname();
    reveal_strlit("HostName");
    reveal_strlit("hostname");
    assert("hostname"@.len() == 8);
    lemma_lower_user();
    reveal_strlit("User");
    reveal_strlit("user");
    assert("user"@.len() == 4);
    lemma_lower_port();
    reveal_strlit("Port");
    reveal_strlit("port");
    assert("port"@.len() == 4);
    lemma_lower_proxyjump();
    reveal_strlit("ProxyJump");
    reveal_strlit("proxyjump");
    assert("proxyjump"@.len() == 9);
    lemma_lower_identityfile();
    reveal_strlit("IdentityFile");
    reveal_strlit("identityfile");
    assert("identityfile"@.len() == 12);
    lemma_lower_localforward();
    reveal_strlit("LocalForward");
    reveal_strlit("localforward");
    assert("localforward"@.len() == 12);
    lemma_lower_remoteforward();
    reveal_strlit("RemoteForward");
    reveal_strlit("remoteforward");
    assert("remoteforward"@.len() == 13);
    lemma_lower_stricthostkeychecking();
    reveal_strlit("StrictHostKeyChecking");
    reveal_strlit("stricthostkeychecking");
    assert("stricthostkeychecking"@.len() == 21);
    lemma_lower_userknownhostsfile();
    reveal_strlit("UserKnownHostsFile");
    reveal_strlit("userknownhostsfile");
    assert("userknownhostsfile"@.len() == 18);
    lemma_lower_hostkeyalgorithms();
    reveal_strlit("HostKeyAlgorithms");
    reveal_strlit("hostkeyalgorithms");
    assert("hostkeyalgorithms"@.len() == 17);
    lemma_lower_pubkeyacceptedalgorithms();
    reveal_strlit("PubkeyAcceptedAlgorithms");
    reveal_strlit("pubkeyacceptedalgorithms");
    assert("pubkeyacceptedalgorithms"@.len() == 24);
    lemma_lower_forwardagent();
    reveal_strlit("ForwardAgent");
    reveal_strlit("forwardagent");
    assert("forwardagent"@.len() == 12);
    lemma_lower_tag();
    reveal_strlit("Tag");
    reveal_strlit("tag");
    assert("tag"@.len() == 3);
    assert("user"@[0] != "host"@[0]);
    assert("port"@[0] != "host"@[0]);
}

pub open spec fn all_texts(ds: Seq<(Seq<char>, Seq<char>)>) -> bool {
    forall|i: int| 0 <= i < ds.len() ==> is_directive_text(#[trigger] ds[i])
}

proof fn lemma_all_texts_append(a: Seq<(Seq<char>, Seq<char>)>, b: Seq<(Seq<char>, Seq<char>)>)
    requires
        all_texts(a),
        all_texts(b),
    ensures
        all_texts(a + b),
{
    assert forall|i: int| 0 <= i < (a + b).len() implies is_directive_text(
        #[trigger] (a + b)[i],
    ) by {
        if i < a.len() {
            assert((a + b)[i] == a[i]);
        } else {
            assert((a + b)[i] == b[i - a.len()]);
        }
    }
}

proof fn lemma_if_is_text(key: Seq<char>, v: Option<Seq<char>>)
    requires
        v matches Some(x) ==> is_directive_text((key, x)),
    ensures
        all_texts(directive_if(key, v)),
{
}

proof fn lemma_each_is_text(key: Seq<char>, vs: Seq<Seq<char>>)
    requires
        forall|i: int| 0 <= i < vs.len() ==> is_directive_text((key, #[trigger] vs[i])),
    ensures
        all_texts(directive_each(key, vs)),
{
    let ds = directive_each(key, vs);
    assert forall|i: int| 0 <= i < ds.len() implies is_directive_text(#[trigger] ds[i]) by {
        assert(is_directive_text((key, vs[i])));
    }
}

proof fn lemma_hostname_can_be_written(e: HostView)
    requires
        is_writable(e),
    ensures
        all_texts(directive_if("HostName"@, e.hostname)),
{
    match e.hostname {
        Some(v) => lemma_names_are_keys(v),
        None => {},
    }
    lemma_if_is_text("HostName"@, e.hostname);
}

proof fn lemma_user_can_be_written(e: HostView)
    requires
        is_writable(e),
    ensures
        all_texts(directive_if("User"@, e.user)),
{
    match e.user {
        Some(v) => lemma_names_are_keys(v),
        None => {},
    }
    lemma_if_is_text("User"@, e.user);
}

proof fn lemma_port_can_be_written(e: HostView)
    requires
        is_writable(e),
    ensures
        all_texts(directive_if("Port"@, port_text(e.port))),
{
    match e.port {
        Some(p) => {
            law_decimal_is_parsed(p as nat, 65535);
            lemma_word_is_value(decimal(p as nat));
            lemma_names_are_keys(decimal(p as nat));
        },
        None => {},
    }
    lemma_if_is_text("Port"@, port_text(e.port));
}

proof fn lemma_proxy_jump_can_be_written(e: HostView)
    requires
        is_writable(e),
    ensures
        all_texts(directive_if("ProxyJump"@, e.proxy_jump)),
{
    match e.proxy_jump {
        Some(v) => lemma_names_are_keys(v),
        None => {},
    }
    lemma_if_is_text("ProxyJump"@, e.proxy_jump);
}

proof fn lemma_identity_files_can_be_written(e: HostView)
    requires
        is_writable(e),
    ensures
        all_texts(directive_each("IdentityFile"@, e.identity_files)),
{
    assert forall|i: int| 0 <= i < e.identity_files.len() implies is_directive_text(
        ("IdentityFile"@, #[trigger] e.identity_files[i]),
    ) by {
        assert(is_value(e.identity_files[i]));
        lemma_names_are_keys(e.identity_files[i]);
    }
    lemma_each_is_text("IdentityFile"@, e.identity_files);
}

proof fn lemma_local_forwards_can_be_written(e: HostView)
    requires
        is_writable(e),
    ensures
        all_texts(directive_each("LocalForward"@, e.local_forwards)),
{
    assert forall|i: int| 0 <= i < e.local_forwards.len() implies is_directive_text(
        ("LocalForward"@, #[trigger] e.local_forwards[i]),
    ) by {
        assert(is_value(e.local_forwards[i]));
        lemma_names_are_keys(e.local_forwards[i]);
    }
    lemma_each_is_text("LocalForward"@, e.local_forwards);
}

proof fn lemma_remote_forwards_can_be_written(e: HostView)
    requires
        is_writable(e),
    ensures
        all_texts(directive_each("RemoteForward"@, e.remote_forwards)),
{
    assert forall|i: int| 0 <= i < e.remote_forwards.len() implies is_directive_text(
        ("RemoteForward"@, #[trigger] e.remote_forwards[i]),
    ) by {
        assert(is_value(e.remote_forwards[i]));
        lemma_names_are_keys(e.remote_forwards[i]);
    }
    lemma_each_is_text("RemoteForward"@, e.remote_forwards);
}

proof fn lemma_strict_host_key_checking_can_be_written(e: HostView)
    requires
        is_writable(e),
    ensures
        all_texts(directive_if("StrictHostKeyChecking"@, e.strict_host_key_checking)),
{
    match e.strict_host_key_checking {
        Some(v) => lemma_names_are_keys(v),
        None => {},
    }
    lemma_if_is_text("StrictHostKeyChecking"@, e.strict_host_key_checking);
}

proof fn lemma_user_known_hosts_file_can_be_written(e: HostView)
    requires
        is_writable(e),
    ensures
        all_texts(directive_if("UserKnownHostsFile"@, e.user_known_hosts_file)),
{
    match e.user_known_hosts_file {
        Some(v) => lemma_names_are_keys(v),
        None => {},
    }
    lemma_if_is_text("UserKnownHostsFile"@, e.user_known_hosts_file);
}

proof fn lemma_host_key_algorithms_can_be_written(e: HostView)
    requires
        is_writable(e),
    ensures
        all_texts(directive_if("HostKeyAlgorithms"@, e.host_key_algorithms)),
{
    match e.host_key_algorithms {
        Some(v) => lemma_names_are_keys(v),
        None => {},
    }
    lemma_if_is_text("HostKeyAlgorithms"@, e.host_key_algorithms);
}

proof fn lemma_pubkey_accepted_algorithms_can_be_written(e: HostView)
    requires
        is_writable(e),
    ensures
        all_texts(directive_if("PubkeyAcceptedAlgorithms"@, e.pubkey_accepted_algorithms)),
{
    match e.pubkey_accepted_algorithms {
        Some(v) => lemma_names_are_keys(v),
        None => {},
    }
    lemma_if_is_text("PubkeyAcceptedAlgorithms"@, e.pubkey_accepted_algorithms);
}

proof fn lemma_forward_agent_can_be_written(e: HostView)
    requires
        is_writable(e),
    ensures
        all_texts(directive_if("ForwardAgent"@, e.forward_agent)),
{
    match e.forward_agent {
        Some(v) => lemma_names_are_keys(v),
        None => {},
    }
    lemma_if_is_text("ForwardAgent"@, e.forward_agent);
}

proof fn lemma_tag_can_be_written(e: HostView)
    requires
        is_writable(e),
    ensures
        all_texts(directive_if("Tag"@, e.tag)),
{
    match e.tag {
        Some(v) => lemma_names_are_keys(v),
        None => {},
    }
    lemma_if_is_text("Tag"@, e.tag);
}

proof fn lemma_word_is_value(w: Seq<char>)
    requires
        is_word(w),
    ensures
        is_value(w),
{
    assert(!is_ws(w[0]) && !is_ws(w[w.len() - 1]));
    if w.contains('\n') {
        let i = choose|i: int| 0 <= i < w.len() && w[i] == '\n';
        assert(!is_ws(w[i]));
    }
}

proof fn lemma_address_directives_can_be_written(e: HostView)
    requires
        is_writable(e),
    ensures
        all_texts(address_directives(e)),
{
    lemma_hostname_can_be_written(e);
    let d0 = directive_if("HostName"@, e.hostname);
    lemma_user_can_be_written(e);
    lemma_all_texts_append(d0, directive_if("User"@, e.user));
    let d1 = d0 + directive_if("User"@, e.user);
    lemma_port_can_be_written(e);
    lemma_all_texts_append(d1, directive_if("Port"@, port_text(e.port)));
    let d2 = d1 + directive_if("Port"@, port_text(e.port));
    lemma_proxy_jump_can_be_written(e);
    lemma_all_texts_append(d2, directive_if("ProxyJump"@, e.proxy_jump));
    let d3 = d2 + directive_if("ProxyJump"@, e.proxy_jump);
}

proof fn lemma_list_directives_can_be_written(e: HostView)
    requires
        is_writable(e),
    ensures
        all_texts(list_directives(e)),
{
    lemma_identity_files_can_be_written(e);
    let d0 = directive_each("IdentityFile"@, e.identity_files);
    lemma_local_forwards_can_be_written(e);
    lemma_all_texts_append(d0, directive_each("LocalForward"@, e.local_forwards));
    let d1 = d0 + directive_each("LocalForward"@, e.local_forwards);
    lemma_remote_forwards_can_be_written(e);
    lemma_all_texts_append(d1, directive_each("RemoteForward"@, e.remote_forwards));
    let d2 = d1 + directive_each("RemoteForward"@, e.remote_forwards);
}

proof fn lemma_trust_directives_can_be_written(e: HostView)
    requires
        is_writable(e),
    ensures
        all_texts(trust_directives(e)),
{
    lemma_strict_host_key_checking_can_be_written(e);
    let d0 = directive_if("StrictHostKeyChecking"@, e.strict_host_key_checking);
    lemma_user_known_hosts_file_can_be_written(e);
    lemma_all_texts_append(d0, directive_if("UserKnownHostsFile"@, e.user_known_hosts_file));
    let d1 = d0 + directive_if("UserKnownHostsFile"@, e.user_known_hosts_file);
    lemma_host_key_algorithms_can_be_written(e);
    lemma_all_texts_append(d1, directive_if("HostKeyAlgorithms"@, e.host_key_algorithms));
    let d2 = d1 + directive_if("HostKeyAlgorithms"@, e.host_key_algorithms);
    lemma_pubkey_accepted_algorithms_can_be_written(e);
    lemma_all_texts_append(d2, directive_if("PubkeyAcceptedAlgorithms"@, e.pubkey_accepted_algorithms));
    let d3 = d2 + directive_if("PubkeyAcceptedAlgorithms"@, e.pubkey_accepted_algorithms);
    lemma_forward_agent_can_be_written(e);
    lemma_all_texts_append(d3, directive_if("ForwardAgent"@, e.forward_agent));
    let d4 = d3 + directive_if("ForwardAgent"@, e.forward_agent);
    lemma_tag_can_be_written(e);
    lemma_all_texts_append(d4, directive_if("Tag"@, e.tag));
    let d5 = d4 + directive_if("Tag"@, e.tag);
}

proof fn lemma_body_can_be_written(e: HostView)
    requires
        is_writable(e),
    ensures
        all_texts(body_directives(e)),
{
    lemma_address_directives_can_be_written(e);
    lemma_list_directives_can_be_written(e);
    lemma_trust_directives_can_be_written(e);
    let ab = address_directives(e) + list_directives(e);
    let abc = ab + trust_directives(e);
    lemma_all_texts_append(address_directives(e), list_directives(e));
    lemma_all_texts_append(ab, trust_directives(e));
    assert(all_texts(e.extra_options)) by {
        assert forall|i: int| 0 <= i < e.extra_options.len() implies is_directive_text(
            #[trigger] e.extra_options[i],
        ) by {
            assert(is_extra(e.extra_options[i]));
        }
    }
    lemma_all_texts_append(abc, e.extra_options);
}

/// An entry that was written is read back as it was.
pub proof fn law_written_entry_is_read_back(path: Seq<char>, e: HostView, newline: Seq<char>)
    requires
        is_writable(e),
        is_newline(newline),
    ensures
        parse_block(path, render_directives(directives_of(e), newline), true) == Ok::<
            HostView,
            FaultView,
        >(e),
{
    let patterns = join(e.host_patterns, " "@);
    let ds = directives_of(e);
    let body = body_directives(e);
    lemma_all_directives(e);
    lemma_joined_patterns(e.host_patterns);
    law_joined_words_are_found(e.host_patterns);
    lemma_body_can_be_written(e);
    lemma_body_is_read(e);
    reveal_strlit("Host");
    assert forall|i: int| 0 <= i < ds.len() implies on_one_line(#[trigger] lines_of(ds)[i]) by {
        if i == 0 {
            lemma_directive_is_read(true, ("Host"@, patterns));
        } else {
            assert(ds[i] == body[i - 1]);
            assert(is_directive_text(body[i - 1]));
            lemma_directive_is_read(false, ds[i]);
        }
    }
    lemma_rendered_lines(ds, newline);
    lemma_block_is_read(path, patterns, body);
}

// ---------------------------------------------------------------------------
// Entries that were read
// ---------------------------------------------------------------------------

pub open spec fn no_feeds(ls: Seq<Seq<char>>) -> bool {
    forall|i: int| 0 <= i < ls.len() ==> !(#[trigger] ls[i]).contains('\n')
}

proof fn lemma_stripped_line(cur: Seq<char>)
    requires
        !cur.contains('\n'),
    ensures
        !strip_line_end(cur).contains('\n'),
        !strip_line_end(cur.push('\n')).contains('\n'),
{
    if cur.len() > 0 && cur.last() == '\n' {
        assert(cur.contains(cur[cur.len() - 1]));
    }
    assert(strip_line_end(cur) == cur);
    let t = cur.push('\n');
    assert(t.drop_last() =~= cur);
    if cur.len() > 0 && cur.last() == '\r' {
        let u = cur.drop_last();
        assert(strip_line_end(t) == u);
        if u.contains('\n') {
            let i = choose|i: int| 0 <= i < u.len() && u[i] == '\n';
            assert(cur[i] == '\n');
        }
    }
}

proof fn lemma_lines_have_no_feed(s: Seq<char>, cur: Seq<char>)
    requires
        !cur.contains('\n'),
    ensures
        no_feeds(raw_lines_from(s, cur).map_values(|l: Seq<char>| strip_line_end(l))),
    decreases s.len(),
{
    let ls = raw_lines_from(s, cur).map_values(|l: Seq<char>| strip_line_end(l));
    lemma_stripped_line(cur);
    if s.len() == 0 {
        assert forall|i: int| 0 <= i < ls.len() implies !(#[trigger] ls[i]).contains('\n') by {
            assert(ls[i] == strip_line_end(cur));
        }
    } else if s[0] == '\n' {
        lemma_lines_have_no_feed(s.skip(1), Seq::empty());
        let rest = raw_lines_from(s.skip(1), Seq::empty()).map_values(
            |l: Seq<char>| strip_line_end(l),
        );
        assert forall|i: int| 0 <= i < ls.len() implies !(#[trigger] ls[i]).contains('\n') by {
            if i == 0 {
                assert(ls[i] == strip_line_end(cur.push('\n')));
            } else {
                assert(ls[i] == rest[i - 1]);
            }
        }
    } else {
        let next = cur.push(s[0]);
        if next.contains('\n') {
            let i = choose|i: int| 0 <= i < next.len() && next[i] == '\n';
            if i < cur.len() {
                assert(cur[i] == '\n');
            }
        }
        lemma_lines_have_no_feed(s.skip(1), next);
    }
}

proof fn lemma_until_ws_bound(s: Seq<char>)
    ensures
        until_ws(s) <= s.len(),
        forall|i: int| 0 <= i < until_ws(s) ==> !is_ws(#[trigger] s[i]),
    decreases s.len(),
{
    if s.len() > 0 && !is_ws(s[0]) {
        lemma_until_ws_bound(s.skip(1));
        assert forall|i: int| 0 <= i < until_ws(s) implies !is_ws(#[trigger] s[i]) by {
            if i > 0 {
                assert(s[i] == s.skip(1)[i - 1]);
            }
        }
    }
}

/// The key and the value of a line can stand on a line.
proof fn lemma_read_directive_is_text(line: Seq<char>)
    requires
        !line.contains('\n'),
        trim(line) == line,
        line.len() > 0,
        key_value(line) is Some,
    ensures
        is_word((key_value(line)->0).0),
        (key_value(line)->0).0[0] == line[0],
        is_value((key_value(line)->0).1),
{
    law_trim_once(line);
    let n = until_ws(line) as int;
    let key = line.take(n);
    let value = trim(line.skip(n));
    lemma_until_ws_bound(line);
    assert(!is_ws(line[0]));
    assert(n > 0) by {
        assert(until_ws(line) == 1 + until_ws(line.skip(1)));
    }
    assert forall|i: int| 0 <= i < key.len() implies !is_ws(#[trigger] key[i]) by {
        assert(key[i] == line[i]);
    }
    law_trim_once(line.skip(n));
    if value.contains('\n') {
        law_trim_adds_nothing(line.skip(n), '\n');
        let i = choose|i: int| 0 <= i < line.skip(n).len() && line.skip(n)[i] == '\n';
        assert(line[n + i] == '\n');
    }
}

/// What has been read of an entry can be written.
pub open spec fn is_read(st: ParseView) -> bool {
    has_values(st.entry) && (st.saw_host ==> is_writable(st.entry))
}

proof fn lemma_more_values(vs: Seq<Seq<char>>, v: Seq<char>)
    requires
        are_values(vs),
        is_value(v),
    ensures
        are_values(vs.push(v)),
{
    assert forall|i: int| 0 <= i < vs.push(v).len() implies is_value(#[trigger] vs.push(v)[i]) by {
        if i < vs.len() {
            assert(vs.push(v)[i] == vs[i]);
        }
    }
}

proof fn lemma_directive_keeps_values(e: HostView, key: Seq<char>, value: Seq<char>)
    requires
        has_values(e),
        is_word(key),
        key[0] != '#',
        is_value(value),
        !same_ignoring_case(key, "Host"@),
    ensures
        with_directive(e, key, value) matches Some(x) ==> has_values(x) && x.host_patterns
            == e.host_patterns,
{
    lemma_more_values(e.identity_files, value);
    lemma_more_values(e.local_forwards, value);
    lemma_more_values(e.remote_forwards, value);
    lemma_lower_hostname();
    lemma_lower_user();
    lemma_lower_port();
    lemma_lower_proxyjump();
    lemma_lower_identityfile();
    lemma_lower_localforward();
    lemma_lower_remoteforward();
    lemma_lower_stricthostkeychecking();
    lemma_lower_userknownhostsfile();
    lemma_lower_hostkeyalgorithms();
    lemma_lower_pubkeyacceptedalgorithms();
    lemma_lower_forwardagent();
    lemma_lower_tag();
    let all = e.extra_options.push((key, value));
    if !is_known_key(key) {
        assert forall|i: int| 0 <= i < all.len() implies is_extra(#[trigger] all[i]) by {
            if i < e.extra_options.len() {
                assert(all[i] == e.extra_options[i]);
            }
        }
    }
}

proof fn lemma_line_keeps_values(path: Seq<char>, st: ParseView, raw: Seq<char>)
    requires
        is_read(st),
        !raw.contains('\n'),
    ensures
        parse_line(path, true, st, raw) matches Ok(next) ==> is_read(next),
{
    let line = trim(raw);
    law_trim_once(raw);
    if line.contains('\n') {
        law_trim_adds_nothing(raw, '\n');
    }
    if line.len() > 0 && !is_comment(line) && key_value(line) is Some {
        lemma_read_directive_is_text(line);
        let (key, value) = key_value(line)->0;
        if same_ignoring_case(key, "Host"@) {
            law_words_are_words(value);
        } else {
            lemma_directive_keeps_values(st.entry, key, value);
        }
    }
}

proof fn lemma_lines_keep_values(path: Seq<char>, st: ParseView, ls: Seq<Seq<char>>)
    requires
        is_read(st),
        no_feeds(ls),
    ensures
        parse_lines(path, true, st, ls) matches Ok(next) ==> is_read(next),
    decreases ls.len(),
{
    if ls.len() > 0 {
        assert(!ls[0].contains('\n'));
        lemma_line_keeps_values(path, st, ls[0]);
        assert(no_feeds(ls.skip(1))) by {
            assert forall|i: int| 0 <= i < ls.skip(1).len() implies !(#[trigger] ls.skip(
                1,
            )[i]).contains('\n') by {
                assert(ls.skip(1)[i] == ls[i + 1]);
            }
        }
        match parse_line(path, true, st, ls[0]) {
            Ok(next) => lemma_lines_keep_values(path, next, ls.skip(1)),
            Err(_) => {},
        }
    }
}

/// Each entry that was read can be written, and is then read again as it was: rewriting the
/// files of the entries, whatever their old layout, loses nothing.
pub proof fn law_read_entry_survives_rewriting(
    path: Seq<char>,
    content: Seq<char>,
    new_path: Seq<char>,
    newline: Seq<char>,
)
    requires
        is_newline(newline),
        parse_block(path, content, true) is Ok,
    ensures
        ({
            let e = parse_block(path, content, true)->Ok_0;
            &&& is_writable(e)
            &&& parse_block(new_path, render_directives(directives_of(e), newline), true) == Ok::<
                HostView,
                FaultView,
            >(e)
        }),
{
    let start = ParseView { entry: empty_host(), saw_host: false };
    lemma_lines_have_no_feed(content, Seq::empty());
    lemma_lines_keep_values(path, start, lines(content));
    law_written_entry_is_read_back(new_path, parse_block(path, content, true)->Ok_0, newline);
}

} // verus!
