//! What the lines of a file say of an entry.

use vstd::prelude::*;

use crate::commands::compare_laws::{lemma_keys_a, lemma_keys_b};
use crate::config::block_laws::is_line_of;
use crate::config::model::{HostView, empty_host};
use crate::config::parser::{
    ParseView, is_comment, parse_block, parse_line, parse_lines, with_directive,
};
use crate::config::source_laws::{key_at, scalar_at};
use crate::error::FaultView;
use crate::text::{blank, key_value, lines, lower, parse_unsigned, same_ignoring_case, trim, words};

verus! {

/// The line says something: it is neither blank nor a comment.
pub open spec fn is_said(line: Seq<char>) -> bool {
    !blank(line) && trim(line)[0] != '#'
}

pub open spec fn key_of(line: Seq<char>) -> Seq<char> {
    (key_value(trim(line))->0).0
}

pub open spec fn value_of(line: Seq<char>) -> Seq<char> {
    (key_value(trim(line))->0).1
}

pub open spec fn is_of(name: Seq<char>) -> spec_fn(Seq<char>) -> bool {
    |line: Seq<char>| is_said(line) && is_line_of(line, name)
}

/// The names of the directives that have a place of their own in an entry.
pub open spec fn known_names() -> Seq<Seq<char>> {
    seq![
        "Host"@,
        "HostName"@,
        "User"@,
        "Port"@,
        "ProxyJump"@,
        "IdentityFile"@,
        "LocalForward"@,
        "RemoteForward"@,
        "StrictHostKeyChecking"@,
        "UserKnownHostsFile"@,
        "HostKeyAlgorithms"@,
        "PubkeyAcceptedAlgorithms"@,
        "ForwardAgent"@,
        "Tag"@,
    ]
}

pub open spec fn is_known(key: Seq<char>) -> bool {
    exists|i: int| 0 <= i < 14 && lower(#[trigger] known_names()[i]) == lower(key)
}

pub open spec fn is_extra() -> spec_fn(Seq<char>) -> bool {
    |line: Seq<char>| is_said(line) && !is_known(key_of(line))
}

/// `k` is the place of the last line of that name.
pub open spec fn is_last_of(ls: Seq<Seq<char>>, name: Seq<char>, k: int) -> bool {
    &&& 0 <= k < ls.len()
    &&& is_of(name)(ls[k])
    &&& forall|i: int| k < i < ls.len() ==> !is_of(name)(#[trigger] ls[i])
}

pub open spec fn has_none_of(ls: Seq<Seq<char>>, name: Seq<char>) -> bool {
    forall|i: int| 0 <= i < ls.len() ==> !is_of(name)(#[trigger] ls[i])
}

proof fn lemma_one_more_line(
    path: Seq<char>,
    header: bool,
    st: ParseView,
    ls: Seq<Seq<char>>,
    line: Seq<char>,
)
    ensures
        parse_lines(path, header, st, ls.push(line)) == (match parse_lines(path, header, st, ls) {
            Ok(m) => parse_line(path, header, m, line),
            Err(e) => Err(e),
        }),
    decreases ls.len(),
{
    reveal_with_fuel(parse_lines, 2);
    let all = ls.push(line);
    if ls.len() == 0 {
        assert(all[0] == line);
        assert(all.skip(1).len() == 0);
        let rest = all.skip(1);
        match parse_line(path, header, st, line) {
            Ok(next) => {
                assert(parse_lines(path, header, next, rest) == Ok::<ParseView, FaultView>(next));
            },
            Err(_) => {},
        }
    } else {
        assert(all[0] == ls[0]);
        assert(all.skip(1) =~= ls.skip(1).push(line));
        match parse_line(path, header, st, ls[0]) {
            Ok(next) => {
                lemma_one_more_line(path, header, next, ls.skip(1), line);
            },
            Err(_) => {},
        }
    }
}

proof fn lemma_names()
    ensures
        lower("Host"@) == "host"@,
        lower("Tag"@) == "tag"@,
        "host"@.len() == 4 && "host"@[0] == 'h',
        "tag"@.len() == 3,
        "hostname"@.len() == 8,
        "user"@.len() == 4 && "user"@[0] == 'u',
        "port"@.len() == 4 && "port"@[0] == 'p',
        "proxyjump"@.len() == 9,
        "identityfile"@.len() == 12 && "identityfile"@[0] == 'i',
        "localforward"@.len() == 12 && "localforward"@[0] == 'l',
        "remoteforward"@.len() == 13,
        "stricthostkeychecking"@.len() == 21,
        "userknownhostsfile"@.len() == 18,
        "hostkeyalgorithms"@.len() == 17,
        "pubkeyacceptedalgorithms"@.len() == 24,
        "forwardagent"@.len() == 12 && "forwardagent"@[0] == 'f',
{
    reveal_strlit("Host");
    reveal_strlit("host");
    reveal_strlit("Tag");
    reveal_strlit("tag");
    reveal_strlit("hostname");
    reveal_strlit("user");
    reveal_strlit("port");
    reveal_strlit("proxyjump");
    reveal_strlit("identityfile");
    reveal_strlit("localforward");
    reveal_strlit("remoteforward");
    reveal_strlit("stricthostkeychecking");
    reveal_strlit("userknownhostsfile");
    reveal_strlit("hostkeyalgorithms");
    reveal_strlit("pubkeyacceptedalgorithms");
    reveal_strlit("forwardagent");
    assert(lower("Host"@) =~= "host"@);
    assert(lower("Tag"@) =~= "tag"@);
}

proof fn lemma_is_known(key: Seq<char>)
    ensures
        is_known(key) <==> ({
            let k = lower(key);
            ||| k == "host"@
            ||| k == "hostname"@
            ||| k == "user"@
            ||| k == "port"@
            ||| k == "proxyjump"@
            ||| k == "identityfile"@
            ||| k == "localforward"@
            ||| k == "remoteforward"@
            ||| k == "stricthostkeychecking"@
            ||| k == "userknownhostsfile"@
            ||| k == "hostkeyalgorithms"@
            ||| k == "pubkeyacceptedalgorithms"@
            ||| k == "forwardagent"@
            ||| k == "tag"@
        }),
{
    lemma_keys_a();
    lemma_keys_b();
    lemma_names();
    let ns = known_names();
    assert(ns[0] == "Host"@ && ns[1] == "HostName"@ && ns[2] == "User"@ && ns[3] == "Port"@);
    assert(ns[4] == "ProxyJump"@ && ns[5] == "IdentityFile"@ && ns[6] == "LocalForward"@);
    assert(ns[7] == "RemoteForward"@ && ns[8] == "StrictHostKeyChecking"@);
    assert(ns[9] == "UserKnownHostsFile"@ && ns[10] == "HostKeyAlgorithms"@);
    assert(ns[11] == "PubkeyAcceptedAlgorithms"@ && ns[12] == "ForwardAgent"@ && ns[13] == "Tag"@);
}

/// What one directive changes in the directives with one text.
#[verifier::spinoff_prover]
#[verifier::rlimit(40)]
proof fn lemma_directive_scalar(e: HostView, key: Seq<char>, value: Seq<char>, n: int)
    requires
        0 <= n < 10,
        n != 2,
        with_directive(e, key, value) is Some,
    ensures
        scalar_at(with_directive(e, key, value)->0, n) == (if lower(key) == lower(key_at(n)) {
            Some(value)
        } else {
            scalar_at(e, n)
        }),
{
    lemma_keys_a();
    lemma_keys_b();
    lemma_names();
}

#[verifier::spinoff_prover]
#[verifier::rlimit(40)]
proof fn lemma_directive_lists(e: HostView, key: Seq<char>, value: Seq<char>)
    requires
        with_directive(e, key, value) is Some,
    ensures
        ({
            let r = with_directive(e, key, value)->0;
            &&& r.host_patterns == e.host_patterns
            &&& r.identity_files == (if lower(key) == lower("IdentityFile"@) {
                e.identity_files.push(value)
            } else {
                e.identity_files
            })
            &&& r.local_forwards == (if lower(key) == lower("LocalForward"@) {
                e.local_forwards.push(value)
            } else {
                e.local_forwards
            })
            &&& r.remote_forwards == (if lower(key) == lower("RemoteForward"@) {
                e.remote_forwards.push(value)
            } else {
                e.remote_forwards
            })
            &&& r.port == (if lower(key) == lower("Port"@) {
                Some(parse_unsigned(value, 65535)->0 as u16)
            } else {
                e.port
            })
            &&& lower(key) != "host"@ ==> r.extra_options == (if is_known(key) {
                e.extra_options
            } else {
                e.extra_options.push((key, value))
            })
        }),
{
    lemma_keys_a();
    lemma_keys_b();
    lemma_names();
    lemma_is_known(key);
}

/// A directive with one text has the value of the last line of its name, whatever the case of the
/// name, and none where there is no such line.
#[verifier::rlimit(30)]
pub proof fn law_last_line_counts(
    path: Seq<char>,
    header: bool,
    ls: Seq<Seq<char>>,
    n: int,
    k: int,
    r: ParseView,
)
    requires
        parse_lines(path, header, ParseView { entry: empty_host(), saw_host: false }, ls) == Ok::<
            ParseView,
            FaultView,
        >(r),
        0 <= n < 10,
        n != 2,
    ensures
        is_last_of(ls, key_at(n), k) ==> scalar_at(r.entry, n) == Some(value_of(ls[k])),
        has_none_of(ls, key_at(n)) ==> scalar_at(r.entry, n) is None,
    decreases ls.len(),
{
    let none = ParseView { entry: empty_host(), saw_host: false };
    if ls.len() > 0 {
        let head = ls.drop_last();
        let line = ls.last();
        assert(head.push(line) =~= ls);
        lemma_one_more_line(path, header, none, head, line);
        let m = parse_lines(path, header, none, head)->Ok_0;
        law_last_line_counts(path, header, head, n, k, m);
        lemma_said(line);
        lemma_names();
        lemma_keys_a();
        lemma_keys_b();
        lemma_line_scalar(path, header, m, line, n);
        assert(ls[ls.len() - 1] == line);
        if has_none_of(ls, key_at(n)) {
            assert forall|i: int| 0 <= i < head.len() implies !is_of(key_at(n))(#[trigger] head[i]) by {
                assert(!is_of(key_at(n))(ls[i]));
            }
        }
        if is_last_of(ls, key_at(n), k) && k < head.len() {
            assert(head[k] == ls[k]);
            assert forall|i: int| k < i < head.len() implies !is_of(key_at(n))(#[trigger] head[i]) by {
                assert(!is_of(key_at(n))(ls[i]));
            }
            assert(!is_of(key_at(n))(ls[ls.len() - 1]));
        }
    }
}

proof fn lemma_said(line: Seq<char>)
    ensures
        is_said(line) <==> trim(line).len() > 0 && !is_comment(trim(line)),
{
}

proof fn lemma_line_scalar(path: Seq<char>, header: bool, m: ParseView, line: Seq<char>, n: int)
    requires
        parse_line(path, header, m, line) is Ok,
        0 <= n < 10,
        n != 2,
    ensures
        scalar_at((parse_line(path, header, m, line)->Ok_0).entry, n) == (if is_of(key_at(n))(line) {
            Some(value_of(line))
        } else {
            scalar_at(m.entry, n)
        }),
{
    lemma_said(line);
    lemma_names();
    lemma_keys_a();
    lemma_keys_b();
    if is_said(line) {
        let (key, value) = key_value(trim(line))->0;
        if !same_ignoring_case(key, "Host"@) {
            lemma_directive_scalar(m.entry, key, value, n);
        }
    }
}

/// What one line changes in the directives that may stand several times.
proof fn lemma_line_lists(path: Seq<char>, header: bool, m: ParseView, line: Seq<char>)
    requires
        parse_line(path, header, m, line) is Ok,
    ensures
        ({
            let r = (parse_line(path, header, m, line)->Ok_0).entry;
            &&& r.identity_files == (if is_of("IdentityFile"@)(line) {
                m.entry.identity_files.push(value_of(line))
            } else {
                m.entry.identity_files
            })
            &&& r.local_forwards == (if is_of("LocalForward"@)(line) {
                m.entry.local_forwards.push(value_of(line))
            } else {
                m.entry.local_forwards
            })
            &&& r.remote_forwards == (if is_of("RemoteForward"@)(line) {
                m.entry.remote_forwards.push(value_of(line))
            } else {
                m.entry.remote_forwards
            })
            &&& r.extra_options == (if is_extra()(line) {
                m.entry.extra_options.push((key_of(line), value_of(line)))
            } else {
                m.entry.extra_options
            })
            &&& r.host_patterns == (if is_of("Host"@)(line) {
                words(value_of(line))
            } else {
                m.entry.host_patterns
            })
            &&& r.port == (if is_of("Port"@)(line) {
                Some(parse_unsigned(value_of(line), 65535)->0 as u16)
            } else {
                m.entry.port
            })
        }),
{
    lemma_said(line);
    lemma_names();
    lemma_keys_a();
    lemma_keys_b();
    if is_said(line) {
        let (key, value) = key_value(trim(line))->0;
        lemma_is_known(key);
        if !same_ignoring_case(key, "Host"@) {
            lemma_directive_lists(m.entry, key, value);
        }
    }
}

proof fn lemma_list_of(ls: Seq<Seq<char>>, line: Seq<char>, p: spec_fn(Seq<char>) -> bool)
    ensures
        ls.push(line).filter(p).map_values(|l: Seq<char>| value_of(l)) == (if p(line) {
            ls.filter(p).map_values(|l: Seq<char>| value_of(l)).push(value_of(line))
        } else {
            ls.filter(p).map_values(|l: Seq<char>| value_of(l))
        }),
{
    reveal(Seq::filter);
    let all = ls.push(line);
    assert(all.drop_last() =~= ls);
    assert(all.last() == line);
    let kept = ls.filter(p);
    assert(kept.push(line).map_values(|l: Seq<char>| value_of(l)) =~= kept.map_values(
        |l: Seq<char>| value_of(l),
    ).push(value_of(line)));
}

/// A directive that may stand several times has the values of all lines of its name, in their
/// order, and each line with another name is an extra directive.
#[verifier::rlimit(30)]
pub proof fn law_all_lines_count(path: Seq<char>, header: bool, ls: Seq<Seq<char>>, r: ParseView)
    requires
        parse_lines(path, header, ParseView { entry: empty_host(), saw_host: false }, ls) == Ok::<
            ParseView,
            FaultView,
        >(r),
    ensures
        r.entry.identity_files == ls.filter(is_of("IdentityFile"@)).map_values(
            |l: Seq<char>| value_of(l),
        ),
        r.entry.local_forwards == ls.filter(is_of("LocalForward"@)).map_values(
            |l: Seq<char>| value_of(l),
        ),
        r.entry.remote_forwards == ls.filter(is_of("RemoteForward"@)).map_values(
            |l: Seq<char>| value_of(l),
        ),
        r.entry.extra_options == ls.filter(is_extra()).map_values(
            |l: Seq<char>| (key_of(l), value_of(l)),
        ),
    decreases ls.len(),
{
    let none = ParseView { entry: empty_host(), saw_host: false };
    let pair = |l: Seq<char>| (key_of(l), value_of(l));
    let value = |l: Seq<char>| value_of(l);
    if ls.len() == 0 {
        reveal(Seq::filter);
        assert(ls.filter(is_of("IdentityFile"@)).map_values(value) =~= Seq::<Seq<char>>::empty());
        assert(ls.filter(is_of("LocalForward"@)).map_values(value) =~= Seq::<Seq<char>>::empty());
        assert(ls.filter(is_of("RemoteForward"@)).map_values(value) =~= Seq::<Seq<char>>::empty());
        assert(ls.filter(is_extra()).map_values(pair) =~= Seq::<(Seq<char>, Seq<char>)>::empty());
    } else {
        let head = ls.drop_last();
        let line = ls.last();
        assert(head.push(line) =~= ls);
        lemma_one_more_line(path, header, none, head, line);
        let m = parse_lines(path, header, none, head)->Ok_0;
        law_all_lines_count(path, header, head, m);
        lemma_line_lists(path, header, m, line);
        lemma_list_of(head, line, is_of("IdentityFile"@));
        lemma_list_of(head, line, is_of("LocalForward"@));
        lemma_list_of(head, line, is_of("RemoteForward"@));
        assert(ls.filter(is_extra()).map_values(pair) =~= (if is_extra()(line) {
            head.filter(is_extra()).map_values(pair).push(pair(line))
        } else {
            head.filter(is_extra()).map_values(pair)
        })) by {
            reveal(Seq::filter);
        }
    }
}

/// The patterns of an entry are the words of its `Host` line, and its port is the number of its
/// last `Port` line.
#[verifier::rlimit(30)]
pub proof fn law_host_and_port_lines(
    path: Seq<char>,
    header: bool,
    ls: Seq<Seq<char>>,
    k: int,
    r: ParseView,
)
    requires
        parse_lines(path, header, ParseView { entry: empty_host(), saw_host: false }, ls) == Ok::<
            ParseView,
            FaultView,
        >(r),
    ensures
        is_last_of(ls, "Host"@, k) ==> r.entry.host_patterns == words(value_of(ls[k])) && r.saw_host
            && header,
        has_none_of(ls, "Host"@) ==> !r.saw_host && r.entry.host_patterns.len() == 0,
        is_last_of(ls, "Port"@, k) ==> parse_unsigned(value_of(ls[k]), 65535) is Some
            && r.entry.port == Some(parse_unsigned(value_of(ls[k]), 65535)->0 as u16),
        has_none_of(ls, "Port"@) ==> r.entry.port is None,
        ls.filter(is_of("Host"@)).len() <= 1,
    decreases ls.len(),
{
    let none = ParseView { entry: empty_host(), saw_host: false };
    if ls.len() > 0 {
        let head = ls.drop_last();
        let line = ls.last();
        assert(head.push(line) =~= ls);
        lemma_one_more_line(path, header, none, head, line);
        let m = parse_lines(path, header, none, head)->Ok_0;
        law_host_and_port_lines(path, header, head, k, m);
        lemma_line_lists(path, header, m, line);
        lemma_said(line);
        lemma_names();
        lemma_keys_a();
        assert(ls[ls.len() - 1] == line);
        assert forall|name: Seq<char>| #[trigger] has_none_of(ls, name) implies has_none_of(
            head,
            name,
        ) by {
            assert forall|i: int| 0 <= i < head.len() implies !is_of(name)(#[trigger] head[i]) by {
                assert(!is_of(name)(ls[i]));
            }
        }
        assert forall|name: Seq<char>| #[trigger]
            is_last_of(ls, name, k) && k < head.len() implies is_last_of(head, name, k)
            && !is_of(name)(line) by {
            assert(head[k] == ls[k]);
            assert forall|i: int| k < i < head.len() implies !is_of(name)(#[trigger] head[i]) by {
                assert(!is_of(name)(ls[i]));
            }
            assert(!is_of(name)(ls[ls.len() - 1]));
        }
        assert(ls.filter(is_of("Host"@)).len() == head.filter(is_of("Host"@)).len() + (if is_of(
            "Host"@,
        )(line) {
            1int
        } else {
            0
        })) by {
            reveal(Seq::filter);
        }
        if is_of("Host"@)(line) {
            assert(!m.saw_host);
            if head.filter(is_of("Host"@)).len() > 0 {
                lemma_host_was_seen(path, header, head, m);
            }
        }
    } else {
        reveal(Seq::filter);
    }
}

proof fn lemma_host_was_seen(path: Seq<char>, header: bool, ls: Seq<Seq<char>>, r: ParseView)
    requires
        parse_lines(path, header, ParseView { entry: empty_host(), saw_host: false }, ls) == Ok::<
            ParseView,
            FaultView,
        >(r),
        ls.filter(is_of("Host"@)).len() > 0,
    ensures
        r.saw_host,
    decreases ls.len(),
{
    let none = ParseView { entry: empty_host(), saw_host: false };
    if ls.len() > 0 {
        let head = ls.drop_last();
        let line = ls.last();
        assert(head.push(line) =~= ls);
        lemma_one_more_line(path, header, none, head, line);
        let m = parse_lines(path, header, none, head)->Ok_0;
        lemma_said(line);
        assert(ls.filter(is_of("Host"@)).len() == head.filter(is_of("Host"@)).len() + (if is_of(
            "Host"@,
        )(line) {
            1int
        } else {
            0
        })) by {
            reveal(Seq::filter);
        }
        if !is_of("Host"@)(line) {
            lemma_host_was_seen(path, header, head, m);
        }
    } else {
        reveal(Seq::filter);
    }
}

pub open spec fn says_nothing(ls: Seq<Seq<char>>) -> bool {
    forall|i: int| 0 <= i < ls.len() ==> !is_said(#[trigger] ls[i])
}

/// The line can stand behind those lines: it says nothing; or it is a directive with a value, a
/// port is a number, and it is the `Host` line exactly where it is the first that says something.
/// Without a header there is no `Host` line.
pub open spec fn can_follow(before: Seq<Seq<char>>, line: Seq<char>, header: bool) -> bool {
    is_said(line) ==> {
        &&& key_value(trim(line)) is Some
        &&& is_of("Port"@)(line) ==> parse_unsigned(value_of(line), 65535) is Some
        &&& if header {
            is_of("Host"@)(line) == says_nothing(before)
        } else {
            !is_of("Host"@)(line)
        }
        &&& is_of("Host"@)(line) ==> words(value_of(line)).len() > 0
    }
}

pub open spec fn can_be_read(ls: Seq<Seq<char>>, header: bool) -> bool {
    forall|i: int| 0 <= i < ls.len() ==> can_follow(ls.take(i), #[trigger] ls[i], header)
}

#[verifier::rlimit(30)]
proof fn lemma_can_be_read(path: Seq<char>, header: bool, ls: Seq<Seq<char>>)
    ensures
        ({
            let r = parse_lines(
                path,
                header,
                ParseView { entry: empty_host(), saw_host: false },
                ls,
            );
            &&& r is Ok <==> can_be_read(ls, header)
            &&& r is Ok ==> (r->Ok_0).saw_host == (header && !says_nothing(ls))
        }),
    decreases ls.len(),
{
    let none = ParseView { entry: empty_host(), saw_host: false };
    if ls.len() > 0 {
        let head = ls.drop_last();
        let line = ls.last();
        assert(head.push(line) =~= ls);
        lemma_one_more_line(path, header, none, head, line);
        lemma_can_be_read(path, header, head);
        lemma_said(line);
        lemma_names();
        lemma_keys_a();
        let n = ls.len() - 1;
        assert(ls.take(n) =~= head);
        assert(ls[n] == line);
        if can_be_read(ls, header) {
            assert forall|i: int| 0 <= i < head.len() implies can_follow(
                head.take(i),
                #[trigger] head[i],
                header,
            ) by {
                assert(can_follow(ls.take(i), ls[i], header));
                assert(ls.take(i) =~= head.take(i));
            }
            assert(can_follow(ls.take(n), ls[n], header));
        }
        if can_be_read(head, header) && can_follow(head, line, header) {
            assert forall|i: int| 0 <= i < ls.len() implies can_follow(
                ls.take(i),
                #[trigger] ls[i],
                header,
            ) by {
                if i < n {
                    assert(can_follow(head.take(i), head[i], header));
                    assert(ls.take(i) =~= head.take(i));
                }
            }
        }
        if says_nothing(ls) {
            assert forall|i: int| 0 <= i < head.len() implies !is_said(#[trigger] head[i]) by {
                assert(!is_said(ls[i]));
            }
            assert(!is_said(ls[n]));
        } else if says_nothing(head) {
            let i = choose|i: int| 0 <= i < ls.len() && is_said(#[trigger] ls[i]);
            if i < n {
                assert(!is_said(head[i]));
            }
        }
        if can_be_read(head, header) {
            let m = parse_lines(path, header, none, head)->Ok_0;
            lemma_line_is_taken(path, header, m, head, line);
        }
    }
}

proof fn lemma_line_is_taken(
    path: Seq<char>,
    header: bool,
    m: ParseView,
    before: Seq<Seq<char>>,
    line: Seq<char>,
)
    requires
        m.saw_host == (header && !says_nothing(before)),
    ensures
        parse_line(path, header, m, line) is Ok <==> can_follow(before, line, header),
        parse_line(path, header, m, line) is Ok ==> (parse_line(path, header, m, line)->Ok_0).saw_host
            == (m.saw_host || (header && is_said(line))),
{
    lemma_said(line);
    lemma_names();
    lemma_keys_a();
    if is_said(line) && key_value(trim(line)) is Some {
        let (key, value) = key_value(trim(line))->0;
        assert(with_directive(m.entry, key, value) is None <==> lower(key) == "port"@
            && parse_unsigned(value, 65535) is None);
    }
}

/// A file is read exactly where its first line that says something is the `Host` line and the only
/// one, each other line that does is a directive with a value, and a port is a number.
pub proof fn law_files_that_can_be_read(path: Seq<char>, content: Seq<char>)
    ensures
        parse_block(path, content, true) is Ok <==> can_be_read(lines(content), true)
            && !says_nothing(lines(content)),
        parse_block(path, content, false) is Ok <==> can_be_read(lines(content), false),
{
    lemma_can_be_read(path, true, lines(content));
    lemma_can_be_read(path, false, lines(content));
}

} // verus!
