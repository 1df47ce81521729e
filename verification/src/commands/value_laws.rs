//! When two values are the same to the client.

use vstd::prelude::*;

use crate::commands::compare::{
    FindingsView, ResolutionsView, agent_value, algorithm_matches, algorithm_value, algorithms,
    cause_note, endpoint_value, has_modifier, local_forward_value, override_notes, override_won,
    overrides_explained, path_like, path_value, remote_forward_value, trimmed_items, until_closing,
    with_mismatch,
};
use crate::commands::compare_laws::{
    is_first_for, law_values_are_those_of_the_key, means_no, means_yes,
};
use crate::config::model::IgnoredView;
use crate::config::openssh::values_of;
use crate::paths::path_in;
use crate::text::{is_ws, join, lower, replace_char, starts_with, trim, words};
use crate::text_laws::{law_joined_parts_are_found, law_trim_once, law_trimmed_text_stays};

verus! {

// ---------------------------------------------------------------------------
// Algorithms
// ---------------------------------------------------------------------------

/// The name of an algorithm: no white space, no comma, and no sign before it.
pub open spec fn is_algorithm(s: Seq<char>) -> bool {
    &&& s.len() > 0
    &&& s[0] != '+' && s[0] != '-' && s[0] != '^'
    &&& forall|i: int| 0 <= i < s.len() ==> !is_ws(#[trigger] s[i]) && s[i] != ','
}

pub open spec fn are_algorithms(xs: Seq<Seq<char>>) -> bool {
    xs.len() > 0 && forall|i: int| 0 <= i < xs.len() ==> is_algorithm(#[trigger] xs[i])
}

proof fn lemma_trimmed_items(xs: Seq<Seq<char>>)
    requires
        forall|i: int| 0 <= i < xs.len() ==> is_algorithm(#[trigger] xs[i]),
    ensures
        trimmed_items(xs) == xs,
    decreases xs.len(),
{
    if xs.len() > 0 {
        let head = xs.drop_last();
        assert forall|i: int| 0 <= i < head.len() implies is_algorithm(#[trigger] head[i]) by {
            assert(head[i] == xs[i]);
        }
        lemma_trimmed_items(head);
        let x = xs[xs.len() - 1];
        assert(is_algorithm(x));
        assert(!is_ws(x[0]) && !is_ws(x[x.len() - 1]));
        law_trimmed_text_stays(x);
        assert(head.push(x) =~= xs);
    } else {
        assert(trimmed_items(xs) =~= xs);
    }
}

/// The algorithms of a list are found again.
pub proof fn law_listed_algorithms_are_found(xs: Seq<Seq<char>>)
    requires
        are_algorithms(xs),
    ensures
        algorithms(join(xs, ","@)) == xs,
        join(xs, ","@).len() > 0,
        !has_modifier(join(xs, ","@)),
        trim(join(xs, ","@)) == join(xs, ","@),
{
    reveal_strlit(",");
    assert(","@ =~= seq![',']);
    assert(","@[0] == ',');
    assert forall|i: int, j: int| 0 <= i < xs.len() && 0 <= j < xs[i].len() implies !","@.contains(
        #[trigger] xs[i][j],
    ) by {
        assert(is_algorithm(xs[i]));
    }
    law_joined_parts_are_found(xs, ',', ","@);
    lemma_trimmed_items(xs);
    lemma_ends(xs);
    law_trimmed_text_stays(join(xs, ","@));
}

proof fn lemma_ends(xs: Seq<Seq<char>>)
    requires
        are_algorithms(xs),
    ensures
        join(xs, ","@).len() > 0,
        join(xs, ","@)[0] == xs[0][0],
        join(xs, ","@).last() == xs.last().last(),
        is_algorithm(xs[0]),
        is_algorithm(xs.last()),
        !is_ws(xs[0][0]),
        !is_ws(xs.last().last()),
    decreases xs.len(),
{
    assert(is_algorithm(xs[0]));
    let x = xs[xs.len() - 1];
    assert(is_algorithm(x));
    assert(!is_ws(x[x.len() - 1]));
    assert(!is_ws(xs[0][0]));
    if xs.len() > 1 {
        let head = xs.drop_last();
        assert forall|i: int| 0 <= i < head.len() implies is_algorithm(#[trigger] head[i]) by {
            assert(head[i] == xs[i]);
        }
        lemma_ends(head);
        assert(join(xs, ","@) == join(head, ","@) + ","@ + x);
    }
}

proof fn lemma_with_sign(sign: char, xs: Seq<Seq<char>>)
    requires
        are_algorithms(xs),
        sign == '+' || sign == '-' || sign == '^',
    ensures
        ({
            let s = seq![sign] + join(xs, ","@);
            algorithm_value(s) == s && s.skip(1) == join(xs, ","@) && has_modifier(s) && trim(s) == s
        }),
{
    law_listed_algorithms_are_found(xs);
    lemma_ends(xs);
    let s = seq![sign] + join(xs, ","@);
    assert(s.skip(1) =~= join(xs, ","@));
    assert(s.last() == join(xs, ","@).last());
    law_trimmed_text_stays(s);
    assert(seq![s[0]] + join(xs, ","@) =~= s);
}

/// A list is what was asked for where it is the same list; where algorithms were to be added or
/// put first, where each of them is in it; and where some were to be taken out, where none is.
pub proof fn law_algorithms_are_what_was_asked(xs: Seq<Seq<char>>, ys: Seq<Seq<char>>, sign: char)
    requires
        are_algorithms(xs),
        are_algorithms(ys),
    ensures
        algorithm_matches(join(xs, ","@), join(ys, ","@)) <==> xs == ys,
        sign == '+' || sign == '^' ==> (algorithm_matches(
            seq![sign] + join(xs, ","@),
            join(ys, ","@),
        ) <==> forall|i: int| 0 <= i < xs.len() ==> ys.contains(#[trigger] xs[i])),
        sign == '-' ==> (algorithm_matches(seq![sign] + join(xs, ","@), join(ys, ","@))
            <==> forall|i: int| 0 <= i < xs.len() ==> !ys.contains(#[trigger] xs[i])),
{
    law_listed_algorithms_are_found(xs);
    law_listed_algorithms_are_found(ys);
    assert(algorithm_value(join(xs, ","@)) == join(xs, ","@));
    assert(algorithm_value(join(ys, ","@)) == join(ys, ","@));
    if sign == '+' || sign == '^' || sign == '-' {
        lemma_with_sign(sign, xs);
        let e = seq![sign] + join(xs, ","@);
        assert(e[0] == sign);
        assert(algorithms(e.skip(1)) == xs);
    }
}

/// A list that is in one form stays in it.
pub proof fn law_algorithms_are_put_in_form_once(xs: Seq<Seq<char>>, sign: char)
    requires
        are_algorithms(xs),
    ensures
        algorithm_value(join(xs, ","@)) == join(xs, ","@),
        sign == '+' || sign == '-' || sign == '^' ==> algorithm_value(
            seq![sign] + join(xs, ","@),
        ) == seq![sign] + join(xs, ","@),
{
    law_listed_algorithms_are_found(xs);
    if sign == '+' || sign == '-' || sign == '^' {
        lemma_with_sign(sign, xs);
    }
}

// ---------------------------------------------------------------------------
// Paths
// ---------------------------------------------------------------------------

/// White space round a path does not count, and neither does the direction of its slashes.
pub proof fn law_slashes_do_not_count(p: Seq<char>, home: Seq<char>, windows: bool)
    requires
        !starts_with(trim(p), "~/"@),
        !starts_with(trim(p), "~\\"@),
    ensures
        path_value(trim(p), home, windows) == path_value(p, home, windows),
        path_value(p, home, windows).len() == trim(p).len(),
        forall|i: int|
            0 <= i < trim(p).len() && !windows ==> (#[trigger] path_value(p, home, windows)[i]) == (
            if trim(p)[i] == '\\' {
                '/'
            } else {
                trim(p)[i]
            }),
        forall|i: int|
            0 <= i < trim(p).len() && windows ==> (#[trigger] path_value(p, home, windows)[i])
                == crate::text::lower_char(
                if trim(p)[i] == '\\' {
                    '/'
                } else {
                    trim(p)[i]
                },
            ),
{
    law_trim_once(p);
}

/// A path from the home directory is that directory with the rest behind it.
pub proof fn law_home_is_written_out(home: Seq<char>, rest: Seq<char>)
    requires
        rest.len() > 0,
        rest[0] != '/',
        !is_ws(rest.last()),
        home.len() > 0,
        home.last() != '/',
        !home.contains('\\'),
        !rest.contains('\\'),
    ensures
        path_value("~/"@ + rest, home, false) == home + "/"@ + rest,
{
    reveal_strlit("~/");
    reveal_strlit("/");
    let p = "~/"@ + rest;
    assert(p[0] == '~');
    assert(p.last() == rest.last());
    law_trimmed_text_stays(p);
    assert(p.take(2) =~= "~/"@);
    assert(p.skip(2) =~= rest);
    assert(seq!['/'].contains(home.last()) ==> home.last() == '/');
    let full = home + seq!['/'] + rest;
    assert(path_in(home, rest, false) == full);
    assert forall|i: int| 0 <= i < full.len() implies full[i] != '\\' by {
        if i < home.len() {
            assert(home.contains(home[i]));
            assert(full[i] == home[i]);
        } else if i > home.len() {
            assert(full[i] == rest[i - home.len() - 1]);
            assert(rest.contains(full[i]));
        }
    }
    assert(replace_char(full, '\\', '/') =~= full);
    assert("/"@ =~= seq!['/']);
}

// ---------------------------------------------------------------------------
// Forwards and agents
// ---------------------------------------------------------------------------

/// Brackets round a host without colons do not count, and all other endpoints stay as they are.
pub proof fn law_brackets_that_are_not_needed(host: Seq<char>, port: Seq<char>, t: Seq<char>)
    requires
        !host.contains(']'),
    ensures
        !host.contains(':') ==> endpoint_value("["@ + host + "]:"@ + port) == host + ":"@ + port,
        host.contains(':') ==> endpoint_value("["@ + host + "]:"@ + port) == "["@ + host + "]:"@
            + port,
        t.len() > 0 && t[0] != '[' ==> endpoint_value(t) == t,
{
    reveal_strlit("[");
    reveal_strlit("]:");
    reveal_strlit(":");
    let token = "["@ + host + "]:"@ + port;
    let rest = token.skip(1);
    assert(token[0] == '[');
    assert(rest =~= host + ("]:"@ + port));
    lemma_until_closing(host, port);
    let n = host.len() as int;
    assert(rest.take(n) =~= host);
    assert(rest.skip(n + 2) =~= port);
}

proof fn lemma_until_closing(host: Seq<char>, port: Seq<char>)
    requires
        !host.contains(']'),
    ensures
        until_closing(host + ("]:"@ + port)) == host.len(),
    decreases host.len(),
{
    reveal_strlit("]:");
    let s = host + ("]:"@ + port);
    if host.len() == 0 {
        assert(s[0] == ']' && s[1] == ':');
    } else {
        assert(host.contains(host[0]));
        assert(s[0] == host[0]);
        assert(s.skip(1) =~= host.skip(1) + ("]:"@ + port));
        assert forall|i: int| 0 <= i < host.skip(1).len() implies host.skip(1)[i] != ']' by {
            assert(host.contains(host[i + 1]));
        }
        lemma_until_closing(host.skip(1), port);
    }
}

/// Forwards are compared word by word: the endpoints where a value has them, and else the words.
pub proof fn law_forwards_are_compared_by_words(
    a: Seq<char>,
    b: Seq<char>,
    home: Seq<char>,
    windows: bool,
)
    ensures
        words(a) == words(b) ==> local_forward_value(a) == local_forward_value(b)
            && remote_forward_value(a, home, windows) == remote_forward_value(b, home, windows),
        words(a).len() == 2 ==> local_forward_value(a) == endpoint_value(words(a)[0]) + " "@
            + endpoint_value(words(a)[1]),
        words(a).len() == 2 ==> remote_forward_value(a, home, windows) == endpoint_value(
            words(a)[0],
        ) + " "@ + (if path_like(words(a)[1]) {
            path_value(words(a)[1], home, windows)
        } else {
            endpoint_value(words(a)[1])
        }),
        words(a).len() != 2 ==> remote_forward_value(a, home, windows) == join(words(a), " "@),
{
    if words(a).len() == 2 {
        let es = words(a).map_values(|w: Seq<char>| endpoint_value(w));
        assert(es.drop_last() =~= seq![es[0]]);
        assert(join(es, " "@) == join(es.drop_last(), " "@) + " "@ + es[1]);
    }
}

/// A value is read as a path where a slash of either kind stands in it or it starts with a drive.
pub proof fn law_what_is_like_a_path(v: Seq<char>, k: int)
    ensures
        0 <= k < trim(v).len() && (trim(v)[k] == '/' || trim(v)[k] == '\\') ==> path_like(v),
        (forall|i: int|
            0 <= i < trim(v).len() ==> #[trigger] trim(v)[i] != '/' && trim(v)[i] != '\\') && !(
        trim(v).len() > 1 && trim(v)[1] == ':') ==> !path_like(v),
{
}

/// An agent is a switch, a path, or the name of a variable, which is taken as it is.
pub proof fn law_agents(v: Seq<char>, home: Seq<char>, windows: bool)
    ensures
        means_yes(v) ==> agent_value(v, home, windows) == "yes"@,
        means_no(v) ==> agent_value(v, home, windows) == "no"@,
        !means_yes(v) && !means_no(v) && path_like(v) ==> agent_value(v, home, windows)
            == path_value(v, home, windows),
        !means_yes(v) && !means_no(v) && !path_like(v) ==> agent_value(v, home, windows) == trim(v),
{
    reveal_strlit("yes");
    reveal_strlit("no");
    reveal_strlit("true");
    reveal_strlit("false");
    reveal_strlit("on");
    reveal_strlit("off");
    assert("yes"@.len() == 3 && "no"@.len() == 2 && "true"@.len() == 4 && "false"@.len() == 5);
    assert("on"@.len() == 2 && "off"@.len() == 3);
    assert("on"@[0] == 'o' && "no"@[0] == 'n' && "off"@[0] == 'o' && "yes"@[0] == 'y');
}

// ---------------------------------------------------------------------------
// Causes
// ---------------------------------------------------------------------------

/// A mismatch is put down to the `Match` blocks where they account for the value and the managed
/// entries are not known to be wrong themselves; to the managed entries where these are; to the
/// rest of the configuration where the managed entries alone are right; and to nothing else.
pub proof fn law_cause_of_a_mismatch(
    f: FindingsView,
    target: Seq<char>,
    field: Seq<char>,
    expected: Seq<char>,
    actual: Seq<char>,
    managed_matches: Option<bool>,
    managed: Option<Seq<char>>,
    matched: Option<Seq<char>>,
)
    ensures
        ({
            let g = with_mismatch(
                f,
                target,
                field,
                expected,
                Some(actual),
                managed_matches,
                managed,
                matched,
            );
            let by_blocks = matched == Some(actual);
            let one = |b: bool|
                if b {
                    1int
                } else {
                    0
                };
            &&& g.managed_semantic == f.managed_semantic + one(managed_matches == Some(false))
            &&& g.root_match_influenced == f.root_match_influenced + one(
                managed_matches != Some(false) && by_blocks,
            )
            &&& g.root_influenced == f.root_influenced + one(
                managed_matches == Some(true) && !by_blocks,
            )
            &&& g.unclassified == f.unclassified + one(managed_matches is None && !by_blocks)
        }),
{
}

proof fn lemma_override_notes(
    os: Seq<IgnoredView>,
    actual: Seq<(Seq<char>, Seq<char>)>,
    managed: Seq<(Seq<char>, Seq<char>)>,
    home: Seq<char>,
    windows: bool,
)
    ensures
        override_notes(os, actual, managed, home, windows).len() > 0 <==> exists|i: int|
            0 <= i < os.len() && override_won(#[trigger] os[i], managed, home, windows),
    decreases os.len(),
{
    if os.len() > 0 {
        let head = os.drop_last();
        lemma_override_notes(head, actual, managed, home, windows);
        if override_won(os.last(), managed, home, windows) {
            assert(override_won(os[os.len() - 1], managed, home, windows));
        }
        if exists|i: int|
            0 <= i < head.len() && override_won(#[trigger] head[i], managed, home, windows) {
            let i = choose|i: int|
                0 <= i < head.len() && override_won(#[trigger] head[i], managed, home, windows);
            assert(override_won(os[i], managed, home, windows));
        }
        if exists|i: int|
            0 <= i < os.len() && override_won(#[trigger] os[i], managed, home, windows) {
            let i = choose|i: int|
                0 <= i < os.len() && override_won(#[trigger] os[i], managed, home, windows);
            if i < head.len() {
                assert(override_won(head[i], managed, home, windows));
            }
        }
    }
}

/// A value that was passed over is noted exactly where the client took one on the managed entries
/// alone.
pub proof fn law_overrides_are_noted(target: Seq<char>, os: Seq<IgnoredView>, r: ResolutionsView)
    ensures
        overrides_explained(target, os, r) is Some <==> r.managed is Some && exists|i: int|
            0 <= i < os.len() && override_won(#[trigger] os[i], r.managed->0, r.home, r.windows),
{
    if let Some(m) = r.managed {
        lemma_override_notes(os, r.actual, m, r.home, r.windows);
    }
}

/// A later host name or user was taken where the client, on the managed entries alone, resolved to
/// it, and not to the earlier one.
pub proof fn law_later_value_was_taken(
    o: IgnoredView,
    managed: Seq<(Seq<char>, Seq<char>)>,
    home: Seq<char>,
    windows: bool,
    k: int,
)
    requires
        o.key == "HostName"@ || o.key == "User"@,
        is_first_for(managed, lower(o.key), k),
    ensures
        override_won(o, managed, home, windows) <==> trim(managed[k].1) == trim(o.attempted_value)
            && trim(managed[k].1) != trim(o.winning_value),
{
    law_values_are_those_of_the_key(managed, lower(o.key));
    let vs = values_of(managed, lower(o.key));
    assert(vs.len() > 0) by {
        if vs.len() == 0 {
            assert(managed[k].0 != lower(o.key));
        }
    }
    let j = choose|j: int| #[trigger] is_first_for(managed, lower(o.key), j) && vs[0] == managed[j].1;
    assert(j == k) by {
        if j < k {
            assert(managed[j].0 != lower(o.key));
        }
        if k < j {
            assert(managed[k].0 != lower(o.key));
        }
    }
}

/// A mismatch is told with the target, the directive, the value that was expected and the one that
/// was found; a value that is missing is told as such.
pub proof fn law_mismatch_shows_both_values(
    f: FindingsView,
    target: Seq<char>,
    field: Seq<char>,
    expected: Seq<char>,
    actual: Option<Seq<char>>,
    managed_matches: Option<bool>,
    managed: Option<Seq<char>>,
    matched: Option<Seq<char>>,
)
    ensures
        ({
            let g = with_mismatch(
                f,
                target,
                field,
                expected,
                actual,
                managed_matches,
                managed,
                matched,
            );
            let got = if actual is Some {
                actual->0
            } else {
                "<missing>"@
            };
            starts_with(
                g.issues.last(),
                "ssh -G mismatch for `"@ + target + "`: "@ + field + " expected `"@ + expected
                    + "`, got `"@ + got + "` ["@,
            )
        }),
{
    let g = with_mismatch(f, target, field, expected, actual, managed_matches, managed, matched);
    let got = if actual is Some {
        actual->0
    } else {
        "<missing>"@
    };
    let head = "ssh -G mismatch for `"@ + target + "`: "@ + field + " expected `"@ + expected
        + "`, got `"@ + got + "` ["@;
    assert(g.issues.last().take(head.len() as int) =~= head);
}

/// What is said of the cause names what the managed entries alone resolve to, where that is not
/// what was expected.
pub proof fn law_cause_names_the_managed_value(
    actual: Seq<char>,
    managed: Seq<char>,
    with_match: bool,
)
    ensures
        starts_with(
            cause_note(actual, Some(false), Some(managed), with_match),
            "managed-only config also resolved to `"@ + managed + "`"@,
        ),
        starts_with(
            cause_note(actual, Some(true), Some(managed), true),
            "synthetic config with root Match blocks also resolved to `"@ + actual + "`"@,
        ),
        starts_with(
            cause_note(actual, None, None, true),
            "synthetic config with root Match blocks resolved to `"@ + actual + "`"@,
        ),
{
    reveal_strlit("`");
    reveal_strlit("`; managed merge/render semantics likely differ");
    reveal_strlit(
        "`; root Match blocks likely change this field beyond the current merged preview model",
    );
    reveal_strlit(
        "`; root Match blocks likely change this field, but managed-only reproduction was unavailable",
    );
    let a = "managed-only config also resolved to `"@ + managed + "`"@;
    let b = "synthetic config with root Match blocks also resolved to `"@ + actual + "`"@;
    let c = "synthetic config with root Match blocks resolved to `"@ + actual + "`"@;
    let x = cause_note(actual, Some(false), Some(managed), with_match);
    assert(x.take(a.len() as int) =~= a);
    assert(cause_note(actual, Some(true), Some(managed), true).take(b.len() as int) =~= b);
    assert(cause_note(actual, None, None, true).take(c.len() as int) =~= c);
}

} // verus!
