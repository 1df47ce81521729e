//! What the client is read to say.

use vstd::prelude::*;

use crate::config::openssh::{first_line, options_of, read_options, said, version_token};
use crate::layout::{entry_files, is_entry_file, newline_of};
use crate::paths::file_name;
use crate::text::{
    after_last, blank, contains_text, ends_with, is_ws, key_value, lines, lower, split, starts_with,
    strip_end, trim,
};
use crate::text_laws::{law_trimmed_text_stays, lemma_part_is_one_part, lemma_split_append};

verus! {

pub open spec fn says_something() -> spec_fn(Seq<char>) -> bool {
    |l: Seq<char>| !blank(l)
}

/// The option of a line: its first word in small letters, and what follows.
pub open spec fn option_of(l: Seq<char>) -> (Seq<char>, Seq<char>) {
    (lower((key_value(trim(l))->0).0), (key_value(trim(l))->0).1)
}

/// Each line that is not blank is an option, in their order; it is refused where one has no value.
#[verifier::rlimit(30)]
pub proof fn law_client_lines_are_options(ls: Seq<Seq<char>>, acc: Seq<(Seq<char>, Seq<char>)>)
    ensures
        read_options(ls, acc) is Ok <==> forall|i: int|
            0 <= i < ls.len() && !blank(#[trigger] ls[i]) ==> key_value(trim(ls[i])) is Some,
        read_options(ls, acc) matches Ok(r) ==> r == acc + ls.filter(says_something()).map_values(
            |l: Seq<char>| option_of(l),
        ),
    decreases ls.len(),
{
    let form = |l: Seq<char>| option_of(l);
    if ls.len() == 0 {
        reveal(Seq::filter);
        assert(acc + ls.filter(says_something()).map_values(form) =~= acc);
    } else {
        let rest = ls.skip(1);
        let one = seq![ls[0]];
        assert(ls =~= one + rest);
        Seq::filter_distributes_over_add(one, rest, says_something());
        assert(one.filter(says_something()) =~= (if blank(ls[0]) {
            Seq::empty()
        } else {
            one
        })) by {
            reveal(Seq::filter);
            assert(one.drop_last() =~= Seq::<Seq<char>>::empty());
            assert(one.drop_last().filter(says_something()) =~= Seq::<Seq<char>>::empty());
        }
        let later = forall|i: int|
            0 <= i < rest.len() && !blank(#[trigger] rest[i]) ==> key_value(trim(rest[i])) is Some;
        let all = forall|i: int|
            0 <= i < ls.len() && !blank(#[trigger] ls[i]) ==> key_value(trim(ls[i])) is Some;
        if all {
            assert forall|i: int| 0 <= i < rest.len() && !blank(#[trigger] rest[i]) implies key_value(
                trim(rest[i]),
            ) is Some by {
                assert(rest[i] == ls[i + 1]);
            }
        }
        if later && (blank(ls[0]) || key_value(trim(ls[0])) is Some) {
            assert forall|i: int| 0 <= i < ls.len() && !blank(#[trigger] ls[i]) implies key_value(
                trim(ls[i]),
            ) is Some by {
                if i > 0 {
                    assert(rest[i - 1] == ls[i]);
                }
            }
        }
        let kept = rest.filter(says_something()).map_values(form);
        if blank(ls[0]) {
            law_client_lines_are_options(rest, acc);
            assert(ls.filter(says_something()).map_values(form) =~= kept);
        } else if key_value(trim(ls[0])) is Some {
            let next = acc.push(option_of(ls[0]));
            law_client_lines_are_options(rest, next);
            assert(ls.filter(says_something()).map_values(form) =~= seq![option_of(ls[0])] + kept);
            assert(next + kept =~= acc + (seq![option_of(ls[0])] + kept));
        } else {
            assert(!all);
        }
    }
}

/// The output of the client is read where it says something, and each line that does has a value.
pub proof fn law_client_output_is_read(stdout: Seq<char>)
    ensures
        options_of(stdout) is Ok <==> (forall|i: int|
            0 <= i < lines(stdout).len() && !blank(#[trigger] lines(stdout)[i]) ==> key_value(
                trim(lines(stdout)[i]),
            ) is Some) && exists|i: int|
            0 <= i < lines(stdout).len() && !blank(#[trigger] lines(stdout)[i]),
        options_of(stdout) matches Ok(r) ==> r == lines(stdout).filter(says_something()).map_values(
            |l: Seq<char>| option_of(l),
        ),
{
    let ls = lines(stdout);
    let none = Seq::<(Seq<char>, Seq<char>)>::empty();
    law_client_lines_are_options(ls, none);
    let kept = ls.filter(says_something());
    assert(none + kept.map_values(|l: Seq<char>| option_of(l)) =~= kept.map_values(
        |l: Seq<char>| option_of(l),
    ));
    let some = exists|i: int| 0 <= i < ls.len() && !blank(#[trigger] ls[i]);
    if some {
        let i = choose|i: int| 0 <= i < ls.len() && !blank(#[trigger] ls[i]);
        ls.lemma_filter_contains(says_something(), i);
        assert(kept.len() > 0);
    }
    if !some {
        lemma_nothing_said(ls);
    }
}

proof fn lemma_nothing_said(ls: Seq<Seq<char>>)
    requires
        forall|i: int| 0 <= i < ls.len() ==> blank(#[trigger] ls[i]),
    ensures
        ls.filter(says_something()).len() == 0,
    decreases ls.len(),
{
    reveal(Seq::filter);
    if ls.len() > 0 {
        let head = ls.drop_last();
        assert forall|i: int| 0 <= i < head.len() implies blank(#[trigger] head[i]) by {
            assert(head[i] == ls[i]);
        }
        lemma_nothing_said(head);
        assert(ls.last() == ls[ls.len() - 1]);
    }
}

/// `k` is the place of the first line that is not blank.
pub open spec fn is_first_line(ls: Seq<Seq<char>>, k: int) -> bool {
    &&& 0 <= k < ls.len()
    &&& !blank(ls[k])
    &&& forall|i: int| 0 <= i < k ==> blank(#[trigger] ls[i])
}

proof fn lemma_first_line(ls: Seq<Seq<char>>)
    ensures
        first_line(ls) matches Some(l) ==> exists|k: int| #[trigger]
            is_first_line(ls, k) && l == trim(ls[k]),
        first_line(ls) is None ==> forall|i: int| 0 <= i < ls.len() ==> blank(#[trigger] ls[i]),
    decreases ls.len(),
{
    if ls.len() > 0 {
        if !blank(ls[0]) {
            assert(is_first_line(ls, 0));
        } else {
            let rest = ls.skip(1);
            lemma_first_line(rest);
            if first_line(rest) is Some {
                let k = choose|k: int| #[trigger]
                    is_first_line(rest, k) && first_line(rest)->0 == trim(rest[k]);
                assert forall|i: int| 0 <= i < k + 1 implies blank(#[trigger] ls[i]) by {
                    if i > 0 {
                        assert(rest[i - 1] == ls[i]);
                    }
                }
                assert(ls[k + 1] == rest[k]);
                assert(is_first_line(ls, k + 1));
            } else {
                assert forall|i: int| 0 <= i < ls.len() implies blank(#[trigger] ls[i]) by {
                    if i > 0 {
                        assert(rest[i - 1] == ls[i]);
                    }
                }
            }
        }
    }
}

/// What a program said is the first line that is not blank of its errors, or else of its output.
pub proof fn law_errors_are_told_first(stdout: Seq<char>, stderr: Seq<char>)
    ensures
        forall|k: int| #[trigger]
            is_first_line(lines(stderr), k) ==> said(stdout, stderr) == Some(trim(lines(stderr)[k])),
        (forall|i: int| 0 <= i < lines(stderr).len() ==> blank(#[trigger] lines(stderr)[i])) ==> {
            &&& forall|k: int| #[trigger]
                is_first_line(lines(stdout), k) ==> said(stdout, stderr) == Some(
                    trim(lines(stdout)[k]),
                )
            &&& (forall|i: int|
                0 <= i < lines(stdout).len() ==> blank(#[trigger] lines(stdout)[i])) ==> said(
                stdout,
                stderr,
            ) is None
        },
{
    lemma_first_line(lines(stderr));
    lemma_first_line(lines(stdout));
    assert forall|ls: Seq<Seq<char>>, a: int, b: int| #[trigger]
        is_first_line(ls, a) && #[trigger] is_first_line(ls, b) implies a == b by {
        if a < b {
            assert(blank(ls[a]));
        }
        if b < a {
            assert(blank(ls[b]));
        }
    }
}

/// The version of the client is the first word of what it says, up to a comma.
pub proof fn law_version_is_the_first_word(word: Seq<char>, mark: char, rest: Seq<char>)
    requires
        word.len() > 0,
        forall|i: int| 0 <= i < word.len() ==> !is_ws(#[trigger] word[i]) && word[i] != ',',
        mark == ' ' || mark == ',' || mark == '\t',
        rest.len() > 0,
        !is_ws(rest.last()),
    ensures
        version_token(word.push(mark) + rest) == Some(word),
{
    let raw = word.push(mark) + rest;
    let seps = " \t,"@;
    reveal_strlit(" \t,");
    reveal_strlit(",");
    assert(raw[0] == word[0]);
    assert(raw.last() == rest.last());
    law_trimmed_text_stays(raw);
    assert(seps[0] == ' ' && seps[1] == '\t' && seps[2] == ',');
    assert(seps.contains(mark));
    assert forall|i: int| 0 <= i < word.len() implies !seps.contains(#[trigger] word[i]) by {
        assert(!is_ws(word[i]) && word[i] != ',');
    }
    lemma_split_append(word, mark, rest, seps, Seq::empty());
    lemma_part_is_one_part(word, seps, Seq::empty());
    assert(Seq::<char>::empty() + word =~= word);
    let parts = split(raw, seps);
    assert(parts =~= seq![word] + split(rest, seps));
    assert(parts[0] == word);
    law_trimmed_text_stays(word);
    assert(!blank(word));
    assert(!is_ws(word[word.len() - 1]) && word[word.len() - 1] != ',');
    assert(!","@.contains(word.last()));
    assert(strip_end(word, ","@) == word);
}

// ---------------------------------------------------------------------------
// Files
// ---------------------------------------------------------------------------

/// The files of entries are those with a name that ends in `.conf`, with something before it.
#[verifier::rlimit(30)]
pub proof fn law_entry_files_end_in_conf(name: Seq<char>)
    ensures
        is_entry_file(name) <==> name.len() > 5 && ends_with(name, ".conf"@),
{
    reveal_strlit(".conf");
    reveal_strlit("conf");
    lemma_after_last(name, '.');
    let n = name.len() - after_last(name, '.');
    if is_entry_file(name) {
        let tail = name.skip(n);
        assert(tail == "conf"@);
        assert(name.len() == n + 4);
        assert forall|i: int| 0 <= i < 5 implies name.skip(name.len() - 5)[i] == ".conf"@[i] by {
            if i > 0 {
                assert(name[n + i - 1] == tail[i - 1]);
            }
        }
        assert(name.skip(name.len() - 5) =~= ".conf"@);
    }
    if name.len() > 5 && ends_with(name, ".conf"@) {
        let m = name.len() - 5;
        let tail = name.skip(m);
        assert(tail == ".conf"@);
        assert(name[m] == tail[0]);
        assert forall|i: int| m < i < name.len() implies #[trigger] name[i] != '.' by {
            assert(name[i] == tail[i - m]);
        }
        assert(n - 1 == m) by {
            if n - 1 < m {
                assert(name[m] != '.');
            }
            if n - 1 > m {
                assert(name[n - 1] == '.');
            }
        }
        assert(name.skip(n) =~= "conf"@) by {
            assert forall|i: int| 0 <= i < 4 implies name.skip(n)[i] == "conf"@[i] by {
                assert(name[n + i] == tail[i + 1]);
            }
        }
    }
}

proof fn lemma_after_last(s: Seq<char>, c: char)
    ensures
        after_last(s, c) <= s.len(),
        after_last(s, c) < s.len() ==> s[s.len() - after_last(s, c) - 1] == c,
        forall|i: int| s.len() - after_last(s, c) <= i < s.len() ==> #[trigger] s[i] != c,
    decreases s.len(),
{
    if s.len() > 0 && s.last() != c {
        let rest = s.drop_last();
        lemma_after_last(rest, c);
        assert forall|i: int| s.len() - after_last(s, c) <= i < s.len() implies #[trigger] s[i]
            != c by {
            if i < s.len() - 1 {
                assert(rest[i] != c);
            }
        }
    }
}

pub open spec fn is_file_of_an_entry(windows: bool) -> spec_fn(Seq<char>) -> bool {
    |path: Seq<char>|
        file_name(path, windows) is Some && file_name(path, windows)->0.len() > 5 && ends_with(
            file_name(path, windows)->0,
            ".conf"@,
        )
}

/// All files of entries are read, and no others, in the order in which they were found.
pub proof fn law_entry_files_are_those(paths: Seq<Seq<char>>, windows: bool)
    ensures
        entry_files(paths, windows) == paths.filter(is_file_of_an_entry(windows)),
    decreases paths.len(),
{
    reveal(Seq::filter);
    if paths.len() > 0 {
        law_entry_files_are_those(paths.drop_last(), windows);
        if let Some(name) = file_name(paths.last(), windows) {
            law_entry_files_end_in_conf(name);
        }
    }
}

/// The line end of a text is the one of Windows where it has one of those, and else the one of the
/// machine.
pub proof fn law_line_end_of_a_text(content: Seq<char>, windows: bool, k: int)
    ensures
        0 <= k < content.len() - 1 && content[k] == '\r' && content[k + 1] == '\n' ==> newline_of(
            content,
            windows,
        ) == "\r\n"@,
        windows ==> newline_of(content, windows) == "\r\n"@,
        !windows && (forall|i: int| 0 <= i < content.len() ==> #[trigger] content[i] != '\r')
            ==> newline_of(content, windows) == "\n"@,
{
    reveal_strlit("\r\n");
    if 0 <= k < content.len() - 1 && content[k] == '\r' && content[k + 1] == '\n' {
        assert(content.skip(k).take(2) =~= "\r\n"@);
        assert(starts_with(content.skip(k), "\r\n"@));
    }
    if contains_text(content, "\r\n"@) {
        let i = choose|i: int|
            0 <= i <= content.len() && #[trigger] starts_with(
                content.skip(i),
                "\r\n"@,
            );
        assert(content.skip(i).take(2)[0] == '\r');
        assert(content[i] == '\r');
    }
}

} // verus!
