//! Paths: their prefixes, their components, and how they are put together. Where `windows` holds,
//! a backslash separates components too, and a path may begin with a drive or a server.

#![verifier::loop_isolation(false)]

use vstd::prelude::*;

use crate::strings::{begins_with, chars_of, concat2, concat3, same, split_at_any, string_of};
use crate::text::{opt, split, starts_with, strs};

verus! {

broadcast use crate::text::group_text;

pub open spec fn is_letter(c: char) -> bool {
    ('a' as int <= c as int && c as int <= 'z' as int) || ('A' as int <= c as int && c as int
        <= 'Z' as int)
}

/// Whether a path begins with the name of a drive.
pub open spec fn has_drive(path: Seq<char>) -> bool {
    path.len() >= 2 && is_letter(path[0]) && path[1] == ':'
}

/// What separates the components of a path.
pub open spec fn separators(windows: bool) -> Seq<char> {
    if windows {
        seq!['\\', '/']
    } else {
        seq!['/']
    }
}

pub open spec fn is_rooted(path: Seq<char>) -> bool {
    path.len() > 0 && (path[0] == '/' || path[0] == '\\')
}

/// How many characters stand before the first separator: a backslash or, with `both`, a slash too.
pub open spec fn until_separator(s: Seq<char>, both: bool) -> nat
    decreases s.len(),
{
    if s.len() == 0 || s[0] == '\\' || (both && s[0] == '/') {
        0
    } else {
        1 + until_separator(s.skip(1), both)
    }
}

/// How long a server and the share behind it are, where both are named.
pub open spec fn share_len(s: Seq<char>, both: bool) -> nat {
    let n = until_separator(s, both);
    if n < s.len() {
        n + 1 + until_separator(s.skip(n as int + 1), both)
    } else {
        n
    }
}

/// A path of Windows that is taken as it stands.
pub open spec fn is_verbatim(path: Seq<char>) -> bool {
    starts_with(path, "\\\\?\\"@)
}

/// How long the prefix of a path of Windows is: the drive, the server with its share, or the
/// device.
pub open spec fn prefix_len(path: Seq<char>) -> nat {
    if has_drive(path) {
        2
    } else if path.len() < 2 || !is_rooted(path) || !is_rooted(path.skip(1)) {
        0
    } else if is_verbatim(path) {
        let rest = path.skip(4);
        if starts_with(rest, "UNC\\"@) {
            8 + share_len(rest.skip(4), false)
        } else {
            4 + until_separator(rest, false)
        }
    } else if path.len() >= 4 && path[2] == '.' && is_rooted(path.skip(3)) {
        4 + until_separator(path.skip(4), true)
    } else {
        let rest = path.skip(2);
        let n = until_separator(rest, true);
        if n == 0 || share_len(rest, true) <= n + 1 {
            0
        } else {
            2 + share_len(rest, true)
        }
    }
}

/// A path without its prefix.
pub open spec fn without_prefix(path: Seq<char>, windows: bool) -> Seq<char> {
    if windows {
        path.skip(prefix_len(path) as int)
    } else {
        path
    }
}

/// What stands in a path, apart from `.` and what repeated separators enclose.
pub open spec fn is_component(s: Seq<char>) -> bool {
    s.len() > 0 && s != seq!['.']
}

pub open spec fn last_component(parts: Seq<Seq<char>>) -> Option<Seq<char>>
    decreases parts.len(),
{
    if parts.len() == 0 {
        None
    } else if is_component(parts.last()) {
        Some(parts.last())
    } else {
        last_component(parts.drop_last())
    }
}

/// The last component of a path, unless it is `..`.
pub open spec fn file_name(path: Seq<char>, windows: bool) -> Option<Seq<char>> {
    match last_component(split(without_prefix(path, windows), separators(windows))) {
        Some(name) => if name == seq!['.', '.'] {
            None
        } else {
            Some(name)
        },
        None => None,
    }
}

/// The path of `name` in the directory `dir`: a separator comes between them, unless `dir` ends
/// with one or is a drive alone.
pub open spec fn path_in(dir: Seq<char>, name: Seq<char>, windows: bool) -> Seq<char> {
    let seps = separators(windows);
    if dir.len() == 0 || seps.contains(dir.last()) || (windows && has_drive(dir) && dir.len() == 2) {
        dir + name
    } else {
        dir + seq![seps[0]] + name
    }
}

fn letter(c: char) -> (r: bool)
    ensures
        r == is_letter(c),
{
    ('a' <= c && c <= 'z') || ('A' <= c && c <= 'Z')
}

/// Whether a path begins with the name of a drive.
pub fn begins_with_drive(path: &str) -> (r: bool)
    ensures
        r == has_drive(path@),
{
    let v: Vec<char> = chars_of(path);
    v.len() >= 2 && letter(v[0]) && v[1] == ':'
}

/// What separates the components of a path.
pub fn path_separators(windows: bool) -> (r: &'static str)
    ensures
        r@ == separators(windows),
{
    proof {
        reveal_strlit("/");
        reveal_strlit("\\/");
    }
    assert("/"@ =~= seq!['/']);
    assert("\\/"@ =~= seq!['\\', '/']);
    if windows {
        "\\/"
    } else {
        "/"
    }
}

proof fn lemma_until_separator(s: Seq<char>, both: bool)
    ensures
        until_separator(s, both) <= s.len(),
    decreases s.len(),
{
    if s.len() > 0 {
        lemma_until_separator(s.skip(1), both);
    }
}

proof fn lemma_share_len(s: Seq<char>, both: bool)
    ensures
        share_len(s, both) <= s.len(),
{
    lemma_until_separator(s, both);
    let n = until_separator(s, both);
    if n < s.len() {
        lemma_until_separator(s.skip(n as int + 1), both);
    }
}

pub proof fn lemma_prefix_len(path: Seq<char>)
    ensures
        prefix_len(path) <= path.len(),
{
    reveal_strlit("\\\\?\\");
    reveal_strlit("UNC\\");
    if path.len() >= 2 {
        lemma_share_len(path.skip(2), true);
        if path.len() >= 4 {
            let rest = path.skip(4);
            lemma_until_separator(rest, false);
            lemma_until_separator(rest, true);
            if rest.len() >= 4 {
                lemma_share_len(rest.skip(4), false);
            }
        }
    }
}

fn separator_at(v: &Vec<char>, from: usize, both: bool) -> (r: usize)
    requires
        from <= v@.len(),
    ensures
        r == from + until_separator(v@.skip(from as int), both),
        from <= r <= v@.len(),
{
    let mut i: usize = from;
    while i < v.len() && v[i] != '\\' && !(both && v[i] == '/')
        invariant
            from <= i <= v@.len(),
            from + until_separator(v@.skip(from as int), both) == i + until_separator(
                v@.skip(i as int),
                both,
            ),
        decreases v@.len() - i,
    {
        assert(v@.skip(i as int)[0] == v@[i as int]);
        assert(v@.skip(i as int).skip(1) =~= v@.skip(i + 1));
        i += 1;
    }
    assert(i < v@.len() ==> v@.skip(i as int)[0] == v@[i as int]);
    i
}

fn share_end(v: &Vec<char>, from: usize, both: bool) -> (r: usize)
    requires
        from <= v@.len(),
    ensures
        r == from + share_len(v@.skip(from as int), both),
        from <= r <= v@.len(),
{
    let n: usize = separator_at(v, from, both);
    if n < v.len() {
        let ghost k = n - from;
        assert(v@.skip(from as int).skip(k + 1) =~= v@.skip(n + 1));
        separator_at(v, n + 1, both)
    } else {
        n
    }
}

pub fn separates(c: char) -> (r: bool)
    ensures
        r == (c == '/' || c == '\\'),
{
    c == '/' || c == '\\'
}

/// Where the prefix of a path of Windows ends.
pub fn prefix_end(path: &str) -> (r: usize)
    ensures
        r == prefix_len(path@),
        r <= path@.len(),
{
    proof {
        reveal_strlit("\\\\?\\");
        reveal_strlit("UNC\\");
        lemma_prefix_len(path@);
    }
    let v: Vec<char> = chars_of(path);
    let n: usize = v.len();
    if begins_with_drive(path) {
        return 2;
    }
    assert(n >= 2 ==> path@.skip(1)[0] == v@[1]);
    if n < 2 || !separates(v[0]) || !separates(v[1]) {
        return 0;
    }
    if begins_with(path, "\\\\?\\") {
        let rest: String = string_of(&v, 4, n);
        assert(rest@ =~= path@.skip(4));
        if begins_with(&rest, "UNC\\") {
            assert(path@.skip(4).skip(4) =~= v@.skip(8));
            return share_end(&v, 8, false);
        }
        assert(path@.skip(4) =~= v@.skip(4));
        return separator_at(&v, 4, false);
    }
    assert(n >= 4 ==> path@.skip(3)[0] == v@[3]);
    if n >= 4 && v[2] == '.' && separates(v[3]) {
        assert(path@.skip(4) =~= v@.skip(4));
        return separator_at(&v, 4, true);
    }
    assert(path@.skip(2) =~= v@.skip(2));
    let server: usize = separator_at(&v, 2, true);
    let share: usize = share_end(&v, 2, true);
    if server == 2 || share - server <= 1 {
        0
    } else {
        share
    }
}

/// The last component of a path, unless it is `..`.
pub fn file_name_of(path: &str, windows: bool) -> (r: Option<String>)
    ensures
        opt(r) == file_name(path@, windows),
{
    let v: Vec<char> = chars_of(path);
    let from: usize = if windows {
        prefix_end(path)
    } else {
        0
    };
    let rest: String = string_of(&v, from, v.len());
    assert(rest@ =~= without_prefix(path@, windows));
    let parts: Vec<String> = split_at_any(&rest, path_separators(windows));
    let ghost all = strs(parts@);
    let mut i: usize = parts.len();
    proof {
        reveal_strlit(".");
        reveal_strlit("..");
        assert("."@ =~= seq!['.']);
        assert(".."@ =~= seq!['.', '.']);
    }
    while i > 0
        invariant
            i <= parts@.len(),
            all == strs(parts@),
            "."@ == seq!['.'],
            ".."@ == seq!['.', '.'],
            last_component(all) == last_component(all.take(i as int)),
        decreases i,
    {
        assert(all.take(i as int).last() == parts@[i - 1]@);
        assert(all.take(i as int).drop_last() =~= all.take(i - 1));
        i -= 1;
        if !parts[i].as_str().is_empty() && !same(&parts[i], ".") {
            if same(&parts[i], "..") {
                return None;
            }
            return Some(parts[i].clone());
        }
    }
    None
}

/// The path of `name` in the directory `dir`.
pub fn join_path(dir: &str, name: &str, windows: bool) -> (r: String)
    ensures
        r@ == path_in(dir@, name@, windows),
{
    let ghost seps = separators(windows);
    proof {
        reveal_strlit("/");
        reveal_strlit("\\");
        assert("/"@ =~= seq!['/']);
        assert("\\"@ =~= seq!['\\']);
        assert(seps[0] == (if windows {
            '\\'
        } else {
            '/'
        }));
        assert(seps[seps.len() - 1] == '/');
        assert(seps.contains(seps[0]) && seps.contains(seps[seps.len() - 1]));
    }
    let v: Vec<char> = chars_of(dir);
    let n: usize = v.len();
    if n == 0 || v[n - 1] == '/' || (windows && (v[n - 1] == '\\' || (n == 2 && begins_with_drive(
        dir,
    )))) {
        concat2(dir, name)
    } else if windows {
        concat3(dir, "\\", name)
    } else {
        concat3(dir, "/", name)
    }
}

} // verus!
