//! What holds of the files of the managed entries.

use vstd::prelude::*;

use crate::config::model::{HostView, ManagedView, empty_host};
use crate::config::parser::{ParseView, parse_block, parse_line, parse_lines};
use crate::config::roundtrip::{is_newline, is_writable, law_written_entry_is_read_back};
use crate::config::store::{
    dashed, entries_in_files, entry_file_name, entry_in_file, insert_by_order, order_after,
    order_and_slug, order_at, order_taken, placed, placed_all, saved, slug_char, slug_of,
    sorted_by_order, written,
};
use crate::error::FaultView;
use crate::paths::{file_name, has_drive, path_in, prefix_len, separators, without_prefix};
use crate::text::{
    all_digits, decimal, decimal3, is_alphanumeric, is_digit, lines, lower_char, number, split,
    strip_end, strip_start, until,
};
use crate::text_laws::{law_number_of_decimal, lemma_part_is_one_part, lemma_split_append};

verus! {

broadcast use crate::text::group_text;

// ---------------------------------------------------------------------------
// Orders
// ---------------------------------------------------------------------------

proof fn lemma_insert_by_order(v: Seq<ManagedView>, x: ManagedView)
    requires
        sorted_by_order(v),
    ensures
        sorted_by_order(insert_by_order(v, x)),
        insert_by_order(v, x).to_multiset() == v.to_multiset().insert(x),
        insert_by_order(v, x).len() == v.len() + 1,
        forall|k: int|
            0 <= k < insert_by_order(v, x).len() ==> (#[trigger] insert_by_order(v, x)[k] == x
                || v.contains(insert_by_order(v, x)[k])),
    decreases v.len(),
{
    broadcast use vstd::seq_lib::to_multiset_build;

    let r = insert_by_order(v, x);
    if v.len() > 0 && x.order < v.last().order {
        let head = v.drop_last();
        let top = v.last();
        assert(sorted_by_order(head)) by {
            assert forall|i: int, j: int| 0 <= i < j < head.len() implies (#[trigger] head[i]).order
                <= (#[trigger] head[j]).order by {
                assert(v[i].order <= v[j].order);
            }
        }
        lemma_insert_by_order(head, x);
        let rest = insert_by_order(head, x);
        assert(head.push(top) =~= v);
        assert forall|k: int| 0 <= k < r.len() implies (#[trigger] r[k] == x || v.contains(r[k])) by {
            if k < rest.len() {
                assert(r[k] == rest[k]);
                if rest[k] != x {
                    let i = choose|i: int| 0 <= i < head.len() && head[i] == rest[k];
                    assert(v[i] == r[k]);
                }
            } else {
                assert(v[v.len() - 1] == r[k]);
            }
        }
        assert forall|i: int, j: int| 0 <= i < j < r.len() implies (#[trigger] r[i]).order <= (
        #[trigger] r[j]).order by {
            if j < rest.len() {
                assert(rest[i].order <= rest[j].order);
            } else if rest[i] != x {
                let k = choose|k: int| 0 <= k < head.len() && head[k] == rest[i];
                assert(v[k].order <= v[v.len() - 1].order);
            }
        }
        assert(head.to_multiset().insert(x).insert(top) =~= head.to_multiset().insert(top).insert(
            x,
        ));
    } else {
        assert forall|i: int, j: int| 0 <= i < j < r.len() implies (#[trigger] r[i]).order <= (
        #[trigger] r[j]).order by {
            if j < v.len() {
                assert(v[i].order <= v[j].order);
            } else if i < v.len() - 1 {
                assert(v[i].order <= v[v.len() - 1].order);
            }
        }
        assert forall|k: int| 0 <= k < r.len() implies (#[trigger] r[k] == x || v.contains(r[k])) by {
            if k < v.len() {
                assert(v[k] == r[k]);
            }
        }
    }
}

/// The entries that the files hold, in the order of the files.
pub open spec fn read_all(files: Seq<(Seq<char>, Seq<char>)>, windows: bool) -> Seq<ManagedView> {
    files.map_values(|f: (Seq<char>, Seq<char>)| entry_in_file(f.0, f.1, windows)->Ok_0)
}

/// All files hold an entry.
pub open spec fn all_readable(files: Seq<(Seq<char>, Seq<char>)>, windows: bool) -> bool {
    forall|i: int|
        0 <= i < files.len() ==> entry_in_file((#[trigger] files[i]).0, files[i].1, windows) is Ok
}

/// Reading the files succeeds if each can be read; then it gives each entry once, and sorted
/// by order.
#[verifier::spinoff_prover]
#[verifier::rlimit(40)]
pub proof fn law_entries_are_sorted(files: Seq<(Seq<char>, Seq<char>)>, windows: bool)
    ensures
        entries_in_files(files, windows) is Ok <==> all_readable(files, windows),
        entries_in_files(files, windows) matches Ok(es) ==> {
            &&& sorted_by_order(es)
            &&& es.to_multiset() == read_all(files, windows).to_multiset()
            &&& es.len() == files.len()
        },
    decreases files.len(),
{
    broadcast use vstd::seq_lib::to_multiset_build;

    if files.len() == 0 {
        assert(read_all(files, windows) =~= Seq::<ManagedView>::empty());
    } else {
        let head = files.drop_last();
        let last = files.last();
        law_entries_are_sorted(head, windows);
        assert(last == files[files.len() - 1]);
        if all_readable(files, windows) {
            assert forall|i: int| 0 <= i < head.len() implies entry_in_file(
                (#[trigger] head[i]).0,
                head[i].1,
                windows,
            ) is Ok by {
                assert(head[i] == files[i]);
            }
        }
        if entries_in_files(files, windows) is Ok {
            assert forall|i: int| 0 <= i < files.len() implies entry_in_file(
                (#[trigger] files[i]).0,
                files[i].1,
                windows,
            ) is Ok by {
                if i < head.len() {
                    assert(head[i] == files[i]);
                }
            }
            let x = entry_in_file(last.0, last.1, windows)->Ok_0;
            lemma_insert_by_order(entries_in_files(head, windows)->Ok_0, x);
            assert(read_all(files, windows) =~= read_all(head, windows).push(x));
        }
    }
}

/// The order that a new entry gets by itself is that of no other entry.
pub proof fn law_next_order_is_free(es: Seq<ManagedView>)
    requires
        sorted_by_order(es),
        order_after(es) <= 65535,
    ensures
        !order_taken(es, order_after(es) as u16, None),
{
    assert forall|i: int| 0 <= i < es.len() implies (#[trigger] es[i]).order != order_after(
        es,
    ) as u16 by {
        if i < es.len() - 1 {
            assert(es[i].order <= es[es.len() - 1].order);
        }
    }
}

/// A new entry takes neither the order nor the file of another.
pub proof fn law_saved_entry_displaces_nothing(
    es: Seq<ManagedView>,
    files: Seq<Seq<char>>,
    dir: Seq<char>,
    e: HostView,
    requested: Option<u16>,
    newline: Seq<char>,
    windows: bool,
)
    requires
        saved(es, files, dir, e, requested, newline, windows) is Ok,
    ensures
        ({
            let w = saved(es, files, dir, e, requested, newline, windows)->Ok_0;
            &&& w.entry == e
            &&& !files.contains(w.path)
            &&& forall|i: int| 0 <= i < es.len() ==> (#[trigger] es[i]).order != w.order
            &&& requested matches Some(n) ==> w.order == n
        }),
{
}

// ---------------------------------------------------------------------------
// File names
// ---------------------------------------------------------------------------

/// A character of a slug.
pub open spec fn is_slug_char(c: char) -> bool {
    c == '-' || is_digit(c) || ('a' as u32 <= c as u32 <= 'z' as u32)
}

pub open spec fn all_slug_chars(s: Seq<char>) -> bool {
    forall|i: int| 0 <= i < s.len() ==> is_slug_char(#[trigger] s[i])
}

proof fn lemma_dashed(s: Seq<char>, dash: bool, question: bool)
    ensures
        all_slug_chars(dashed(s, dash, question)),
    decreases s.len(),
{
    if s.len() > 0 {
        match slug_char(s[0], question) {
            Some(c) => {
                lemma_dashed(s.skip(1), false, question);
                let rest = dashed(s.skip(1), false, question);
                let all = dashed(s, dash, question);
                assert(is_slug_char(c));
                assert forall|i: int| 0 <= i < all.len() implies is_slug_char(#[trigger] all[i]) by {
                    if i > 0 {
                        assert(all[i] == rest[i - 1]);
                    }
                }
            },
            None => {
                lemma_dashed(s.skip(1), true, question);
                if !dash {
                    let rest = dashed(s.skip(1), true, question);
                    let all = dashed(s, dash, question);
                    assert forall|i: int| 0 <= i < all.len() implies is_slug_char(
                        #[trigger] all[i],
                    ) by {
                        if i > 0 {
                            assert(all[i] == rest[i - 1]);
                        }
                    }
                }
            },
        }
    }
}

proof fn lemma_strip_start(s: Seq<char>, set: Seq<char>)
    ensures
        strip_start(s, set).len() <= s.len(),
        strip_start(s, set) == s.skip(s.len() - strip_start(s, set).len()),
        strip_start(s, set).len() > 0 ==> !set.contains(strip_start(s, set)[0]),
    decreases s.len(),
{
    if s.len() > 0 && set.contains(s[0]) {
        lemma_strip_start(s.skip(1), set);
        let n = strip_start(s, set).len();
        assert(s.skip(1).skip(s.len() - 1 - n) =~= s.skip(s.len() - n));
    } else {
        assert(s.skip(0) =~= s);
    }
}

proof fn lemma_strip_end(s: Seq<char>, set: Seq<char>)
    ensures
        strip_end(s, set).len() <= s.len(),
        strip_end(s, set) == s.take(strip_end(s, set).len() as int),
        strip_end(s, set).len() > 0 ==> !set.contains(strip_end(s, set).last()),
    decreases s.len(),
{
    if s.len() > 0 && set.contains(s.last()) {
        lemma_strip_end(s.drop_last(), set);
        let n = strip_end(s, set).len() as int;
        assert(s.drop_last().take(n) =~= s.take(n));
    } else {
        assert(s.take(s.len() as int) =~= s);
    }
}

/// No two dashes stand side by side.
pub open spec fn has_single_dashes(s: Seq<char>) -> bool {
    forall|i: int| 0 <= i < s.len() - 1 ==> !(#[trigger] s[i] == '-' && s[i + 1] == '-')
}

proof fn lemma_dashed_is_single(s: Seq<char>, dash: bool, question: bool)
    ensures
        has_single_dashes(dashed(s, dash, question)),
        dash && dashed(s, dash, question).len() > 0 ==> dashed(s, dash, question)[0] != '-',
    decreases s.len(),
{
    if s.len() > 0 {
        let all = dashed(s, dash, question);
        match slug_char(s[0], question) {
            Some(c) => {
                lemma_dashed_is_single(s.skip(1), false, question);
                let rest = dashed(s.skip(1), false, question);
                assert(c != '-');
                assert forall|i: int| 0 <= i < all.len() - 1 implies !(#[trigger] all[i] == '-'
                    && all[i + 1] == '-') by {
                    if i > 0 {
                        assert(all[i] == rest[i - 1] && all[i + 1] == rest[i]);
                    }
                }
            },
            None => {
                lemma_dashed_is_single(s.skip(1), true, question);
                if !dash {
                    let rest = dashed(s.skip(1), true, question);
                    assert forall|i: int| 0 <= i < all.len() - 1 implies !(#[trigger] all[i] == '-'
                        && all[i + 1] == '-') by {
                        assert(all[i + 1] == rest[i]);
                        if i > 0 {
                            assert(all[i] == rest[i - 1]);
                        }
                    }
                }
            },
        }
    }
}

proof fn lemma_dashed_stays(s: Seq<char>, dash: bool)
    requires
        all_slug_chars(s),
        has_single_dashes(s),
        dash && s.len() > 0 ==> s[0] != '-',
    ensures
        dashed(s, dash, true) == s,
    decreases s.len(),
{
    if s.len() > 0 {
        let rest = s.skip(1);
        assert(is_slug_char(s[0]));
        assert forall|i: int| 0 <= i < rest.len() implies is_slug_char(#[trigger] rest[i]) by {
            assert(rest[i] == s[i + 1]);
        }
        assert forall|i: int| 0 <= i < rest.len() - 1 implies !(#[trigger] rest[i] == '-' && rest[i
            + 1] == '-') by {
            assert(rest[i] == s[i + 1] && rest[i + 1] == s[i + 2]);
        }
        if s[0] == '-' {
            assert(rest.len() > 0 ==> rest[0] == s[1]);
            lemma_dashed_stays(rest, true);
            assert(seq!['-'] + rest =~= s);
        } else {
            lemma_dashed_stays(rest, false);
            assert(seq![s[0]] + rest =~= s);
        }
    } else {
        assert(dashed(s, dash, true) =~= s);
    }
}

/// A slug is its own slug, and no two dashes stand side by side in it.
pub proof fn law_slug_of_slug(pattern: Seq<char>)
    ensures
        has_single_dashes(slug_of(pattern)),
        slug_of(slug_of(pattern)) == slug_of(pattern),
{
    let set = seq!['-'];
    let s = slug_of(pattern);
    let d = dashed(pattern, false, true);
    let a = strip_start(d, set);
    let t = strip_end(a, set);
    law_slug_is_plain(pattern);
    lemma_dashed_is_single(pattern, false, true);
    lemma_strip_start(d, set);
    lemma_strip_end(a, set);
    let off = d.len() - a.len();
    if t.len() == 0 {
        reveal_strlit("entry");
        let e = "entry"@;
        assert forall|i: int| 0 <= i < e.len() - 1 implies !(#[trigger] e[i] == '-' && e[i + 1]
            == '-') by {
        }
    } else {
        assert forall|i: int| 0 <= i < t.len() - 1 implies !(#[trigger] t[i] == '-' && t[i + 1]
            == '-') by {
            assert(t[i] == d[i + off] && t[i + 1] == d[i + 1 + off]);
        }
    }
    lemma_dashed_stays(s, false);
    assert(!set.contains(s[0]) && !set.contains(s.last()));
    assert(strip_start(s, set) == s);
    assert(strip_end(s, set) == s);
}

/// A slug holds small letters, digits and dashes; it is not empty, and no dash stands at
/// either end.
pub proof fn law_slug_is_plain(pattern: Seq<char>)
    ensures
        slug_of(pattern).len() > 0,
        all_slug_chars(slug_of(pattern)),
        slug_of(pattern)[0] != '-',
        slug_of(pattern).last() != '-',
{
    let d = dashed(pattern, false, true);
    let a = strip_start(d, seq!['-']);
    let t = strip_end(a, seq!['-']);
    lemma_dashed(pattern, false, true);
    lemma_strip_start(d, seq!['-']);
    lemma_strip_end(a, seq!['-']);
    let off = d.len() - a.len();
    assert(seq!['-'][0] == '-');
    assert(seq!['-'].contains('-'));
    if t.len() == 0 {
        reveal_strlit("entry");
        let e = "entry"@;
        assert forall|i: int| 0 <= i < e.len() implies is_slug_char(#[trigger] e[i]) by {
        }
    } else {
        assert forall|i: int| 0 <= i < t.len() implies is_slug_char(#[trigger] t[i]) by {
            assert(t[i] == d[i + off]);
        }
        assert(t[0] == a[0]);
    }
}

proof fn lemma_until_first(a: Seq<char>, rest: Seq<char>, c: char)
    requires
        forall|i: int| 0 <= i < a.len() ==> #[trigger] a[i] != c,
        rest.len() > 0,
        rest[0] == c,
    ensures
        until(a + rest, c) == a.len(),
    decreases a.len(),
{
    if a.len() == 0 {
        assert(a + rest =~= rest);
    } else {
        assert((a + rest)[0] == a[0]);
        assert((a + rest).skip(1) =~= a.skip(1) + rest);
        lemma_until_first(a.skip(1), rest, c);
    }
}

proof fn lemma_number_of_zero(s: Seq<char>)
    requires
        s.len() > 0,
        all_digits(s),
    ensures
        number(seq!['0'] + s) == number(s),
        all_digits(seq!['0'] + s),
    decreases s.len(),
{
    let t = seq!['0'] + s;
    assert(t.last() == s.last());
    assert(t.drop_last() =~= seq!['0'] + s.drop_last());
    assert(t[0] == '0');
    assert forall|i: int| 0 <= i < t.len() implies is_digit(#[trigger] t[i]) by {
        if i > 0 {
            assert(t[i] == s[i - 1]);
        }
    }
    if s.len() == 1 {
        assert(t.drop_last() =~= seq!['0']);
        assert(seq!['0'].drop_last() =~= Seq::<char>::empty());
        assert(number(Seq::<char>::empty()) == 0);
        assert(number(seq!['0']) == 0);
        assert(s.drop_last() =~= Seq::<char>::empty());
    } else {
        assert(all_digits(s.drop_last())) by {
            assert forall|i: int| 0 <= i < s.drop_last().len() implies is_digit(
                #[trigger] s.drop_last()[i],
            ) by {
                assert(s.drop_last()[i] == s[i]);
            }
        }
        lemma_number_of_zero(s.drop_last());
    }
}

proof fn lemma_decimal3(n: nat)
    ensures
        decimal3(n).len() > 0,
        all_digits(decimal3(n)),
        number(decimal3(n)) == n,
{
    law_number_of_decimal(n);
    let d = decimal(n);
    if n < 100 {
        lemma_number_of_zero(d);
        if n < 10 {
            lemma_number_of_zero(seq!['0'] + d);
            assert(seq!['0'] + (seq!['0'] + d) =~= seq!['0', '0'] + d);
        }
    }
}

/// The name of a file tells the order and the slug that it was made of.
#[verifier::spinoff_prover]
#[verifier::rlimit(30)]
pub proof fn law_file_name_is_read_back(order: u16, e: HostView)
    ensures
        order_and_slug(entry_file_name(order, e)) == Ok::<(u16, Seq<char>), Seq<char>>(
            (order, slug_of(e.primary())),
        ),
{
    let name = entry_file_name(order, e);
    let digits = decimal3(order as nat);
    let label = e.kind().spec_label();
    let slug = slug_of(e.primary());
    reveal_strlit("-");
    reveal_strlit(".conf");
    reveal_strlit("host");
    reveal_strlit("pattern");
    assert("-"@ =~= seq!['-']);
    let stem = digits + "-"@ + label + "-"@ + slug;
    assert(name == stem + ".conf"@);
    assert(name.skip(name.len() - ".conf"@.len()) =~= ".conf"@);
    assert(name.take(name.len() - ".conf"@.len()) =~= stem);
    lemma_decimal3(order as nat);
    assert forall|i: int| 0 <= i < digits.len() implies #[trigger] digits[i] != '-' by {
        assert(is_digit(digits[i]));
    }
    let rest = "-"@ + label + "-"@ + slug;
    assert(stem =~= digits + rest);
    lemma_until_first(digits, rest, '-');
    assert(stem.take(digits.len() as int) =~= digits);
    assert(digits[0] != '+') by {
        assert(is_digit(digits[0]));
    }
    let tail = label + "-"@ + slug;
    assert(stem.skip(digits.len() as int + 1) =~= tail);
    let end = "-"@ + slug;
    assert(tail =~= label + end);
    assert forall|i: int| 0 <= i < label.len() implies #[trigger] label[i] != '-' by {
    }
    lemma_until_first(label, end, '-');
    assert(tail.skip(label.len() as int + 1) =~= slug);
}

// ---------------------------------------------------------------------------
// What is saved is loaded
// ---------------------------------------------------------------------------

/// A character that neither separates components nor marks a drive.
pub open spec fn is_name_char(c: char) -> bool {
    c != '/' && c != '\\' && c != ':'
}

pub open spec fn is_plain_name(name: Seq<char>) -> bool {
    forall|i: int| 0 <= i < name.len() ==> is_name_char(#[trigger] name[i])
}

proof fn lemma_name_has_no_slash(order: u16, e: HostView)
    ensures
        ({
            let name = entry_file_name(order, e);
            &&& name.len() > 5
            &&& is_plain_name(name)
        }),
{
    let name = entry_file_name(order, e);
    let digits = decimal3(order as nat);
    let label = e.kind().spec_label();
    let slug = slug_of(e.primary());
    reveal_strlit("-");
    reveal_strlit(".conf");
    reveal_strlit("host");
    reveal_strlit("pattern");
    lemma_decimal3(order as nat);
    law_slug_is_plain(e.primary());
    let a = digits.len() as int;
    let b = a + 1 + label.len();
    let c = b + 1 + slug.len();
    assert forall|i: int| 0 <= i < name.len() implies is_name_char(#[trigger] name[i]) by {
        if i < a {
            assert(name[i] == digits[i]);
            assert(is_digit(digits[i]));
        } else if i == a {
            assert(name[i] == '-');
        } else if i < b {
            assert(name[i] == label[i - a - 1]);
        } else if i == b {
            assert(name[i] == '-');
        } else if i < c {
            assert(name[i] == slug[i - b - 1]);
            assert(is_slug_char(slug[i - b - 1]));
        } else {
            assert(name[i] == ".conf"@[i - c]);
        }
    }
}

/// Files can stand in the directory: no name behind it becomes a part of its prefix, as it would
/// behind a server without a share.
pub open spec fn can_hold_files(dir: Seq<char>, windows: bool) -> bool {
    windows ==> forall|name: Seq<char>|
        is_plain_name(name) ==> prefix_len(#[trigger] path_in(dir, name, windows)) <= dir.len()
}

/// The name of a file in a directory is the last part of its path.
#[verifier::spinoff_prover]
#[verifier::rlimit(40)]
pub proof fn law_file_name_of_path(dir: Seq<char>, name: Seq<char>, windows: bool)
    requires
        name.len() > 2,
        is_plain_name(name),
        can_hold_files(dir, windows),
    ensures
        file_name(path_in(dir, name, windows), windows) == Some(name),
{
    let path = path_in(dir, name, windows);
    let seps = separators(windows);
    assert(seps[0] == (if windows {
        '\\'
    } else {
        '/'
    }));
    assert(seps.contains(seps[0]));
    assert forall|i: int| 0 <= i < name.len() implies !seps.contains(#[trigger] name[i]) by {
        assert(is_name_char(name[i]));
        if seps.contains(name[i]) {
            let k = choose|k: int| 0 <= k < seps.len() && seps[k] == name[i];
            assert(seps[k] == '/' || seps[k] == '\\');
        }
    }
    lemma_part_is_one_part(name, seps, Seq::empty());
    assert(Seq::<char>::empty() + name =~= name);
    let n: int = if windows {
        prefix_len(path) as int
    } else {
        0
    };
    assert(n <= dir.len());
    let base = path.take(path.len() - name.len());
    let whole = without_prefix(path, windows);
    assert(path =~= base + name);
    assert(whole =~= base.skip(n) + name);
    let parts = split(whole, seps);
    if base.len() == n {
        assert(whole =~= name);
        assert(parts.last() == name);
    } else {
        assert(seps.contains(base.last())) by {
            if windows && has_drive(dir) && dir.len() == 2 && !seps.contains(dir.last()) {
                assert(path[0] == dir[0] && path[1] == dir[1]);
                assert(base =~= dir);
                assert(has_drive(path));
            } else if dir.len() == 0 || seps.contains(dir.last()) {
                assert(base =~= dir);
            } else {
                assert(base =~= dir.push(seps[0]));
            }
        }
        let a = base.skip(n).drop_last();
        assert(whole =~= a.push(base.last()) + name);
        lemma_split_append(a, base.last(), name, seps, Seq::empty());
        assert(parts.last() == name);
    }
    assert(name != seq!['.'] && name != seq!['.', '.']);
}

/// An entry that was written into its file is loaded from it as it was.
pub proof fn law_written_entry_is_loaded(
    dir: Seq<char>,
    order: u16,
    e: HostView,
    newline: Seq<char>,
    windows: bool,
)
    requires
        can_hold_files(dir, windows),
        is_writable(e),
        is_newline(newline),
    ensures
        ({
            let w = written(dir, order, e, newline, windows);
            entry_in_file(w.path, w.raw_content, windows) == Ok::<ManagedView, Seq<char>>(w)
        }),
{
    let w = written(dir, order, e, newline, windows);
    lemma_name_has_no_slash(order, e);
    law_file_name_of_path(dir, entry_file_name(order, e), windows);
    law_file_name_is_read_back(order, e);
    law_written_entry_is_read_back(w.path, e, newline);
}

/// What a text says does not depend on where it stands.
proof fn lemma_path_matters_not(p: Seq<char>, q: Seq<char>, st: ParseView, ls: Seq<Seq<char>>)
    requires
        parse_lines(p, true, st, ls) is Ok,
    ensures
        parse_lines(q, true, st, ls) == parse_lines(p, true, st, ls),
    decreases ls.len(),
{
    if ls.len() > 0 {
        assert(parse_line(q, true, st, ls[0]) == parse_line(p, true, st, ls[0]));
        lemma_path_matters_not(p, q, parse_line(p, true, st, ls[0])->Ok_0, ls.skip(1));
    }
}

/// Entries whose texts say what they hold.
pub open spec fn all_true(es: Seq<ManagedView>) -> bool {
    forall|i: int|
        0 <= i < es.len() ==> parse_block(
            (#[trigger] es[i]).path,
            es[i].raw_content,
            true,
        ) == Ok::<HostView, FaultView>(es[i].entry)
}

/// The texts of entries that were loaded say what the entries hold.
pub proof fn law_loaded_entries_are_true(files: Seq<(Seq<char>, Seq<char>)>, windows: bool)
    requires
        entries_in_files(files, windows) is Ok,
    ensures
        all_true(entries_in_files(files, windows)->Ok_0),
    decreases files.len(),
{
    if files.len() > 0 {
        let head = files.drop_last();
        law_loaded_entries_are_true(head, windows);
        law_entries_are_sorted(head, windows);
        let before = entries_in_files(head, windows)->Ok_0;
        let x = entry_in_file(files.last().0, files.last().1, windows)->Ok_0;
        lemma_insert_by_order(before, x);
        let es = entries_in_files(files, windows)->Ok_0;
        assert forall|i: int| 0 <= i < es.len() implies parse_block(
            (#[trigger] es[i]).path,
            es[i].raw_content,
            true,
        ) == Ok::<HostView, FaultView>(es[i].entry) by {
            if es[i] != x {
                let k = choose|k: int| 0 <= k < before.len() && before[k] == es[i];
                assert(parse_block(before[k].path, before[k].raw_content, true) == Ok::<
                    HostView,
                    FaultView,
                >(before[k].entry));
            }
        }
    }
}

/// The files of entries.
pub open spec fn files_of(es: Seq<ManagedView>) -> Seq<(Seq<char>, Seq<char>)> {
    es.map_values(|e: ManagedView| (e.path, e.raw_content))
}

proof fn lemma_placed_is_loaded(dir: Seq<char>, i: int, e: ManagedView, windows: bool)
    requires
        can_hold_files(dir, windows),
        0 <= i,
        order_at(i) <= 65535,
        parse_block(e.path, e.raw_content, true) == Ok::<HostView, FaultView>(e.entry),
    ensures
        entry_in_file(placed(dir, i, e, windows).path, e.raw_content, windows) == Ok::<ManagedView, Seq<char>>(
            placed(dir, i, e, windows),
        ),
{
    let w = placed(dir, i, e, windows);
    let order = order_at(i) as u16;
    lemma_name_has_no_slash(order, e.entry);
    law_file_name_of_path(dir, entry_file_name(order, e.entry), windows);
    law_file_name_is_read_back(order, e.entry);
    lemma_path_matters_not(
        e.path,
        w.path,
        ParseView { entry: empty_host(), saw_host: false },
        lines(e.raw_content),
    );
}

proof fn lemma_same_sorted(a: Seq<ManagedView>, b: Seq<ManagedView>)
    requires
        sorted_by_order(a),
        forall|i: int, j: int|
            0 <= i < j < b.len() ==> (#[trigger] b[i]).order < (#[trigger] b[j]).order,
        a.to_multiset() == b.to_multiset(),
        a.len() == b.len(),
    ensures
        a == b,
    decreases a.len(),
{
    broadcast use vstd::seq_lib::to_multiset_build, vstd::seq_lib::to_multiset_contains;

    if a.len() == 0 {
        assert(a =~= b);
    } else {
        let x = a.last();
        let y = b.last();
        assert(a[a.len() - 1] == x && b[b.len() - 1] == y);
        assert(a.contains(x) && b.contains(y));
        assert(b.contains(x)) by {
            assert(a.to_multiset().count(x) > 0);
        }
        assert(a.contains(y)) by {
            assert(b.to_multiset().count(y) > 0);
        }
        let i = choose|i: int| 0 <= i < b.len() && b[i] == x;
        let j = choose|j: int| 0 <= j < a.len() && a[j] == y;
        if i < b.len() - 1 {
            assert(b[i].order < b[b.len() - 1].order);
            if j < a.len() - 1 {
                assert(a[j].order <= a[a.len() - 1].order);
            }
        }
        assert(x == y);
        let p = a.drop_last();
        let q = b.drop_last();
        assert(p.push(x) =~= a);
        assert(q.push(x) =~= b);
        assert(p.to_multiset().insert(x) == q.to_multiset().insert(x));
        assert(p.to_multiset() =~= q.to_multiset()) by {
            assert forall|z: ManagedView| p.to_multiset().count(z) == q.to_multiset().count(z) by {
                assert(p.to_multiset().insert(x).count(z) == q.to_multiset().insert(x).count(z));
            }
        }
        assert forall|k: int, l: int| 0 <= k < l < p.len() implies (#[trigger] p[k]).order <= (
        #[trigger] p[l]).order by {
            assert(a[k].order <= a[l].order);
        }
        assert forall|k: int, l: int| 0 <= k < l < q.len() implies (#[trigger] q[k]).order < (
        #[trigger] q[l]).order by {
            assert(b[k].order < b[l].order);
        }
        lemma_same_sorted(p, q);
    }
}

/// Entries that are written anew get rising orders, so that no two have the same; apart from
/// their places nothing changes in them. Whatever the order in which the files are then read,
/// the entries are loaded as they were written, in that order.
pub proof fn law_rewritten_entries_are_loaded_in_order(
    dir: Seq<char>,
    es: Seq<ManagedView>,
    files: Seq<(Seq<char>, Seq<char>)>,
    windows: bool,
)
    requires
        can_hold_files(dir, windows),
        all_true(es),
        order_at(es.len() - 1) <= 65535,
        files.to_multiset() == files_of(placed_all(dir, es, windows)).to_multiset(),
        files.len() == es.len(),
    ensures
        forall|i: int, j: int|
            0 <= i < j < es.len() ==> (#[trigger] placed_all(dir, es, windows)[i]).order < (
            #[trigger] placed_all(dir, es, windows)[j]).order,
        forall|i: int|
            0 <= i < es.len() ==> (#[trigger] placed_all(dir, es, windows)[i]).entry == es[i].entry
                && placed_all(dir, es, windows)[i].raw_content == es[i].raw_content,
        entries_in_files(files, windows) == Ok::<Seq<ManagedView>, Seq<char>>(placed_all(dir, es, windows)),
{
    broadcast use vstd::seq_lib::to_multiset_contains;

    let ps = placed_all(dir, es, windows);
    let own = files_of(ps);
    assert forall|i: int| 0 <= i < ps.len() implies entry_in_file(
        (#[trigger] own[i]).0,
        own[i].1,
        windows,
    ) == Ok::<ManagedView, Seq<char>>(ps[i]) by {
        assert(parse_block(es[i].path, es[i].raw_content, true) == Ok::<HostView, FaultView>(
            es[i].entry,
        ));
        assert(order_at(i) <= order_at(es.len() - 1));
        lemma_placed_is_loaded(dir, i, es[i], windows);
    }
    assert(read_all(own, windows) =~= ps);
    assert(all_readable(files, windows)) by {
        assert forall|i: int| 0 <= i < files.len() implies entry_in_file(
            (#[trigger] files[i]).0,
            files[i].1,
            windows,
        ) is Ok by {
            assert(files.contains(files[i]));
            assert(files.to_multiset().count(files[i]) > 0);
            assert(own.contains(files[i]));
            let k = choose|k: int| 0 <= k < own.len() && own[k] == files[i];
            assert(entry_in_file(own[k].0, own[k].1, windows) == Ok::<ManagedView, Seq<char>>(ps[k]));
        }
    }
    law_entries_are_sorted(files, windows);
    lemma_mapped_multiset(files, own, windows);
    lemma_same_sorted(entries_in_files(files, windows)->Ok_0, ps);
}

/// No two entries that are written anew get the same file.
pub proof fn law_rewritten_entries_have_their_own_files(
    dir: Seq<char>,
    es: Seq<ManagedView>,
    windows: bool,
)
    requires
        can_hold_files(dir, windows),
        order_at(es.len() - 1) <= 65535,
    ensures
        forall|i: int, j: int|
            0 <= i < j < es.len() ==> (#[trigger] placed_all(dir, es, windows)[i]).path != (
            #[trigger] placed_all(dir, es, windows)[j]).path,
{
    assert forall|i: int, j: int| 0 <= i < j < es.len() implies (#[trigger] placed_all(dir, es, windows)[i]).path
        != (#[trigger] placed_all(dir, es, windows)[j]).path by {
        let a = placed_all(dir, es, windows)[i];
        let b = placed_all(dir, es, windows)[j];
        lemma_name_has_no_slash(a.order, a.entry);
        lemma_name_has_no_slash(b.order, b.entry);
        law_file_name_of_path(dir, entry_file_name(a.order, a.entry), windows);
        law_file_name_of_path(dir, entry_file_name(b.order, b.entry), windows);
        law_file_name_is_read_back(a.order, a.entry);
        law_file_name_is_read_back(b.order, b.entry);
        assert(a.order != b.order);
    }
}

/// After a save the files give the entries that were there and the one that was saved, sorted by
/// order, whatever the order in which the files are read. The saved entry has the order that was
/// asked for, or one behind all others; no other has it. It is taken that the entry is read from
/// its text as it is.
#[verifier::spinoff_prover]
#[verifier::rlimit(40)]
pub proof fn law_saved_entry_is_loaded_with_the_others(
    files: Seq<(Seq<char>, Seq<char>)>,
    paths: Seq<Seq<char>>,
    dir: Seq<char>,
    e: HostView,
    requested: Option<u16>,
    newline: Seq<char>,
    more: Seq<(Seq<char>, Seq<char>)>,
    windows: bool,
)
    requires
        can_hold_files(dir, windows),
        entries_in_files(files, windows) is Ok,
        requested is None ==> order_after(entries_in_files(files, windows)->Ok_0) <= 65535,
        saved(entries_in_files(files, windows)->Ok_0, paths, dir, e, requested, newline, windows) is Ok,
        ({
            let s = saved(entries_in_files(files, windows)->Ok_0, paths, dir, e, requested, newline, windows)->Ok_0;
            &&& parse_block(s.path, s.raw_content, true) == Ok::<HostView, FaultView>(e)
            &&& more.to_multiset() == files.push((s.path, s.raw_content)).to_multiset()
            &&& more.len() == files.len() + 1
        }),
    ensures
        ({
            let old = entries_in_files(files, windows)->Ok_0;
            let s = saved(old, paths, dir, e, requested, newline, windows)->Ok_0;
            &&& entries_in_files(more, windows) is Ok
            &&& sorted_by_order(entries_in_files(more, windows)->Ok_0)
            &&& entries_in_files(more, windows)->Ok_0.to_multiset() == old.to_multiset().insert(s)
            &&& s.entry == e
            &&& s.path == path_in(dir, entry_file_name(s.order, e), windows)
            &&& requested is Some ==> s.order == requested->0
            &&& requested is None ==> s.order == order_after(old)
            &&& forall|i: int| 0 <= i < old.len() ==> (#[trigger] old[i]).order != s.order
            &&& requested is None ==> forall|i: int|
                0 <= i < old.len() ==> (#[trigger] old[i]).order < s.order
        }),
{
    broadcast use vstd::seq_lib::to_multiset_build, vstd::seq_lib::to_multiset_contains;

    let old = entries_in_files(files, windows)->Ok_0;
    let s = saved(old, paths, dir, e, requested, newline, windows)->Ok_0;
    let x = (s.path, s.raw_content);
    let all = files.push(x);
    law_entries_are_sorted(files, windows);
    law_saved_entry_displaces_nothing(old, paths, dir, e, requested, newline, windows);
    lemma_name_has_no_slash(s.order, e);
    law_file_name_of_path(dir, entry_file_name(s.order, e), windows);
    law_file_name_is_read_back(s.order, e);
    assert(entry_in_file(s.path, s.raw_content, windows) == Ok::<ManagedView, Seq<char>>(s));
    assert forall|i: int| 0 <= i < more.len() implies entry_in_file(
        (#[trigger] more[i]).0,
        more[i].1,
        windows,
    ) is Ok by {
        assert(more.contains(more[i]));
        assert(more.to_multiset().count(more[i]) > 0);
        assert(all.contains(more[i]));
        let k = choose|k: int| 0 <= k < all.len() && all[k] == more[i];
        if k < files.len() {
            assert(files[k] == more[i]);
        }
    }
    law_entries_are_sorted(more, windows);
    lemma_mapped_multiset(more, all, windows);
    assert(read_all(all, windows) =~= read_all(files, windows).push(s));
    if requested is None {
        assert forall|i: int| 0 <= i < old.len() implies (#[trigger] old[i]).order < s.order by {
            if i < old.len() - 1 {
                assert(old[i].order <= old[old.len() - 1].order);
            }
        }
    }
}

proof fn lemma_mapped_multiset(
    a: Seq<(Seq<char>, Seq<char>)>,
    b: Seq<(Seq<char>, Seq<char>)>,
    windows: bool,
)
    requires
        a.to_multiset() == b.to_multiset(),
        a.len() == b.len(),
    ensures
        read_all(a, windows).to_multiset() == read_all(b, windows).to_multiset(),
    decreases a.len(),
{
    broadcast use vstd::seq_lib::to_multiset_build, vstd::seq_lib::to_multiset_contains;

    if a.len() == 0 {
        assert(a =~= b);
    } else {
        let x = a.last();
        assert(a[a.len() - 1] == x);
        assert(a.contains(x));
        assert(a.to_multiset().count(x) > 0);
        assert(b.contains(x));
        let k = choose|k: int| 0 <= k < b.len() && b[k] == x;
        let p = a.drop_last();
        let q = b.remove(k);
        assert(p.push(x) =~= a);
        lemma_removed(b, k);
        assert(p.to_multiset() =~= q.to_multiset()) by {
            assert forall|z: (Seq<char>, Seq<char>)| p.to_multiset().count(z)
                == q.to_multiset().count(z) by {
                assert(p.to_multiset().insert(x).count(z) == q.to_multiset().insert(x).count(z));
            }
        }
        lemma_mapped_multiset(p, q, windows);
        let e = entry_in_file(x.0, x.1, windows)->Ok_0;
        assert(read_all(a, windows) =~= read_all(p, windows).push(e));
        assert(read_all(b, windows).remove(k) =~= read_all(q, windows));
        lemma_removed(read_all(b, windows), k);
    }
}

proof fn lemma_removed<A>(s: Seq<A>, k: int)
    requires
        0 <= k < s.len(),
    ensures
        s.to_multiset() == s.remove(k).to_multiset().insert(s[k]),
    decreases s.len(),
{
    broadcast use vstd::seq_lib::to_multiset_build;

    let head = s.drop_last();
    assert(head.push(s.last()) =~= s);
    if k == s.len() - 1 {
        assert(s.remove(k) =~= head);
    } else {
        lemma_removed(head, k);
        assert(s.remove(k) =~= head.remove(k).push(s.last()));
        assert(head.remove(k).to_multiset().insert(s[k]).insert(s.last())
            =~= head.remove(k).to_multiset().insert(s.last()).insert(s[k]));
    }
}

/// Entries that are written anew count in tens, from ten on, and keep what they say.
pub proof fn law_orders_count_in_tens(dir: Seq<char>, es: Seq<ManagedView>, windows: bool, i: int)
    requires
        0 <= i < es.len(),
        10 * (i + 1) <= 65535,
    ensures
        placed_all(dir, es, windows)[i].order == 10 * (i + 1),
        placed_all(dir, es, windows)[i].entry == es[i].entry,
        placed_all(dir, es, windows)[i].raw_content == es[i].raw_content,
        placed_all(dir, es, windows).len() == es.len(),
{
}

/// The letter that stands for a character of a pattern in the name of a file.
pub open spec fn letter_for(c: char) -> char {
    if c == '?' {
        'q'
    } else {
        lower_char(c)
    }
}

/// A pattern of letters, digits and question marks is named by them, small, with a letter for each
/// question mark.
pub proof fn law_name_of_a_plain_pattern(pattern: Seq<char>)
    requires
        pattern.len() > 0,
        forall|i: int|
            0 <= i < pattern.len() ==> is_alphanumeric(#[trigger] pattern[i]) || pattern[i] == '?',
    ensures
        slug_of(pattern) == pattern.map_values(|c: char| letter_for(c)),
{
    let s = pattern.map_values(|c: char| letter_for(c));
    lemma_plain_slug(pattern);
    let dash = seq!['-'];
    assert(is_alphanumeric(pattern[0]) || pattern[0] == '?');
    let last = pattern[pattern.len() - 1];
    assert(is_alphanumeric(last) || last == '?');
    assert(s[0] == letter_for(pattern[0]) && s.last() == letter_for(last));
    assert(s[0] != '-' && s.last() != '-');
    assert(!dash.contains(s[0]));
    assert(!dash.contains(s.last()));
    assert(strip_start(s, dash) == s);
    assert(strip_end(s, dash) == s);
}

proof fn lemma_plain_slug(pattern: Seq<char>)
    requires
        forall|i: int|
            0 <= i < pattern.len() ==> is_alphanumeric(#[trigger] pattern[i]) || pattern[i] == '?',
    ensures
        dashed(pattern, false, true) == pattern.map_values(|c: char| letter_for(c)),
    decreases pattern.len(),
{
    let s = pattern.map_values(|c: char| letter_for(c));
    if pattern.len() == 0 {
        assert(s =~= Seq::<char>::empty());
    } else {
        let rest = pattern.skip(1);
        assert(is_alphanumeric(pattern[0]) || pattern[0] == '?');
        assert forall|i: int| 0 <= i < rest.len() implies is_alphanumeric(#[trigger] rest[i])
            || rest[i] == '?' by {
            assert(rest[i] == pattern[i + 1]);
        }
        lemma_plain_slug(rest);
        assert(s =~= seq![letter_for(pattern[0])] + rest.map_values(|c: char| letter_for(c)));
    }
}

/// An entry is put behind all that have its order or a lower one, and before the others: entries
/// with one order stay in the order of their files.
pub proof fn law_equal_orders_keep_their_places(v: Seq<ManagedView>, x: ManagedView)
    requires
        sorted_by_order(v),
    ensures
        exists|k: int|
            0 <= k <= v.len() && insert_by_order(v, x) == #[trigger] v.take(k).push(x) + v.skip(k)
                && (forall|i: int| 0 <= i < k ==> (#[trigger] v[i]).order <= x.order) && (forall|
                i: int,
            |
                k <= i < v.len() ==> (#[trigger] v[i]).order > x.order),
    decreases v.len(),
{
    if v.len() > 0 && x.order < v.last().order {
        let head = v.drop_last();
        assert forall|i: int, j: int| 0 <= i < j < head.len() implies (#[trigger] head[i]).order <= (
        #[trigger] head[j]).order by {
            assert(v[i].order <= v[j].order);
        }
        law_equal_orders_keep_their_places(head, x);
        let k = choose|k: int|
            0 <= k <= head.len() && insert_by_order(head, x) == #[trigger] head.take(k).push(x)
                + head.skip(k) && (forall|i: int|
                0 <= i < k ==> (#[trigger] head[i]).order <= x.order) && (forall|i: int|
                k <= i < head.len() ==> (#[trigger] head[i]).order > x.order);
        assert((head.take(k).push(x) + head.skip(k)).push(v.last()) =~= v.take(k).push(x) + v.skip(
            k,
        ));
        assert forall|i: int| 0 <= i < k implies (#[trigger] v[i]).order <= x.order by {
            assert(head[i] == v[i]);
        }
        assert forall|i: int| k <= i < v.len() implies (#[trigger] v[i]).order > x.order by {
            if i < head.len() {
                assert(head[i] == v[i]);
            }
        }
    } else {
        let k = v.len() as int;
        assert(v.push(x) =~= v.take(k).push(x) + v.skip(k));
        assert forall|i: int| 0 <= i < k implies (#[trigger] v[i]).order <= x.order by {
            if i < v.len() - 1 {
                assert(v[i].order <= v[v.len() - 1].order);
            }
        }
    }
}

} // verus!
