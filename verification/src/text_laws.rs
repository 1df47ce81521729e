//! What holds of the operations on text.

use vstd::prelude::*;

use crate::text::{
    after_last, all_digits, concat, decimal, decimal3, digit, is_digit, is_ws, join, lines, lower,
    lower_char, number, parse_unsigned, piece, raw_lines, raw_lines_from, split, split_from,
    split_last, split_once, strip_line_end, trim, trim_end, trim_start, until, words, words_from,
};

verus! {

broadcast use crate::text::group_text;

// ---------------------------------------------------------------------------
// White space and case
// ---------------------------------------------------------------------------

/// Something without white space.
pub open spec fn is_word(s: Seq<char>) -> bool {
    s.len() > 0 && forall|i: int| 0 <= i < s.len() ==> !is_ws(#[trigger] s[i])
}

/// No white space at either end.
pub open spec fn is_trimmed(s: Seq<char>) -> bool {
    s.len() > 0 ==> !is_ws(s[0]) && !is_ws(s.last())
}

/// A text without white space at its ends is left as it is.
pub proof fn law_trimmed_text_stays(s: Seq<char>)
    requires
        is_trimmed(s),
    ensures
        trim(s) == s,
{
}

proof fn lemma_trim_start(s: Seq<char>)
    ensures
        trim_start(s).len() > 0 ==> !is_ws(trim_start(s)[0]),
        trim_start(s).len() <= s.len(),
        trim_start(s) == s.skip(s.len() - trim_start(s).len()),
    decreases s.len(),
{
    if s.len() > 0 && is_ws(s[0]) {
        lemma_trim_start(s.skip(1));
        let n = trim_start(s).len();
        assert(s.skip(1).skip(s.len() - 1 - n) =~= s.skip(s.len() - n));
    } else {
        assert(s.skip(0) =~= s);
    }
}

proof fn lemma_trim_end(s: Seq<char>)
    ensures
        trim_end(s).len() > 0 ==> !is_ws(trim_end(s).last()),
        trim_end(s).len() <= s.len(),
        trim_end(s) == s.take(trim_end(s).len() as int),
    decreases s.len(),
{
    if s.len() > 0 && is_ws(s.last()) {
        lemma_trim_end(s.drop_last());
        let n = trim_end(s).len() as int;
        assert(s.drop_last().take(n) =~= s.take(n));
    } else {
        assert(s.take(s.len() as int) =~= s);
    }
}

/// Trimming leaves no white space at the ends, and trimming again changes nothing.
pub proof fn law_trim_once(s: Seq<char>)
    ensures
        is_trimmed(trim(s)),
        trim(trim(s)) == trim(s),
        trim(s).len() <= s.len(),
{
    lemma_trim_start(s);
    lemma_trim_end(trim_start(s));
    let t = trim(s);
    if t.len() > 0 {
        assert(t[0] == trim_start(s)[0]);
    }
    law_trimmed_text_stays(t);
}

/// What a text holds after trimming, it held before.
pub proof fn law_trim_adds_nothing(s: Seq<char>, c: char)
    requires
        trim(s).contains(c),
    ensures
        s.contains(c),
{
    lemma_trim_start(s);
    lemma_trim_end(trim_start(s));
    let i = choose|i: int| 0 <= i < trim(s).len() && trim(s)[i] == c;
    let off = s.len() - trim_start(s).len();
    assert(trim_start(s)[i] == c);
    assert(s[off + i] == c);
}

/// Small letters stay as they are.
pub proof fn law_lower_once(s: Seq<char>)
    ensures
        lower(lower(s)) == lower(s),
{
    assert forall|i: int| 0 <= i < s.len() implies lower_char(lower_char(s[i])) == lower_char(
        s[i],
    ) by {
        lemma_lower_char(s[i]);
    }
    assert(lower(lower(s)) =~= lower(s));
}

pub proof fn lemma_lower_char(c: char)
    ensures
        lower_char(lower_char(c)) == lower_char(c),
        is_ws(lower_char(c)) == is_ws(c),
{
    if 'A' as u32 <= c as u32 <= 'Z' as u32 {
        let d = lower_char(c);
        assert(d as u32 == c as u32 + 32);
    }
}

/// Case has nothing to do with white space.
pub proof fn law_lower_of_trim(s: Seq<char>)
    ensures
        trim(lower(s)) == lower(trim(s)),
{
    lemma_lower_trim_start(s);
    lemma_lower_trim_end(trim_start(s));
}

proof fn lemma_lower_trim_start(s: Seq<char>)
    ensures
        trim_start(lower(s)) == lower(trim_start(s)),
    decreases s.len(),
{
    if s.len() > 0 {
        lemma_lower_char(s[0]);
        assert(lower(s).skip(1) =~= lower(s.skip(1)));
        lemma_lower_trim_start(s.skip(1));
    }
}

proof fn lemma_lower_trim_end(s: Seq<char>)
    ensures
        trim_end(lower(s)) == lower(trim_end(s)),
    decreases s.len(),
{
    if s.len() > 0 {
        lemma_lower_char(s.last());
        assert(lower(s).drop_last() =~= lower(s.drop_last()));
        lemma_lower_trim_end(s.drop_last());
    }
}

// ---------------------------------------------------------------------------
// Words
// ---------------------------------------------------------------------------

proof fn lemma_words_append(a: Seq<char>, c: char, b: Seq<char>, cur: Seq<char>)
    requires
        is_ws(c),
    ensures
        words_from(a.push(c) + b, cur) == words_from(a, cur) + words(b),
    decreases a.len(),
{
    let s = a.push(c) + b;
    if a.len() == 0 {
        assert(s[0] == c);
        assert(s.skip(1) =~= b);
    } else {
        assert(s[0] == a[0]);
        assert(s.skip(1) =~= a.skip(1).push(c) + b);
        if is_ws(a[0]) {
            lemma_words_append(a.skip(1), c, b, Seq::empty());
            assert(words_from(s, cur) =~= words_from(a, cur) + words(b));
        } else {
            lemma_words_append(a.skip(1), c, b, cur.push(a[0]));
        }
    }
}

proof fn lemma_word_is_one_word(w: Seq<char>, cur: Seq<char>)
    requires
        forall|i: int| 0 <= i < w.len() ==> !is_ws(#[trigger] w[i]),
    ensures
        words_from(w, cur) == piece(cur + w),
    decreases w.len(),
{
    if w.len() == 0 {
        assert(cur + w =~= cur);
    } else {
        lemma_word_is_one_word(w.skip(1), cur.push(w[0]));
        assert(cur.push(w[0]) + w.skip(1) =~= cur + w);
    }
}

/// Words with a space between them are found again.
pub proof fn law_joined_words_are_found(ws: Seq<Seq<char>>)
    requires
        all_words(ws),
    ensures
        words(join(ws, " "@)) == ws,
    decreases ws.len(),
{
    reveal_strlit(" ");
    assert(" "@ =~= seq![' ']);
    let text = join(ws, " "@);
    if ws.len() == 0 {
        assert(words(text) =~= ws);
    } else {
        let w = ws.last();
        assert(w == ws[ws.len() - 1]);
        lemma_word_is_one_word(w, Seq::empty());
        assert(Seq::<char>::empty() + w =~= w);
        if ws.len() == 1 {
            assert(words(text) =~= ws);
        } else {
            let head = ws.drop_last();
            assert forall|i: int| 0 <= i < head.len() implies is_word(#[trigger] head[i]) by {
                assert(head[i] == ws[i]);
            }
            law_joined_words_are_found(head);
            let before = join(head, " "@);
            assert(text =~= before.push(' ') + w);
            lemma_words_append(before, ' ', w, Seq::empty());
            assert(words(text) =~= ws);
        }
    }
}

/// Each word is without white space, and none is empty.
pub proof fn law_words_are_words(s: Seq<char>)
    ensures
        all_words(words(s)),
{
    lemma_words_are_words(s, Seq::empty());
}

pub open spec fn all_words(ws: Seq<Seq<char>>) -> bool {
    forall|i: int| 0 <= i < ws.len() ==> is_word(#[trigger] ws[i])
}

proof fn lemma_words_are_words(s: Seq<char>, cur: Seq<char>)
    requires
        forall|i: int| 0 <= i < cur.len() ==> !is_ws(#[trigger] cur[i]),
    ensures
        all_words(words_from(s, cur)),
    decreases s.len(),
{
    let ws = words_from(s, cur);
    if s.len() == 0 {
        assert forall|i: int| 0 <= i < ws.len() implies is_word(#[trigger] ws[i]) by {
            assert(ws[i] == cur);
        }
    } else if is_ws(s[0]) {
        let rest = words_from(s.skip(1), Seq::empty());
        lemma_words_are_words(s.skip(1), Seq::empty());
        let k = piece(cur).len() as int;
        assert forall|i: int| 0 <= i < ws.len() implies is_word(#[trigger] ws[i]) by {
            if i >= k {
                assert(ws[i] == rest[i - k]);
            } else {
                assert(ws[i] == cur);
            }
        }
    } else {
        let next = cur.push(s[0]);
        assert forall|i: int| 0 <= i < next.len() implies !is_ws(#[trigger] next[i]) by {
            if i < cur.len() {
                assert(next[i] == cur[i]);
            }
        }
        lemma_words_are_words(s.skip(1), next);
    }
}

/// The words with one space between them have the same words.
pub proof fn law_squeezed_once(s: Seq<char>)
    ensures
        words(join(words(s), " "@)) == words(s),
{
    law_words_are_words(s);
    law_joined_words_are_found(words(s));
}

// ---------------------------------------------------------------------------
// Parts
// ---------------------------------------------------------------------------

pub proof fn lemma_split_append(a: Seq<char>, c: char, b: Seq<char>, seps: Seq<char>, cur: Seq<char>)
    requires
        seps.contains(c),
    ensures
        split_from(a.push(c) + b, seps, cur) == split_from(a, seps, cur) + split(b, seps),
    decreases a.len(),
{
    let s = a.push(c) + b;
    if a.len() == 0 {
        assert(s[0] == c);
        assert(s.skip(1) =~= b);
    } else {
        assert(s[0] == a[0]);
        assert(s.skip(1) =~= a.skip(1).push(c) + b);
        if seps.contains(a[0]) {
            lemma_split_append(a.skip(1), c, b, seps, Seq::empty());
            assert(split_from(s, seps, cur) =~= split_from(a, seps, cur) + split(b, seps));
        } else {
            lemma_split_append(a.skip(1), c, b, seps, cur.push(a[0]));
        }
    }
}

pub proof fn lemma_part_is_one_part(w: Seq<char>, seps: Seq<char>, cur: Seq<char>)
    requires
        forall|i: int| 0 <= i < w.len() ==> !seps.contains(#[trigger] w[i]),
    ensures
        split_from(w, seps, cur) == seq![cur + w],
    decreases w.len(),
{
    if w.len() == 0 {
        assert(cur + w =~= cur);
    } else {
        lemma_part_is_one_part(w.skip(1), seps, cur.push(w[0]));
        assert(cur.push(w[0]) + w.skip(1) =~= cur + w);
    }
}

/// Parts without a separator, with one between neighbours, are found again.
pub proof fn law_joined_parts_are_found(parts: Seq<Seq<char>>, c: char, seps: Seq<char>)
    requires
        parts.len() > 0,
        seps.contains(c),
        forall|i: int, j: int|
            0 <= i < parts.len() && 0 <= j < parts[i].len() ==> !seps.contains(
                #[trigger] parts[i][j],
            ),
    ensures
        split(join(parts, seq![c]), seps) == parts,
    decreases parts.len(),
{
    let text = join(parts, seq![c]);
    let w = parts.last();
    assert(w == parts[parts.len() - 1]);
    lemma_part_is_one_part(w, seps, Seq::empty());
    assert(Seq::<char>::empty() + w =~= w);
    if parts.len() == 1 {
        assert(split(text, seps) =~= parts);
    } else {
        let head = parts.drop_last();
        assert forall|i: int, j: int|
            0 <= i < head.len() && 0 <= j < head[i].len() implies !seps.contains(
            #[trigger] head[i][j],
        ) by {
            assert(head[i] == parts[i]);
        }
        law_joined_parts_are_found(head, c, seps);
        let before = join(head, seq![c]);
        assert(text =~= before.push(c) + w);
        lemma_split_append(before, c, w, seps, Seq::empty());
        assert(split(text, seps) =~= parts);
    }
}

// ---------------------------------------------------------------------------
// Lines
// ---------------------------------------------------------------------------

proof fn lemma_concat_prepend(x: Seq<char>, parts: Seq<Seq<char>>)
    ensures
        concat(seq![x] + parts) == x + concat(parts),
    decreases parts.len(),
{
    let all = seq![x] + parts;
    if parts.len() == 0 {
        assert(all.drop_last() =~= Seq::<Seq<char>>::empty());
        assert(concat(all.drop_last()) =~= Seq::<char>::empty());
        assert(concat(all) =~= x + concat(parts));
    } else {
        assert(all.drop_last() =~= seq![x] + parts.drop_last());
        assert(all.last() == parts.last());
        lemma_concat_prepend(x, parts.drop_last());
        assert(concat(all) =~= x + concat(parts));
    }
}

proof fn lemma_concat_raw_lines(s: Seq<char>, cur: Seq<char>)
    ensures
        concat(raw_lines_from(s, cur)) == cur + s,
    decreases s.len(),
{
    if s.len() == 0 {
        assert(cur + s =~= cur);
        if cur.len() > 0 {
            lemma_concat_prepend(cur, Seq::empty());
            assert(seq![cur] + Seq::<Seq<char>>::empty() =~= seq![cur]);
            assert(concat(Seq::<Seq<char>>::empty()) =~= Seq::<char>::empty());
            assert(cur + Seq::<char>::empty() =~= cur);
        } else {
            assert(concat(piece(cur)) =~= cur);
        }
    } else if s[0] == '\n' {
        lemma_concat_raw_lines(s.skip(1), Seq::empty());
        lemma_concat_prepend(cur.push('\n'), raw_lines_from(s.skip(1), Seq::empty()));
        assert(cur.push('\n') + (Seq::<char>::empty() + s.skip(1)) =~= cur + s);
    } else {
        lemma_concat_raw_lines(s.skip(1), cur.push(s[0]));
        assert(cur.push(s[0]) + s.skip(1) =~= cur + s);
    }
}

/// The lines of a text, one after the other, are the text.
pub proof fn law_lines_lose_nothing(s: Seq<char>)
    ensures
        concat(raw_lines(s)) == s,
{
    lemma_concat_raw_lines(s, Seq::empty());
    assert(Seq::<char>::empty() + s =~= s);
}

// ---------------------------------------------------------------------------
// Numbers
// ---------------------------------------------------------------------------

proof fn lemma_digit(d: nat)
    requires
        d < 10,
    ensures
        is_digit(digit(d)),
        digit(d) as u32 - 48 == d,
        digit(d) != '+',
        !is_ws(digit(d)),
{
    assert(digit(d) as u32 == 48 + d);
}

/// The digits of a number stand for it.
pub proof fn law_number_of_decimal(n: nat)
    ensures
        decimal(n).len() > 0,
        all_digits(decimal(n)),
        number(decimal(n)) == n,
    decreases n,
{
    let s = decimal(n);
    if n < 10 {
        lemma_digit(n);
        assert(s.drop_last() =~= Seq::<char>::empty());
        assert(number(s.drop_last()) == 0);
    } else {
        law_number_of_decimal(n / 10);
        lemma_digit(n % 10);
        assert(s.drop_last() =~= decimal(n / 10));
        assert(s.last() == digit(n % 10));
    }
}

/// A number that was written is read back.
pub proof fn law_decimal_is_parsed(n: nat, max: nat)
    requires
        n <= max,
    ensures
        parse_unsigned(decimal(n), max) == Some(n),
        is_word(decimal(n)),
{
    law_number_of_decimal(n);
    let s = decimal(n);
    assert(is_digit(s[0]));
    assert(s[0] != '+');
    assert forall|i: int| 0 <= i < s.len() implies !is_ws(#[trigger] s[i]) by {
        assert(is_digit(s[i]));
    }
}

// ---------------------------------------------------------------------------
// Parts of a text
// ---------------------------------------------------------------------------

pub open spec fn is_all_ws(s: Seq<char>) -> bool {
    forall|i: int| 0 <= i < s.len() ==> is_ws(#[trigger] s[i])
}

proof fn lemma_trimmed_start(s: Seq<char>)
    ensures
        trim_start(s).len() <= s.len(),
        is_all_ws(s.take(s.len() - trim_start(s).len())),
        s == s.take(s.len() - trim_start(s).len()) + trim_start(s),
    decreases s.len(),
{
    lemma_trim_start(s);
    let n = s.len() - trim_start(s).len();
    assert(s =~= s.take(n) + s.skip(n));
    if s.len() > 0 && is_ws(s[0]) {
        let rest = s.skip(1);
        lemma_trimmed_start(rest);
        assert forall|i: int| 0 <= i < n implies is_ws(#[trigger] s.take(n)[i]) by {
            if i > 0 {
                assert(s.take(n)[i] == rest.take(n - 1)[i - 1]);
            }
        }
    }
}

proof fn lemma_trimmed_end(s: Seq<char>)
    ensures
        trim_end(s).len() <= s.len(),
        is_all_ws(s.skip(trim_end(s).len() as int)),
        s == trim_end(s) + s.skip(trim_end(s).len() as int),
    decreases s.len(),
{
    lemma_trim_end(s);
    let n = trim_end(s).len() as int;
    assert(s =~= s.take(n) + s.skip(n));
    if s.len() > 0 && is_ws(s.last()) {
        let rest = s.drop_last();
        lemma_trimmed_end(rest);
        assert forall|i: int| 0 <= i < s.skip(n).len() implies is_ws(#[trigger] s.skip(n)[i]) by {
            if n + i < rest.len() {
                assert(s.skip(n)[i] == rest.skip(n)[i]);
            } else {
                assert(s.skip(n)[i] == s.last());
            }
        }
    }
}

/// Trimming takes white space from both ends, all that is there, and nothing else.
pub proof fn law_trim_takes_white_space(s: Seq<char>)
    ensures
        exists|a: Seq<char>, b: Seq<char>| #[trigger]
            is_all_ws(a) && #[trigger] is_all_ws(b) && s == a + trim(s) + b,
        is_trimmed(trim(s)),
{
    law_trim_once(s);
    lemma_trimmed_start(s);
    let t = trim_start(s);
    lemma_trimmed_end(t);
    let a = s.take(s.len() - t.len());
    let b = t.skip(trim_end(t).len() as int);
    assert(s =~= a + trim(s) + b);
    assert(is_all_ws(a) && is_all_ws(b));
}

/// White space between two texts parts their words.
pub proof fn law_words_of_two_texts(a: Seq<char>, c: char, b: Seq<char>)
    requires
        is_ws(c),
    ensures
        words(a.push(c) + b) == words(a) + words(b),
{
    lemma_words_append(a, c, b, Seq::empty());
}

/// What stands before and behind the first such character of a text.
pub proof fn law_split_at_the_first(a: Seq<char>, c: char, b: Seq<char>)
    requires
        !a.contains(c),
    ensures
        split_once(a.push(c) + b, c) == Some((a, b)),
        split_once(a, c) is None,
{
    let s = a.push(c) + b;
    lemma_until_first(a, c, b);
    assert(s.take(a.len() as int) =~= a);
    assert(s.skip(a.len() as int + 1) =~= b);
    lemma_until_none(a, c);
}

proof fn lemma_until_first(a: Seq<char>, c: char, b: Seq<char>)
    requires
        !a.contains(c),
    ensures
        until(a.push(c) + b, c) == a.len(),
    decreases a.len(),
{
    let s = a.push(c) + b;
    if a.len() > 0 {
        assert(a.contains(a[0]));
        assert(s[0] == a[0]);
        assert(s.skip(1) =~= a.skip(1).push(c) + b);
        assert forall|i: int| 0 <= i < a.skip(1).len() implies a.skip(1)[i] != c by {
            assert(a.contains(a[i + 1]));
        }
        lemma_until_first(a.skip(1), c, b);
    } else {
        assert(s[0] == c);
    }
}

proof fn lemma_until_none(a: Seq<char>, c: char)
    requires
        !a.contains(c),
    ensures
        until(a, c) == a.len(),
    decreases a.len(),
{
    if a.len() > 0 {
        assert(a.contains(a[0]));
        assert forall|i: int| 0 <= i < a.skip(1).len() implies a.skip(1)[i] != c by {
            assert(a.contains(a[i + 1]));
        }
        lemma_until_none(a.skip(1), c);
    }
}

/// What stands before and behind the last such character of a text.
pub proof fn law_split_at_the_last(a: Seq<char>, c: char, b: Seq<char>)
    requires
        !b.contains(c),
    ensures
        split_last(a.push(c) + b, c) == Some((a, b)),
        split_last(b, c) is None,
{
    let s = a.push(c) + b;
    lemma_after_last(a, c, b);
    assert(s.take(a.len() as int) =~= a);
    assert(s.skip(a.len() as int + 1) =~= b);
    lemma_after_last_none(b, c);
}

proof fn lemma_after_last(a: Seq<char>, c: char, b: Seq<char>)
    requires
        !b.contains(c),
    ensures
        after_last(a.push(c) + b, c) == b.len(),
    decreases b.len(),
{
    let s = a.push(c) + b;
    if b.len() > 0 {
        assert(b.contains(b[b.len() - 1]));
        assert(s.last() == b.last());
        assert(s.drop_last() =~= a.push(c) + b.drop_last());
        assert forall|i: int| 0 <= i < b.drop_last().len() implies b.drop_last()[i] != c by {
            assert(b.contains(b[i]));
        }
        lemma_after_last(a, c, b.drop_last());
    } else {
        assert(s.last() == c);
    }
}

proof fn lemma_after_last_none(b: Seq<char>, c: char)
    requires
        !b.contains(c),
    ensures
        after_last(b, c) == b.len(),
    decreases b.len(),
{
    if b.len() > 0 {
        assert(b.contains(b[b.len() - 1]));
        assert forall|i: int| 0 <= i < b.drop_last().len() implies b.drop_last()[i] != c by {
            assert(b.contains(b[i]));
        }
        lemma_after_last_none(b.drop_last(), c);
    }
}

/// A text without line ends.
pub open spec fn is_one_line(s: Seq<char>) -> bool {
    !s.contains('\n')
}

/// A line ends at its line end: a text without one, and then a line end, is the first line, and
/// what follows are the other lines. The line end of Windows is no part of the line either.
pub proof fn law_lines_end_at_line_ends(a: Seq<char>, b: Seq<char>)
    requires
        is_one_line(a),
    ensures
        lines(a.push('\n') + b) == seq![
            if a.len() > 0 && a.last() == '\r' {
                a.drop_last()
            } else {
                a
            },
        ] + lines(b),
        raw_lines(a.push('\n') + b) == seq![a.push('\n')] + raw_lines(b),
        lines(a) == (if a.len() == 0 {
            Seq::empty()
        } else {
            seq![a]
        }),
{
    let s = a.push('\n') + b;
    lemma_first_line(a, b, Seq::empty());
    assert(Seq::<char>::empty() + a.push('\n') =~= a.push('\n'));
    let raw = raw_lines(s);
    assert(raw == seq![a.push('\n')] + raw_lines(b));
    assert(a.push('\n').drop_last() =~= a);
    assert(lines(s) =~= seq![strip_line_end(a.push('\n'))] + lines(b));
    lemma_only_line(a, Seq::empty());
    assert(Seq::<char>::empty() + a =~= a);
    if a.len() > 0 {
        assert(a.contains(a[a.len() - 1]));
        assert(raw_lines(a) =~= seq![a]);
        assert(lines(a) =~= seq![a]);
    } else {
        assert(lines(a) =~= Seq::<Seq<char>>::empty());
    }
}

proof fn lemma_first_line(a: Seq<char>, b: Seq<char>, cur: Seq<char>)
    requires
        is_one_line(a),
    ensures
        raw_lines_from(a.push('\n') + b, cur) == seq![cur + a.push('\n')] + raw_lines(b),
    decreases a.len(),
{
    let s = a.push('\n') + b;
    if a.len() == 0 {
        assert(s[0] == '\n');
        assert(s.skip(1) =~= b);
        assert(cur + a.push('\n') =~= cur.push('\n'));
    } else {
        assert(a.contains(a[0]));
        assert(s[0] == a[0]);
        assert(s.skip(1) =~= a.skip(1).push('\n') + b);
        assert forall|i: int| 0 <= i < a.skip(1).len() implies a.skip(1)[i] != '\n' by {
            assert(a.contains(a[i + 1]));
        }
        lemma_first_line(a.skip(1), b, cur.push(a[0]));
        assert(cur.push(a[0]) + a.skip(1).push('\n') =~= cur + a.push('\n'));
    }
}

proof fn lemma_only_line(a: Seq<char>, cur: Seq<char>)
    requires
        is_one_line(a),
    ensures
        raw_lines_from(a, cur) == piece(cur + a),
    decreases a.len(),
{
    if a.len() == 0 {
        assert(cur + a =~= cur);
    } else {
        assert(a.contains(a[0]));
        assert forall|i: int| 0 <= i < a.skip(1).len() implies a.skip(1)[i] != '\n' by {
            assert(a.contains(a[i + 1]));
        }
        lemma_only_line(a.skip(1), cur.push(a[0]));
        assert(cur.push(a[0]) + a.skip(1) =~= cur + a);
    }
}

/// An order is written with at least three digits, and is the number that they are.
pub proof fn law_orders_have_three_digits(n: nat)
    ensures
        decimal3(n).len() >= 3,
        number(decimal3(n)) == n,
        n >= 100 ==> decimal3(n) == decimal(n),
{
    law_number_of_decimal(n);
    let d = decimal(n);
    reveal_with_fuel(decimal, 4);
    if n < 10 {
        let s = seq!['0', '0'] + d;
        assert(s.drop_last() =~= seq!['0', '0']);
        assert(seq!['0', '0'].drop_last() =~= seq!['0']);
        assert(seq!['0'].drop_last() =~= Seq::<char>::empty());
        assert(number(Seq::<char>::empty()) == 0);
        assert(number(seq!['0']) == 0);
        assert(number(seq!['0', '0']) == 0);
        assert(d.drop_last() =~= Seq::<char>::empty());
        assert(s.last() == d.last());
    } else if n < 100 {
        let s = seq!['0'] + d;
        assert(d.len() == 2);
        let h = d.drop_last();
        assert(s.drop_last() =~= seq!['0'] + h);
        assert((seq!['0'] + h).drop_last() =~= seq!['0']);
        assert(seq!['0'].drop_last() =~= Seq::<char>::empty());
        assert(h.drop_last() =~= Seq::<char>::empty());
        assert(number(Seq::<char>::empty()) == 0);
        assert(number(seq!['0']) == 0);
        assert((seq!['0'] + h).last() == h.last());
        assert(number(seq!['0'] + h) == number(h));
        assert(s.last() == d.last());
    } else {
        lemma_three_digits(n);
    }
}

proof fn lemma_three_digits(n: nat)
    requires
        n >= 100,
    ensures
        decimal(n).len() >= 3,
    decreases n,
{
    if n >= 1000 {
        lemma_three_digits(n / 10);
    } else {
        reveal_with_fuel(decimal, 4);
        assert(n / 10 >= 10);
    }
}

} // verus!
