//! Executable text operations; each returns what its namesake in [`crate::text`] says.

#![verifier::loop_isolation(false)]

use vstd::prelude::*;

use crate::text::{
    after_last, all_digits, blank, contains_text, decimal, decimal3, digit, digits_fault, ends_with,
    insert_text, is_alphanumeric, is_digit, is_ws, join, key_value, lemma_text_less_total,
    lemma_text_less_transitive, lines, lower, lower_char, number, number_fault, opt, or_dash,
    padded, pairs, parse_unsigned, piece, raw_lines, raw_lines_from, replace_char, rising,
    same_ignoring_case, sort_texts, split, split_from, split_last, split_once, starts_with,
    strip_end, strip_line_end, strip_start, strs, text_less, trim, trim_end, trim_start, until,
    until_ws, without, words, words_from,
};

verus! {

broadcast use crate::text::group_text;

/// `String::push` puts the character behind the text.
pub assume_specification[ String::push ](s: &mut String, ch: char)
    ensures
        final(s)@ == old(s)@.push(ch),
;

/// `String::push_str` puts the second text behind the first.
pub assume_specification[ String::push_str ](s: &mut String, string: &str)
    ensures
        final(s)@ == old(s)@ + string@,
;

/// The characters of `s`.
pub fn chars_of(s: &str) -> (r: Vec<char>)
    ensures
        r@ == s@,
{
    let mut v: Vec<char> = Vec::new();
    for c in it: s.chars()
        invariant
            v@ == it.seq().take(it.index()),
            it.seq() == s@,
    {
        v.push(c);
    }
    v
}

/// The characters from `from` up to `to` as a string.
pub fn string_of(v: &Vec<char>, from: usize, to: usize) -> (r: String)
    requires
        from <= to <= v@.len(),
    ensures
        r@ == v@.subrange(from as int, to as int),
{
    let mut r: String = String::new();
    let mut i: usize = from;
    while i < to
        invariant
            from <= i <= to <= v@.len(),
            r@ == v@.subrange(from as int, i as int),
        decreases to - i,
    {
        r.push(v[i]);
        i += 1;
        assert(r@ =~= v@.subrange(from as int, i as int));
    }
    r
}

pub fn same(a: &str, b: &str) -> (r: bool)
    ensures
        r == (a@ == b@),
{
    a.to_owned() == b.to_owned()
}

pub fn is_whitespace(c: char) -> (r: bool)
    ensures
        r == is_ws(c),
{
    let n: u32 = c as u32;
    (0x9 <= n && n <= 0xd) || n == 0x20 || n == 0x85 || n == 0xa0 || n == 0x1680 || (0x2000 <= n && n
        <= 0x200a) || n == 0x2028 || n == 0x2029 || n == 0x202f || n == 0x205f || n == 0x3000
}

pub fn lowered_char(c: char) -> (r: char)
    ensures
        r == lower_char(c),
{
    let n: u32 = c as u32;
    if 65 <= n && n <= 90 {
        ((n + 32) as u8) as char
    } else {
        c
    }
}

pub fn is_ascii_digit(c: char) -> (r: bool)
    ensures
        r == is_digit(c),
{
    let n: u32 = c as u32;
    48 <= n && n <= 57
}

pub fn is_ascii_alphanumeric(c: char) -> (r: bool)
    ensures
        r == is_alphanumeric(c),
{
    let n: u32 = c as u32;
    (48 <= n && n <= 57) || (97 <= n && n <= 122) || (65 <= n && n <= 90)
}

pub fn trimmed(s: &str) -> (r: String)
    ensures
        r@ == trim(s@),
{
    let v: Vec<char> = chars_of(s);
    let mut i: usize = 0;
    while i < v.len() && is_whitespace(v[i])
        invariant
            i <= v@.len(),
            trim_start(v@) == trim_start(v@.skip(i as int)),
        decreases v@.len() - i,
    {
        i += 1;
    }
    let mut j: usize = v.len();
    proof {
        assert(v@.skip(i as int) =~= v@.subrange(i as int, j as int));
    }
    while j > i && is_whitespace(v[j - 1])
        invariant
            i <= j <= v@.len(),
            trim(v@) == trim_end(v@.subrange(i as int, j as int)),
        decreases j,
    {
        proof {
            assert(v@.subrange(i as int, j as int).drop_last() =~= v@.subrange(i as int, j - 1));
        }
        j -= 1;
    }
    string_of(&v, i, j)
}

pub fn trimmed_end(s: &str) -> (r: String)
    ensures
        r@ == trim_end(s@),
{
    let v: Vec<char> = chars_of(s);
    let mut j: usize = v.len();
    proof {
        assert(v@ =~= v@.subrange(0, j as int));
    }
    while j > 0 && is_whitespace(v[j - 1])
        invariant
            j <= v@.len(),
            trim_end(v@) == trim_end(v@.subrange(0, j as int)),
        decreases j,
    {
        proof {
            assert(v@.subrange(0, j as int).drop_last() =~= v@.subrange(0, j - 1));
        }
        j -= 1;
    }
    string_of(&v, 0, j)
}

/// Whether nothing but white space stands in `s`.
pub fn is_blank(s: &str) -> (r: bool)
    ensures
        r == blank(s@),
{
    trimmed(s).as_str().is_empty()
}

pub fn lowered(s: &str) -> (r: String)
    ensures
        r@ == lower(s@),
{
    let v: Vec<char> = chars_of(s);
    let mut r: String = String::new();
    let mut i: usize = 0;
    while i < v.len()
        invariant
            i <= v@.len(),
            v@ == s@,
            r@ == lower(v@.take(i as int)),
        decreases v@.len() - i,
    {
        r.push(lowered_char(v[i]));
        i += 1;
        assert(r@ =~= lower(v@.take(i as int)));
    }
    r
}

pub fn equal_ignoring_case(a: &str, b: &str) -> (r: bool)
    ensures
        r == same_ignoring_case(a@, b@),
{
    lowered(a) == lowered(b)
}

pub fn split_words(s: &str) -> (r: Vec<String>)
    ensures
        strs(r@) == words(s@),
{
    let v: Vec<char> = chars_of(s);
    let mut out: Vec<String> = Vec::new();
    let mut cur: String = String::new();
    let mut i: usize = 0;
    while i < v.len()
        invariant
            i <= v@.len(),
            words(v@) == strs(out@) + words_from(v@.skip(i as int), cur@),
        decreases v@.len() - i,
    {
        let c: char = v[i];
        let ghost before = strs(out@);
        let ghost rest = v@.skip(i as int + 1);
        let ghost whole = words_from(v@.skip(i as int), cur@);
        if is_whitespace(c) {
            let ghost was = cur@;
            if !cur.as_str().is_empty() {
                out.push(cur);
                cur = String::new();
            }
            assert(strs(out@) =~= before + piece(was));
            assert(before + (piece(was) + words_from(rest, Seq::empty())) =~= (before + piece(was))
                + words_from(rest, Seq::empty()));
            assert(cur@ =~= Seq::<char>::empty());
        } else {
            cur.push(c);
        }
        i += 1;
    }
    let ghost before = strs(out@);
    let ghost was = cur@;
    if !cur.as_str().is_empty() {
        out.push(cur);
    }
    assert(strs(out@) =~= before + piece(was));
    out
}

/// The parts of `s` between the characters of `seps`.
pub fn split_at_any(s: &str, seps: &str) -> (r: Vec<String>)
    ensures
        strs(r@) == split(s@, seps@),
{
    let v: Vec<char> = chars_of(s);
    let mut out: Vec<String> = Vec::new();
    let mut cur: String = String::new();
    let mut i: usize = 0;
    while i < v.len()
        invariant
            i <= v@.len(),
            split(v@, seps@) == strs(out@) + split_from(v@.skip(i as int), seps@, cur@),
        decreases v@.len() - i,
    {
        let c: char = v[i];
        let ghost before = strs(out@);
        let ghost rest = v@.skip(i as int + 1);
        if has_char(seps, c) {
            let ghost was = cur@;
            out.push(cur);
            cur = String::new();
            assert(strs(out@) =~= before + seq![was]);
            assert(before + (seq![was] + split_from(rest, seps@, Seq::empty())) =~= (before
                + seq![was]) + split_from(rest, seps@, Seq::empty()));
            assert(cur@ =~= Seq::<char>::empty());
        } else {
            cur.push(c);
        }
        i += 1;
    }
    let ghost before = strs(out@);
    let ghost was = cur@;
    out.push(cur);
    assert(strs(out@) =~= before + seq![was]);
    out
}

pub fn split_raw_lines(s: &str) -> (r: Vec<String>)
    ensures
        strs(r@) == raw_lines(s@),
{
    let v: Vec<char> = chars_of(s);
    let mut out: Vec<String> = Vec::new();
    let mut cur: String = String::new();
    let mut i: usize = 0;
    while i < v.len()
        invariant
            i <= v@.len(),
            raw_lines(v@) == strs(out@) + raw_lines_from(v@.skip(i as int), cur@),
        decreases v@.len() - i,
    {
        let c: char = v[i];
        let ghost before = strs(out@);
        let ghost rest = v@.skip(i as int + 1);
        cur.push(c);
        if c == '\n' {
            let ghost was = cur@;
            out.push(cur);
            cur = String::new();
            assert(strs(out@) =~= before + seq![was]);
            assert(before + (seq![was] + raw_lines_from(rest, Seq::empty())) =~= (before + seq![was])
                + raw_lines_from(rest, Seq::empty()));
            assert(cur@ =~= Seq::<char>::empty());
        }
        i += 1;
    }
    let ghost before = strs(out@);
    let ghost was = cur@;
    if !cur.as_str().is_empty() {
        out.push(cur);
    }
    assert(strs(out@) =~= before + piece(was));
    out
}

pub fn without_line_end(s: &str) -> (r: String)
    ensures
        r@ == strip_line_end(s@),
{
    let v: Vec<char> = chars_of(s);
    let n: usize = v.len();
    if n > 0 && v[n - 1] == '\n' {
        if n > 1 && v[n - 2] == '\r' {
            let r: String = string_of(&v, 0, n - 2);
            assert(r@ =~= v@.drop_last().drop_last());
            r
        } else {
            let r: String = string_of(&v, 0, n - 1);
            assert(r@ =~= v@.drop_last());
            r
        }
    } else {
        let r: String = string_of(&v, 0, n);
        assert(r@ =~= v@);
        r
    }
}

pub fn split_lines(s: &str) -> (r: Vec<String>)
    ensures
        strs(r@) == lines(s@),
{
    let raw: Vec<String> = split_raw_lines(s);
    let mut out: Vec<String> = Vec::new();
    let mut i: usize = 0;
    while i < raw.len()
        invariant
            i <= raw@.len(),
            strs(out@) == strs(raw@).take(i as int).map_values(|l: Seq<char>| strip_line_end(l)),
        decreases raw@.len() - i,
    {
        out.push(without_line_end(&raw[i]));
        i += 1;
        assert(strs(out@) =~= strs(raw@).take(i as int).map_values(
            |l: Seq<char>| strip_line_end(l),
        ));
    }
    out
}

pub fn joined(parts: &Vec<String>, sep: &str) -> (r: String)
    ensures
        r@ == join(strs(parts@), sep@),
{
    let mut r: String = String::new();
    let mut i: usize = 0;
    while i < parts.len()
        invariant
            i <= parts@.len(),
            r@ == join(strs(parts@).take(i as int), sep@),
        decreases parts@.len() - i,
    {
        proof {
            assert(strs(parts@).take(i + 1).drop_last() =~= strs(parts@).take(i as int));
        }
        if i > 0 {
            r.push_str(sep);
        }
        r.push_str(&parts[i]);
        i += 1;
        proof {
            if i == 1 {
                assert(r@ =~= strs(parts@).take(1)[0]);
            }
        }
    }
    r
}

pub fn has_char(s: &str, c: char) -> (r: bool)
    ensures
        r == s@.contains(c),
{
    let v: Vec<char> = chars_of(s);
    let mut i: usize = 0;
    while i < v.len()
        invariant
            i <= v@.len(),
            forall|k: int| 0 <= k < i ==> v@[k] != c,
        decreases v@.len() - i,
    {
        if v[i] == c {
            assert(v@[i as int] == c);
            return true;
        }
        i += 1;
    }
    false
}

/// How many characters stand before the first `c` of `v`.
pub fn count_until(v: &Vec<char>, c: char) -> (r: usize)
    ensures
        r == until(v@, c),
        r <= v@.len(),
{
    let mut i: usize = 0;
    while i < v.len() && v[i] != c
        invariant
            i <= v@.len(),
            until(v@, c) == i + until(v@.skip(i as int), c),
        decreases v@.len() - i,
    {
        i += 1;
    }
    i
}

pub fn halves_at(s: &str, c: char) -> (r: Option<(String, String)>)
    ensures
        match r {
            Some((a, b)) => split_once(s@, c) == Some((a@, b@)),
            None => split_once(s@, c) is None,
        },
{
    let v: Vec<char> = chars_of(s);
    let n: usize = count_until(&v, c);
    if n < v.len() {
        let a: String = string_of(&v, 0, n);
        let b: String = string_of(&v, n + 1, v.len());
        assert(a@ =~= v@.take(n as int));
        assert(b@ =~= v@.skip(n + 1));
        Some((a, b))
    } else {
        None
    }
}

pub fn halves_at_last(s: &str, c: char) -> (r: Option<(String, String)>)
    ensures
        match r {
            Some((a, b)) => split_last(s@, c) == Some((a@, b@)),
            None => split_last(s@, c) is None,
        },
{
    let v: Vec<char> = chars_of(s);
    let mut j: usize = v.len();
    proof {
        assert(v@.take(j as int) =~= v@);
    }
    while j > 0 && v[j - 1] != c
        invariant
            j <= v@.len(),
            after_last(v@, c) == v@.len() - j + after_last(v@.take(j as int), c),
        decreases j,
    {
        proof {
            assert(v@.take(j as int).drop_last() =~= v@.take(j - 1));
        }
        j -= 1;
    }
    if j > 0 {
        let a: String = string_of(&v, 0, j - 1);
        let b: String = string_of(&v, j, v.len());
        assert(a@ =~= v@.take(j - 1));
        assert(b@ =~= v@.skip(j as int));
        Some((a, b))
    } else {
        None
    }
}

pub fn split_key_value(s: &str) -> (r: Option<(String, String)>)
    ensures
        match r {
            Some((a, b)) => key_value(s@) == Some((a@, b@)),
            None => key_value(s@) is None,
        },
{
    let v: Vec<char> = chars_of(s);
    let mut i: usize = 0;
    while i < v.len() && !is_whitespace(v[i])
        invariant
            i <= v@.len(),
            until_ws(v@) == i + until_ws(v@.skip(i as int)),
        decreases v@.len() - i,
    {
        i += 1;
    }
    if i == v.len() {
        return None;
    }
    let key: String = string_of(&v, 0, i);
    let rest: String = string_of(&v, i, v.len());
    assert(key@ =~= v@.take(i as int));
    assert(rest@ =~= v@.skip(i as int));
    let value: String = trimmed(&rest);
    if value.as_str().is_empty() {
        None
    } else {
        Some((key, value))
    }
}

pub fn begins_with(s: &str, p: &str) -> (r: bool)
    ensures
        r == starts_with(s@, p@),
{
    let v: Vec<char> = chars_of(s);
    let w: Vec<char> = chars_of(p);
    starts_at(&v, 0, &w)
}

/// Whether `w` stands in `v` at `from`.
pub fn starts_at(v: &Vec<char>, from: usize, w: &Vec<char>) -> (r: bool)
    requires
        from <= v@.len(),
    ensures
        r == starts_with(v@.skip(from as int), w@),
{
    if w.len() > v.len() - from {
        return false;
    }
    let mut i: usize = 0;
    while i < w.len()
        invariant
            i <= w@.len(),
            w.len() <= v.len() - from,
            from <= v@.len(),
            forall|k: int| 0 <= k < i ==> v@[from + k] == w@[k],
        decreases w@.len() - i,
    {
        if v[from + i] != w[i] {
            assert(v@.skip(from as int).take(w@.len() as int)[i as int] != w@[i as int]);
            return false;
        }
        i += 1;
    }
    assert(v@.skip(from as int).take(w@.len() as int) =~= w@);
    true
}

pub fn finishes_with(s: &str, p: &str) -> (r: bool)
    ensures
        r == ends_with(s@, p@),
{
    let v: Vec<char> = chars_of(s);
    let w: Vec<char> = chars_of(p);
    if w.len() > v.len() {
        return false;
    }
    let from: usize = v.len() - w.len();
    let r: bool = starts_at(&v, from, &w);
    assert(v@.skip(from as int).take(w@.len() as int) =~= v@.skip(from as int));
    r
}

pub fn has_text(s: &str, p: &str) -> (r: bool)
    ensures
        r == contains_text(s@, p@),
{
    let v: Vec<char> = chars_of(s);
    let w: Vec<char> = chars_of(p);
    let mut i: usize = 0;
    loop
        invariant
            i <= v@.len(),
            v@ == s@,
            w@ == p@,
            forall|k: int| 0 <= k < i ==> !#[trigger] starts_with(v@.skip(k), w@),
        decreases v@.len() - i,
    {
        if starts_at(&v, i, &w) {
            assert(starts_with(s@.skip(i as int), p@));
            return true;
        }
        if i == v.len() {
            return false;
        }
        i += 1;
    }
}

/// What follows `p` at the start of `s`.
pub fn after_prefix(s: &str, p: &str) -> (r: Option<String>)
    ensures
        match r {
            Some(rest) => starts_with(s@, p@) && rest@ == s@.skip(p@.len() as int),
            None => !starts_with(s@, p@),
        },
{
    let v: Vec<char> = chars_of(s);
    let w: Vec<char> = chars_of(p);
    if starts_at(&v, 0, &w) {
        let rest: String = string_of(&v, w.len(), v.len());
        assert(rest@ =~= v@.skip(w@.len() as int));
        Some(rest)
    } else {
        None
    }
}

/// What stands before `p` at the end of `s`.
pub fn before_suffix(s: &str, p: &str) -> (r: Option<String>)
    ensures
        match r {
            Some(rest) => ends_with(s@, p@) && rest@ == s@.take(s@.len() - p@.len()),
            None => !ends_with(s@, p@),
        },
{
    if finishes_with(s, p) {
        let v: Vec<char> = chars_of(s);
        let w: Vec<char> = chars_of(p);
        let n: usize = v.len() - w.len();
        let rest: String = string_of(&v, 0, n);
        assert(rest@ =~= v@.take(n as int));
        Some(rest)
    } else {
        None
    }
}

pub fn with_char_replaced(s: &str, from: char, to: char) -> (r: String)
    ensures
        r@ == replace_char(s@, from, to),
{
    let v: Vec<char> = chars_of(s);
    let mut r: String = String::new();
    let mut i: usize = 0;
    while i < v.len()
        invariant
            i <= v@.len(),
            r@ == replace_char(v@.take(i as int), from, to),
        decreases v@.len() - i,
    {
        if v[i] == from {
            r.push(to);
        } else {
            r.push(v[i]);
        }
        i += 1;
        assert(r@ =~= replace_char(v@.take(i as int), from, to));
    }
    r
}

pub fn decimal_text(n: usize) -> (r: String)
    ensures
        r@ == decimal(n as nat),
    decreases n,
{
    let d: u8 = (n % 10) as u8;
    let c: char = (48 + d) as char;
    assert(c == digit((n % 10) as nat));
    let mut r: String = if n < 10 {
        String::new()
    } else {
        decimal_text(n / 10)
    };
    r.push(c);
    assert(r@ =~= decimal(n as nat));
    r
}

pub fn decimal3_text(n: u16) -> (r: String)
    ensures
        r@ == decimal3(n as nat),
{
    let mut r: String = String::new();
    if n < 100 {
        r.push('0');
    }
    if n < 10 {
        r.push('0');
    }
    r.push_str(&decimal_text(n as usize));
    assert(r@ =~= decimal3(n as nat));
    r
}

proof fn lemma_number_grows(s: Seq<char>, i: int)
    requires
        0 <= i <= s.len(),
        all_digits(s),
    ensures
        number(s.take(i)) <= number(s),
    decreases s.len() - i,
{
    if i < s.len() {
        lemma_number_grows(s, i + 1);
        assert(is_digit(s[i]));
    }
}

/// The number that `s` stands for, if it is one and at most `max`.
pub fn parse_number(s: &str, max: u32) -> (r: Option<u32>)
    requires
        max < 0x1000_0000,
    ensures
        match r {
            Some(n) => parse_unsigned(s@, max as nat) == Some(n as nat),
            None => parse_unsigned(s@, max as nat) is None,
        },
{
    let v: Vec<char> = chars_of(s);
    let from: usize = if v.len() > 0 && v[0] == '+' {
        1
    } else {
        0
    };
    let ghost d = v@.skip(from as int);
    if from == v.len() {
        return None;
    }
    let mut acc: u32 = 0;
    let mut i: usize = from;
    while i < v.len()
        invariant
            from <= i <= v@.len(),
            from <= 1,
            max < 0x1000_0000,
            d == v@.skip(from as int),
            forall|k: int| 0 <= k < i - from ==> is_digit(#[trigger] d[k]),
            acc <= max,
            acc == number(d.take(i - from)),
        decreases v@.len() - i,
    {
        let c: char = v[i];
        assert(c == d[i - from]);
        if !is_ascii_digit(c) {
            assert(!is_digit(d[i - from]));
            return None;
        }
        assert(d.take(i - from + 1) =~= d.take(i - from).push(c));
        acc = acc * 10 + (c as u32 - 48);
        if acc > max {
            proof {
                if all_digits(d) {
                    lemma_number_grows(d, i - from + 1);
                }
            }
            return None;
        }
        i += 1;
    }
    assert(d.take(i - from) =~= d);
    Some(acc)
}

/// Why `s` stands for no number up to `max`.
pub fn number_fault_text(s: &str, max: u32) -> (r: String)
    requires
        max < 0x1000_0000,
    ensures
        r@ == number_fault(s@, max as nat),
{
    let v: Vec<char> = chars_of(s);
    if v.len() == 0 {
        return "cannot parse integer from empty string".to_string();
    }
    let from: usize = if v[0] == '+' && v.len() > 1 {
        1
    } else {
        0
    };
    let ghost d = v@.skip(from as int);
    assert(v@.skip(0) =~= v@);
    let mut acc: u32 = 0;
    let mut i: usize = from;
    while i < v.len()
        invariant
            from <= i <= v@.len(),
            max < 0x1000_0000,
            acc <= max,
            digits_fault(d, 0, max as nat) == digits_fault(
                v@.skip(i as int),
                acc as nat,
                max as nat,
            ),
        decreases v@.len() - i,
    {
        let c: char = v[i];
        assert(v@.skip(i as int)[0] == c);
        assert(v@.skip(i as int).skip(1) =~= v@.skip(i + 1));
        if !is_ascii_digit(c) {
            return "invalid digit found in string".to_string();
        }
        acc = acc * 10 + (c as u32 - 48);
        if acc > max {
            return "number too large to fit in target type".to_string();
        }
        i += 1;
    }
    let r: String = String::new();
    assert(r@ =~= v@.skip(i as int));
    r
}

pub fn parse_u16(s: &str) -> (r: Option<u16>)
    ensures
        match r {
            Some(n) => parse_unsigned(s@, 65535) == Some(n as nat),
            None => parse_unsigned(s@, 65535) is None,
        },
{
    match parse_number(s, 65535) {
        Some(n) => {
            assert(n <= 65535);
            Some(n as u16)
        },
        None => None,
    }
}

/// `s` without the characters of `set` at both ends.
pub fn stripped(s: &str, set: &str) -> (r: String)
    ensures
        r@ == strip_end(strip_start(s@, set@), set@),
{
    let v: Vec<char> = chars_of(s);
    let mut i: usize = 0;
    while i < v.len() && has_char(set, v[i])
        invariant
            i <= v@.len(),
            strip_start(v@, set@) == strip_start(v@.skip(i as int), set@),
        decreases v@.len() - i,
    {
        i += 1;
    }
    let rest: String = string_of(&v, i, v.len());
    assert(rest@ =~= v@.skip(i as int));
    stripped_end(&rest, set)
}

/// `s` without the characters of `set` at its end.
pub fn stripped_end(s: &str, set: &str) -> (r: String)
    ensures
        r@ == strip_end(s@, set@),
{
    let v: Vec<char> = chars_of(s);
    let mut j: usize = v.len();
    while j > 0 && has_char(set, v[j - 1])
        invariant
            j <= v@.len(),
            strip_end(v@, set@) == strip_end(v@.take(j as int), set@),
        decreases j,
    {
        proof {
            assert(v@.take(j as int).drop_last() =~= v@.take(j - 1));
        }
        j -= 1;
    }
    let r: String = string_of(&v, 0, j);
    assert(r@ =~= v@.take(j as int));
    r
}

fn char_code(c: char) -> (r: u32)
    ensures
        r == c as int,
{
    c as u32
}

/// Whether `a` stands before `b` in the order of characters.
pub fn is_less(a: &str, b: &str) -> (r: bool)
    ensures
        r == text_less(a@, b@),
{
    let v: Vec<char> = chars_of(a);
    let w: Vec<char> = chars_of(b);
    let mut i: usize = 0;
    while i < v.len() && i < w.len()
        invariant
            i <= v@.len(),
            i <= w@.len(),
            text_less(v@, w@) == text_less(v@.skip(i as int), w@.skip(i as int)),
        decreases v@.len() - i,
    {
        if v[i] != w[i] {
            return char_code(v[i]) < char_code(w[i]);
        }
        i += 1;
    }
    i < w.len()
}

/// The texts of `values` in order, each once.
pub fn sorted_once(values: &Vec<String>) -> (r: Vec<String>)
    ensures
        rising(strs(r@)),
        forall|t: Seq<char>| strs(r@).contains(t) <==> strs(values@).contains(t),
{
    let mut out: Vec<String> = Vec::new();
    let mut i: usize = 0;
    while i < values.len()
        invariant
            i <= values@.len(),
            rising(strs(out@)),
            forall|t: Seq<char>|
                strs(out@).contains(t) <==> strs(values@).take(i as int).contains(t),
        decreases values@.len() - i,
    {
        let ghost before = strs(out@);
        let ghost x = values@[i as int]@;
        insert_once(&mut out, &values[i]);
        proof {
            let head = strs(values@).take(i as int);
            assert forall|t: Seq<char>| strs(out@).contains(t) <==> head.push(x).contains(t) by {
                if head.push(x).contains(t) {
                    let k = choose|k: int| 0 <= k < head.push(x).len() && head.push(x)[k] == t;
                    if k < head.len() {
                        assert(head[k] == t);
                    }
                }
                if head.contains(t) {
                    let k = choose|k: int| 0 <= k < head.len() && head[k] == t;
                    assert(head.push(x)[k] == t);
                }
                assert(head.push(x)[head.len() as int] == x);
            }
        }
        i += 1;
    }
    out
}

/// Puts `x` at its place in a rising row, unless it stands there already.
fn insert_once(out: &mut Vec<String>, x: &str)
    requires
        rising(strs(old(out)@)),
    ensures
        rising(strs(final(out)@)),
        forall|t: Seq<char>|
            strs(final(out)@).contains(t) <==> (strs(old(out)@).contains(t) || t == x@),
{
    let ghost was = strs(out@);
    let mut j: usize = 0;
    while j < out.len() && is_less(&out[j], x)
        invariant
            j <= out@.len(),
            strs(out@) == was,
            forall|k: int| 0 <= k < j ==> text_less(#[trigger] was[k], x@),
        decreases out@.len() - j,
    {
        assert(was[j as int] == out@[j as int]@);
        j += 1;
    }
    if j < out.len() {
        assert(was[j as int] == out@[j as int]@);
        if same(&out[j], x) {
            assert(was.contains(x@));
            return;
        }
    }
    out.insert(j, x.to_owned());
    proof {
        let now = strs(out@);
        assert(now =~= was.insert(j as int, x@));
        if j < was.len() {
            lemma_text_less_total(was[j as int], x@);
        }
        assert forall|a: int, b: int| 0 <= a < b < now.len() implies text_less(
            #[trigger] now[a],
            #[trigger] now[b],
        ) by {
            let oa = if a < j { a } else { a - 1 };
            let ob = if b < j { b } else { b - 1 };
            if a == j {
                assert(now[b] == was[b - 1]);
                if b - 1 > j {
                    assert(text_less(was[j as int], was[b - 1]));
                    lemma_text_less_transitive(x@, was[j as int], was[b - 1]);
                }
            } else if b == j {
                assert(now[a] == was[a]);
            } else {
                assert(now[a] == was[oa] && now[b] == was[ob]);
            }
        }
        assert forall|t: Seq<char>| now.contains(t) <==> (was.contains(t) || t == x@) by {
            if now.contains(t) {
                let k = choose|k: int| 0 <= k < now.len() && now[k] == t;
                if k < j {
                    assert(was[k] == t);
                } else if k > j {
                    assert(was[k - 1] == t);
                }
            }
            if was.contains(t) {
                let k = choose|k: int| 0 <= k < was.len() && was[k] == t;
                assert(now[if k < j { k } else { k + 1 }] == t);
            }
            assert(now[j as int] == x@);
        }
    }
}

/// Puts `x` at its place in a row in order.
fn insert_sorted(out: &mut Vec<String>, x: String)
    ensures
        strs(final(out)@) == insert_text(strs(old(out)@), x@),
{
    let ghost was = strs(out@);
    let mut j: usize = out.len();
    let ghost mut tail = Seq::<Seq<char>>::empty();
    assert(insert_text(was, x@) =~= insert_text(was.take(j as int), x@) + tail);
    while j > 0 && is_less(&x, &out[j - 1])
        invariant
            j <= out@.len(),
            strs(out@) == was,
            tail == was.skip(j as int),
            insert_text(was, x@) == insert_text(was.take(j as int), x@) + tail,
        decreases j,
    {
        proof {
            let head = was.take(j as int);
            assert(head.last() == out@[j - 1]@);
            assert(head.drop_last() =~= was.take(j - 1));
            assert(insert_text(was.take(j - 1), x@).push(head.last()) + tail =~= insert_text(
                was.take(j - 1),
                x@,
            ) + was.skip(j - 1));
            tail = was.skip(j - 1);
        }
        j -= 1;
    }
    proof {
        let head = was.take(j as int);
        if j > 0 {
            assert(head.last() == out@[j - 1]@);
        }
        assert(insert_text(head, x@) == head.push(x@));
    }
    out.insert(j, x);
    assert(strs(out@) =~= was.take(j as int).push(x@) + was.skip(j as int));
}

/// The texts in order.
pub fn sorted_texts(values: &Vec<String>) -> (r: Vec<String>)
    ensures
        strs(r@) == sort_texts(strs(values@)),
{
    let ghost all = strs(values@);
    let mut out: Vec<String> = Vec::new();
    let mut i: usize = 0;
    while i < values.len()
        invariant
            i <= values@.len(),
            all == strs(values@),
            strs(out@) == sort_texts(all.take(i as int)),
        decreases values@.len() - i,
    {
        insert_sorted(&mut out, values[i].clone());
        i += 1;
    }
    out
}

/// The texts that do not equal `x`.
pub fn texts_without(values: &Vec<String>, x: &str) -> (r: Vec<String>)
    ensures
        strs(r@) == without(strs(values@), x@),
{
    let ghost all = strs(values@);
    let mut out: Vec<String> = Vec::new();
    let mut i: usize = 0;
    while i < values.len()
        invariant
            i <= values@.len(),
            all == strs(values@),
            strs(out@) == without(all.take(i as int), x@),
        decreases values@.len() - i,
    {
        if !same(&values[i], x) {
            out.push(values[i].clone());
        }
        i += 1;
    }
    out
}

pub fn pad(s: &str, width: usize) -> (r: String)
    ensures
        r@ == padded(s@, width as nat),
{
    let mut r: String = s.to_owned();
    let mut n: usize = chars_of(s).len();
    while n < width
        invariant
            n == r@.len(),
            padded(s@, width as nat) == padded(r@, width as nat),
        decreases width - n,
    {
        r.push(' ');
        n += 1;
    }
    r
}

pub fn text_or_dash(o: &Option<String>) -> (r: String)
    ensures
        r@ == or_dash(opt(*o)),
{
    match o {
        Some(s) => s.clone(),
        None => "-".to_owned(),
    }
}

pub fn concat2(a: &str, b: &str) -> (r: String)
    ensures
        r@ == a@ + b@,
{
    let mut r: String = a.to_owned();
    r.push_str(b);
    r
}

pub fn concat3(a: &str, b: &str, c: &str) -> (r: String)
    ensures
        r@ == a@ + b@ + c@,
{
    let mut r: String = a.to_owned();
    r.push_str(b);
    r.push_str(c);
    r
}

pub fn concat4(a: &str, b: &str, c: &str, d: &str) -> (r: String)
    ensures
        r@ == a@ + b@ + c@ + d@,
{
    let mut r: String = a.to_owned();
    r.push_str(b);
    r.push_str(c);
    r.push_str(d);
    r
}

pub fn concat5(a: &str, b: &str, c: &str, d: &str, e: &str) -> (r: String)
    ensures
        r@ == a@ + b@ + c@ + d@ + e@,
{
    let mut r: String = a.to_owned();
    r.push_str(b);
    r.push_str(c);
    r.push_str(d);
    r.push_str(e);
    r
}

pub fn concat7(a: &str, b: &str, c: &str, d: &str, e: &str, f: &str, g: &str) -> (r: String)
    ensures
        r@ == a@ + b@ + c@ + d@ + e@ + f@ + g@,
{
    let mut r: String = a.to_owned();
    r.push_str(b);
    r.push_str(c);
    r.push_str(d);
    r.push_str(e);
    r.push_str(f);
    r.push_str(g);
    r
}

/// Whether one of `v` holds the text `s`.
pub fn holds(v: &Vec<String>, s: &str) -> (r: bool)
    ensures
        r == strs(v@).contains(s@),
{
    let mut i: usize = 0;
    while i < v.len()
        invariant
            i <= v@.len(),
            forall|k: int| 0 <= k < i ==> #[trigger] strs(v@)[k] != s@,
        decreases v@.len() - i,
    {
        if same(&v[i], s) {
            assert(strs(v@)[i as int] == s@);
            return true;
        }
        i += 1;
    }
    false
}

pub fn copy_opt(o: &Option<String>) -> (r: Option<String>)
    ensures
        opt(r) == opt(*o),
{
    match o {
        Some(s) => Some(s.clone()),
        None => None,
    }
}

pub fn copy_strs(v: &Vec<String>) -> (r: Vec<String>)
    ensures
        strs(r@) == strs(v@),
{
    let r: Vec<String> = v.clone();
    assert(strs(r@) =~= strs(v@));
    r
}

pub fn copy_pairs(v: &Vec<(String, String)>) -> (r: Vec<(String, String)>)
    ensures
        pairs(r@) == pairs(v@),
{
    let mut r: Vec<(String, String)> = Vec::new();
    let mut i: usize = 0;
    while i < v.len()
        invariant
            i <= v@.len(),
            pairs(r@) == pairs(v@).take(i as int),
        decreases v@.len() - i,
    {
        r.push((v[i].0.clone(), v[i].1.clone()));
        i += 1;
        assert(pairs(r@) =~= pairs(v@).take(i as int));
    }
    r
}

/// Whether both hold the same texts in the same order.
pub fn same_strs(a: &Vec<String>, b: &Vec<String>) -> (r: bool)
    ensures
        r == (strs(a@) == strs(b@)),
{
    if a.len() != b.len() {
        assert(strs(a@).len() != strs(b@).len());
        return false;
    }
    let mut i: usize = 0;
    while i < a.len()
        invariant
            i <= a@.len() == b@.len(),
            forall|k: int| 0 <= k < i ==> #[trigger] strs(a@)[k] == strs(b@)[k],
        decreases a@.len() - i,
    {
        if a[i] != b[i] {
            assert(strs(a@)[i as int] != strs(b@)[i as int]);
            return false;
        }
        i += 1;
    }
    assert(strs(a@) =~= strs(b@));
    true
}

pub fn same_opt(a: &Option<String>, b: &Option<String>) -> (r: bool)
    ensures
        r == (opt(*a) == opt(*b)),
{
    match (a, b) {
        (Some(x), Some(y)) => same(x, y),
        (None, None) => true,
        _ => false,
    }
}

} // verus!
