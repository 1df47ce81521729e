//! Operations on text, stated over the sequence of characters that a string holds.

use vstd::prelude::*;

verus! {

// ---------------------------------------------------------------------------
// What the operations return
// ---------------------------------------------------------------------------

/// The characters with the Unicode property `White_Space`.
pub open spec fn is_ws(c: char) -> bool {
    let n = c as u32;
    ||| 0x9 <= n <= 0xd
    ||| n == 0x20
    ||| n == 0x85
    ||| n == 0xa0
    ||| n == 0x1680
    ||| 0x2000 <= n <= 0x200a
    ||| n == 0x2028
    ||| n == 0x2029
    ||| n == 0x202f
    ||| n == 0x205f
    ||| n == 0x3000
}

/// `s` without the white space at its start.
pub open spec fn trim_start(s: Seq<char>) -> Seq<char>
    decreases s.len(),
{
    if s.len() > 0 && is_ws(s[0]) {
        trim_start(s.skip(1))
    } else {
        s
    }
}

/// `s` without the white space at its end.
pub open spec fn trim_end(s: Seq<char>) -> Seq<char>
    decreases s.len(),
{
    if s.len() > 0 && is_ws(s.last()) {
        trim_end(s.drop_last())
    } else {
        s
    }
}

/// `s` without the white space at both ends.
pub open spec fn trim(s: Seq<char>) -> Seq<char> {
    trim_end(trim_start(s))
}

/// Nothing but white space.
pub open spec fn blank(s: Seq<char>) -> bool {
    trim(s).len() == 0
}

/// An ASCII capital as its small letter, any other character as it is.
pub open spec fn lower_char(c: char) -> char {
    if 'A' as u32 <= c as u32 <= 'Z' as u32 {
        (c as u32 + 32) as char
    } else {
        c
    }
}

/// `s` with every ASCII capital made small.
pub open spec fn lower(s: Seq<char>) -> Seq<char> {
    Seq::new(s.len(), |i: int| lower_char(s[i]))
}

/// Equal but for the case of ASCII letters.
pub open spec fn same_ignoring_case(a: Seq<char>, b: Seq<char>) -> bool {
    lower(a) == lower(b)
}

pub open spec fn is_digit(c: char) -> bool {
    '0' as u32 <= c as u32 <= '9' as u32
}

pub open spec fn is_alphanumeric(c: char) -> bool {
    ||| is_digit(c)
    ||| 'a' as u32 <= c as u32 <= 'z' as u32
    ||| 'A' as u32 <= c as u32 <= 'Z' as u32
}

/// `cur` as the only piece, or no piece where it is empty.
pub open spec fn piece(cur: Seq<char>) -> Seq<Seq<char>> {
    if cur.len() == 0 {
        Seq::empty()
    } else {
        seq![cur]
    }
}

/// The words of `s`, the first of which starts with `cur`.
pub open spec fn words_from(s: Seq<char>, cur: Seq<char>) -> Seq<Seq<char>>
    decreases s.len(),
{
    if s.len() == 0 {
        piece(cur)
    } else if is_ws(s[0]) {
        piece(cur) + words_from(s.skip(1), Seq::empty())
    } else {
        words_from(s.skip(1), cur.push(s[0]))
    }
}

/// The longest stretches of `s` without white space, in order.
pub open spec fn words(s: Seq<char>) -> Seq<Seq<char>> {
    words_from(s, Seq::empty())
}

/// The parts of `s` between the characters of `seps`, the first of which starts with `cur`.
pub open spec fn split_from(s: Seq<char>, seps: Seq<char>, cur: Seq<char>) -> Seq<Seq<char>>
    decreases s.len(),
{
    if s.len() == 0 {
        seq![cur]
    } else if seps.contains(s[0]) {
        seq![cur] + split_from(s.skip(1), seps, Seq::empty())
    } else {
        split_from(s.skip(1), seps, cur.push(s[0]))
    }
}

/// The parts of `s` between the characters of `seps`: one more than `s` has of them.
pub open spec fn split(s: Seq<char>, seps: Seq<char>) -> Seq<Seq<char>> {
    split_from(s, seps, Seq::empty())
}

/// The lines of `s` with their line ends, the first of which starts with `cur`.
pub open spec fn raw_lines_from(s: Seq<char>, cur: Seq<char>) -> Seq<Seq<char>>
    decreases s.len(),
{
    if s.len() == 0 {
        piece(cur)
    } else if s[0] == '\n' {
        seq![cur.push('\n')] + raw_lines_from(s.skip(1), Seq::empty())
    } else {
        raw_lines_from(s.skip(1), cur.push(s[0]))
    }
}

/// The lines of `s`, each with the line feed that ends it.
pub open spec fn raw_lines(s: Seq<char>) -> Seq<Seq<char>> {
    raw_lines_from(s, Seq::empty())
}

/// A line without the line feed that ends it, nor a carriage return before that.
pub open spec fn strip_line_end(s: Seq<char>) -> Seq<char> {
    if s.len() > 0 && s.last() == '\n' {
        let t = s.drop_last();
        if t.len() > 0 && t.last() == '\r' {
            t.drop_last()
        } else {
            t
        }
    } else {
        s
    }
}

/// The lines of `s` without their line ends.
pub open spec fn lines(s: Seq<char>) -> Seq<Seq<char>> {
    raw_lines(s).map_values(|l: Seq<char>| strip_line_end(l))
}

/// All parts one after the other, with `sep` between neighbours.
pub open spec fn join(parts: Seq<Seq<char>>, sep: Seq<char>) -> Seq<char>
    decreases parts.len(),
{
    if parts.len() == 0 {
        Seq::empty()
    } else if parts.len() == 1 {
        parts[0]
    } else {
        join(parts.drop_last(), sep) + sep + parts.last()
    }
}

/// All parts one after the other.
pub open spec fn concat(parts: Seq<Seq<char>>) -> Seq<char>
    decreases parts.len(),
{
    if parts.len() == 0 {
        Seq::empty()
    } else {
        concat(parts.drop_last()) + parts.last()
    }
}

/// How many characters stand before the first `c`: all of them where there is none.
pub open spec fn until(s: Seq<char>, c: char) -> nat
    decreases s.len(),
{
    if s.len() == 0 || s[0] == c {
        0
    } else {
        1 + until(s.skip(1), c)
    }
}

/// How many characters stand before the first white space: all of them where there is none.
pub open spec fn until_ws(s: Seq<char>) -> nat
    decreases s.len(),
{
    if s.len() == 0 || is_ws(s[0]) {
        0
    } else {
        1 + until_ws(s.skip(1))
    }
}

/// How many characters stand after the last `c`: all of them where there is none.
pub open spec fn after_last(s: Seq<char>, c: char) -> nat
    decreases s.len(),
{
    if s.len() == 0 || s.last() == c {
        0
    } else {
        1 + after_last(s.drop_last(), c)
    }
}

/// What stands before and after the first `c`.
pub open spec fn split_once(s: Seq<char>, c: char) -> Option<(Seq<char>, Seq<char>)> {
    let n = until(s, c);
    if n < s.len() {
        Some((s.take(n as int), s.skip(n as int + 1)))
    } else {
        None
    }
}

/// What stands before and after the last `c`.
pub open spec fn split_last(s: Seq<char>, c: char) -> Option<(Seq<char>, Seq<char>)> {
    let n = s.len() - after_last(s, c);
    if n > 0 {
        Some((s.take(n - 1), s.skip(n)))
    } else {
        None
    }
}

/// What stands before the first white space, and what follows it without the white space at
/// its ends; nothing where either the white space or what follows is missing.
pub open spec fn key_value(s: Seq<char>) -> Option<(Seq<char>, Seq<char>)> {
    let n = until_ws(s);
    let value = trim(s.skip(n as int));
    if n < s.len() && value.len() > 0 {
        Some((s.take(n as int), value))
    } else {
        None
    }
}

pub open spec fn starts_with(s: Seq<char>, p: Seq<char>) -> bool {
    p.len() <= s.len() && s.take(p.len() as int) == p
}

pub open spec fn ends_with(s: Seq<char>, p: Seq<char>) -> bool {
    p.len() <= s.len() && s.skip(s.len() - p.len()) == p
}

/// `p` stands somewhere in `s`.
pub open spec fn contains_text(s: Seq<char>, p: Seq<char>) -> bool {
    exists|i: int| 0 <= i <= s.len() && #[trigger] starts_with(s.skip(i), p)
}

/// `s` with every `from` made `to`.
pub open spec fn replace_char(s: Seq<char>, from: char, to: char) -> Seq<char> {
    Seq::new(s.len(), |i: int| if s[i] == from { to } else { s[i] })
}

/// The text, or a dash where there is none.
pub open spec fn or_dash(o: Option<Seq<char>>) -> Seq<char> {
    match o {
        Some(s) => s,
        None => "-"@,
    }
}

/// `s` with spaces behind it up to `width` characters.
pub open spec fn padded(s: Seq<char>, width: nat) -> Seq<char>
    decreases width - s.len(),
{
    if s.len() >= width {
        s
    } else {
        padded(s.push(' '), width)
    }
}

pub open spec fn digit(d: nat) -> char {
    (48 + d) as char
}

/// The decimal digits of `n`, without leading zeros.
pub open spec fn decimal(n: nat) -> Seq<char>
    decreases n,
{
    if n < 10 {
        seq![digit(n)]
    } else {
        decimal(n / 10).push(digit(n % 10))
    }
}

/// Like `decimal`, with zeros in front up to three digits.
pub open spec fn decimal3(n: nat) -> Seq<char> {
    if n < 10 {
        seq!['0', '0'] + decimal(n)
    } else if n < 100 {
        seq!['0'] + decimal(n)
    } else {
        decimal(n)
    }
}

pub open spec fn all_digits(s: Seq<char>) -> bool {
    forall|i: int| 0 <= i < s.len() ==> is_digit(#[trigger] s[i])
}

/// The number that a row of decimal digits stands for.
pub open spec fn number(s: Seq<char>) -> nat
    decreases s.len(),
{
    if s.len() == 0 {
        0
    } else {
        number(s.drop_last()) * 10 + (s.last() as u32 - 48) as nat
    }
}

/// The number that `s` stands for where `s` is a row of decimal digits, after at most one plus
/// sign, and the number is at most `max`.
pub open spec fn parse_unsigned(s: Seq<char>, max: nat) -> Option<nat> {
    let d = if s.len() > 0 && s[0] == '+' {
        s.skip(1)
    } else {
        s
    };
    if d.len() > 0 && all_digits(d) && number(d) <= max {
        Some(number(d))
    } else {
        None
    }
}

/// What is wrong with the first character that is no digit, or with which the number is too large;
/// `n` is the number that stands before `s`.
pub open spec fn digits_fault(s: Seq<char>, n: nat, max: nat) -> Seq<char>
    decreases s.len(),
{
    if s.len() == 0 {
        s
    } else if !is_digit(s[0]) {
        "invalid digit found in string"@
    } else if n * 10 + (s[0] as u32 - 48) as nat > max {
        "number too large to fit in target type"@
    } else {
        digits_fault(s.skip(1), n * 10 + (s[0] as u32 - 48) as nat, max)
    }
}

/// Why `s` stands for no number up to `max`.
pub open spec fn number_fault(s: Seq<char>, max: nat) -> Seq<char> {
    if s.len() == 0 {
        "cannot parse integer from empty string"@
    } else if s[0] == '+' && s.len() > 1 {
        digits_fault(s.skip(1), 0, max)
    } else {
        digits_fault(s, 0, max)
    }
}

/// `s` without the characters of `set` at its start.
pub open spec fn strip_start(s: Seq<char>, set: Seq<char>) -> Seq<char>
    decreases s.len(),
{
    if s.len() > 0 && set.contains(s[0]) {
        strip_start(s.skip(1), set)
    } else {
        s
    }
}

/// `s` without the characters of `set` at its end.
pub open spec fn strip_end(s: Seq<char>, set: Seq<char>) -> Seq<char>
    decreases s.len(),
{
    if s.len() > 0 && set.contains(s.last()) {
        strip_end(s.drop_last(), set)
    } else {
        s
    }
}

/// The text that a borrowed string holds, if there is one.
pub open spec fn opt_str(o: Option<&str>) -> Option<Seq<char>> {
    match o {
        Some(s) => Some(s@),
        None => None,
    }
}

/// `a` stands before `b` in the order of characters.
pub open spec fn text_less(a: Seq<char>, b: Seq<char>) -> bool
    decreases b.len(),
{
    if b.len() == 0 {
        false
    } else if a.len() == 0 {
        true
    } else if a[0] != b[0] {
        (a[0] as int) < (b[0] as int)
    } else {
        text_less(a.skip(1), b.skip(1))
    }
}

/// Every text stands before all that follow it.
pub open spec fn rising(v: Seq<Seq<char>>) -> bool {
    forall|i: int, j: int| 0 <= i < j < v.len() ==> text_less(#[trigger] v[i], #[trigger] v[j])
}

/// `x` put into a row behind all texts that do not come after it.
pub open spec fn insert_text(v: Seq<Seq<char>>, x: Seq<char>) -> Seq<Seq<char>>
    decreases v.len(),
{
    if v.len() > 0 && text_less(x, v.last()) {
        insert_text(v.drop_last(), x).push(v.last())
    } else {
        v.push(x)
    }
}

/// The texts of a row in order.
pub open spec fn sort_texts(v: Seq<Seq<char>>) -> Seq<Seq<char>>
    decreases v.len(),
{
    if v.len() == 0 {
        v
    } else {
        insert_text(sort_texts(v.drop_last()), v.last())
    }
}

/// No text stands before one that should precede it.
pub open spec fn in_order(v: Seq<Seq<char>>) -> bool {
    forall|i: int, j: int|
        0 <= i < j < v.len() ==> !text_less(#[trigger] v[j], #[trigger] v[i])
}

/// `v` without the texts that equal `x`.
pub open spec fn without(v: Seq<Seq<char>>, x: Seq<char>) -> Seq<Seq<char>>
    decreases v.len(),
{
    if v.len() == 0 {
        v
    } else if v.last() == x {
        without(v.drop_last(), x)
    } else {
        without(v.drop_last(), x).push(v.last())
    }
}

proof fn lemma_insert_text(v: Seq<Seq<char>>, x: Seq<char>)
    requires
        in_order(v),
    ensures
        in_order(insert_text(v, x)),
        insert_text(v, x).len() == v.len() + 1,
        insert_text(v, x).to_multiset() == v.to_multiset().insert(x),
        forall|k: int|
            0 <= k < v.len() + 1 ==> (#[trigger] insert_text(v, x)[k] == x || v.contains(
                insert_text(v, x)[k],
            )),
    decreases v.len(),
{
    broadcast use vstd::seq_lib::to_multiset_build;

    let r = insert_text(v, x);
    if v.len() > 0 && text_less(x, v.last()) {
        let head = v.drop_last();
        let top = v.last();
        assert(head.push(top) =~= v);
        lemma_insert_text(head, x);
        let rest = insert_text(head, x);
        assert forall|k: int| 0 <= k < r.len() implies (#[trigger] r[k] == x || v.contains(r[k])) by {
            if k < rest.len() {
                assert(rest[k] == x || head.contains(rest[k]));
                if head.contains(rest[k]) {
                    let j = choose|j: int| 0 <= j < head.len() && head[j] == rest[k];
                    assert(v[j] == rest[k]);
                }
            } else {
                assert(v[v.len() - 1] == top);
            }
        }
        assert forall|i: int, j: int| 0 <= i < j < r.len() implies !text_less(
            #[trigger] r[j],
            #[trigger] r[i],
        ) by {
            if j < rest.len() {
                assert(!text_less(rest[j], rest[i]));
            } else {
                assert(rest[i] == x || head.contains(rest[i]));
                if rest[i] == x {
                    lemma_text_less_total(x, top);
                } else {
                    let k = choose|k: int| 0 <= k < head.len() && head[k] == rest[i];
                    assert(v[k] == rest[i]);
                }
            }
        }
        assert(r.to_multiset() == v.to_multiset().insert(x)) by {
            assert(v.to_multiset() == head.to_multiset().insert(top));
            assert(r.to_multiset() == rest.to_multiset().insert(top));
            assert(head.to_multiset().insert(x).insert(top) =~= head.to_multiset().insert(
                top,
            ).insert(x));
        }
    } else {
        assert forall|i: int, j: int| 0 <= i < j < r.len() implies !text_less(
            #[trigger] r[j],
            #[trigger] r[i],
        ) by {
            if j < v.len() {
                assert(!text_less(v[j], v[i]));
            } else if v.len() > 0 {
                if text_less(x, v[i]) {
                    let top = v.last();
                    lemma_text_less_total(v[i], top);
                    if i < v.len() - 1 {
                        assert(!text_less(v[v.len() - 1], v[i]));
                        if v[i] != top {
                            lemma_text_less_transitive(x, v[i], top);
                        }
                    }
                }
            }
        }
        assert forall|k: int| 0 <= k < r.len() implies (#[trigger] r[k] == x || v.contains(r[k])) by {
            if k < v.len() {
                assert(v[k] == r[k]);
            }
        }
    }
}

/// Sorting gives the same texts in order.
pub proof fn law_sort_texts(v: Seq<Seq<char>>)
    ensures
        in_order(sort_texts(v)),
        sort_texts(v).to_multiset() == v.to_multiset(),
        sort_texts(v).len() == v.len(),
    decreases v.len(),
{
    broadcast use vstd::seq_lib::to_multiset_build;

    if v.len() > 0 {
        law_sort_texts(v.drop_last());
        lemma_insert_text(sort_texts(v.drop_last()), v.last());
        assert(v.drop_last().push(v.last()) =~= v);
    }
}

pub proof fn lemma_text_less_transitive(a: Seq<char>, b: Seq<char>, c: Seq<char>)
    requires
        text_less(a, b),
        text_less(b, c),
    ensures
        text_less(a, c),
    decreases c.len(),
{
    if a.len() > 0 && a[0] == b[0] && b[0] == c[0] {
        lemma_text_less_transitive(a.skip(1), b.skip(1), c.skip(1));
    }
}

pub proof fn lemma_text_less_total(a: Seq<char>, b: Seq<char>)
    ensures
        text_less(a, b) || text_less(b, a) || a == b,
        !(text_less(a, b) && text_less(b, a)),
        a == b ==> !text_less(a, b),
    decreases b.len(),
{
    if a.len() > 0 && b.len() > 0 {
        if a[0] == b[0] {
            lemma_text_less_total(a.skip(1), b.skip(1));
            if a.skip(1) == b.skip(1) {
                assert(a.len() == b.len());
                assert forall|i: int| 0 <= i < a.len() implies a[i] == b[i] by {
                    if i > 0 {
                        assert(a.skip(1)[i - 1] == b.skip(1)[i - 1]);
                    }
                }
                assert(a =~= b);
            }
        } else {
            assert((a[0] as int) < (b[0] as int) || (b[0] as int) < (a[0] as int));
        }
    } else if a.len() == 0 && b.len() == 0 {
        assert(a =~= b);
    }
}

/// The texts that a row of strings holds.
pub open spec fn strs(v: Seq<String>) -> Seq<Seq<char>> {
    Seq::new(v.len(), |i: int| v[i]@)
}

/// The text that a string holds, if there is a string.
pub open spec fn opt(o: Option<String>) -> Option<Seq<char>> {
    match o {
        Some(s) => Some(s@),
        None => None,
    }
}

/// The texts that a row of pairs of strings holds.
pub open spec fn pairs(v: Seq<(String, String)>) -> Seq<(Seq<char>, Seq<char>)> {
    Seq::new(v.len(), |i: int| (v[i].0@, v[i].1@))
}

pub broadcast proof fn lemma_strs_push(v: Seq<String>, s: String)
    ensures
        #[trigger] strs(v.push(s)) == strs(v).push(s@),
{
    assert(strs(v.push(s)) =~= strs(v).push(s@));
}

pub broadcast proof fn lemma_strs_empty()
    ensures
        #[trigger] strs(Seq::empty()) == Seq::<Seq<char>>::empty(),
{
    assert(strs(Seq::empty()) =~= Seq::<Seq<char>>::empty());
}

pub broadcast proof fn lemma_pairs_push(v: Seq<(String, String)>, s: (String, String))
    ensures
        #[trigger] pairs(v.push(s)) == pairs(v).push((s.0@, s.1@)),
{
    assert(pairs(v.push(s)) =~= pairs(v).push((s.0@, s.1@)));
}

pub broadcast proof fn lemma_pairs_empty()
    ensures
        #[trigger] pairs(Seq::empty()) == Seq::<(Seq<char>, Seq<char>)>::empty(),
{
    assert(pairs(Seq::empty()) =~= Seq::<(Seq<char>, Seq<char>)>::empty());
}

/// What the items of a row stand for.
pub open spec fn views<T: View>(v: Seq<T>) -> Seq<T::V> {
    Seq::new(v.len(), |i: int| v[i]@)
}

pub broadcast proof fn lemma_views_push<T: View>(v: Seq<T>, x: T)
    ensures
        #[trigger] views(v.push(x)) == views(v).push(x@),
{
    assert(views(v.push(x)) =~= views(v).push(x@));
}

pub broadcast proof fn lemma_views_empty<T: View>()
    ensures
        #[trigger] views(Seq::<T>::empty()) == Seq::<T::V>::empty(),
{
    assert(views(Seq::<T>::empty()) =~= Seq::<T::V>::empty());
}

pub broadcast proof fn lemma_skip_one<A>(s: Seq<A>, i: int)
    requires
        0 <= i < s.len(),
    ensures
        #[trigger] s.skip(i).skip(1) == s.skip(i + 1),
{
    assert(s.skip(i).skip(1) =~= s.skip(i + 1));
}

pub broadcast proof fn lemma_take_one_more<A>(s: Seq<A>, i: int)
    requires
        0 <= i < s.len(),
    ensures
        #[trigger] s.take(i + 1) == s.take(i).push(s[i]),
{
    assert(s.take(i + 1) =~= s.take(i).push(s[i]));
}

pub broadcast proof fn lemma_drop_last_push<A>(s: Seq<A>, a: A)
    ensures
        #[trigger] s.push(a).drop_last() == s,
{
    assert(s.push(a).drop_last() =~= s);
}

pub broadcast proof fn lemma_skip_all<A>(s: Seq<A>, n: int)
    requires
        n == s.len(),
    ensures
        #[trigger] s.skip(n) == Seq::<A>::empty(),
{
    assert(s.skip(n) =~= Seq::<A>::empty());
}

pub broadcast proof fn lemma_skip_none<A>(s: Seq<A>)
    ensures
        #[trigger] s.skip(0) == s,
{
    assert(s.skip(0) =~= s);
}

pub broadcast proof fn lemma_take_all<A>(s: Seq<A>, n: int)
    requires
        n == s.len(),
    ensures
        #[trigger] s.take(n) == s,
{
    assert(s.take(n) =~= s);
}

pub broadcast proof fn lemma_take_none<A>(s: Seq<A>)
    ensures
        #[trigger] s.take(0) == Seq::<A>::empty(),
{
    assert(s.take(0) =~= Seq::<A>::empty());
}

pub broadcast group group_text {
    lemma_strs_push,
    lemma_strs_empty,
    lemma_pairs_push,
    lemma_pairs_empty,
    lemma_views_push,
    lemma_views_empty,
    lemma_skip_one,
    lemma_take_one_more,
    lemma_drop_last_push,
    lemma_skip_all,
    lemma_skip_none,
    lemma_take_all,
    lemma_take_none,
}

} // verus!
