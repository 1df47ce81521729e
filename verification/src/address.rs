//! Internet addresses and their text.

#![verifier::loop_isolation(false)]

use vstd::prelude::*;

use crate::error::ConfigError;
use crate::strings::{
    chars_of, concat2, concat3, concat5, decimal_text, joined, parse_number, split_at_any,
    string_of,
};
use crate::text::{all_digits, decimal, is_digit, join, number, split, strs};

verus! {

broadcast use crate::text::group_text;

/// An Internet address: four bytes, or eight groups of two bytes.
#[derive(Debug, Clone, Copy, PartialEq, Eq)]
pub enum IpAddr {
    V4([u8; 4]),
    V6([u16; 8]),
}

/// What an [`IpAddr`] holds.
pub enum IpView {
    V4(Seq<u8>),
    V6(Seq<u16>),
}

impl View for IpAddr {
    type V = IpView;

    open spec fn view(&self) -> IpView {
        match self {
            IpAddr::V4(b) => IpView::V4(b@),
            IpAddr::V6(g) => IpView::V6(g@),
        }
    }
}

// ---------------------------------------------------------------------------
// The text of an address
// ---------------------------------------------------------------------------

/// A number up to 255 in decimal, without leading zeros.
pub open spec fn octet(s: Seq<char>) -> Option<u8> {
    if 1 <= s.len() <= 3 && all_digits(s) && (s.len() == 1 || s[0] != '0') && number(s) <= 255 {
        Some(number(s) as u8)
    } else {
        None
    }
}

/// Four numbers with dots between them.
pub open spec fn ipv4_of(s: Seq<char>) -> Option<Seq<u8>> {
    let p = split(s, seq!['.']);
    if p.len() == 4 && octet(p[0]) is Some && octet(p[1]) is Some && octet(p[2]) is Some && octet(
        p[3],
    ) is Some {
        Some(seq![octet(p[0])->0, octet(p[1])->0, octet(p[2])->0, octet(p[3])->0])
    } else {
        None
    }
}

pub open spec fn hex_value(c: char) -> Option<nat> {
    let n = c as u32;
    if 48 <= n <= 57 {
        Some((n - 48) as nat)
    } else if 97 <= n <= 102 {
        Some((n - 87) as nat)
    } else if 65 <= n <= 70 {
        Some((n - 55) as nat)
    } else {
        None
    }
}

/// The number that a row of hexadecimal digits stands for.
pub open spec fn hex_number(s: Seq<char>) -> Option<nat>
    decreases s.len(),
{
    if s.len() == 0 {
        Some(0)
    } else {
        match (hex_number(s.drop_last()), hex_value(s.last())) {
            (Some(n), Some(d)) => Some(n * 16 + d),
            _ => None,
        }
    }
}

/// One to four hexadecimal digits.
pub open spec fn hextet(s: Seq<char>) -> Option<u16> {
    if 1 <= s.len() <= 4 && hex_number(s) is Some {
        Some(hex_number(s)->0 as u16)
    } else {
        None
    }
}

pub open spec fn pair_of(hi: u8, lo: u8) -> u16 {
    (hi as u16 * 256 + lo as u16) as u16
}

/// The groups that stand in `items`; where `tail` holds, the last item may be an IPv4 address,
/// which makes two groups.
pub open spec fn groups_of(items: Seq<Seq<char>>, tail: bool) -> Option<Seq<u16>>
    decreases items.len(),
{
    if items.len() == 0 {
        Some(Seq::empty())
    } else {
        match groups_of(items.drop_last(), false) {
            None => None,
            Some(before) => match hextet(items.last()) {
                Some(g) => Some(before.push(g)),
                None => match (tail, ipv4_of(items.last())) {
                    (true, Some(b)) => Some(
                        before.push(pair_of(b[0], b[1])).push(pair_of(b[2], b[3])),
                    ),
                    _ => None,
                },
            },
        }
    }
}

/// The groups of one side of `::`, or of a whole address without it.
pub open spec fn side_of(s: Seq<char>, tail: bool) -> Option<Seq<u16>> {
    if s.len() == 0 {
        Some(Seq::empty())
    } else {
        groups_of(split(s, seq![':']), tail)
    }
}

/// How many characters stand before the first `::`: all of them where there is none.
pub open spec fn until_gap(s: Seq<char>) -> nat
    decreases s.len(),
{
    if s.len() == 0 {
        0
    } else if s.len() > 1 && s[0] == ':' && s[1] == ':' {
        0
    } else {
        1 + until_gap(s.skip(1))
    }
}

pub open spec fn zeros(n: nat) -> Seq<u16> {
    Seq::new(n, |i: int| 0u16)
}

/// Eight groups with colons between them, or fewer round a `::` that stands for the zeros that
/// are missing.
pub open spec fn ipv6_of(s: Seq<char>) -> Option<Seq<u16>> {
    let n = until_gap(s);
    if n < s.len() {
        match (side_of(s.take(n as int), false), side_of(s.skip(n as int + 2), true)) {
            (Some(head), Some(tail)) => if head.len() + tail.len() <= 7 {
                Some(head + zeros((8 - head.len() - tail.len()) as nat) + tail)
            } else {
                None
            },
            _ => None,
        }
    } else {
        match side_of(s, true) {
            Some(g) => if g.len() == 8 {
                Some(g)
            } else {
                None
            },
            None => None,
        }
    }
}

/// The address that `s` is the text of.
pub open spec fn ip_of(s: Seq<char>) -> Option<IpView> {
    match ipv4_of(s) {
        Some(b) => Some(IpView::V4(b)),
        None => match ipv6_of(s) {
            Some(g) => Some(IpView::V6(g)),
            None => None,
        },
    }
}

pub open spec fn hex_digit(d: nat) -> char {
    if d < 10 {
        (48 + d) as char
    } else {
        (87 + d) as char
    }
}

/// The hexadecimal digits of `n`, without leading zeros.
pub open spec fn hex_text(n: nat) -> Seq<char>
    decreases n,
{
    if n < 16 {
        seq![hex_digit(n)]
    } else {
        hex_text(n / 16).push(hex_digit(n % 16))
    }
}

pub open spec fn hex_texts(g: Seq<u16>) -> Seq<Seq<char>> {
    Seq::new(g.len(), |i: int| hex_text(g[i] as nat))
}

/// The groups in hexadecimal with colons between them.
pub open spec fn groups_text(g: Seq<u16>) -> Seq<char> {
    join(hex_texts(g), ":"@)
}

pub open spec fn ipv4_text(b: Seq<u8>) -> Seq<char> {
    decimal(b[0] as nat) + "."@ + decimal(b[1] as nat) + "."@ + decimal(b[2] as nat) + "."@
        + decimal(b[3] as nat)
}

/// How many zeros stand at the start of `g`.
pub open spec fn zero_run(g: Seq<u16>) -> nat
    decreases g.len(),
{
    if g.len() > 0 && g[0] == 0 {
        1 + zero_run(g.skip(1))
    } else {
        0
    }
}

/// Where the longest run of zeros starts; of several, the first.
pub open spec fn longest_run(g: Seq<u16>, start: int) -> bool {
    &&& 0 <= start < g.len()
    &&& forall|i: int| 0 <= i < g.len() ==> zero_run(#[trigger] g.skip(i)) <= zero_run(
        g.skip(start),
    )
    &&& forall|i: int| 0 <= i < start ==> zero_run(#[trigger] g.skip(i)) < zero_run(g.skip(start))
}

pub open spec fn is_mapped(g: Seq<u16>) -> bool {
    g[0] == 0 && g[1] == 0 && g[2] == 0 && g[3] == 0 && g[4] == 0 && g[5] == 0xffff
}

/// The eight groups, or, for an IPv4 address in IPv6 form, `::ffff:` and that address. The
/// longest run of at least two zeros is written `::`.
pub open spec fn ipv6_text(g: Seq<u16>) -> Seq<char> {
    let start = choose|start: int| longest_run(g, start);
    let n = zero_run(g.skip(start));
    if is_mapped(g) {
        "::ffff:"@ + ipv4_text(
            seq![
                (g[6] / 256) as u8,
                (g[6] % 256) as u8,
                (g[7] / 256) as u8,
                (g[7] % 256) as u8,
            ],
        )
    } else if n > 1 {
        groups_text(g.take(start)) + "::"@ + groups_text(g.skip(start + n))
    } else {
        groups_text(g)
    }
}

pub open spec fn ip_text(ip: IpView) -> Seq<char> {
    match ip {
        IpView::V4(b) => ipv4_text(b),
        IpView::V6(g) => ipv6_text(g),
    }
}

/// An address by which a machine speaks to itself.
pub open spec fn loopback(ip: IpView) -> bool {
    match ip {
        IpView::V4(b) => b[0] == 127,
        IpView::V6(g) => g =~= zeros(7).push(1u16),
    }
}

// ---------------------------------------------------------------------------
// Networks
// ---------------------------------------------------------------------------

/// The first `n` bits of `a` and `b` are equal; each item has eight of them.
pub open spec fn agree4(a: Seq<u8>, b: Seq<u8>, n: int) -> bool {
    &&& forall|i: int| 0 <= i < n / 8 ==> #[trigger] a[i] == b[i]
    &&& n % 8 != 0 ==> a[n / 8] >> ((8 - n % 8) as u8) == b[n / 8] >> ((8 - n % 8) as u8)
}

/// The first `n` bits of `a` and `b` are equal; each item has sixteen of them.
pub open spec fn agree6(a: Seq<u16>, b: Seq<u16>, n: int) -> bool {
    &&& forall|i: int| 0 <= i < n / 16 ==> #[trigger] a[i] == b[i]
    &&& n % 16 != 0 ==> a[n / 16] >> ((16 - n % 16) as u16) == b[n / 16] >> ((16 - n % 16) as u16)
}

/// Whether the address stands in the network, which is given by an address and the number of
/// its bits that count; or why the question makes no sense.
pub open spec fn in_network(ip: IpView, network: IpView, prefix: u8) -> Result<bool, Seq<char>> {
    match (ip, network) {
        (IpView::V4(a), IpView::V4(b)) => if prefix > 32 {
            Err("IPv4 CIDR prefix `"@ + decimal(prefix as nat) + "` is out of range"@)
        } else {
            Ok(agree4(a, b, prefix as int))
        },
        (IpView::V6(a), IpView::V6(b)) => if prefix > 128 {
            Err("IPv6 CIDR prefix `"@ + decimal(prefix as nat) + "` is out of range"@)
        } else {
            Ok(agree6(a, b, prefix as int))
        },
        _ => Ok(false),
    }
}

// ---------------------------------------------------------------------------
// Reading and writing
// ---------------------------------------------------------------------------

fn parse_octet(s: &str) -> (r: Option<u8>)
    ensures
        r == octet(s@),
{
    let v: Vec<char> = chars_of(s);
    if v.len() == 0 || v.len() > 3 || (v.len() > 1 && v[0] == '0') || v[0] == '+' {
        assert(v@.len() > 0 && v@[0] == '+' ==> !is_digit(v@[0]));
        return None;
    }
    match parse_number(s, 255) {
        Some(n) => Some(n as u8),
        None => None,
    }
}

fn dots() -> (r: &'static str)
    ensures
        r@ == seq!['.'],
{
    proof {
        reveal_strlit(".");
    }
    assert("."@ =~= seq!['.']);
    "."
}

fn colons() -> (r: &'static str)
    ensures
        r@ == seq![':'],
{
    proof {
        reveal_strlit(":");
    }
    assert(":"@ =~= seq![':']);
    ":"
}

fn parse_ipv4(s: &str) -> (r: Option<[u8; 4]>)
    ensures
        match r {
            Some(b) => ipv4_of(s@) == Some(b@),
            None => ipv4_of(s@) is None,
        },
{
    let p: Vec<String> = split_at_any(s, dots());
    assert(strs(p@).len() == p@.len());
    if p.len() != 4 {
        return None;
    }
    assert(strs(p@)[0] == p@[0]@ && strs(p@)[1] == p@[1]@ && strs(p@)[2] == p@[2]@ && strs(p@)[3]
        == p@[3]@);
    match (parse_octet(&p[0]), parse_octet(&p[1]), parse_octet(&p[2]), parse_octet(&p[3])) {
        (Some(a), Some(b), Some(c), Some(d)) => {
            let r: [u8; 4] = [a, b, c, d];
            assert(r@ =~= seq![a, b, c, d]);
            Some(r)
        },
        _ => None,
    }
}

fn hex_digit_value(c: char) -> (r: Option<u16>)
    ensures
        match r {
            Some(n) => n < 16 && hex_value(c) == Some(n as nat),
            None => hex_value(c) is None,
        },
{
    let n: u32 = c as u32;
    if 48 <= n && n <= 57 {
        Some((n - 48) as u16)
    } else if 97 <= n && n <= 102 {
        Some((n - 87) as u16)
    } else if 65 <= n && n <= 70 {
        Some((n - 55) as u16)
    } else {
        None
    }
}

proof fn lemma_hex_broken(s: Seq<char>, i: int)
    requires
        0 <= i <= s.len(),
        hex_number(s.take(i)) is None,
    ensures
        hex_number(s) is None,
    decreases s.len() - i,
{
    if i < s.len() {
        assert(s.take(i + 1).drop_last() =~= s.take(i));
        lemma_hex_broken(s, i + 1);
    }
}

fn parse_hextet(s: &str) -> (r: Option<u16>)
    ensures
        r == hextet(s@),
{
    let v: Vec<char> = chars_of(s);
    if v.len() == 0 || v.len() > 4 {
        return None;
    }
    let mut acc: u16 = 0;
    let mut i: usize = 0;
    while i < v.len()
        invariant
            i <= v@.len() <= 4,
            hex_number(v@.take(i as int)) == Some(acc as nat),
            i == 0 ==> acc == 0,
            i == 1 ==> acc < 16,
            i == 2 ==> acc < 256,
            i == 3 ==> acc < 4096,
        decreases v@.len() - i,
    {
        match hex_digit_value(v[i]) {
            Some(d) => {
                acc = acc * 16 + d;
            },
            None => {
                proof {
                    lemma_hex_broken(v@, i + 1);
                }
                return None;
            },
        }
        i += 1;
    }
    Some(acc)
}

proof fn lemma_groups_broken(items: Seq<Seq<char>>, i: int, tail: bool)
    requires
        0 <= i < items.len(),
        groups_of(items.take(i), false) is None,
    ensures
        groups_of(items, tail) is None,
    decreases items.len() - i,
{
    if i + 1 < items.len() {
        assert(items.take(i + 1).drop_last() =~= items.take(i));
        lemma_groups_broken(items, i + 1, tail);
    } else {
        assert(items.drop_last() =~= items.take(i));
    }
}

fn parse_side(s: &str, tail: bool) -> (r: Option<Vec<u16>>)
    ensures
        match r {
            Some(g) => side_of(s@, tail) == Some(g@),
            None => side_of(s@, tail) is None,
        },
{
    let mut out: Vec<u16> = Vec::new();
    if s.is_empty() {
        assert(out@ =~= Seq::<u16>::empty());
        return Some(out);
    }
    let items: Vec<String> = split_at_any(s, colons());
    let ghost all = strs(items@);
    let mut i: usize = 0;
    while i < items.len()
        invariant
            i <= items@.len(),
            all == strs(items@),
            i < items@.len() ==> groups_of(all.take(i as int), false) == Some(out@),
            i == items@.len() ==> groups_of(all, tail) == Some(out@),
        decreases items@.len() - i,
    {
        assert(all.take(i + 1).drop_last() =~= all.take(i as int));
        assert(all.take(i + 1).last() == items@[i as int]@);
        match parse_hextet(&items[i]) {
            Some(g) => {
                out.push(g);
            },
            None => {
                if tail && i + 1 == items.len() {
                    match parse_ipv4(&items[i]) {
                        Some(b) => {
                            out.push(b[0] as u16 * 256 + b[1] as u16);
                            out.push(b[2] as u16 * 256 + b[3] as u16);
                        },
                        None => {
                            assert(all.take(i + 1) =~= all);
                            return None;
                        },
                    }
                } else {
                    proof {
                        if i + 1 < items@.len() {
                            lemma_groups_broken(all, i + 1, tail);
                        } else {
                            assert(all.take(i + 1) =~= all);
                        }
                    }
                    return None;
                }
            },
        }
        i += 1;
        assert(i == items@.len() ==> all.take(i as int) =~= all);
    }
    Some(out)
}

fn to_groups(g: &Vec<u16>) -> (r: [u16; 8])
    requires
        g@.len() == 8,
    ensures
        r@ == g@,
{
    let r: [u16; 8] = [g[0], g[1], g[2], g[3], g[4], g[5], g[6], g[7]];
    assert(r@ =~= g@);
    r
}

fn parse_ipv6(s: &str) -> (r: Option<[u16; 8]>)
    ensures
        match r {
            Some(g) => ipv6_of(s@) == Some(g@),
            None => ipv6_of(s@) is None,
        },
{
    let v: Vec<char> = chars_of(s);
    let mut n: usize = 0;
    while n < v.len() && !(v.len() - n > 1 && v[n] == ':' && v[n + 1] == ':')
        invariant
            n <= v@.len(),
            until_gap(v@) == n + until_gap(v@.skip(n as int)),
        decreases v@.len() - n,
    {
        n += 1;
    }
    if n < v.len() {
        let left: String = string_of(&v, 0, n);
        let right: String = string_of(&v, n + 2, v.len());
        assert(left@ =~= s@.take(n as int));
        assert(right@ =~= s@.skip(n + 2));
        match (parse_side(&left, false), parse_side(&right, true)) {
            (Some(head), Some(tail)) => {
                if head.len() > 7 || tail.len() > 7 || head.len() + tail.len() > 7 {
                    return None;
                }
                let ghost h = head@;
                let ghost t = tail@;
                let mut g: Vec<u16> = head;
                let total: usize = 8 - tail.len();
                while g.len() < total
                    invariant
                        h.len() <= g@.len() <= total <= 8,
                        g@ == h + zeros((g@.len() - h.len()) as nat),
                    decreases total - g@.len(),
                {
                    g.push(0);
                    assert(g@ =~= h + zeros((g@.len() - h.len()) as nat));
                }
                let mut rest: Vec<u16> = tail;
                g.append(&mut rest);
                assert(g@ =~= h + zeros((8 - h.len() - t.len()) as nat) + t);
                Some(to_groups(&g))
            },
            _ => None,
        }
    } else {
        match parse_side(s, true) {
            Some(g) => {
                if g.len() == 8 {
                    Some(to_groups(&g))
                } else {
                    None
                }
            },
            None => None,
        }
    }
}

fn hex_digits(n: u16) -> (r: String)
    ensures
        r@ == hex_text(n as nat),
    decreases n,
{
    let d: u8 = (n % 16) as u8;
    let c: char = if d < 10 {
        (48 + d) as char
    } else {
        (87 + d) as char
    };
    assert(c == hex_digit((n % 16) as nat));
    let mut r: String = if n < 16 {
        String::new()
    } else {
        hex_digits(n / 16)
    };
    r.push(c);
    assert(r@ =~= hex_text(n as nat));
    r
}

fn write_groups(g: &[u16; 8], from: usize, to: usize) -> (r: String)
    requires
        from <= to <= 8,
    ensures
        r@ == groups_text(g@.subrange(from as int, to as int)),
{
    let mut parts: Vec<String> = Vec::new();
    let mut i: usize = from;
    while i < to
        invariant
            from <= i <= to <= 8,
            strs(parts@) == hex_texts(g@.subrange(from as int, i as int)),
        decreases to - i,
    {
        parts.push(hex_digits(g[i]));
        i += 1;
        assert(strs(parts@) =~= hex_texts(g@.subrange(from as int, i as int)));
    }
    joined(&parts, ":")
}

fn write_ipv4(a: u8, b: u8, c: u8, d: u8) -> (r: String)
    ensures
        r@ == ipv4_text(seq![a, b, c, d]),
{
    let head: String = concat5(
        &decimal_text(a as usize),
        ".",
        &decimal_text(b as usize),
        ".",
        &decimal_text(c as usize),
    );
    concat3(&head, ".", &decimal_text(d as usize))
}

fn count_zeros(g: &[u16; 8], from: usize) -> (r: usize)
    requires
        from <= 8,
    ensures
        r == zero_run(g@.skip(from as int)),
        from + r <= 8,
{
    let mut n: usize = 0;
    while from + n < 8 && g[from + n] == 0
        invariant
            from + n <= 8,
            zero_run(g@.skip(from as int)) == n + zero_run(g@.skip(from + n)),
        decreases 8 - n,
    {
        n += 1;
    }
    n
}

proof fn lemma_longest_unique(g: Seq<u16>, a: int, b: int)
    requires
        longest_run(g, a),
        longest_run(g, b),
    ensures
        a == b,
{
    assert(zero_run(g.skip(a)) <= zero_run(g.skip(b)));
    assert(zero_run(g.skip(b)) <= zero_run(g.skip(a)));
}

/// Where the longest run of zeros starts, and how long it is.
#[verifier::spinoff_prover]
#[verifier::rlimit(40)]
fn find_longest(g: &[u16; 8]) -> (r: (usize, usize))
    ensures
        longest_run(g@, r.0 as int),
        r.1 == zero_run(g@.skip(r.0 as int)),
        r.0 + r.1 <= 8,
{
    let mut start: usize = 0;
    let mut best: usize = count_zeros(g, 0);
    let mut i: usize = 1;
    while i < 8
        invariant
            1 <= i <= 8,
            start < i,
            best == zero_run(g@.skip(start as int)),
            start + best <= 8,
            forall|k: int| 0 <= k < i ==> zero_run(#[trigger] g@.skip(k)) <= best,
            forall|k: int| 0 <= k < start ==> zero_run(#[trigger] g@.skip(k)) < best,
        decreases 8 - i,
    {
        let n: usize = count_zeros(g, i);
        if n > best {
            start = i;
            best = n;
        }
        i += 1;
    }
    (start, best)
}

fn write_ipv6(g: &[u16; 8]) -> (r: String)
    ensures
        r@ == ipv6_text(g@),
{
    if g[0] == 0 && g[1] == 0 && g[2] == 0 && g[3] == 0 && g[4] == 0 && g[5] == 0xffff {
        let tail: String = write_ipv4(
            (g[6] / 256) as u8,
            (g[6] % 256) as u8,
            (g[7] / 256) as u8,
            (g[7] % 256) as u8,
        );
        return concat2("::ffff:", &tail);
    }
    let (start, best) = find_longest(g);
    proof {
        let s = choose|s: int| longest_run(g@, s);
        lemma_longest_unique(g@, s, start as int);
    }
    if best > 1 {
        let left: String = write_groups(g, 0, start);
        let right: String = write_groups(g, start + best, 8);
        assert(g@.subrange(0, start as int) =~= g@.take(start as int));
        assert(g@.subrange(start + best, 8) =~= g@.skip(start + best));
        concat3(&left, "::", &right)
    } else {
        assert(g@.subrange(0, 8) =~= g@);
        write_groups(g, 0, 8)
    }
}

impl IpAddr {
    /// Reads the text of an address.
    pub fn parse(s: &str) -> (r: Option<IpAddr>)
        ensures
            match r {
                Some(ip) => ip_of(s@) == Some(ip@),
                None => ip_of(s@) is None,
            },
    {
        match parse_ipv4(s) {
            Some(b) => Some(IpAddr::V4(b)),
            None => match parse_ipv6(s) {
                Some(g) => Some(IpAddr::V6(g)),
                None => None,
            },
        }
    }

    /// The text of the address.
    pub fn text(&self) -> (r: String)
        ensures
            r@ == ip_text(self@),
    {
        match self {
            IpAddr::V4(b) => {
                assert(b@ =~= seq![b@[0], b@[1], b@[2], b@[3]]);
                write_ipv4(b[0], b[1], b[2], b[3])
            },
            IpAddr::V6(g) => write_ipv6(g),
        }
    }

    pub fn is_loopback(&self) -> (r: bool)
        ensures
            r == loopback(self@),
    {
        match self {
            IpAddr::V4(b) => b[0] == 127,
            IpAddr::V6(g) => {
                let n: usize = count_zeros(g, 0);
                proof {
                    lemma_zero_run(g@);
                }
                n == 7 && g[7] == 1
            },
        }
    }
}

proof fn lemma_zero_run(g: Seq<u16>)
    ensures
        zero_run(g) <= g.len(),
        forall|i: int| 0 <= i < zero_run(g) ==> #[trigger] g[i] == 0,
        zero_run(g) < g.len() ==> g[zero_run(g) as int] != 0,
    decreases g.len(),
{
    if g.len() > 0 && g[0] == 0 {
        lemma_zero_run(g.skip(1));
        assert forall|i: int| 0 <= i < zero_run(g) implies #[trigger] g[i] == 0 by {
            if i > 0 {
                assert(g.skip(1)[i - 1] == 0);
            }
        }
    }
}

pub fn ip_in_network(ip: &IpAddr, network: &IpAddr, prefix_len: u8) -> (r: Result<
    bool,
    ConfigError,
>)
    ensures
        match r {
            Ok(b) => in_network(ip@, network@, prefix_len) == Ok::<bool, Seq<char>>(b),
            Err(e) => in_network(ip@, network@, prefix_len) == Err::<bool, Seq<char>>(e@),
        },
{
    match (ip, network) {
        (IpAddr::V4(a), IpAddr::V4(b)) => {
            if prefix_len > 32 {
                return Err(
                    ConfigError::new(
                        concat3(
                            "IPv4 CIDR prefix `",
                            &decimal_text(prefix_len as usize),
                            "` is out of range",
                        ),
                    ),
                );
            }
            let whole: usize = (prefix_len / 8) as usize;
            let mut i: usize = 0;
            while i < whole
                invariant
                    i <= whole <= 4,
                    whole == prefix_len / 8,
                    forall|k: int| 0 <= k < i ==> #[trigger] a@[k] == b@[k],
                decreases whole - i,
            {
                if a[i] != b[i] {
                    assert(a@[i as int] != b@[i as int]);
                    return Ok(false);
                }
                i += 1;
            }
            let rest: u8 = prefix_len % 8;
            if rest == 0 {
                return Ok(true);
            }
            let shift: u8 = 8 - rest;
            Ok(a[whole] >> shift == b[whole] >> shift)
        },
        (IpAddr::V6(a), IpAddr::V6(b)) => {
            if prefix_len > 128 {
                return Err(
                    ConfigError::new(
                        concat3(
                            "IPv6 CIDR prefix `",
                            &decimal_text(prefix_len as usize),
                            "` is out of range",
                        ),
                    ),
                );
            }
            let whole: usize = (prefix_len / 16) as usize;
            let mut i: usize = 0;
            while i < whole
                invariant
                    i <= whole <= 8,
                    whole == prefix_len / 16,
                    forall|k: int| 0 <= k < i ==> #[trigger] a@[k] == b@[k],
                decreases whole - i,
            {
                if a[i] != b[i] {
                    assert(a@[i as int] != b@[i as int]);
                    return Ok(false);
                }
                i += 1;
            }
            let rest: u16 = (prefix_len % 16) as u16;
            if rest == 0 {
                return Ok(true);
            }
            let shift: u16 = 16 - rest;
            Ok(a[whole] >> shift == b[whole] >> shift)
        },
        _ => Ok(false),
    }
}

} // verus!
