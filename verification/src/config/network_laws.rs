//! Addresses and networks.

use vstd::prelude::*;

use crate::address::{
    IpView, agree4, agree6, groups_of, groups_text, hex_digit, hex_number, hex_text, hex_texts,
    hex_value, in_network, ip_of, ip_text, ipv4_of, ipv4_text, until_gap,
};
use crate::config::local_networks::{
    answering_tool, any_in_network, inet_candidate, inet_candidates, ipconfig_candidate,
    local_address, network_outcome, network_outcomes, networks_match,
};
use crate::config::pattern::{bare, decide, is_negated};
use crate::text::{
    all_digits, contains_text, decimal, digit, is_digit, join, number, split, starts_with,
    strip_end, strip_start, trim, until,
};
use crate::text_laws::{
    law_decimal_is_parsed, law_joined_parts_are_found, law_number_of_decimal,
    law_split_at_the_first, lemma_part_is_one_part,
};

verus! {

// ---------------------------------------------------------------------------
// Bits
// ---------------------------------------------------------------------------

/// The bit at that place, counted from the left.
pub open spec fn bit4(a: Seq<u8>, n: int) -> u8 {
    (a[n / 8] >> ((7 - n % 8) as u8)) & 1u8
}

/// The bit at that place, counted from the left.
pub open spec fn bit6(a: Seq<u16>, n: int) -> u16 {
    (a[n / 16] >> ((15 - n % 16) as u16)) & 1u16
}

proof fn lemma_bit8(a: u8, b: u8, k: u8)
    requires
        k < 8,
    ensures
        (a >> k) == (b >> k) <==> (a >> ((k + 1) as u8)) == (b >> ((k + 1) as u8)) && ((a >> k)
            & 1u8) == ((b >> k) & 1u8),
{
    let j = (k + 1) as u8;
    assert((a >> k) == (b >> k) <==> (a >> j) == (b >> j) && ((a >> k) & 1u8) == ((b >> k) & 1u8))
        by (bit_vector)
        requires
            k < 8,
            j == k + 1,
    ;
}

proof fn lemma_bit16(a: u16, b: u16, k: u16)
    requires
        k < 16,
    ensures
        (a >> k) == (b >> k) <==> (a >> ((k + 1) as u16)) == (b >> ((k + 1) as u16)) && ((a >> k)
            & 1u16) == ((b >> k) & 1u16),
{
    let j = (k + 1) as u16;
    assert((a >> k) == (b >> k) <==> (a >> j) == (b >> j) && ((a >> k) & 1u16) == ((b >> k)
        & 1u16)) by (bit_vector)
        requires
            k < 16,
            j == k + 1,
    ;
}

/// Two addresses agree on no bits, and on one more where they agree on those before it and the bit
/// is the same in both.
pub proof fn law_networks_are_told_by_bits(a: Seq<u8>, b: Seq<u8>, n: int)
    requires
        0 <= n < 32,
    ensures
        agree4(a, b, 0),
        agree4(a, b, n + 1) <==> agree4(a, b, n) && bit4(a, n) == bit4(b, n),
{
    let i = n / 8;
    let r = n % 8;
    let k = (7 - r) as u8;
    lemma_bit8(a[i], b[i], k);
    let x = a[i];
    let y = b[i];
    assert(x >> 0u8 == x) by (bit_vector);
    assert(y >> 0u8 == y) by (bit_vector);
    assert(x >> 8u8 == 0) by (bit_vector);
    assert(y >> 8u8 == 0) by (bit_vector);
    if r == 7 {
        assert((n + 1) / 8 == i + 1 && (n + 1) % 8 == 0);
        if agree4(a, b, n) && bit4(a, n) == bit4(b, n) {
            assert(a[i] == b[i]);
            assert forall|j: int| 0 <= j < i + 1 implies #[trigger] a[j] == b[j] by {}
        }
        if agree4(a, b, n + 1) {
            assert(a[i] == b[i]);
        }
    } else {
        assert((n + 1) / 8 == i && (n + 1) % 8 == r + 1);
    }
}

/// The same of longer addresses.
pub proof fn law_long_networks_are_told_by_bits(a: Seq<u16>, b: Seq<u16>, n: int)
    requires
        0 <= n < 128,
    ensures
        agree6(a, b, 0),
        agree6(a, b, n + 1) <==> agree6(a, b, n) && bit6(a, n) == bit6(b, n),
{
    let i = n / 16;
    let r = n % 16;
    let k = (15 - r) as u16;
    lemma_bit16(a[i], b[i], k);
    let x = a[i];
    let y = b[i];
    assert(x >> 0u16 == x) by (bit_vector);
    assert(y >> 0u16 == y) by (bit_vector);
    assert(x >> 16u16 == 0) by (bit_vector);
    assert(y >> 16u16 == 0) by (bit_vector);
    if r == 15 {
        assert((n + 1) / 16 == i + 1 && (n + 1) % 16 == 0);
        if agree6(a, b, n) && bit6(a, n) == bit6(b, n) {
            assert(a[i] == b[i]);
            assert forall|j: int| 0 <= j < i + 1 implies #[trigger] a[j] == b[j] by {}
        }
        if agree6(a, b, n + 1) {
            assert(a[i] == b[i]);
        }
    } else {
        assert((n + 1) / 16 == i && (n + 1) % 16 == r + 1);
    }
}

/// An address is in a network where both are of one kind and have the bits of the prefix in
/// common; a prefix that is longer than the address is refused.
pub proof fn law_address_is_in_a_network(a: IpView, network: IpView, prefix: u8)
    requires
        a matches IpView::V4(x) ==> x.len() == 4,
        network matches IpView::V4(x) ==> x.len() == 4,
        a matches IpView::V6(x) ==> x.len() == 8,
        network matches IpView::V6(x) ==> x.len() == 8,
    ensures
        a is V4 != network is V4 ==> in_network(a, network, prefix) == Ok::<bool, Seq<char>>(false),
        a is V4 && network is V4 && prefix <= 32 ==> in_network(a, network, prefix) == Ok::<
            bool,
            Seq<char>,
        >(
            forall|i: int|
                0 <= i < prefix ==> #[trigger] bit4(a->V4_0, i) == bit4(network->V4_0, i),
        ),
        a is V6 && network is V6 && prefix <= 128 ==> in_network(a, network, prefix) == Ok::<
            bool,
            Seq<char>,
        >(
            forall|i: int|
                0 <= i < prefix ==> #[trigger] bit6(a->V6_0, i) == bit6(network->V6_0, i),
        ),
        a is V4 && network is V4 && prefix > 32 ==> in_network(a, network, prefix) is Err,
        a is V6 && network is V6 && prefix > 128 ==> in_network(a, network, prefix) is Err,
{
    if a is V4 && network is V4 && prefix <= 32 {
        lemma_all_bits4(a->V4_0, network->V4_0, prefix as int);
    }
    if a is V6 && network is V6 && prefix <= 128 {
        lemma_all_bits6(a->V6_0, network->V6_0, prefix as int);
    }
}

proof fn lemma_all_bits4(a: Seq<u8>, b: Seq<u8>, n: int)
    requires
        0 <= n <= 32,
    ensures
        agree4(a, b, n) <==> forall|i: int| 0 <= i < n ==> #[trigger] bit4(a, i) == bit4(b, i),
    decreases n,
{
    if n > 0 {
        lemma_all_bits4(a, b, n - 1);
        law_networks_are_told_by_bits(a, b, n - 1);
    }
}

proof fn lemma_all_bits6(a: Seq<u16>, b: Seq<u16>, n: int)
    requires
        0 <= n <= 128,
    ensures
        agree6(a, b, n) <==> forall|i: int| 0 <= i < n ==> #[trigger] bit6(a, i) == bit6(b, i),
    decreases n,
{
    if n > 0 {
        lemma_all_bits6(a, b, n - 1);
        law_long_networks_are_told_by_bits(a, b, n - 1);
    }
}

// ---------------------------------------------------------------------------
// Lists of networks
// ---------------------------------------------------------------------------

/// The prefix is one for addresses of the kind.
pub open spec fn is_prefix_for(network: IpView, prefix: u8) -> bool {
    match network {
        IpView::V4(_) => prefix <= 32,
        IpView::V6(_) => prefix <= 128,
    }
}

/// The text is an address in the network.
pub open spec fn lies_in(local: Seq<char>, network: IpView, prefix: u8) -> bool {
    ip_of(local) is Some && in_network(ip_of(local)->0, network, prefix) == Ok::<bool, Seq<char>>(
        true,
    )
}

/// This machine is in a network where one of its addresses is; what is no address does not count.
pub proof fn law_some_address_is_in_the_network(
    locals: Seq<Seq<char>>,
    network: IpView,
    prefix: u8,
)
    requires
        is_prefix_for(network, prefix),
    ensures
        any_in_network(locals, network, prefix) == Ok::<bool, Seq<char>>(
            exists|i: int| 0 <= i < locals.len() && lies_in(#[trigger] locals[i], network, prefix),
        ),
    decreases locals.len(),
{
    if locals.len() > 0 {
        let rest = locals.skip(1);
        law_some_address_is_in_the_network(rest, network, prefix);
        let some = exists|i: int|
            0 <= i < locals.len() && lies_in(#[trigger] locals[i], network, prefix);
        let later = exists|i: int|
            0 <= i < rest.len() && lies_in(#[trigger] rest[i], network, prefix);
        if later {
            let i = choose|i: int|
                0 <= i < rest.len() && lies_in(#[trigger] rest[i], network, prefix);
            assert(locals[i + 1] == rest[i]);
        }
        if some && !lies_in(locals[0], network, prefix) {
            let i = choose|i: int|
                0 <= i < locals.len() && lies_in(#[trigger] locals[i], network, prefix);
            assert(rest[i - 1] == locals[i]);
        }
    }
}

/// A network is written as an address, a slash and the length of its prefix.
pub proof fn law_network_is_address_and_prefix(
    address: Seq<char>,
    prefix: u8,
    locals: Seq<Seq<char>>,
)
    requires
        ip_of(address) is Some,
        !address.contains('/'),
        is_prefix_for(ip_of(address)->0, prefix),
    ensures
        network_outcome(address + "/"@ + decimal(prefix as nat), locals) == Ok::<bool, Seq<char>>(
            exists|i: int|
                0 <= i < locals.len() && lies_in(#[trigger] locals[i], ip_of(address)->0, prefix),
        ),
{
    reveal_strlit("/");
    let d = decimal(prefix as nat);
    let text = address + "/"@ + d;
    lemma_until_mark(address, '/', d);
    assert(text =~= address.push('/') + d);
    let n = address.len() as int;
    assert(text.take(n) =~= address);
    assert(text.skip(n + 1) =~= d);
    law_decimal_is_parsed(prefix as nat, 255);
    law_some_address_is_in_the_network(locals, ip_of(address)->0, prefix);
}

proof fn lemma_until_mark(a: Seq<char>, c: char, b: Seq<char>)
    requires
        !a.contains(c),
    ensures
        until(a.push(c) + b, c) == a.len(),
    decreases a.len(),
{
    let s = a.push(c) + b;
    if a.len() > 0 {
        assert(a.contains(a[0]));
        assert(s[0] == a[0]);
        assert(s.skip(1) =~= a.skip(1).push(c) + b);
        assert forall|i: int| 0 <= i < a.skip(1).len() implies a.skip(1)[i] != c by {
            assert(a.contains(a[i + 1]));
        }
        lemma_until_mark(a.skip(1), c, b);
    } else {
        assert(s[0] == c);
    }
}

/// Among patterns none of which is refused, the list says yes where one that is not negated fits
/// and none that is negated does.
#[verifier::rlimit(30)]
pub proof fn law_list_says_yes(
    patterns: Seq<Seq<char>>,
    outcomes: Seq<Result<bool, Seq<char>>>,
    hit: bool,
)
    requires
        outcomes.len() == patterns.len(),
        forall|i: int| 0 <= i < outcomes.len() ==> (#[trigger] outcomes[i]) is Ok,
    ensures
        decide(patterns, outcomes, hit) == Ok::<bool, Seq<char>>(
            (hit || exists|i: int|
                0 <= i < patterns.len() && !is_negated(#[trigger] patterns[i])
                    && outcomes[i]->Ok_0) && !(exists|i: int|
                0 <= i < patterns.len() && is_negated(#[trigger] patterns[i]) && outcomes[i]->Ok_0),
        ),
    decreases patterns.len(),
{
    if patterns.len() > 0 {
        let ps = patterns.skip(1);
        let os = outcomes.skip(1);
        assert(outcomes[0] is Ok);
        let matched = outcomes[0]->Ok_0;
        assert forall|i: int| 0 <= i < os.len() implies (#[trigger] os[i]) is Ok by {
            assert(outcomes[i + 1] is Ok);
        }
        let negated = is_negated(patterns[0]);
        let hit2 = hit || (matched && !negated);
        law_list_says_yes(ps, os, hit2);
        let yes = exists|i: int|
            0 <= i < patterns.len() && !is_negated(#[trigger] patterns[i]) && outcomes[i]->Ok_0;
        let no = exists|i: int|
            0 <= i < patterns.len() && is_negated(#[trigger] patterns[i]) && outcomes[i]->Ok_0;
        let later_yes = exists|i: int|
            0 <= i < ps.len() && !is_negated(#[trigger] ps[i]) && os[i]->Ok_0;
        let later_no = exists|i: int|
            0 <= i < ps.len() && is_negated(#[trigger] ps[i]) && os[i]->Ok_0;
        if later_yes {
            let i = choose|i: int| 0 <= i < ps.len() && !is_negated(#[trigger] ps[i]) && os[i]->Ok_0;
            assert(patterns[i + 1] == ps[i]);
        }
        if later_no {
            let i = choose|i: int| 0 <= i < ps.len() && is_negated(#[trigger] ps[i]) && os[i]->Ok_0;
            assert(patterns[i + 1] == ps[i]);
        }
        if yes && !(matched && !negated) {
            let i = choose|i: int|
                0 <= i < patterns.len() && !is_negated(#[trigger] patterns[i]) && outcomes[i]->Ok_0;
            assert(ps[i - 1] == patterns[i]);
        }
        if no && !(matched && negated) {
            let i = choose|i: int|
                0 <= i < patterns.len() && is_negated(#[trigger] patterns[i]) && outcomes[i]->Ok_0;
            assert(ps[i - 1] == patterns[i]);
        }
    }
}

/// A list of networks, all of which can be read, holds this machine where one that is not negated
/// does and none that is negated does.
pub proof fn law_networks_hold_the_machine(patterns: Seq<Seq<char>>, locals: Seq<Seq<char>>)
    requires
        forall|i: int|
            0 <= i < patterns.len() ==> network_outcome(bare(#[trigger] patterns[i]), locals) is Ok,
    ensures
        networks_match(patterns, locals) == Ok::<bool, Seq<char>>(
            (exists|i: int|
                0 <= i < patterns.len() && !is_negated(#[trigger] patterns[i]) && network_outcome(
                    bare(patterns[i]),
                    locals,
                ) == Ok::<bool, Seq<char>>(true)) && !(exists|i: int|
                0 <= i < patterns.len() && is_negated(#[trigger] patterns[i]) && network_outcome(
                    bare(patterns[i]),
                    locals,
                ) == Ok::<bool, Seq<char>>(true)),
        ),
{
    let os = network_outcomes(patterns, locals);
    assert forall|i: int| 0 <= i < os.len() implies (#[trigger] os[i]) is Ok by {
        assert(network_outcome(bare(patterns[i]), locals) is Ok);
    }
    law_list_says_yes(patterns, os, false);
    let yes = exists|i: int|
        0 <= i < patterns.len() && !is_negated(#[trigger] patterns[i]) && os[i]->Ok_0;
    let no = exists|i: int|
        0 <= i < patterns.len() && is_negated(#[trigger] patterns[i]) && os[i]->Ok_0;
    if yes {
        let i = choose|i: int|
            0 <= i < patterns.len() && !is_negated(#[trigger] patterns[i]) && os[i]->Ok_0;
        assert(os[i] is Ok);
    }
    if no {
        let i = choose|i: int|
            0 <= i < patterns.len() && is_negated(#[trigger] patterns[i]) && os[i]->Ok_0;
        assert(os[i] is Ok);
    }
}

// ---------------------------------------------------------------------------
// Addresses as they are written
// ---------------------------------------------------------------------------

proof fn lemma_decimal(n: nat)
    requires
        n < 1000,
    ensures
        1 <= decimal(n).len() <= 3,
        all_digits(decimal(n)),
        decimal(n).len() > 1 ==> decimal(n)[0] != '0',
        number(decimal(n)) == n,
{
    law_number_of_decimal(n);
    reveal_with_fuel(decimal, 4);
    if n >= 10 {
        let q = n / 10;
        if q >= 10 {
            assert(decimal(n)[0] == digit(q / 10));
            assert(decimal(n).len() == 3);
        } else {
            assert(decimal(n)[0] == digit(q));
            assert(decimal(n).len() == 2);
        }
    }
}

proof fn lemma_ipv4_text(b: Seq<u8>)
    requires
        b.len() == 4,
    ensures
        ipv4_text(b) == join(
            seq![
                decimal(b[0] as nat),
                decimal(b[1] as nat),
                decimal(b[2] as nat),
                decimal(b[3] as nat),
            ],
            seq!['.'],
        ),
{
    reveal_strlit(".");
    assert("."@ =~= seq!['.']);
    let p = seq![
        decimal(b[0] as nat),
        decimal(b[1] as nat),
        decimal(b[2] as nat),
        decimal(b[3] as nat),
    ];
    let p3 = p.drop_last();
    let p2 = p3.drop_last();
    let p1 = p2.drop_last();
    assert(p1 =~= seq![p[0]]);
    assert(join(p1, seq!['.']) == p[0]);
    assert(join(p2, seq!['.']) == p[0] + seq!['.'] + p[1]);
    assert(join(p3, seq!['.']) == p[0] + seq!['.'] + p[1] + seq!['.'] + p[2]);
}

/// Four numbers with dots between them are an address, and the one that is written so.
pub proof fn law_address_is_read_back(b: Seq<u8>)
    requires
        b.len() == 4,
    ensures
        ip_of(ipv4_text(b)) == Some(IpView::V4(b)),
        ip_text(IpView::V4(b)) == decimal(b[0] as nat) + "."@ + decimal(b[1] as nat) + "."@
            + decimal(b[2] as nat) + "."@ + decimal(b[3] as nat),
{
    lemma_ipv4_text(b);
    let p = seq![
        decimal(b[0] as nat),
        decimal(b[1] as nat),
        decimal(b[2] as nat),
        decimal(b[3] as nat),
    ];
    lemma_decimal(b[0] as nat);
    lemma_decimal(b[1] as nat);
    lemma_decimal(b[2] as nat);
    lemma_decimal(b[3] as nat);
    assert forall|i: int, j: int| 0 <= i < p.len() && 0 <= j < p[i].len() implies !seq![
        '.',
    ].contains(#[trigger] p[i][j]) by {
        assert(all_digits(p[i]));
        assert(is_digit(p[i][j]));
    }
    assert(seq!['.'][0] == '.');
    law_joined_parts_are_found(p, '.', seq!['.']);
    assert(ipv4_of(ipv4_text(b))->0 =~= b);
}

/// The address of a line is what stands before the length of its prefix, and this machine's own
/// loop does not count.
#[verifier::rlimit(30)]
pub proof fn law_local_addresses(b: Seq<u8>, prefix: nat)
    requires
        b.len() == 4,
    ensures
        local_address(ipv4_text(b) + "/"@ + decimal(prefix)) == (if b[0] == 127 {
            None
        } else {
            Some(ipv4_text(b))
        }),
{
    let ip = ipv4_text(b);
    let d = decimal(prefix);
    let t = ip + "/"@ + d;
    reveal_strlit("/");
    reveal_strlit(".");
    reveal_strlit("()[],;");
    reveal_strlit(":");
    reveal_strlit("addr:");
    law_number_of_decimal(prefix);
    lemma_decimal(b[0] as nat);
    lemma_decimal(b[3] as nat);
    lemma_ipv4_chars(b);
    law_number_of_decimal(prefix);
    assert(is_digit(d[d.len() - 1]));
    assert(t.last() == d[d.len() - 1]);
    assert(is_digit(decimal(b[0] as nat)[0]));
    assert(t[0] == decimal(b[0] as nat)[0]);
    let marks = "()[],;"@;
    assert forall|i: int| 0 <= i < marks.len() implies !is_digit(#[trigger] marks[i]) by {}
    assert(!marks.contains(t[0]));
    assert(!marks.contains(t.last()));
    assert(strip_start(t, marks) == t);
    assert(strip_end(t, marks) == t);
    assert(!":"@.contains(t.last())) by {
        assert(":"@ =~= seq![':']);
    }
    assert(strip_end(t, ":"@) == t);
    if starts_with(t, "addr:"@) {
        assert(t.take(5)[0] == 'a');
        assert(false);
    }
    assert forall|i: int| 0 <= i < t.len() implies t[i] != '%' by {
        if i < ip.len() {
            assert(t[i] == ip[i]);
        } else if i > ip.len() {
            assert(t[i] == d[i - ip.len() - 1]);
            assert(is_digit(t[i]));
        }
    }
    lemma_until_none(t, '%');
    assert(t.take(t.len() as int) =~= t);
    assert(!ip.contains('/'));
    lemma_until_mark(ip, '/', d);
    assert(t =~= ip.push('/') + d);
    assert(t.take(ip.len() as int) =~= ip);
    law_address_is_read_back(b);
}

proof fn lemma_until_none(s: Seq<char>, c: char)
    requires
        forall|i: int| 0 <= i < s.len() ==> s[i] != c,
    ensures
        until(s, c) == s.len(),
    decreases s.len(),
{
    if s.len() > 0 {
        assert(s[0] != c);
        assert forall|i: int| 0 <= i < s.skip(1).len() implies s.skip(1)[i] != c by {
            assert(s[i + 1] != c);
        }
        lemma_until_none(s.skip(1), c);
    }
}

#[verifier::rlimit(30)]
proof fn lemma_ipv4_chars(b: Seq<u8>)
    requires
        b.len() == 4,
    ensures
        forall|i: int|
            0 <= i < ipv4_text(b).len() ==> is_digit(#[trigger] ipv4_text(b)[i]) || ipv4_text(b)[i]
                == '.',
{
    reveal_strlit(".");
    lemma_decimal(b[0] as nat);
    lemma_decimal(b[1] as nat);
    lemma_decimal(b[2] as nat);
    lemma_decimal(b[3] as nat);
    let d0 = decimal(b[0] as nat);
    let d1 = decimal(b[1] as nat);
    let d2 = decimal(b[2] as nat);
    let d3 = decimal(b[3] as nat);
    let t = ipv4_text(b);
    assert forall|i: int| 0 <= i < t.len() implies is_digit(#[trigger] t[i]) || t[i] == '.' by {
        let n0 = d0.len() as int;
        let n1 = n0 + 1 + d1.len();
        let n2 = n1 + 1 + d2.len();
        if i < n0 {
            assert(t[i] == d0[i]);
        } else if n0 < i < n1 {
            assert(t[i] == d1[i - n0 - 1]);
        } else if n1 < i < n2 {
            assert(t[i] == d2[i - n1 - 1]);
        } else if n2 < i {
            assert(t[i] == d3[i - n2 - 1]);
        } else {
            assert(t[i] == '.');
        }
    }
}

/// Behind `inet` or `inet6` stands an address; where a label stands between, the address is behind
/// that. Nothing else of a line is one.
#[verifier::rlimit(30)]
pub proof fn law_addresses_stand_behind_their_mark(tokens: Seq<Seq<char>>, n: int, label: bool)
    requires
        0 <= n <= tokens.len(),
    ensures
        forall|i: int|
            0 <= i < n && i + 1 < tokens.len() && (#[trigger] tokens[i] == "inet"@ || tokens[i]
                == "inet6"@) && (!label || tokens[i + 1] != "addr:"@) ==> inet_candidates(
                tokens,
                n,
                label,
            ).contains(tokens[i + 1]),
        forall|i: int|
            0 <= i < n && i + 2 < tokens.len() && (#[trigger] tokens[i] == "inet"@ || tokens[i]
                == "inet6"@) && label && tokens[i + 1] == "addr:"@ ==> inet_candidates(
                tokens,
                n,
                label,
            ).contains(tokens[i + 2]),
        forall|x: Seq<char>| #[trigger]
            inet_candidates(tokens, n, label).contains(x) ==> exists|i: int|
                0 <= i < n && (#[trigger] tokens[i] == "inet"@ || tokens[i] == "inet6"@) && (tokens[i
                    + 1] == x || (label && i + 2 < tokens.len() && tokens[i + 2] == x)),
    decreases n,
{
    if n > 0 {
        law_addresses_stand_behind_their_mark(tokens, n - 1, label);
        let before = inet_candidates(tokens, n - 1, label);
        let now = inet_candidates(tokens, n, label);
        assert forall|x: Seq<char>| #[trigger] before.contains(x) implies now.contains(x) by {
            let k = choose|k: int| 0 <= k < before.len() && before[k] == x;
            assert(now[k] == x);
        }
        if let Some(c) = inet_candidate(tokens, n - 1, label) {
            assert(now[before.len() as int] == c);
            assert(now.contains(c));
        }
        assert forall|x: Seq<char>| #[trigger] now.contains(x) implies exists|i: int|
            0 <= i < n && (#[trigger] tokens[i] == "inet"@ || tokens[i] == "inet6"@) && (tokens[i
                + 1] == x || (label && i + 2 < tokens.len() && tokens[i + 2] == x)) by {
            let k = choose|k: int| 0 <= k < now.len() && now[k] == x;
            if k < before.len() {
                assert(before[k] == x);
                assert(before.contains(x));
                let i = choose|i: int|
                    0 <= i < n - 1 && (#[trigger] tokens[i] == "inet"@ || tokens[i] == "inet6"@) && (
                    tokens[i + 1] == x || (label && i + 2 < tokens.len() && tokens[i + 2] == x));
                assert(tokens[i] == "inet"@ || tokens[i] == "inet6"@);
            } else {
                assert(tokens[n - 1] == "inet"@ || tokens[n - 1] == "inet6"@);
            }
        }
    } else {
        assert(inet_candidates(tokens, n, label) =~= Seq::<Seq<char>>::empty());
    }
}

// ---------------------------------------------------------------------------
// Longer addresses as they are written
// ---------------------------------------------------------------------------

pub open spec fn is_hex_digit(c: char) -> bool {
    hex_value(c) is Some
}

proof fn lemma_hex_text(n: nat)
    requires
        n < 65536,
    ensures
        1 <= hex_text(n).len() <= 4,
        hex_number(hex_text(n)) == Some(n),
        forall|i: int| 0 <= i < hex_text(n).len() ==> is_hex_digit(#[trigger] hex_text(n)[i]),
{
    lemma_hex_number(n);
    reveal_with_fuel(hex_text, 5);
}

proof fn lemma_hex_digit(d: nat)
    requires
        d < 16,
    ensures
        hex_value(hex_digit(d)) == Some(d),
{
}

proof fn lemma_hex_number(n: nat)
    ensures
        hex_number(hex_text(n)) == Some(n),
        hex_text(n).len() >= 1,
        forall|i: int| 0 <= i < hex_text(n).len() ==> is_hex_digit(#[trigger] hex_text(n)[i]),
    decreases n,
{
    let s = hex_text(n);
    if n < 16 {
        lemma_hex_digit(n);
        assert(s.drop_last() =~= Seq::<char>::empty());
        assert(hex_number(s.drop_last()) == Some(0nat));
        assert(s.last() == hex_digit(n));
    } else {
        lemma_hex_number(n / 16);
        lemma_hex_digit(n % 16);
        assert(s.drop_last() =~= hex_text(n / 16));
        assert(s.last() == hex_digit(n % 16));
        assert forall|i: int| 0 <= i < s.len() implies is_hex_digit(#[trigger] s[i]) by {
            if i < s.len() - 1 {
                assert(s[i] == hex_text(n / 16)[i]);
            }
        }
    }
}

proof fn lemma_groups(g: Seq<u16>, tail: bool)
    ensures
        groups_of(hex_texts(g), tail) == Some(g),
    decreases g.len(),
{
    let items = hex_texts(g);
    if g.len() == 0 {
        assert(groups_of(items, tail)->0 =~= g);
    } else {
        assert(items.drop_last() =~= hex_texts(g.drop_last()));
        lemma_groups(g.drop_last(), false);
        lemma_hex_text(g.last() as nat);
        assert(items.last() == hex_text(g.last() as nat));
        assert(g.drop_last().push(g.last()) =~= g);
    }
}

/// No two colons stand side by side, and none at the end.
spec fn has_no_gap(s: Seq<char>) -> bool {
    forall|i: int| 0 <= i < s.len() && #[trigger] s[i] == ':' ==> i + 1 < s.len() && s[i + 1] != ':'
}

#[verifier::rlimit(30)]
proof fn lemma_joined_has_no_gap(g: Seq<u16>)
    requires
        g.len() > 0,
    ensures
        has_no_gap(groups_text(g)),
        groups_text(g).len() > 0,
        forall|i: int|
            0 <= i < groups_text(g).len() ==> is_hex_digit(#[trigger] groups_text(g)[i])
                || groups_text(g)[i] == ':',
    decreases g.len(),
{
    reveal_strlit(":");
    let items = hex_texts(g);
    let last = hex_text(g.last() as nat);
    lemma_hex_text(g.last() as nat);
    let s = groups_text(g);
    if g.len() == 1 {
        assert(s == items[0]);
        assert(items[0] == last);
    } else {
        let head = g.drop_last();
        lemma_joined_has_no_gap(head);
        assert(items.drop_last() =~= hex_texts(head));
        let h = groups_text(head);
        assert(s == h + ":"@ + last);
        assert forall|i: int| 0 <= i < s.len() && #[trigger] s[i] == ':' implies i + 1 < s.len()
            && s[i + 1] != ':' by {
            if i < h.len() {
                assert(h[i] == ':');
                assert(s[i + 1] == h[i + 1]);
            } else if i == h.len() {
                assert(s[i + 1] == last[0]);
                assert(is_hex_digit(last[0]));
            } else {
                assert(s[i] == last[i - h.len() - 1]);
                assert(is_hex_digit(s[i]));
            }
        }
        assert forall|i: int| 0 <= i < s.len() implies is_hex_digit(#[trigger] s[i]) || s[i]
            == ':' by {
            if i < h.len() {
                assert(s[i] == h[i]);
            } else if i > h.len() {
                assert(s[i] == last[i - h.len() - 1]);
            }
        }
    }
}

proof fn lemma_until_gap(s: Seq<char>)
    requires
        has_no_gap(s),
    ensures
        until_gap(s) == s.len(),
    decreases s.len(),
{
    if s.len() > 0 {
        let rest = s.skip(1);
        assert forall|i: int| 0 <= i < rest.len() && #[trigger] rest[i] == ':' implies i + 1
            < rest.len() && rest[i + 1] != ':' by {
            assert(s[i + 1] == ':');
        }
        if s[0] == ':' {
            assert(s[1] != ':');
        }
        lemma_until_gap(rest);
    }
}

/// Eight groups of hexadecimal digits with colons between them are an address, and the one that is
/// written so.
pub proof fn law_long_address_is_read(g: Seq<u16>)
    requires
        g.len() == 8,
    ensures
        ip_of(join(hex_texts(g), ":"@)) == Some(IpView::V6(g)),
{
    reveal_strlit(":");
    let s = groups_text(g);
    let items = hex_texts(g);
    lemma_joined_has_no_gap(g);
    lemma_until_gap(s);
    assert(":"@ =~= seq![':']);
    assert forall|i: int, j: int| 0 <= i < items.len() && 0 <= j < items[i].len() implies !seq![
        ':',
    ].contains(#[trigger] items[i][j]) by {
        lemma_hex_text(g[i] as nat);
        assert(items[i] == hex_text(g[i] as nat));
        assert(is_hex_digit(items[i][j]));
    }
    assert(seq![':'][0] == ':');
    law_joined_parts_are_found(items, ':', seq![':']);
    lemma_groups(g, true);
    assert forall|i: int| 0 <= i < s.len() implies !seq!['.'].contains(#[trigger] s[i]) by {
        assert(is_hex_digit(s[i]) || s[i] == ':');
    }
    lemma_part_is_one_part(s, seq!['.'], Seq::empty());
    assert(split(s, seq!['.']).len() == 1);
    assert(ipv4_of(s) is None);
}

/// A line of `ipconfig` has an address behind its first colon where its label speaks of one.
pub proof fn law_labelled_addresses(label: Seq<char>, value: Seq<char>)
    requires
        !label.contains(':'),
    ensures
        ipconfig_candidate(label.push(':') + value) == (if (contains_text(trim(label), "IPv4"@)
            || contains_text(trim(label), "IPv6"@)) && contains_text(trim(label), "Address"@) {
            Some(trim(value))
        } else {
            None
        }),
        ipconfig_candidate(label) is None,
{
    law_split_at_the_first(label, ':', value);
}

/// The first program that answers is the one that is read.
pub proof fn law_first_answer_is_read(
    ipconfig: Option<Seq<char>>,
    ip: Option<Seq<char>>,
    ifconfig: Option<Seq<char>>,
)
    ensures
        ipconfig is Some ==> answering_tool(ipconfig, ip, ifconfig) == Some(
            ("ipconfig"@, ipconfig->0),
        ),
        ipconfig is None && ip is Some ==> answering_tool(ipconfig, ip, ifconfig) == Some(
            ("ip"@, ip->0),
        ),
        ipconfig is None && ip is None && ifconfig is Some ==> answering_tool(
            ipconfig,
            ip,
            ifconfig,
        ) == Some(("ifconfig"@, ifconfig->0)),
        ipconfig is None && ip is None && ifconfig is None ==> answering_tool(
            ipconfig,
            ip,
            ifconfig,
        ) is None,
{
}

} // verus!
