//! The addresses of this machine, as network tools print them, and the networks that they are
//! held against.

#![verifier::loop_isolation(false)]

use vstd::prelude::*;

use crate::address::{IpAddr, IpView, in_network, ip_in_network, ip_of, ip_text, loopback};
use crate::config::pattern::{
    bare, bare_pattern, decide, decide_patterns, outcome, outcomes_of, verdict,
};
use crate::error::ConfigError;
use crate::strings::{
    after_prefix, chars_of, concat3, count_until, halves_at, has_text, number_fault_text,
    parse_number, same, sorted_once, split_lines, split_words, string_of, stripped, stripped_end,
    trimmed,
};
use crate::text::{
    contains_text, lines, number_fault, opt, opt_str, parse_unsigned, rising, split_once,
    starts_with, strip_end, strip_start, strs, trim, until, words,
};

verus! {

broadcast use crate::text::group_text;

// ---------------------------------------------------------------------------
// Networks
// ---------------------------------------------------------------------------

/// Whether one of the addresses stands in the network. A text that is no address is passed over.
pub open spec fn any_in_network(locals: Seq<Seq<char>>, network: IpView, prefix: u8) -> Result<
    bool,
    Seq<char>,
>
    decreases locals.len(),
{
    if locals.len() == 0 {
        Ok(false)
    } else {
        match ip_of(locals[0]) {
            None => any_in_network(locals.skip(1), network, prefix),
            Some(ip) => match in_network(ip, network, prefix) {
                Err(e) => Err(e),
                Ok(true) => Ok(true),
                Ok(false) => any_in_network(locals.skip(1), network, prefix),
            },
        }
    }
}

/// Whether one of the addresses stands in the network that `text` names as `address/length`, or
/// why `text` names none.
pub open spec fn network_outcome(text: Seq<char>, locals: Seq<Seq<char>>) -> Result<
    bool,
    Seq<char>,
> {
    match split_once(text, '/') {
        None => Err("invalid localnetwork pattern `"@ + text + "`"@),
        Some((network, length)) => match parse_unsigned(length, 255) {
            None => Err(
                "invalid CIDR prefix in `"@ + text + "`"@ + ": "@ + number_fault(length, 255),
            ),
            Some(n) => match ip_of(network) {
                None => Err(
                    "invalid network address in `"@ + text + "`"@ + ": "@
                        + "invalid IP address syntax"@,
                ),
                Some(ip) => any_in_network(locals, ip, n as u8),
            },
        },
    }
}

/// What comes out for each network of a list without its exclamation mark.
pub open spec fn network_outcomes(patterns: Seq<Seq<char>>, locals: Seq<Seq<char>>) -> Seq<
    Result<bool, Seq<char>>,
> {
    Seq::new(patterns.len(), |i: int| network_outcome(bare(patterns[i]), locals))
}

/// Whether the list of networks holds one of the addresses.
pub open spec fn networks_match(patterns: Seq<Seq<char>>, locals: Seq<Seq<char>>) -> Result<
    bool,
    Seq<char>,
> {
    decide(patterns, network_outcomes(patterns, locals), false)
}

fn network_spec_matches_any(spec: &str, local_networks: &[String]) -> (r: Result<bool, ConfigError>)
    ensures
        verdict(r) == network_outcome(spec@, strs(local_networks@)),
{
    let ghost locals = strs(local_networks@);
    match halves_at(spec, '/') {
        None => Err(ConfigError::new(concat3("invalid localnetwork pattern `", spec, "`"))),
        Some((network, length)) => match parse_number(&length, 255) {
            None => Err(
                ConfigError::caused(
                    concat3("invalid CIDR prefix in `", spec, "`"),
                    number_fault_text(&length, 255),
                ),
            ),
            Some(n) => match IpAddr::parse(&network) {
                None => Err(
                    ConfigError::caused(
                        concat3("invalid network address in `", spec, "`"),
                        "invalid IP address syntax".to_string(),
                    ),
                ),
                Some(ip) => {
                    let mut i: usize = 0;
                    while i < local_networks.len()
                        invariant
                            i <= local_networks@.len(),
                            locals == strs(local_networks@),
                            any_in_network(locals, ip@, n as u8) == any_in_network(
                                locals.skip(i as int),
                                ip@,
                                n as u8,
                            ),
                        decreases local_networks@.len() - i,
                    {
                        assert(locals.skip(i as int)[0] == local_networks@[i as int]@);
                        match IpAddr::parse(&local_networks[i]) {
                            None => {},
                            Some(local) => match ip_in_network(&local, &ip, n as u8) {
                                Err(e) => {
                                    return Err(e);
                                },
                                Ok(true) => {
                                    return Ok(true);
                                },
                                Ok(false) => {},
                            },
                        }
                        i += 1;
                    }
                    Ok(false)
                },
            },
        },
    }
}

/// Whether the list of networks holds one of the addresses: some network does, and no negated one.
pub fn local_network_matches(patterns: &Vec<String>, local_networks: &[String]) -> (r: Result<
    bool,
    ConfigError,
>)
    ensures
        verdict(r) == networks_match(strs(patterns@), strs(local_networks@)),
{
    let ghost ps = strs(patterns@);
    let ghost locals = strs(local_networks@);
    let mut outcomes: Vec<Result<bool, String>> = Vec::new();
    let mut i: usize = 0;
    while i < patterns.len()
        invariant
            i <= patterns@.len(),
            ps == strs(patterns@),
            locals == strs(local_networks@),
            outcomes@.len() == i,
            forall|k: int|
                0 <= k < i ==> outcome(#[trigger] outcomes@[k]) == network_outcome(
                    bare(ps[k]),
                    locals,
                ),
        decreases patterns@.len() - i,
    {
        assert(ps[i as int] == patterns@[i as int]@);
        let o: Result<bool, String> = match network_spec_matches_any(
            &bare_pattern(&patterns[i]),
            local_networks,
        ) {
            Ok(b) => Ok(b),
            Err(e) => Err(e.text()),
        };
        outcomes.push(o);
        i += 1;
    }
    assert(outcomes_of(outcomes@) =~= network_outcomes(ps, locals));
    decide_patterns(patterns, &outcomes)
}

// ---------------------------------------------------------------------------
// What the network tools print
// ---------------------------------------------------------------------------

/// A line of `ipconfig` that gives an address.
pub open spec fn ipconfig_candidate(line: Seq<char>) -> Option<Seq<char>> {
    match split_once(line, ':') {
        None => None,
        Some((label, value)) => {
            let l = trim(label);
            if (contains_text(l, "IPv4"@) || contains_text(l, "IPv6"@)) && contains_text(
                l,
                "Address"@,
            ) {
                Some(trim(value))
            } else {
                None
            }
        },
    }
}

pub open spec fn ipconfig_candidates(ls: Seq<Seq<char>>) -> Seq<Seq<char>>
    decreases ls.len(),
{
    if ls.len() == 0 {
        Seq::empty()
    } else {
        let before = ipconfig_candidates(ls.drop_last());
        match ipconfig_candidate(ls.last()) {
            Some(c) => before.push(c),
            None => before,
        }
    }
}

pub open spec fn is_inet(token: Seq<char>) -> bool {
    token == "inet"@ || token == "inet6"@
}

/// What follows the token at `i` where that token announces an address; with `label`, a token
/// `addr:` between the two is passed over.
pub open spec fn inet_candidate(tokens: Seq<Seq<char>>, i: int, label: bool) -> Option<Seq<char>> {
    if !is_inet(tokens[i]) || i + 1 >= tokens.len() {
        None
    } else if label && tokens[i + 1] == "addr:"@ {
        if i + 2 < tokens.len() {
            Some(tokens[i + 2])
        } else {
            None
        }
    } else {
        Some(tokens[i + 1])
    }
}

/// The candidates announced by the first `n` tokens.
pub open spec fn inet_candidates(tokens: Seq<Seq<char>>, n: int, label: bool) -> Seq<Seq<char>>
    decreases n,
{
    if n <= 0 {
        Seq::empty()
    } else {
        let before = inet_candidates(tokens, n - 1, label);
        match inet_candidate(tokens, n - 1, label) {
            Some(c) => before.push(c),
            None => before,
        }
    }
}

/// The candidates of all lines.
pub open spec fn inet_lines(ls: Seq<Seq<char>>, label: bool) -> Seq<Seq<char>>
    decreases ls.len(),
{
    if ls.len() == 0 {
        Seq::empty()
    } else {
        let tokens = words(ls.last());
        inet_lines(ls.drop_last(), label) + inet_candidates(tokens, tokens.len() as int, label)
    }
}

/// The texts that may be addresses in what a network tool printed.
pub open spec fn candidates(program: Seq<char>, stdout: Seq<char>) -> Seq<Seq<char>> {
    if program == "ipconfig"@ {
        ipconfig_candidates(lines(stdout))
    } else if program == "ip"@ {
        inet_lines(lines(stdout), false)
    } else if program == "ifconfig"@ {
        inet_lines(lines(stdout), true)
    } else {
        words(stdout)
    }
}

/// A candidate without what the tools put round an address.
pub open spec fn address_part(token: Seq<char>) -> Seq<char> {
    let a = strip_end(strip_end(strip_start(token, "()[],;"@), "()[],;"@), ":"@);
    let b = if starts_with(a, "addr:"@) {
        a.skip("addr:"@.len() as int)
    } else {
        a
    };
    let c = b.take(until(b, '%') as int);
    match split_once(c, '/') {
        Some((ip, _)) => ip,
        None => c,
    }
}

/// The address of a candidate in its usual form, unless it is none or a loopback address.
pub open spec fn local_address(token: Seq<char>) -> Option<Seq<char>> {
    match ip_of(address_part(token)) {
        Some(ip) => if loopback(ip) {
            None
        } else {
            Some(ip_text(ip))
        },
        None => None,
    }
}

/// `t` is the address of one of the candidates.
pub open spec fn is_local_address(tokens: Seq<Seq<char>>, t: Seq<char>) -> bool {
    exists|i: int| 0 <= i < tokens.len() && local_address(#[trigger] tokens[i]) == Some(t)
}

fn address_text(token: &str) -> (r: String)
    ensures
        r@ == address_part(token@),
{
    let a: String = stripped_end(&stripped(token, "()[],;"), ":");
    let b: String = match after_prefix(&a, "addr:") {
        Some(rest) => rest,
        None => a,
    };
    let v: Vec<char> = chars_of(&b);
    let n: usize = count_until(&v, '%');
    let c: String = string_of(&v, 0, n);
    assert(c@ =~= b@.take(n as int));
    match halves_at(&c, '/') {
        Some((ip, _)) => ip,
        None => c,
    }
}

fn local_ip(token: &str) -> (r: Option<String>)
    ensures
        opt(r) == local_address(token@),
{
    match IpAddr::parse(&address_text(token)) {
        Some(ip) => {
            if ip.is_loopback() {
                None
            } else {
                Some(ip.text())
            }
        },
        None => None,
    }
}

fn push_inet_candidates(out: &mut Vec<String>, line: &str, label: bool)
    ensures
        strs(final(out)@) == strs(old(out)@) + inet_candidates(
            words(line@),
            words(line@).len() as int,
            label,
        ),
{
    let ghost was = strs(out@);
    let tokens: Vec<String> = split_words(line);
    let ghost ts = strs(tokens@);
    assert(ts.len() == tokens@.len());
    let mut i: usize = 0;
    assert(strs(out@) =~= was + inet_candidates(ts, 0, label));
    while i < tokens.len()
        invariant
            i <= tokens@.len(),
            ts == strs(tokens@),
            strs(out@) == was + inet_candidates(ts, i as int, label),
        decreases tokens@.len() - i,
    {
        assert(ts[i as int] == tokens@[i as int]@);
        let ghost before = strs(out@);
        if (same(&tokens[i], "inet") || same(&tokens[i], "inet6")) && tokens.len() - i > 1 {
            assert(ts[i + 1] == tokens@[i + 1]@);
            if label && same(&tokens[i + 1], "addr:") {
                if tokens.len() - i > 2 {
                    assert(ts[i + 2] == tokens@[i + 2]@);
                    out.push(tokens[i + 2].clone());
                }
            } else {
                out.push(tokens[i + 1].clone());
            }
        }
        i += 1;
        assert(strs(out@) =~= was + inet_candidates(ts, i as int, label));
    }
}

fn list_candidates(program: &str, stdout: &str) -> (r: Vec<String>)
    ensures
        strs(r@) == candidates(program@, stdout@),
{
    let mut out: Vec<String> = Vec::new();
    let all: Vec<String> = split_lines(stdout);
    let ghost ls = strs(all@);
    let mut i: usize = 0;
    if same(program, "ipconfig") {
        while i < all.len()
            invariant
                i <= all@.len(),
                ls == strs(all@),
                strs(out@) == ipconfig_candidates(ls.take(i as int)),
            decreases all@.len() - i,
        {
            match halves_at(&all[i], ':') {
                Some((label, value)) => {
                    let l: String = trimmed(&label);
                    if (has_text(&l, "IPv4") || has_text(&l, "IPv6")) && has_text(&l, "Address") {
                        out.push(trimmed(&value));
                    }
                },
                None => {},
            }
            i += 1;
        }
        out
    } else if same(program, "ip") || same(program, "ifconfig") {
        let label: bool = !same(program, "ip");
        while i < all.len()
            invariant
                i <= all@.len(),
                ls == strs(all@),
                strs(out@) == inet_lines(ls.take(i as int), label),
            decreases all@.len() - i,
        {
            push_inet_candidates(&mut out, &all[i], label);
            i += 1;
        }
        out
    } else {
        split_words(stdout)
    }
}

proof fn lemma_one_more_address(
    head: Seq<Seq<char>>,
    x: Seq<char>,
    before: Seq<Seq<char>>,
    now: Seq<Seq<char>>,
)
    requires
        forall|t: Seq<char>| before.contains(t) <==> is_local_address(head, t),
        now == (match local_address(x) {
            Some(a) => before.push(a),
            None => before,
        }),
    ensures
        forall|t: Seq<char>| now.contains(t) <==> is_local_address(head.push(x), t),
{
    assert forall|t: Seq<char>| now.contains(t) <==> is_local_address(head.push(x), t) by {
        if now.contains(t) {
            let k = choose|k: int| 0 <= k < now.len() && now[k] == t;
            if k < before.len() {
                assert(before[k] == t);
                assert(before.contains(t));
                let j = choose|j: int|
                    0 <= j < head.len() && local_address(#[trigger] head[j]) == Some(t);
                assert(head.push(x)[j] == head[j]);
            } else {
                assert(head.push(x)[head.len() as int] == x);
            }
        }
        if is_local_address(head.push(x), t) {
            let j = choose|j: int|
                0 <= j < head.push(x).len() && local_address(#[trigger] head.push(x)[j]) == Some(t);
            if j < head.len() {
                assert(head[j] == head.push(x)[j]);
                assert(is_local_address(head, t));
                assert(before.contains(t));
                let k = choose|k: int| 0 <= k < before.len() && before[k] == t;
                assert(now[k] == t);
            } else {
                assert(now[before.len() as int] == t);
            }
        }
    }
}

/// The addresses in what a network tool printed, in order and each once, without those by which
/// a machine speaks to itself.
pub fn extract_local_networks_from_output(program: &str, stdout: &str) -> (r: Vec<String>)
    ensures
        rising(strs(r@)),
        forall|t: Seq<char>|
            strs(r@).contains(t) <==> is_local_address(candidates(program@, stdout@), t),
{
    let tokens: Vec<String> = list_candidates(program, stdout);
    let ghost ts = strs(tokens@);
    let mut values: Vec<String> = Vec::new();
    let mut i: usize = 0;
    while i < tokens.len()
        invariant
            i <= tokens@.len(),
            ts == strs(tokens@),
            forall|t: Seq<char>|
                strs(values@).contains(t) <==> is_local_address(ts.take(i as int), t),
        decreases tokens@.len() - i,
    {
        let ghost before = strs(values@);
        let ghost head = ts.take(i as int);
        let ghost x = ts[i as int];
        let found: Option<String> = local_ip(&tokens[i]);
        if let Some(ip) = found {
            values.push(ip);
        }
        i += 1;
        proof {
            assert(ts.take(i as int) == head.push(x));
            lemma_one_more_address(head, x, before, strs(values@));
        }
    }
    sorted_once(&values)
}

/// The tool whose output counts: the first that ran, of `ipconfig`, `ip` and `ifconfig`.
pub open spec fn answering_tool(
    ipconfig: Option<Seq<char>>,
    ip: Option<Seq<char>>,
    ifconfig: Option<Seq<char>>,
) -> Option<(Seq<char>, Seq<char>)> {
    match ipconfig {
        Some(out) => Some(("ipconfig"@, out)),
        None => match ip {
            Some(out) => Some(("ip"@, out)),
            None => match ifconfig {
                Some(out) => Some(("ifconfig"@, out)),
                None => None,
            },
        },
    }
}

/// The addresses of the machine by what the network tools printed, `None` for a tool that
/// did not run.
pub fn detect_local_networks(
    ipconfig: Option<&str>,
    ip: Option<&str>,
    ifconfig: Option<&str>,
) -> (r: Vec<String>)
    ensures
        match answering_tool(opt_str(ipconfig), opt_str(ip), opt_str(ifconfig)) {
            Some((program, out)) => rising(strs(r@)) && forall|t: Seq<char>|
                strs(r@).contains(t) <==> is_local_address(candidates(program, out), t),
            None => r@.len() == 0,
        },
{
    match ipconfig {
        Some(out) => extract_local_networks_from_output("ipconfig", out),
        None => match ip {
            Some(out) => extract_local_networks_from_output("ip", out),
            None => match ifconfig {
                Some(out) => extract_local_networks_from_output("ifconfig", out),
                None => Vec::new(),
            },
        },
    }
}

/// The name of the user by the variables `USERNAME`, `USER` and `LOGNAME`: the first that is
/// set.
pub fn detect_local_username(
    username: Option<String>,
    user: Option<String>,
    logname: Option<String>,
) -> (r: String)
    ensures
        r@ == (match opt(username) {
            Some(n) => n,
            None => match opt(user) {
                Some(n) => n,
                None => match opt(logname) {
                    Some(n) => n,
                    None => Seq::empty(),
                },
            },
        }),
{
    match username {
        Some(n) => n,
        None => match user {
            Some(n) => n,
            None => match logname {
                Some(n) => n,
                None => String::new(),
            },
        },
    }
}

} // verus!
