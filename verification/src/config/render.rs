//! Writing a block of directives.

#![verifier::loop_isolation(false)]

use vstd::prelude::*;

use crate::config::model::{HostEntry, HostView};
use crate::strings::{copy_pairs, decimal_text, joined};
use crate::text::{decimal, join, lines, opt, pairs, strs};

verus! {

broadcast use crate::text::group_text;

pub open spec fn directive_if(key: Seq<char>, value: Option<Seq<char>>) -> Seq<
    (Seq<char>, Seq<char>),
> {
    match value {
        Some(v) => seq![(key, v)],
        None => Seq::empty(),
    }
}

pub open spec fn directive_each(key: Seq<char>, values: Seq<Seq<char>>) -> Seq<
    (Seq<char>, Seq<char>),
> {
    Seq::new(values.len(), |i: int| (key, values[i]))
}

pub open spec fn port_text(port: Option<u16>) -> Option<Seq<char>> {
    match port {
        Some(n) => Some(decimal(n as nat)),
        None => None,
    }
}

/// The directives of an entry in the order in which they are written.
pub open spec fn directives_of(e: HostView) -> Seq<(Seq<char>, Seq<char>)> {
    seq![("Host"@, join(e.host_patterns, " "@))] + directive_if("HostName"@, e.hostname)
        + directive_if("User"@, e.user) + directive_if("Port"@, port_text(e.port)) + directive_if(
        "ProxyJump"@,
        e.proxy_jump,
    ) + directive_each("IdentityFile"@, e.identity_files) + directive_each(
        "LocalForward"@,
        e.local_forwards,
    ) + directive_each("RemoteForward"@, e.remote_forwards) + directive_if(
        "StrictHostKeyChecking"@,
        e.strict_host_key_checking,
    ) + directive_if("UserKnownHostsFile"@, e.user_known_hosts_file) + directive_if(
        "HostKeyAlgorithms"@,
        e.host_key_algorithms,
    ) + directive_if("PubkeyAcceptedAlgorithms"@, e.pubkey_accepted_algorithms) + directive_if(
        "ForwardAgent"@,
        e.forward_agent,
    ) + directive_if("Tag"@, e.tag) + e.extra_options
}

/// The line of a directive: all but the first are indented.
pub open spec fn directive_line(first: bool, d: (Seq<char>, Seq<char>)) -> Seq<char> {
    (if first {
        d.0
    } else {
        "  "@ + d.0
    }) + " "@ + d.1
}

/// One line for each directive, each followed by `newline`.
pub open spec fn render_directives(ds: Seq<(Seq<char>, Seq<char>)>, newline: Seq<char>) -> Seq<char>
    decreases ds.len(),
{
    if ds.len() == 0 {
        Seq::empty()
    } else {
        render_directives(ds.drop_last(), newline) + (directive_line(ds.len() == 1, ds.last())
            + newline)
    }
}

fn push_if(lines: &mut Vec<(String, String)>, key: &str, value: &Option<String>)
    ensures
        pairs(final(lines)@) == pairs(old(lines)@) + directive_if(key@, opt(*value)),
{
    let ghost was = pairs(lines@);
    if let Some(v) = value {
        lines.push((key.to_owned(), v.clone()));
    }
    assert(pairs(lines@) =~= was + directive_if(key@, opt(*value)));
}

fn push_each(lines: &mut Vec<(String, String)>, key: &str, values: &Vec<String>)
    ensures
        pairs(final(lines)@) == pairs(old(lines)@) + directive_each(key@, strs(values@)),
{
    let ghost was = pairs(lines@);
    let mut i: usize = 0;
    assert(pairs(lines@) =~= was + directive_each(key@, strs(values@).take(0)));
    while i < values.len()
        invariant
            i <= values@.len(),
            pairs(lines@) == was + directive_each(key@, strs(values@).take(i as int)),
        decreases values@.len() - i,
    {
        lines.push((key.to_owned(), values[i].clone()));
        i += 1;
        assert(pairs(lines@) =~= was + directive_each(key@, strs(values@).take(i as int)));
    }
}

pub fn directives(entry: &HostEntry) -> (r: Vec<(String, String)>)
    ensures
        pairs(r@) == directives_of(entry@),
{
    let mut lines: Vec<(String, String)> = Vec::new();
    lines.push(("Host".to_owned(), joined(&entry.host_patterns, " ")));
    assert(pairs(lines@) =~= seq![("Host"@, join(entry@.host_patterns, " "@))]);
    push_if(&mut lines, "HostName", &entry.hostname);
    push_if(&mut lines, "User", &entry.user);
    let port: Option<String> = match entry.port {
        Some(n) => Some(decimal_text(n as usize)),
        None => None,
    };
    push_if(&mut lines, "Port", &port);
    push_if(&mut lines, "ProxyJump", &entry.proxy_jump);
    push_each(&mut lines, "IdentityFile", &entry.identity_files);
    push_each(&mut lines, "LocalForward", &entry.local_forwards);
    push_each(&mut lines, "RemoteForward", &entry.remote_forwards);
    push_if(&mut lines, "StrictHostKeyChecking", &entry.strict_host_key_checking);
    push_if(&mut lines, "UserKnownHostsFile", &entry.user_known_hosts_file);
    push_if(&mut lines, "HostKeyAlgorithms", &entry.host_key_algorithms);
    push_if(&mut lines, "PubkeyAcceptedAlgorithms", &entry.pubkey_accepted_algorithms);
    push_if(&mut lines, "ForwardAgent", &entry.forward_agent);
    push_if(&mut lines, "Tag", &entry.tag);
    let ghost was = pairs(lines@);
    let mut extra: Vec<(String, String)> = copy_pairs(&entry.extra_options);
    let ghost added = pairs(extra@);
    lines.append(&mut extra);
    assert(pairs(lines@) =~= was + added);
    lines
}

/// The text of the file of a managed entry.
pub fn render_host_entry(entry: &HostEntry, newline: &str) -> (r: String)
    ensures
        r@ == render_directives(directives_of(entry@), newline@),
{
    let all: Vec<(String, String)> = directives(entry);
    let ghost ds = pairs(all@);
    let mut rendered: String = String::new();
    let mut i: usize = 0;
    while i < all.len()
        invariant
            i <= all@.len(),
            rendered@ == render_directives(ds.take(i as int), newline@),
        decreases all@.len() - i,
    {
        let ghost was = rendered@;
        if i > 0 {
            rendered.push_str("  ");
        }
        rendered.push_str(&all[i].0);
        rendered.push_str(" ");
        rendered.push_str(&all[i].1);
        rendered.push_str(newline);
        proof {
            let line = directive_line(i == 0, ds[i as int]);
            assert(rendered@ =~= was + (line + newline@));
        }
        i += 1;
    }
    rendered
}

} // verus!
