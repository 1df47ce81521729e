//! Reading a block of directives.

#![verifier::loop_isolation(false)]

use vstd::prelude::*;

use crate::config::model::{HostEntry, HostView, empty_host};
use crate::error::{ConfigError, FaultView, fault};
use crate::strings::{
    chars_of, concat2, concat4, equal_ignoring_case, lowered, number_fault_text, parse_u16, same,
    split_key_value, split_lines, split_words, trimmed,
};
use crate::text::{
    key_value, lines, lower, number_fault, parse_unsigned, same_ignoring_case, strs, trim, words,
};

verus! {

broadcast use crate::text::group_text;

/// How far a block has been read.
#[verifier::ext_equal]
pub struct ParseView {
    pub entry: HostView,
    pub saw_host: bool,
}

pub open spec fn is_comment(line: Seq<char>) -> bool {
    line.len() > 0 && line[0] == '#'
}

/// `entry` with the directive `key value` added: a scalar directive replaces the value that it
/// had, a repeatable one and an unknown one goes behind the others. Nothing where `value` is no
/// port number although `key` asks for one.
pub open spec fn with_directive(entry: HostView, key: Seq<char>, value: Seq<char>) -> Option<
    HostView,
> {
    let k = lower(key);
    if k == "hostname"@ {
        Some(HostView { hostname: Some(value), ..entry })
    } else if k == "user"@ {
        Some(HostView { user: Some(value), ..entry })
    } else if k == "port"@ {
        match parse_unsigned(value, 65535) {
            Some(n) => Some(HostView { port: Some(n as u16), ..entry }),
            None => None,
        }
    } else if k == "proxyjump"@ {
        Some(HostView { proxy_jump: Some(value), ..entry })
    } else if k == "identityfile"@ {
        Some(HostView { identity_files: entry.identity_files.push(value), ..entry })
    } else if k == "localforward"@ {
        Some(HostView { local_forwards: entry.local_forwards.push(value), ..entry })
    } else if k == "remoteforward"@ {
        Some(HostView { remote_forwards: entry.remote_forwards.push(value), ..entry })
    } else if k == "stricthostkeychecking"@ {
        Some(HostView { strict_host_key_checking: Some(value), ..entry })
    } else if k == "userknownhostsfile"@ {
        Some(HostView { user_known_hosts_file: Some(value), ..entry })
    } else if k == "hostkeyalgorithms"@ {
        Some(HostView { host_key_algorithms: Some(value), ..entry })
    } else if k == "pubkeyacceptedalgorithms"@ {
        Some(HostView { pubkey_accepted_algorithms: Some(value), ..entry })
    } else if k == "forwardagent"@ {
        Some(HostView { forward_agent: Some(value), ..entry })
    } else if k == "tag"@ {
        Some(HostView { tag: Some(value), ..entry })
    } else {
        Some(HostView { extra_options: entry.extra_options.push((key, value)), ..entry })
    }
}

/// What reading one more line makes of `st`, or the refusal.
pub open spec fn parse_line(
    path: Seq<char>,
    header: bool,
    st: ParseView,
    raw: Seq<char>,
) -> Result<ParseView, FaultView> {
    let line = trim(raw);
    if line.len() == 0 || is_comment(line) {
        Ok(st)
    } else {
        match key_value(line) {
            None => Err(fault("invalid directive in "@ + path)),
            Some((key, value)) => if same_ignoring_case(key, "Host"@) {
                if !header {
                    Err(fault("unexpected `Host` directive in Match block: "@ + path))
                } else if st.saw_host {
                    Err(fault("multiple `Host` blocks in one managed file are not supported: "@ + path))
                } else if words(value).len() == 0 {
                    Err(fault("`Host` directive is empty in "@ + path))
                } else {
                    Ok(
                        ParseView {
                            entry: HostView { host_patterns: words(value), ..st.entry },
                            saw_host: true,
                        },
                    )
                }
            } else if header && !st.saw_host {
                Err(fault("expected `Host` as the first directive in managed file: "@ + path))
            } else {
                match with_directive(st.entry, key, value) {
                    Some(entry) => Ok(ParseView { entry, ..st }),
                    None => Err(
                        FaultView {
                            message: "invalid `Port` value `"@ + value + "` in "@ + path,
                            cause: Some(number_fault(value, 65535)),
                        },
                    ),
                }
            },
        }
    }
}

/// What reading `ls`, line by line, makes of `st`, or the first refusal.
pub open spec fn parse_lines(
    path: Seq<char>,
    header: bool,
    st: ParseView,
    ls: Seq<Seq<char>>,
) -> Result<ParseView, FaultView>
    decreases ls.len(),
{
    if ls.len() == 0 {
        Ok(st)
    } else {
        match parse_line(path, header, st, ls[0]) {
            Ok(next) => parse_lines(path, header, next, ls.skip(1)),
            Err(e) => Err(e),
        }
    }
}

/// The entry that `content` describes, or why it describes none.
pub open spec fn parse_block(path: Seq<char>, content: Seq<char>, header: bool) -> Result<
    HostView,
    FaultView,
> {
    match parse_lines(
        path,
        header,
        ParseView { entry: empty_host(), saw_host: false },
        lines(content),
    ) {
        Err(e) => Err(e),
        Ok(st) => if header && !st.saw_host {
            Err(fault("no `Host` block found in "@ + path))
        } else {
            Ok(st.entry)
        },
    }
}

/// A result by what it holds.
pub open spec fn parsed(r: Result<HostEntry, ConfigError>) -> Result<HostView, FaultView> {
    match r {
        Ok(e) => Ok(e@),
        Err(e) => Err(e.fault()),
    }
}

/// Whether a line that is already without white space at its ends is a comment.
pub fn line_is_comment(line: &str) -> (r: bool)
    ensures
        r == is_comment(line@),
{
    let v: Vec<char> = chars_of(line);
    v.len() > 0 && v[0] == '#'
}

/// Adds one directive; gives back whether it could be taken.
pub fn add_directive(entry: &mut HostEntry, key: &str, value: &str) -> (r: bool)
    ensures
        match with_directive(old(entry)@, key@, value@) {
            Some(v) => r && final(entry)@ == v,
            None => !r && final(entry)@ == old(entry)@,
        },
{
    let k: String = lowered(key);
    let v: String = value.to_owned();
    let ghost was = entry@;
    if same(&k, "hostname") {
        entry.hostname = Some(v);
    } else if same(&k, "user") {
        entry.user = Some(v);
    } else if same(&k, "port") {
        match parse_u16(value) {
            Some(n) => {
                entry.port = Some(n);
            },
            None => {
                return false;
            },
        }
    } else if same(&k, "proxyjump") {
        entry.proxy_jump = Some(v);
    } else if same(&k, "identityfile") {
        entry.identity_files.push(v);
    } else if same(&k, "localforward") {
        entry.local_forwards.push(v);
    } else if same(&k, "remoteforward") {
        entry.remote_forwards.push(v);
    } else if same(&k, "stricthostkeychecking") {
        entry.strict_host_key_checking = Some(v);
    } else if same(&k, "userknownhostsfile") {
        entry.user_known_hosts_file = Some(v);
    } else if same(&k, "hostkeyalgorithms") {
        entry.host_key_algorithms = Some(v);
    } else if same(&k, "pubkeyacceptedalgorithms") {
        entry.pubkey_accepted_algorithms = Some(v);
    } else if same(&k, "forwardagent") {
        entry.forward_agent = Some(v);
    } else if same(&k, "tag") {
        entry.tag = Some(v);
    } else {
        entry.extra_options.push((key.to_owned(), v));
    }
    assert(entry@ =~= with_directive(was, key@, value@)->0);
    true
}

/// Reads the file of a managed entry.
pub fn parse_host_entry(path: &str, content: &str) -> (r: Result<HostEntry, ConfigError>)
    ensures
        parsed(r) == parse_block(path@, content@, true),
{
    parse_directive_block(path, content, true)
}

/// Reads the body of a `Match` block.
pub fn parse_match_entry(path: &str, content: &str) -> (r: Result<HostEntry, ConfigError>)
    ensures
        parsed(r) == parse_block(path@, content@, false),
{
    parse_directive_block(path, content, false)
}

fn parse_directive_block(path: &str, content: &str, require_host_header: bool) -> (r: Result<
    HostEntry,
    ConfigError,
>)
    ensures
        parsed(r) == parse_block(path@, content@, require_host_header),
{
    let mut entry: HostEntry = HostEntry::default();
    let mut saw_host: bool = false;
    let all: Vec<String> = split_lines(content);
    let ghost ls = strs(all@);
    let ghost whole = parse_lines(
        path@,
        require_host_header,
        ParseView { entry: empty_host(), saw_host: false },
        ls,
    );
    let mut i: usize = 0;
    while i < all.len()
        invariant
            i <= all@.len(),
            whole == parse_lines(
                path@,
                require_host_header,
                ParseView { entry: entry@, saw_host },
                ls.skip(i as int),
            ),
        decreases all@.len() - i,
    {
        let ghost st = ParseView { entry: entry@, saw_host };
        let ghost left = ls.skip(i as int);
        assert(left[0] == all@[i as int]@);
        let line: String = trimmed(&all[i]);
        i += 1;
        if line.as_str().is_empty() || line_is_comment(&line) {
            continue;
        }
        match split_key_value(&line) {
            None => {
                return Err(ConfigError::new(concat2("invalid directive in ", path)));
            },
            Some((key, value)) => {
                if equal_ignoring_case(&key, "Host") {
                    if !require_host_header {
                        return Err(
                            ConfigError::new(
                                concat2("unexpected `Host` directive in Match block: ", path),
                            ),
                        );
                    }
                    if saw_host {
                        return Err(
                            ConfigError::new(
                                concat2(
                                    "multiple `Host` blocks in one managed file are not supported: ",
                                    path,
                                ),
                            ),
                        );
                    }
                    let patterns: Vec<String> = split_words(&value);
                    assert(strs(patterns@).len() == patterns@.len());
                    if patterns.len() == 0 {
                        return Err(ConfigError::new(concat2("`Host` directive is empty in ", path)));
                    }
                    entry.host_patterns = patterns;
                    saw_host = true;
                    assert(entry@ =~= HostView { host_patterns: words(value@), ..st.entry });
                    continue;
                }
                if require_host_header && !saw_host {
                    return Err(
                        ConfigError::new(
                            concat2(
                                "expected `Host` as the first directive in managed file: ",
                                path,
                            ),
                        ),
                    );
                }
                if !add_directive(&mut entry, &key, &value) {
                    return Err(
                        ConfigError::caused(
                            concat4("invalid `Port` value `", &value, "` in ", path),
                            number_fault_text(&value, 65535),
                        ),
                    );
                }
            },
        }
    }
    if require_host_header && !saw_host {
        return Err(ConfigError::new(concat2("no `Host` block found in ", path)));
    }
    Ok(entry)
}

} // verus!
