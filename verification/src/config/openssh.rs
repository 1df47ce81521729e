//! What the OpenSSH client prints.

#![verifier::loop_isolation(false)]

use vstd::prelude::*;

use crate::error::ConfigError;
use crate::strings::{
    concat2, concat3, copy_opt, decimal_text, is_blank, lowered, same, split_at_any,
    split_key_value, split_lines, stripped_end, trimmed,
};
use crate::text::{
    blank, decimal, key_value, lines, lower, opt, pairs, split, strip_end, strs, trim, without,
};

verus! {

broadcast use crate::text::group_text;

/// Whether there is an OpenSSH client, and which.
#[derive(Debug, PartialEq, Eq)]
pub struct OpenSshProbe {
    pub version: Option<String>,
    pub error: Option<String>,
}

impl Clone for OpenSshProbe {
    fn clone(&self) -> (r: OpenSshProbe)
        ensures
            opt(r.version) == opt(self.version),
            opt(r.error) == opt(self.error),
    {
        OpenSshProbe { version: copy_opt(&self.version), error: copy_opt(&self.error) }
    }
}

impl OpenSshProbe {
    /// What asking for the version came to.
    pub fn discover(version: Result<String, ConfigError>) -> (r: OpenSshProbe)
        ensures
            match version {
                Ok(v) => opt(r.version) == Some(v@) && r.error is None,
                Err(e) => r.version is None && opt(r.error) == Some(e.message@),
            },
    {
        match version {
            Ok(v) => OpenSshProbe { version: Some(v), error: None },
            Err(e) => OpenSshProbe { version: None, error: Some(e.message) },
        }
    }

    pub fn available(&self) -> (r: bool)
        ensures
            r == (self.error is None && self.version is Some),
    {
        self.error.is_none() && self.version.is_some()
    }
}

/// The options that the client would use for a target; an option may have several values.
#[derive(Debug, PartialEq, Eq)]
pub struct SshResolvedConfig {
    options: Vec<(String, String)>,
}

impl View for SshResolvedConfig {
    type V = Seq<(Seq<char>, Seq<char>)>;

    /// The names, in small letters, and values in the order in which the client printed them.
    closed spec fn view(&self) -> Seq<(Seq<char>, Seq<char>)> {
        pairs(self.options@)
    }
}

/// The values of an option, in order.
pub open spec fn values_of(options: Seq<(Seq<char>, Seq<char>)>, key: Seq<char>) -> Seq<Seq<char>>
    decreases options.len(),
{
    if options.len() == 0 {
        Seq::empty()
    } else {
        let before = values_of(options.drop_last(), key);
        if options.last().0 == key {
            before.push(options.last().1)
        } else {
            before
        }
    }
}

/// What `ssh -G` printed, read up to the line before `ls`; `acc` was read before.
pub open spec fn read_options(ls: Seq<Seq<char>>, acc: Seq<(Seq<char>, Seq<char>)>) -> Result<
    Seq<(Seq<char>, Seq<char>)>,
    Seq<char>,
>
    decreases ls.len(),
{
    if ls.len() == 0 {
        Ok(acc)
    } else {
        let line = trim(ls[0]);
        if line.len() == 0 {
            read_options(ls.skip(1), acc)
        } else {
            match key_value(line) {
                None => Err("invalid `ssh -G` output line `"@ + line + "`"@),
                Some((key, value)) => read_options(ls.skip(1), acc.push((lower(key), value))),
            }
        }
    }
}

/// The options that `ssh -G` printed, or why they cannot be read.
pub open spec fn options_of(stdout: Seq<char>) -> Result<Seq<(Seq<char>, Seq<char>)>, Seq<char>> {
    match read_options(lines(stdout), Seq::empty()) {
        Err(e) => Err(e),
        Ok(options) => if options.len() == 0 {
            Err("`ssh -G` produced no config output"@)
        } else {
            Ok(options)
        },
    }
}

/// A result by what it holds.
pub open spec fn options_result(r: Result<SshResolvedConfig, ConfigError>) -> Result<
    Seq<(Seq<char>, Seq<char>)>,
    Seq<char>,
> {
    match r {
        Ok(c) => Ok(c@),
        Err(e) => Err(e@),
    }
}

impl SshResolvedConfig {
    /// The first value of an option.
    pub fn get_first(&self, key: &str) -> (r: Option<&str>)
        ensures
            match r {
                Some(v) => values_of(self@, lower(key@)).len() > 0 && v@ == values_of(
                    self@,
                    lower(key@),
                )[0],
                None => values_of(self@, lower(key@)).len() == 0,
            },
    {
        let k: String = lowered(key);
        let ghost all = pairs(self.options@);
        let mut i: usize = 0;
        while i < self.options.len()
            invariant
                i <= self.options@.len(),
                all == pairs(self.options@),
                values_of(all.take(i as int), k@).len() == 0,
            decreases self.options@.len() - i,
        {
            if same(&self.options[i].0, &k) {
                proof {
                    lemma_values_grow(all, i + 1, k@);
                }
                return Some(self.options[i].1.as_str());
            }
            i += 1;
        }
        None
    }

    /// All values of an option.
    pub fn get_all(&self, key: &str) -> (r: Option<Vec<String>>)
        ensures
            match r {
                Some(v) => v@.len() > 0 && strs(v@) == values_of(self@, lower(key@)),
                None => values_of(self@, lower(key@)).len() == 0,
            },
    {
        let k: String = lowered(key);
        let ghost all = pairs(self.options@);
        let mut out: Vec<String> = Vec::new();
        let mut i: usize = 0;
        while i < self.options.len()
            invariant
                i <= self.options@.len(),
                all == pairs(self.options@),
                strs(out@) == values_of(all.take(i as int), k@),
            decreases self.options@.len() - i,
        {
            if same(&self.options[i].0, &k) {
                out.push(self.options[i].1.clone());
            }
            i += 1;
        }
        assert(strs(out@).len() == out@.len());
        if out.len() == 0 {
            None
        } else {
            Some(out)
        }
    }
}

proof fn lemma_values_grow(options: Seq<(Seq<char>, Seq<char>)>, i: int, key: Seq<char>)
    requires
        0 <= i <= options.len(),
        values_of(options.take(i), key).len() > 0,
    ensures
        values_of(options, key).len() > 0,
        values_of(options, key)[0] == values_of(options.take(i), key)[0],
    decreases options.len() - i,
{
    if i < options.len() {
        lemma_values_grow(options, i + 1, key);
    }
}

pub fn parse_ssh_g_output(stdout: &str) -> (r: Result<SshResolvedConfig, ConfigError>)
    ensures
        options_result(r) == options_of(stdout@),
{
    let all: Vec<String> = split_lines(stdout);
    let ghost ls = strs(all@);
    let mut options: Vec<(String, String)> = Vec::new();
    let mut i: usize = 0;
    while i < all.len()
        invariant
            i <= all@.len(),
            ls == strs(all@),
            read_options(ls, Seq::empty()) == read_options(ls.skip(i as int), pairs(options@)),
        decreases all@.len() - i,
    {
        assert(ls.skip(i as int)[0] == all@[i as int]@);
        let line: String = trimmed(&all[i]);
        i += 1;
        if line.as_str().is_empty() {
            continue;
        }
        match split_key_value(&line) {
            None => {
                return Err(
                    ConfigError::new(concat3("invalid `ssh -G` output line `", &line, "`")),
                );
            },
            Some((key, value)) => {
                options.push((lowered(&key), value));
            },
        }
    }
    assert(pairs(options@).len() == options@.len());
    if options.len() == 0 {
        return Err(ConfigError::of("`ssh -G` produced no config output"));
    }
    Ok(SshResolvedConfig { options })
}

/// The first line that is not blank, without white space at its ends.
pub open spec fn first_line(ls: Seq<Seq<char>>) -> Option<Seq<char>>
    decreases ls.len(),
{
    if ls.len() == 0 {
        None
    } else if blank(ls[0]) {
        first_line(ls.skip(1))
    } else {
        Some(trim(ls[0]))
    }
}

fn first_non_empty_line(text: &str) -> (r: Option<String>)
    ensures
        opt(r) == first_line(lines(text@)),
{
    let all: Vec<String> = split_lines(text);
    let ghost ls = strs(all@);
    let mut i: usize = 0;
    while i < all.len()
        invariant
            i <= all@.len(),
            ls == strs(all@),
            first_line(ls) == first_line(ls.skip(i as int)),
        decreases all@.len() - i,
    {
        assert(ls.skip(i as int)[0] == all@[i as int]@);
        let line: String = trimmed(&all[i]);
        if !line.as_str().is_empty() {
            return Some(line);
        }
        i += 1;
    }
    None
}

/// The line in which a program says something: the first of the second stream, else the first of
/// the first stream.
pub open spec fn said(stdout: Seq<char>, stderr: Seq<char>) -> Option<Seq<char>> {
    match first_line(lines(stderr)) {
        Some(l) => Some(l),
        None => first_line(lines(stdout)),
    }
}

fn first_said(stdout: &str, stderr: &str) -> (r: Option<String>)
    ensures
        opt(r) == said(stdout@, stderr@),
{
    match first_non_empty_line(stderr) {
        Some(l) => Some(l),
        None => first_non_empty_line(stdout),
    }
}

/// The version in what `ssh -V` printed.
pub fn parse_version_output(stdout: &str, stderr: &str) -> (r: Result<String, ConfigError>)
    ensures
        match r {
            Ok(v) => said(stdout@, stderr@) == Some(v@),
            Err(e) => said(stdout@, stderr@) is None && e@ == "`ssh -V` produced no version text"@,
        },
{
    match first_said(stdout, stderr) {
        Some(l) => Ok(l),
        None => Err(ConfigError::of("`ssh -V` produced no version text")),
    }
}

pub open spec fn signed_decimal(n: int) -> Seq<char> {
    if n < 0 {
        "-"@ + decimal((-n) as nat)
    } else {
        decimal(n as nat)
    }
}

/// Why a program failed, in its own words where it said any.
pub fn command_message(stdout: &str, stderr: &str, code: Option<i32>) -> (r: String)
    ensures
        r@ == (match said(stdout@, stderr@) {
            Some(l) => l,
            None => match code {
                Some(c) => "process exited with status code "@ + signed_decimal(c as int),
                None => "process terminated without an exit code"@,
            },
        }),
{
    match first_said(stdout, stderr) {
        Some(l) => l,
        None => match code {
            Some(c) => {
                if c < 0 {
                    let n: usize = (-(c as i64)) as usize;
                    let t: String = concat2("-", &decimal_text(n));
                    concat2("process exited with status code ", &t)
                } else {
                    concat2("process exited with status code ", &decimal_text(c as usize))
                }
            },
            None => "process terminated without an exit code".to_owned(),
        },
    }
}

/// The first part of a row that is not blank.
pub open spec fn first_part(parts: Seq<Seq<char>>) -> Option<Seq<char>>
    decreases parts.len(),
{
    if parts.len() == 0 {
        None
    } else if blank(parts[0]) {
        first_part(parts.skip(1))
    } else {
        Some(parts[0])
    }
}

/// The name of the version alone.
pub open spec fn version_token(raw: Seq<char>) -> Option<Seq<char>> {
    match first_part(split(trim(raw), " \t,"@)) {
        None => None,
        Some(part) => {
            let token = strip_end(part, ","@);
            if token.len() == 0 {
                None
            } else {
                Some(token)
            }
        },
    }
}

pub fn normalize_match_version_string(raw: &str) -> (r: Option<String>)
    ensures
        opt(r) == version_token(raw@),
{
    let parts: Vec<String> = split_at_any(&trimmed(raw), " \t,");
    let ghost all = strs(parts@);
    let mut i: usize = 0;
    while i < parts.len()
        invariant
            i <= parts@.len(),
            all == strs(parts@),
            first_part(all) == first_part(all.skip(i as int)),
        decreases parts@.len() - i,
    {
        assert(all.skip(i as int)[0] == parts@[i as int]@);
        if !is_blank(&parts[i]) {
            let token: String = stripped_end(&parts[i], ",");
            if token.as_str().is_empty() {
                return None;
            }
            return Some(token);
        }
        i += 1;
    }
    None
}

/// The version that `Match version` is held against, from what asking for it came to.
pub fn detect_match_version_string(version: Result<String, ConfigError>) -> (r: Option<String>)
    ensures
        opt(r) == (match version {
            Ok(raw) => version_token(raw@),
            Err(_) => None,
        }),
{
    match version {
        Ok(raw) => normalize_match_version_string(&raw),
        Err(_) => None,
    }
}

} // verus!
