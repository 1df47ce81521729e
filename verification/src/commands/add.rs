//! New entries.

#![verifier::loop_isolation(false)]

use vstd::prelude::*;

use crate::address::{IpAddr, ip_of};
use crate::commands::cli::AddArgs;
use crate::commands::prompt::{
    answer_or, bad_port, display_list, display_or_empty, display_port, display_repeatable_values,
    display_template, items_of, optional_answer, port_answer, shown_list, shown_or_empty,
    shown_template, split_multi_value, template_choices, template_names,
};
use crate::config::model::{
    HostEntry, HostView, ManagedEntry, ManagedView, is_wild, pattern_is_wild,
};
use crate::config::render::port_text;
use crate::config::store::{
    find_host_index, managed, order_after, order_is_taken, order_taken, save_entry, saved,
    until_host,
};
use crate::config::template::{
    TemplateKind, apply_template, kind_named, parse_cli_name, with_template,
};
use crate::config::validate::{is_port, issues_of, validate_entry};
use crate::error::ConfigError;
use crate::strings::{
    concat2, concat3, copy_opt, copy_strs, decimal_text, equal_ignoring_case, halves_at, has_char,
    trimmed,
};
use crate::text::{
    blank, decimal, join, number, opt, pairs, parse_unsigned, same_ignoring_case, split_once, strs,
    trim, views,
};

verus! {

broadcast use crate::text::group_text;

// ---------------------------------------------------------------------------
// Further directives
// ---------------------------------------------------------------------------

/// What stands on both sides of the first `=` of an item, or why nothing does.
pub open spec fn extra_of(item: Seq<char>) -> Result<(Seq<char>, Seq<char>), Seq<char>> {
    match split_once(item, '=') {
        None => Err("invalid --extra `"@ + item + "`, expected KEY=VALUE"@),
        Some((key, value)) => if blank(key) || blank(value) {
            Err("invalid --extra `"@ + item + "`, expected non-empty KEY=VALUE"@)
        } else {
            Ok((trim(key), trim(value)))
        },
    }
}

/// The directives that the items name, behind `acc`, or the first refusal.
pub open spec fn extras_from(
    items: Seq<Seq<char>>,
    acc: Seq<(Seq<char>, Seq<char>)>,
) -> Result<Seq<(Seq<char>, Seq<char>)>, Seq<char>>
    decreases items.len(),
{
    if items.len() == 0 {
        Ok(acc)
    } else {
        match extra_of(items[0]) {
            Err(e) => Err(e),
            Ok(d) => extras_from(items.skip(1), acc.push(d)),
        }
    }
}

pub open spec fn extras_of(items: Seq<Seq<char>>) -> Result<
    Seq<(Seq<char>, Seq<char>)>,
    Seq<char>,
> {
    extras_from(items, Seq::empty())
}

pub fn parse_extras(items: &Vec<String>) -> (r: Result<Vec<(String, String)>, ConfigError>)
    ensures
        extras_of(strs(items@)) == (match r {
            Ok(v) => Ok(pairs(v@)),
            Err(e) => Err(e@),
        }),
{
    let ghost all = strs(items@);
    let mut out: Vec<(String, String)> = Vec::new();
    let mut i: usize = 0;
    while i < items.len()
        invariant
            i <= items@.len(),
            all == strs(items@),
            extras_of(all) == extras_from(all.skip(i as int), pairs(out@)),
        decreases items@.len() - i,
    {
        assert(all.skip(i as int)[0] == items@[i as int]@);
        match halves_at(&items[i], '=') {
            None => {
                return Err(
                    ConfigError::new(
                        concat3("invalid --extra `", &items[i], "`, expected KEY=VALUE"),
                    ),
                );
            },
            Some((key, value)) => {
                let k: String = trimmed(&key);
                let v: String = trimmed(&value);
                if k.as_str().is_empty() || v.as_str().is_empty() {
                    return Err(
                        ConfigError::new(
                            concat3(
                                "invalid --extra `",
                                &items[i],
                                "`, expected non-empty KEY=VALUE",
                            ),
                        ),
                    );
                }
                out.push((k, v));
            },
        }
        i += 1;
    }
    Ok(out)
}

// ---------------------------------------------------------------------------
// The entry of a request
// ---------------------------------------------------------------------------

pub open spec fn templated(e: HostView, t: Option<TemplateKind>) -> HostView {
    match t {
        Some(k) => with_template(e, k),
        None => e,
    }
}

/// The entry that a request describes, apart from further directives.
pub open spec fn entry_of_args(args: AddArgs, extras: Seq<(Seq<char>, Seq<char>)>) -> HostView {
    HostView {
        host_patterns: seq![args.host@],
        hostname: opt(args.hostname),
        user: opt(args.user),
        port: args.port,
        proxy_jump: opt(args.proxy_jump),
        identity_files: strs(args.identity_files@),
        local_forwards: strs(args.local_forwards@),
        remote_forwards: strs(args.remote_forwards@),
        strict_host_key_checking: opt(args.strict_host_key_checking),
        user_known_hosts_file: opt(args.user_known_hosts_file),
        host_key_algorithms: opt(args.host_key_algorithms),
        pubkey_accepted_algorithms: opt(args.pubkey_accepted_algorithms),
        forward_agent: opt(args.forward_agent),
        tag: opt(args.ssh_tag),
        extra_options: extras,
    }
}

/// Why a request is refused before an order is given out, if it is.
pub open spec fn creation_refusal(es: Seq<ManagedView>, args: AddArgs) -> Option<Seq<char>> {
    match extras_of(strs(args.extras@)) {
        Err(e) => Some(e),
        Ok(extras) => {
            let entry = templated(entry_of_args(args, extras), args.template);
            if issues_of(entry).len() > 0 {
                Some(join(issues_of(entry), "; "@))
            } else if until_host(es, entry.primary()) < es.len() {
                Some("managed entry `"@ + entry.primary() + "` already exists"@)
            } else if args.order matches Some(n) && order_taken(es, n, None) {
                Some("order `"@ + decimal(args.order->0 as nat) + "` is already in use"@)
            } else {
                None
            }
        },
    }
}

/// What is written for a request, or why nothing is.
pub open spec fn created(
    es: Seq<ManagedView>,
    files: Seq<Seq<char>>,
    dir: Seq<char>,
    args: AddArgs,
    newline: Seq<char>,
    windows: bool,
) -> Result<ManagedView, Seq<char>> {
    match creation_refusal(es, args) {
        Some(e) => Err(e),
        None => {
            let extras = extras_of(strs(args.extras@))->Ok_0;
            let entry = templated(entry_of_args(args, extras), args.template);
            match saved(es, files, dir, entry, args.order, newline, windows) {
                Ok(m) => Ok(m),
                Err(e) => Err("failed to save managed SSH entry"@ + ": "@ + e),
            }
        },
    }
}

/// The entry that a request describes, unless the request is refused before an order is given out.
pub fn check_creation(existing: &[ManagedEntry], args: &AddArgs) -> (r: Result<
    HostEntry,
    ConfigError,
>)
    ensures
        match r {
            Ok(e) => creation_refusal(views(existing@), *args) is None && e@ == templated(
                entry_of_args(*args, extras_of(strs(args.extras@))->Ok_0),
                args.template,
            ),
            Err(e) => creation_refusal(views(existing@), *args) == Some(e@),
        },
{
    let extra_options: Vec<(String, String)> = match parse_extras(&args.extras) {
        Ok(v) => v,
        Err(e) => {
            return Err(e);
        },
    };
    let ghost extras = pairs(extra_options@);
    let host_patterns: Vec<String> = vec![args.host.clone()];
    assert(strs(host_patterns@) =~= seq![args.host@]);
    let mut entry = HostEntry {
        host_patterns,
        hostname: copy_opt(&args.hostname),
        user: copy_opt(&args.user),
        port: args.port,
        proxy_jump: copy_opt(&args.proxy_jump),
        identity_files: copy_strs(&args.identity_files),
        local_forwards: copy_strs(&args.local_forwards),
        remote_forwards: copy_strs(&args.remote_forwards),
        strict_host_key_checking: copy_opt(&args.strict_host_key_checking),
        user_known_hosts_file: copy_opt(&args.user_known_hosts_file),
        host_key_algorithms: copy_opt(&args.host_key_algorithms),
        pubkey_accepted_algorithms: copy_opt(&args.pubkey_accepted_algorithms),
        forward_agent: copy_opt(&args.forward_agent),
        tag: copy_opt(&args.ssh_tag),
        extra_options,
    };
    assert(entry@ =~= entry_of_args(*args, extras));
    match args.template {
        Some(k) => {
            apply_template(&mut entry, k);
        },
        None => {},
    }
    match validate_entry(&entry) {
        Ok(_) => {},
        Err(e) => {
            return Err(e);
        },
    }
    if find_host_index(existing, entry.primary_pattern()).is_some() {
        return Err(
            ConfigError::new(
                concat3("managed entry `", entry.primary_pattern(), "` already exists"),
            ),
        );
    }
    match args.order {
        Some(n) => {
            if order_is_taken(existing, n, None) {
                return Err(
                    ConfigError::new(
                        concat3("order `", &decimal_text(n as usize), "` is already in use"),
                    ),
                );
            }
        },
        None => {},
    }
    Ok(entry)
}

/// What is to be written for a request. `files` are the files that exist in the directory. Where
/// the request is not refused and asks for no order, one must be left behind the last entry.
pub fn create_managed_entry(
    existing: &[ManagedEntry],
    files: &Vec<String>,
    config_d_dir: &str,
    args: &AddArgs,
    newline: &str,
    windows: bool,
) -> (r: Result<ManagedEntry, ConfigError>)
    requires
        creation_refusal(views(existing@), *args) is None && args.order is None ==> order_after(
            views(existing@),
        ) <= 65535,
    ensures
        managed(r) == created(views(existing@), strs(files@), config_d_dir@, *args, newline@, windows),
{
    let entry: HostEntry = match check_creation(existing, args) {
        Ok(e) => e,
        Err(e) => {
            return Err(e);
        },
    };
    match save_entry(existing, files, config_d_dir, &entry, args.order, newline, windows) {
        Ok(m) => Ok(m),
        Err(e) => Err(
            ConfigError::caused("failed to save managed SSH entry".to_string(), e.text()),
        ),
    }
}

// ---------------------------------------------------------------------------
// Completing a request
// ---------------------------------------------------------------------------

/// A text that names a machine rather than an alias.
pub open spec fn is_host_target(value: Seq<char>) -> bool {
    ip_of(value) is Some || value.contains('.') || value.contains(':')
}

pub fn looks_like_pattern(host: &str) -> (r: bool)
    ensures
        r == is_wild(host@),
{
    pattern_is_wild(host)
}

pub fn looks_like_ip_address(value: &str) -> (r: bool)
    ensures
        r == (ip_of(value@) is Some),
{
    IpAddr::parse(value).is_some()
}

pub fn looks_like_host_target(value: &str) -> (r: bool)
    ensures
        r == is_host_target(value@),
{
    looks_like_ip_address(value) || has_char(value, '.') || has_char(value, ':')
}

/// Takes the host for the address where it names a machine.
pub fn apply_smart_defaults(args: &mut AddArgs)
    ensures
        opt(final(args).hostname) == (if old(args).hostname is None && is_host_target(
            old(args).host@,
        ) {
            Some(old(args).host@)
        } else {
            opt(old(args).hostname)
        }),
        *final(args) == (AddArgs { hostname: final(args).hostname, ..*old(args) }),
{
    if args.hostname.is_none() && looks_like_host_target(&args.host) {
        args.hostname = Some(args.host.clone());
    }
}

/// The request does not say enough.
pub open spec fn lacks_hostname(args: AddArgs) -> bool {
    !is_wild(args.host@) && (args.hostname is None || args.hostname->0@.len() == 0)
}

pub fn requires_interactive_completion(args: &AddArgs) -> (r: bool)
    ensures
        r == lacks_hostname(*args),
{
    let empty: bool = match &args.hostname {
        Some(h) => h.as_str().is_empty(),
        None => true,
    };
    !looks_like_pattern(&args.host) && empty
}

pub fn should_complete_interactively(args: &AddArgs, terminal: bool) -> (r: bool)
    ensures
        r == (terminal && (args.interactive || lacks_hostname(*args))),
{
    terminal && (args.interactive || requires_interactive_completion(args))
}

/// The questions, in the order in which they are asked.
#[derive(Debug, Clone, Copy, PartialEq, Eq, Structural)]
pub enum AddPrompt {
    HostName,
    User,
    Port,
    ProxyJump,
    Template,
    SshTag,
    Note,
    Tags,
}

pub open spec fn all_prompts() -> Seq<AddPrompt> {
    seq![
        AddPrompt::HostName,
        AddPrompt::User,
        AddPrompt::Port,
        AddPrompt::ProxyJump,
        AddPrompt::Template,
        AddPrompt::SshTag,
        AddPrompt::Note,
        AddPrompt::Tags,
    ]
}

/// The request leaves the question open.
pub open spec fn is_open(args: AddArgs, p: AddPrompt) -> bool {
    match p {
        AddPrompt::HostName => args.hostname is None && !is_wild(args.host@),
        AddPrompt::User => args.user is None,
        AddPrompt::Port => args.port is None,
        AddPrompt::ProxyJump => args.proxy_jump is None,
        AddPrompt::Template => args.template is None,
        AddPrompt::SshTag => args.ssh_tag is None,
        AddPrompt::Note => args.note is None,
        AddPrompt::Tags => args.tags@.len() == 0,
    }
}

/// The first open question from index `from` on: all of them where there is none.
pub open spec fn next_open(args: AddArgs, from: nat) -> nat
    decreases 8 - from,
{
    if from >= 8 || is_open(args, all_prompts()[from as int]) {
        from
    } else {
        next_open(args, from + 1)
    }
}

fn prompt_at(i: usize) -> (r: AddPrompt)
    requires
        i < 8,
    ensures
        r == all_prompts()[i as int],
{
    if i == 0 {
        AddPrompt::HostName
    } else if i == 1 {
        AddPrompt::User
    } else if i == 2 {
        AddPrompt::Port
    } else if i == 3 {
        AddPrompt::ProxyJump
    } else if i == 4 {
        AddPrompt::Template
    } else if i == 5 {
        AddPrompt::SshTag
    } else if i == 6 {
        AddPrompt::Note
    } else {
        AddPrompt::Tags
    }
}

fn prompt_is_open(args: &AddArgs, p: AddPrompt) -> (r: bool)
    ensures
        r == is_open(*args, p),
{
    match p {
        AddPrompt::HostName => args.hostname.is_none() && !looks_like_pattern(&args.host),
        AddPrompt::User => args.user.is_none(),
        AddPrompt::Port => args.port.is_none(),
        AddPrompt::ProxyJump => args.proxy_jump.is_none(),
        AddPrompt::Template => args.template.is_none(),
        AddPrompt::SshTag => args.ssh_tag.is_none(),
        AddPrompt::Note => args.note.is_none(),
        AddPrompt::Tags => args.tags.len() == 0,
    }
}

/// The next question that the request leaves open, and its index, from the question of index
/// `from` on.
pub fn next_prompt(args: &AddArgs, from: usize) -> (r: Option<(usize, AddPrompt)>)
    ensures
        match r {
            Some((i, p)) => i == next_open(*args, from as nat) && i < 8 && p
                == all_prompts()[i as int],
            None => next_open(*args, from as nat) >= 8,
        },
{
    let mut i: usize = from;
    while i < 8
        invariant
            from <= i,
            next_open(*args, from as nat) == next_open(*args, i as nat),
        decreases 8 - i,
    {
        let p: AddPrompt = prompt_at(i);
        if prompt_is_open(args, p) {
            return Some((i, p));
        }
        i += 1;
    }
    None
}

/// The words of a question, and what stands in for a blank answer.
pub open spec fn question_of(args: AddArgs, p: AddPrompt) -> (Seq<char>, Option<Seq<char>>) {
    match p {
        AddPrompt::HostName => (
            "HostName"@,
            if is_host_target(args.host@) {
                Some(args.host@)
            } else {
                None
            },
        ),
        AddPrompt::User => ("User (opt.)"@, None),
        AddPrompt::Port => ("Port (opt.)"@, None),
        AddPrompt::ProxyJump => ("ProxyJump (opt.)"@, None),
        AddPrompt::Template => ("Template (opt.: "@ + template_names() + ")"@, Some("none"@)),
        AddPrompt::SshTag => ("SSH Tag (opt.)"@, None),
        AddPrompt::Note => ("Note (opt.)"@, None),
        AddPrompt::Tags => ("Tags (opt., comma-separated)"@, None),
    }
}

pub fn prompt_question(args: &AddArgs, p: AddPrompt) -> (r: (String, Option<String>))
    ensures
        (r.0@, opt(r.1)) == question_of(*args, p),
{
    match p {
        AddPrompt::HostName => {
            let default: Option<String> = if looks_like_host_target(&args.host) {
                Some(args.host.clone())
            } else {
                None
            };
            ("HostName".to_owned(), default)
        },
        AddPrompt::User => ("User (opt.)".to_owned(), None),
        AddPrompt::Port => ("Port (opt.)".to_owned(), None),
        AddPrompt::ProxyJump => ("ProxyJump (opt.)".to_owned(), None),
        AddPrompt::Template => (
            concat3("Template (opt.: ", &template_choices(), ")"),
            Some("none".to_owned()),
        ),
        AddPrompt::SshTag => ("SSH Tag (opt.)".to_owned(), None),
        AddPrompt::Note => ("Note (opt.)".to_owned(), None),
        AddPrompt::Tags => ("Tags (opt., comma-separated)".to_owned(), None),
    }
}

/// What is said where an answer cannot be taken and the question is asked again.
pub open spec fn answer_refusal(args: AddArgs, p: AddPrompt, input: Seq<char>) -> Option<Seq<char>> {
    match (p, answer_or(input, question_of(args, p).1)) {
        (AddPrompt::Port, Some(v)) => if is_port(v) {
            None
        } else {
            Some(bad_port())
        },
        (AddPrompt::Template, Some(v)) => if same_ignoring_case(v, "none"@) || kind_named(
            v,
        ) is Some {
            None
        } else {
            Some("! Unknown template `"@ + v + "`"@)
        },
        _ => None,
    }
}

pub open spec fn template_answer(v: Option<Seq<char>>) -> Option<TemplateKind> {
    match v {
        Some(t) => if same_ignoring_case(t, "none"@) {
            None
        } else {
            kind_named(t)
        },
        None => None,
    }
}

/// `after` is `args` with the answer taken, which says `v`.
pub open spec fn answered(args: AddArgs, p: AddPrompt, v: Option<Seq<char>>, after: AddArgs) -> bool {
    match p {
        AddPrompt::HostName => opt(after.hostname) == v && after == (AddArgs {
            hostname: after.hostname,
            ..args
        }),
        AddPrompt::User => opt(after.user) == v && after == (AddArgs { user: after.user, ..args }),
        AddPrompt::Port => after.port == (match v {
            Some(t) => Some(parse_unsigned(t, 65535)->0 as u16),
            None => None,
        }) && after == (AddArgs { port: after.port, ..args }),
        AddPrompt::ProxyJump => opt(after.proxy_jump) == v && after == (AddArgs {
            proxy_jump: after.proxy_jump,
            ..args
        }),
        AddPrompt::Template => after.template == template_answer(v) && after == (AddArgs {
            template: after.template,
            ..args
        }),
        AddPrompt::SshTag => opt(after.ssh_tag) == v && after == (AddArgs {
            ssh_tag: after.ssh_tag,
            ..args
        }),
        AddPrompt::Note => opt(after.note) == v && after == (AddArgs { note: after.note, ..args }),
        AddPrompt::Tags => strs(after.tags@) == (match v {
            Some(t) => items_of(t),
            None => Seq::empty(),
        }) && after == (AddArgs { tags: after.tags, ..args }),
    }
}

/// Takes an answer, or gives back what to say before the question is asked again.
pub fn take_answer(args: &mut AddArgs, p: AddPrompt, input: &str) -> (r: Option<String>)
    ensures
        opt(r) == answer_refusal(*old(args), p, input@),
        r is Some ==> *final(args) == *old(args),
        r is None ==> answered(
            *old(args),
            p,
            answer_or(input@, question_of(*old(args), p).1),
            *final(args),
        ),
{
    let (_, default) = prompt_question(args, p);
    let value: Option<String> = optional_answer(
        input,
        match &default {
            Some(d) => Some(d.as_str()),
            None => None,
        },
    );
    match p {
        AddPrompt::HostName => {
            args.hostname = value;
        },
        AddPrompt::User => {
            args.user = value;
        },
        AddPrompt::Port => match &value {
            Some(v) => match port_answer(v) {
                Some(n) => {
                    args.port = Some(n);
                },
                None => {
                    return Some("! Port must be a number between 1 and 65535".to_owned());
                },
            },
            None => {
                args.port = None;
            },
        },
        AddPrompt::ProxyJump => {
            args.proxy_jump = value;
        },
        AddPrompt::Template => match &value {
            Some(v) => {
                if equal_ignoring_case(v, "none") {
                    args.template = None;
                } else {
                    match parse_cli_name(v) {
                        Some(k) => {
                            args.template = Some(k);
                        },
                        None => {
                            return Some(concat3("! Unknown template `", v, "`"));
                        },
                    }
                }
            },
            None => {
                args.template = None;
            },
        },
        AddPrompt::SshTag => {
            args.ssh_tag = value;
        },
        AddPrompt::Note => {
            args.note = value;
        },
        AddPrompt::Tags => {
            args.tags = match &value {
                Some(v) => split_multi_value(v),
                None => Vec::new(),
            };
        },
    }
    None
}

/// What the completed request says, line by line.
pub open spec fn add_summary(args: AddArgs) -> Seq<Seq<char>> {
    seq![
        "Host: "@ + args.host@,
        "HostName: "@ + shown_or_empty(opt(args.hostname)),
        "User: "@ + shown_or_empty(opt(args.user)),
        "Port: "@ + shown_or_empty(port_text(args.port)),
        "ProxyJump: "@ + shown_or_empty(opt(args.proxy_jump)),
        "LocalForward(s): "@ + shown_list(strs(args.local_forwards@), " | "@),
        "RemoteForward(s): "@ + shown_list(strs(args.remote_forwards@), " | "@),
        "Template: "@ + shown_template(args.template),
        "SSH Tag: "@ + shown_or_empty(opt(args.ssh_tag)),
        "Tags: "@ + shown_list(strs(args.tags@), ","@),
        "Note: "@ + shown_or_empty(opt(args.note)),
    ]
}

pub fn summary_lines(args: &AddArgs) -> (r: Vec<String>)
    ensures
        strs(r@) == add_summary(*args),
{
    let r: Vec<String> = vec![
        concat2("Host: ", &args.host),
        concat2("HostName: ", &display_or_empty(&args.hostname)),
        concat2("User: ", &display_or_empty(&args.user)),
        concat2("Port: ", &display_port(args.port)),
        concat2("ProxyJump: ", &display_or_empty(&args.proxy_jump)),
        concat2("LocalForward(s): ", &display_repeatable_values(&args.local_forwards)),
        concat2("RemoteForward(s): ", &display_repeatable_values(&args.remote_forwards)),
        concat2("Template: ", display_template(args.template)),
        concat2("SSH Tag: ", &display_or_empty(&args.ssh_tag)),
        concat2("Tags: ", &display_list(&args.tags, ",")),
        concat2("Note: ", &display_or_empty(&args.note)),
    ];
    assert(strs(r@) =~= add_summary(*args));
    r
}

} // verus!
