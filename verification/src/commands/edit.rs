//! Changes to an entry.

#![verifier::loop_isolation(false)]

use vstd::prelude::*;

use crate::commands::add::{extras_of, parse_extras, templated};
use crate::commands::cli::EditArgs;
use crate::commands::prompt::{
    bad_port, display_list, display_optional, display_port, display_repeatable_values,
    display_template, items_of, port_answer, shown_list, shown_optional, shown_or_empty,
    shown_template, split_multi_value, template_choices, template_names,
};
use crate::commands::selection::opt_record;
use crate::config::model::{HostEntry, HostView, ManagedEntry, ManagedView, same_entry};
use crate::config::render::port_text;
use crate::config::state::{EntryMetadata, MetadataView, opt_opt, opt_strs};
use crate::config::store::{find_entry_by_host, managed, replace_entry, replaced, saved, until_host};
use crate::config::template::{TemplateKind, apply_template, kind_named, parse_cli_name};
use crate::config::validate::{is_port, issues_of, validate_entry};
use crate::error::ConfigError;
use crate::strings::{
    concat2, concat3, concat4, copy_opt, copy_strs, same, same_opt, same_strs, trimmed,
};
use crate::text::{join, number, opt, pairs, parse_unsigned, strs, trim, views};

verus! {

broadcast use crate::text::group_text;

// ---------------------------------------------------------------------------
// The changed entry
// ---------------------------------------------------------------------------

/// A value that is set, cleared or kept.
pub open spec fn set_or_clear<A>(slot: Option<A>, value: Option<A>, clear: bool) -> Option<A> {
    if clear {
        None
    } else {
        match value {
            Some(_) => value,
            None => slot,
        }
    }
}

/// Values that are replaced, cleared or kept.
pub open spec fn replace_or_clear<A>(slot: Seq<A>, values: Seq<A>, clear: bool) -> Seq<A> {
    if clear {
        Seq::empty()
    } else if values.len() == 0 {
        slot
    } else {
        values
    }
}

/// The refusal of a request that both sets and clears a value.
#[verifier::opaque]
pub open spec fn conflict(flag: Seq<char>, clear_flag: Seq<char>) -> Option<Seq<char>> {
    Some("cannot use --"@ + flag + " with --"@ + clear_flag)
}

#[verifier::opaque]
pub open spec fn target_conflict(a: EditArgs) -> Option<Seq<char>> {
    if a.clear_hostname && a.hostname is Some {
        conflict("hostname"@, "clear-hostname"@)
    } else if a.clear_user && a.user is Some {
        conflict("user"@, "clear-user"@)
    } else if a.clear_port && a.port is Some {
        conflict("port"@, "clear-port"@)
    } else if a.clear_proxy_jump && a.proxy_jump is Some {
        conflict("proxy-jump"@, "clear-proxy-jump"@)
    } else {
        None
    }
}

#[verifier::opaque]
pub open spec fn list_conflict(a: EditArgs) -> Option<Seq<char>> {
    if a.clear_identity_files && a.identity_files@.len() > 0 {
        conflict("identity-file"@, "clear-identity-files"@)
    } else if a.clear_local_forwards && a.local_forwards@.len() > 0 {
        conflict("local-forward"@, "clear-local-forwards"@)
    } else if a.clear_remote_forwards && a.remote_forwards@.len() > 0 {
        conflict("remote-forward"@, "clear-remote-forwards"@)
    } else {
        None
    }
}

#[verifier::opaque]
pub open spec fn option_conflict(a: EditArgs) -> Option<Seq<char>> {
    if a.clear_strict_host_key_checking && a.strict_host_key_checking is Some {
        conflict("strict-host-key-checking"@, "clear-strict-host-key-checking"@)
    } else if a.clear_user_known_hosts_file && a.user_known_hosts_file is Some {
        conflict("user-known-hosts-file"@, "clear-user-known-hosts-file"@)
    } else if a.clear_host_key_algorithms && a.host_key_algorithms is Some {
        conflict("host-key-algorithms"@, "clear-host-key-algorithms"@)
    } else if a.clear_pubkey_accepted_algorithms && a.pubkey_accepted_algorithms is Some {
        conflict("pubkey-accepted-algorithms"@, "clear-pubkey-accepted-algorithms"@)
    } else if a.clear_forward_agent && a.forward_agent is Some {
        conflict("forward-agent"@, "clear-forward-agent"@)
    } else if a.clear_ssh_tag && a.ssh_tag is Some {
        conflict("ssh-tag"@, "clear-ssh-tag"@)
    } else {
        None
    }
}

#[verifier::opaque]
pub open spec fn record_conflict(a: EditArgs) -> Option<Seq<char>> {
    if a.clear_extras && a.extras@.len() > 0 {
        conflict("extra"@, "clear-extra"@)
    } else if a.clear_tags && a.tags@.len() > 0 {
        conflict("tag"@, "clear-tags"@)
    } else if a.clear_note && a.note is Some {
        conflict("note"@, "clear-note"@)
    } else if a.clear_template && a.template is Some {
        conflict("template"@, "clear-template"@)
    } else {
        None
    }
}

/// The first flag that both sets and clears a value.
pub open spec fn edit_conflict(a: EditArgs) -> Option<Seq<char>> {
    match target_conflict(a) {
        Some(m) => Some(m),
        None => match list_conflict(a) {
            Some(m) => Some(m),
            None => match option_conflict(a) {
                Some(m) => Some(m),
                None => record_conflict(a),
            },
        },
    }
}

/// The entry with the changes of the request made, given the further directives.
pub open spec fn edited(e: HostView, a: EditArgs, extras: Seq<(Seq<char>, Seq<char>)>) -> HostView {
    templated(lists_edited(scalars_edited(e, a), a, extras), a.template)
}

/// The changes to the directives that have one value.
pub open spec fn scalars_edited(e: HostView, a: EditArgs) -> HostView {
    HostView {
        host_patterns: match a.new_host {
                Some(h) => seq![h@],
                None => e.host_patterns,
            },
        hostname: set_or_clear(e.hostname, opt(a.hostname), a.clear_hostname),
        user: set_or_clear(e.user, opt(a.user), a.clear_user),
        port: set_or_clear(e.port, a.port, a.clear_port),
        proxy_jump: set_or_clear(e.proxy_jump, opt(a.proxy_jump), a.clear_proxy_jump),
        strict_host_key_checking: set_or_clear(
                e.strict_host_key_checking,
                opt(a.strict_host_key_checking),
                a.clear_strict_host_key_checking,
            ),
        user_known_hosts_file: set_or_clear(
                e.user_known_hosts_file,
                opt(a.user_known_hosts_file),
                a.clear_user_known_hosts_file,
            ),
        host_key_algorithms: set_or_clear(
                e.host_key_algorithms,
                opt(a.host_key_algorithms),
                a.clear_host_key_algorithms,
            ),
        pubkey_accepted_algorithms: set_or_clear(
                e.pubkey_accepted_algorithms,
                opt(a.pubkey_accepted_algorithms),
                a.clear_pubkey_accepted_algorithms,
            ),
        forward_agent: set_or_clear(
                e.forward_agent,
                opt(a.forward_agent),
                a.clear_forward_agent,
            ),
        tag: set_or_clear(e.tag, opt(a.ssh_tag), a.clear_ssh_tag),
        ..e
    }
}

/// The changes to the directives that have several values.
pub open spec fn lists_edited(e: HostView, a: EditArgs, extras: Seq<(Seq<char>, Seq<char>)>) -> HostView {
    HostView {
        identity_files: replace_or_clear(
                e.identity_files,
                strs(a.identity_files@),
                a.clear_identity_files,
            ),
        local_forwards: replace_or_clear(
                e.local_forwards,
                strs(a.local_forwards@),
                a.clear_local_forwards,
            ),
        remote_forwards: replace_or_clear(
                e.remote_forwards,
                strs(a.remote_forwards@),
                a.clear_remote_forwards,
            ),
        extra_options: replace_or_clear(e.extra_options, extras, a.clear_extras),
        ..e
    }
}

/// The entry with the changes of the request made, or why they cannot be.
pub open spec fn edit_result(e: HostView, a: EditArgs) -> Result<HostView, Seq<char>> {
    match edit_conflict(a) {
        Some(m) => Err(m),
        None => match extras_of(strs(a.extras@)) {
            Err(m) => Err(m),
            Ok(extras) => Ok(edited(e, a, extras)),
        },
    }
}

fn conflict_text(flag: &str, clear_flag: &str) -> (r: Option<String>)
    ensures
        opt(r) == conflict(flag@, clear_flag@),
{
    proof {
        reveal(conflict);
    }
    Some(concat4("cannot use --", flag, " with --", clear_flag))
}

fn find_target_conflict(a: &EditArgs) -> (r: Option<String>)
    ensures
        opt(r) == target_conflict(*a),
{
    proof {
        reveal(target_conflict);
    }
    if a.clear_hostname && a.hostname.is_some() {
        conflict_text("hostname", "clear-hostname")
    } else if a.clear_user && a.user.is_some() {
        conflict_text("user", "clear-user")
    } else if a.clear_port && a.port.is_some() {
        conflict_text("port", "clear-port")
    } else if a.clear_proxy_jump && a.proxy_jump.is_some() {
        conflict_text("proxy-jump", "clear-proxy-jump")
    } else {
        None
    }
}

fn find_list_conflict(a: &EditArgs) -> (r: Option<String>)
    ensures
        opt(r) == list_conflict(*a),
{
    proof {
        reveal(list_conflict);
    }
    if a.clear_identity_files && a.identity_files.len() > 0 {
        conflict_text("identity-file", "clear-identity-files")
    } else if a.clear_local_forwards && a.local_forwards.len() > 0 {
        conflict_text("local-forward", "clear-local-forwards")
    } else if a.clear_remote_forwards && a.remote_forwards.len() > 0 {
        conflict_text("remote-forward", "clear-remote-forwards")
    } else {
        None
    }
}

fn find_option_conflict(a: &EditArgs) -> (r: Option<String>)
    ensures
        opt(r) == option_conflict(*a),
{
    proof {
        reveal(option_conflict);
    }
    if a.clear_strict_host_key_checking && a.strict_host_key_checking.is_some() {
        conflict_text("strict-host-key-checking", "clear-strict-host-key-checking")
    } else if a.clear_user_known_hosts_file && a.user_known_hosts_file.is_some() {
        conflict_text("user-known-hosts-file", "clear-user-known-hosts-file")
    } else if a.clear_host_key_algorithms && a.host_key_algorithms.is_some() {
        conflict_text("host-key-algorithms", "clear-host-key-algorithms")
    } else if a.clear_pubkey_accepted_algorithms && a.pubkey_accepted_algorithms.is_some() {
        conflict_text("pubkey-accepted-algorithms", "clear-pubkey-accepted-algorithms")
    } else if a.clear_forward_agent && a.forward_agent.is_some() {
        conflict_text("forward-agent", "clear-forward-agent")
    } else if a.clear_ssh_tag && a.ssh_tag.is_some() {
        conflict_text("ssh-tag", "clear-ssh-tag")
    } else {
        None
    }
}

fn find_record_conflict(a: &EditArgs) -> (r: Option<String>)
    ensures
        opt(r) == record_conflict(*a),
{
    proof {
        reveal(record_conflict);
    }
    if a.clear_extras && a.extras.len() > 0 {
        conflict_text("extra", "clear-extra")
    } else if a.clear_tags && a.tags.len() > 0 {
        conflict_text("tag", "clear-tags")
    } else if a.clear_note && a.note.is_some() {
        conflict_text("note", "clear-note")
    } else if a.clear_template && a.template.is_some() {
        conflict_text("template", "clear-template")
    } else {
        None
    }
}

fn find_conflict(a: &EditArgs) -> (r: Option<String>)
    ensures
        opt(r) == edit_conflict(*a),
{
    match find_target_conflict(a) {
        Some(m) => Some(m),
        None => match find_list_conflict(a) {
            Some(m) => Some(m),
            None => match find_option_conflict(a) {
                Some(m) => Some(m),
                None => find_record_conflict(a),
            },
        },
    }
}

fn apply_optional_string(slot: &mut Option<String>, value: &Option<String>, clear: bool)
    ensures
        opt(*final(slot)) == set_or_clear(opt(*old(slot)), opt(*value), clear),
{
    if clear {
        *slot = None;
    } else if value.is_some() {
        *slot = copy_opt(value);
    }
}

fn apply_vec(slot: &mut Vec<String>, values: &Vec<String>, clear: bool)
    ensures
        strs(final(slot)@) == replace_or_clear(strs(old(slot)@), strs(values@), clear),
{
    assert(strs(values@).len() == values@.len());
    if clear {
        *slot = Vec::new();
    } else if values.len() > 0 {
        *slot = copy_strs(values);
    }
}

/// A result by what it holds.
pub open spec fn host_result(r: Result<HostEntry, ConfigError>) -> Result<HostView, Seq<char>> {
    match r {
        Ok(e) => Ok(e@),
        Err(e) => Err(e@),
    }
}

/// Makes the changes to the directives that have one value.
#[verifier::spinoff_prover]
#[verifier::rlimit(40)]
fn apply_scalars(updated: &mut HostEntry, args: &EditArgs)
    ensures
        final(updated)@ == scalars_edited(old(updated)@, *args),
{
    let ghost was = updated@;
    match &args.new_host {
        Some(h) => {
            updated.host_patterns = vec![h.clone()];
            assert(strs(updated.host_patterns@) =~= seq![h@]);
        },
        None => {},
    }
    apply_optional_string(&mut updated.hostname, &args.hostname, args.clear_hostname);
    apply_optional_string(&mut updated.user, &args.user, args.clear_user);
    if args.clear_port {
        updated.port = None;
    } else if args.port.is_some() {
        updated.port = args.port;
    }
    apply_optional_string(&mut updated.proxy_jump, &args.proxy_jump, args.clear_proxy_jump);
    apply_optional_string(
        &mut updated.strict_host_key_checking,
        &args.strict_host_key_checking,
        args.clear_strict_host_key_checking,
    );
    apply_optional_string(
        &mut updated.user_known_hosts_file,
        &args.user_known_hosts_file,
        args.clear_user_known_hosts_file,
    );
    apply_optional_string(
        &mut updated.host_key_algorithms,
        &args.host_key_algorithms,
        args.clear_host_key_algorithms,
    );
    apply_optional_string(
        &mut updated.pubkey_accepted_algorithms,
        &args.pubkey_accepted_algorithms,
        args.clear_pubkey_accepted_algorithms,
    );
    apply_optional_string(&mut updated.forward_agent, &args.forward_agent, args.clear_forward_agent);
    apply_optional_string(&mut updated.tag, &args.ssh_tag, args.clear_ssh_tag);
    assert(updated@ == scalars_edited(was, *args));
}

/// Makes the changes to the directives that have several values.
fn apply_lists(updated: &mut HostEntry, args: &EditArgs, extras: Vec<(String, String)>)
    ensures
        final(updated)@ == lists_edited(old(updated)@, *args, pairs(extras@)),
{
    let ghost was = updated@;
    let ghost xs = pairs(extras@);
    apply_vec(&mut updated.identity_files, &args.identity_files, args.clear_identity_files);
    apply_vec(&mut updated.local_forwards, &args.local_forwards, args.clear_local_forwards);
    apply_vec(&mut updated.remote_forwards, &args.remote_forwards, args.clear_remote_forwards);
    assert(pairs(extras@).len() == extras@.len());
    if args.clear_extras {
        updated.extra_options = Vec::new();
    } else if extras.len() > 0 {
        updated.extra_options = extras;
    }
    assert(updated@ == lists_edited(was, *args, xs));
}

/// Makes the changes of the request, given the further directives.
fn apply_edits(current: &HostEntry, args: &EditArgs, extras: Vec<(String, String)>) -> (r: HostEntry)
    ensures
        r@ == edited(current@, *args, pairs(extras@)),
{
    let mut updated: HostEntry = current.clone();
    apply_scalars(&mut updated, args);
    apply_lists(&mut updated, args, extras);
    match args.template {
        Some(k) => {
            apply_template(&mut updated, k);
        },
        None => {},
    }
    updated
}

pub fn build_updated_entry(current: &HostEntry, args: &EditArgs) -> (r: Result<
    HostEntry,
    ConfigError,
>)
    ensures
        host_result(r) == edit_result(current@, *args),
{
    match find_conflict(args) {
        Some(m) => {
            return Err(ConfigError::new(m));
        },
        None => {},
    }
    let extras: Vec<(String, String)> = match parse_extras(&args.extras) {
        Ok(v) => v,
        Err(e) => {
            return Err(e);
        },
    };
    Ok(apply_edits(current, args, extras))
}

/// What an edit replaces, and what it writes.
#[derive(Debug)]
pub struct EditPlan {
    pub current: ManagedEntry,
    pub saved: ManagedEntry,
}

/// The request changes the template, the tags or the note of the record.
pub open spec fn changes_record(a: EditArgs) -> bool {
    new_template(a) is Some || new_tags(a) is Some || new_note(a) is Some
}

/// What an edit replaces and writes, or why it does neither. Where only the record is to change,
/// the entry stays as it is.
pub open spec fn edit_plan(
    es: Seq<ManagedView>,
    files: Seq<Seq<char>>,
    dir: Seq<char>,
    args: EditArgs,
    newline: Seq<char>,
    windows: bool,
) -> Result<(ManagedView, ManagedView), Seq<char>> {
    let n = until_host(es, args.host@);
    if n >= es.len() {
        Err("managed entry `"@ + args.host@ + "` not found"@)
    } else {
        let current = es[n as int];
        match edit_result(current.entry, args) {
            Err(e) => Err(e),
            Ok(updated) => if issues_of(updated).len() > 0 {
                Err(join(issues_of(updated), "; "@))
            } else if updated == current.entry && (args.order is None || args.order
                == Some(current.order)) {
                if changes_record(args) {
                    Ok((current, current))
                } else {
                    Err("no changes for: "@ + current.path)
                }
            } else {
                match replaced(es, files, dir, current, updated, args.order, newline, windows) {
                    Ok(m) => Ok((current, m)),
                    Err(e) => Err("failed to update managed SSH entry"@ + ": "@ + e),
                }
            },
        }
    }
}

/// What is to be written for an edit.
pub fn edit_managed_entry(
    entries: &[ManagedEntry],
    files: &Vec<String>,
    config_d_dir: &str,
    args: &EditArgs,
    newline: &str,
    windows: bool,
) -> (r: Result<EditPlan, ConfigError>)
    ensures
        edit_plan(views(entries@), strs(files@), config_d_dir@, *args, newline@, windows) == (match r {
            Ok(p) => Ok((p.current@, p.saved@)),
            Err(e) => Err(e@),
        }),
{
    let current: ManagedEntry = match find_entry_by_host(entries, &args.host) {
        Some(e) => e.clone(),
        None => {
            return Err(
                ConfigError::new(concat3("managed entry `", &args.host, "` not found")),
            );
        },
    };
    let updated: HostEntry = match build_updated_entry(&current.entry, args) {
        Ok(u) => u,
        Err(e) => {
            return Err(e);
        },
    };
    match validate_entry(&updated) {
        Ok(_) => {},
        Err(e) => {
            return Err(e);
        },
    }
    let same_order: bool = match args.order {
        Some(n) => n == current.order,
        None => true,
    };
    if same_entry(&updated, &current.entry) && same_order {
        if template_update(args).is_some() || tags_update(args).is_some() || note_update(
            args,
        ).is_some() {
            let saved: ManagedEntry = current.clone();
            return Ok(EditPlan { current, saved });
        }
        return Err(ConfigError::new(concat2("no changes for: ", &current.path)));
    }
    match replace_entry(entries, files, config_d_dir, &current, &updated, args.order, newline, windows) {
        Ok(saved) => Ok(EditPlan { current, saved }),
        Err(e) => Err(
            ConfigError::caused("failed to update managed SSH entry".to_string(), e.text()),
        ),
    }
}

// ---------------------------------------------------------------------------
// What a request changes in the record
// ---------------------------------------------------------------------------

pub open spec fn new_template(a: EditArgs) -> Option<Option<TemplateKind>> {
    if a.clear_template {
        Some(None)
    } else {
        match a.template {
            Some(k) => Some(Some(k)),
            None => None,
        }
    }
}

pub fn template_update(args: &EditArgs) -> (r: Option<Option<TemplateKind>>)
    ensures
        r == new_template(*args),
{
    if args.clear_template {
        Some(None)
    } else {
        match args.template {
            Some(k) => Some(Some(k)),
            None => None,
        }
    }
}

pub open spec fn new_tags(a: EditArgs) -> Option<Seq<Seq<char>>> {
    if a.clear_tags {
        Some(Seq::empty())
    } else if a.tags@.len() == 0 {
        None
    } else {
        Some(strs(a.tags@))
    }
}

pub fn tags_update(args: &EditArgs) -> (r: Option<Vec<String>>)
    ensures
        opt_strs(r) == new_tags(*args),
{
    if args.clear_tags {
        Some(Vec::new())
    } else if args.tags.len() == 0 {
        None
    } else {
        Some(copy_strs(&args.tags))
    }
}

pub open spec fn new_note(a: EditArgs) -> Option<Option<Seq<char>>> {
    if a.clear_note {
        Some(None)
    } else {
        match opt(a.note) {
            Some(n) => Some(Some(n)),
            None => None,
        }
    }
}

pub fn note_update(args: &EditArgs) -> (r: Option<Option<String>>)
    ensures
        opt_opt(r) == new_note(*args),
{
    if args.clear_note {
        Some(None)
    } else {
        match &args.note {
            Some(n) => Some(Some(n.clone())),
            None => None,
        }
    }
}

/// The request asks for a change.
pub open spec fn asks_for_change(a: EditArgs) -> bool {
    ||| a.new_host is Some
    ||| a.hostname is Some
    ||| a.clear_hostname
    ||| a.user is Some
    ||| a.clear_user
    ||| a.port is Some
    ||| a.clear_port
    ||| a.proxy_jump is Some
    ||| a.clear_proxy_jump
    ||| a.identity_files@.len() > 0
    ||| a.clear_identity_files
    ||| a.local_forwards@.len() > 0
    ||| a.clear_local_forwards
    ||| a.remote_forwards@.len() > 0
    ||| a.clear_remote_forwards
    ||| a.strict_host_key_checking is Some
    ||| a.clear_strict_host_key_checking
    ||| a.user_known_hosts_file is Some
    ||| a.clear_user_known_hosts_file
    ||| a.host_key_algorithms is Some
    ||| a.clear_host_key_algorithms
    ||| a.pubkey_accepted_algorithms is Some
    ||| a.clear_pubkey_accepted_algorithms
    ||| a.forward_agent is Some
    ||| a.clear_forward_agent
    ||| a.ssh_tag is Some
    ||| a.clear_ssh_tag
    ||| a.template is Some
    ||| a.clear_template
    ||| a.order is Some
    ||| a.extras@.len() > 0
    ||| a.clear_extras
    ||| a.tags@.len() > 0
    ||| a.clear_tags
    ||| a.note is Some
    ||| a.clear_note
}

pub fn has_requested_changes(args: &EditArgs) -> (r: bool)
    ensures
        r == asks_for_change(*args),
{
    args.new_host.is_some() || args.hostname.is_some() || args.clear_hostname
        || args.user.is_some() || args.clear_user || args.port.is_some() || args.clear_port
        || args.proxy_jump.is_some() || args.clear_proxy_jump || args.identity_files.len() > 0
        || args.clear_identity_files || args.local_forwards.len() > 0 || args.clear_local_forwards
        || args.remote_forwards.len() > 0 || args.clear_remote_forwards
        || args.strict_host_key_checking.is_some() || args.clear_strict_host_key_checking
        || args.user_known_hosts_file.is_some() || args.clear_user_known_hosts_file
        || args.host_key_algorithms.is_some() || args.clear_host_key_algorithms
        || args.pubkey_accepted_algorithms.is_some() || args.clear_pubkey_accepted_algorithms
        || args.forward_agent.is_some() || args.clear_forward_agent || args.ssh_tag.is_some()
        || args.clear_ssh_tag || args.template.is_some() || args.clear_template
        || args.order.is_some() || args.extras.len() > 0 || args.clear_extras || args.tags.len()
        > 0 || args.clear_tags || args.note.is_some() || args.clear_note
}

pub fn requires_interactive_completion(args: &EditArgs) -> (r: bool)
    ensures
        r == !asks_for_change(*args),
{
    !has_requested_changes(args)
}

pub fn should_complete_interactively(args: &EditArgs, terminal: bool) -> (r: bool)
    ensures
        r == (terminal && (args.interactive || !asks_for_change(*args))),
{
    terminal && (args.interactive || requires_interactive_completion(args))
}

// ---------------------------------------------------------------------------
// Completing a request
// ---------------------------------------------------------------------------

/// What the questions start from.
#[derive(Debug, PartialEq, Eq)]
pub struct InteractiveEditSeed {
    pub host: String,
    pub hostname: Option<String>,
    pub user: Option<String>,
    pub port: Option<u16>,
    pub proxy_jump: Option<String>,
    pub local_forwards: Vec<String>,
    pub remote_forwards: Vec<String>,
    pub ssh_tag: Option<String>,
    pub template: Option<TemplateKind>,
    pub tags: Vec<String>,
    pub note: Option<String>,
}

/// What has been answered.
#[derive(Debug, PartialEq, Eq)]
pub struct InteractiveEditValues {
    pub host: String,
    pub hostname: Option<String>,
    pub user: Option<String>,
    pub port: Option<u16>,
    pub proxy_jump: Option<String>,
    pub ssh_tag: Option<String>,
    pub template: Option<TemplateKind>,
    pub tags: Vec<String>,
    pub note: Option<String>,
}

/// The template that a record names.
pub open spec fn recorded_template(m: Option<MetadataView>) -> Option<TemplateKind> {
    match m {
        Some(r) => match r.template_source {
            Some(t) => kind_named(t),
            None => None,
        },
        None => None,
    }
}

pub open spec fn recorded_tags(m: Option<MetadataView>) -> Seq<Seq<char>> {
    match m {
        Some(r) => r.tags,
        None => Seq::empty(),
    }
}

pub open spec fn recorded_note(m: Option<MetadataView>) -> Option<Seq<char>> {
    match m {
        Some(r) => r.note,
        None => None,
    }
}

pub fn metadata_template(metadata: Option<&EntryMetadata>) -> (r: Option<TemplateKind>)
    ensures
        r == recorded_template(opt_record(metadata)),
{
    match metadata {
        Some(m) => match &m.template_source {
            Some(t) => parse_cli_name(t),
            None => None,
        },
        None => None,
    }
}

fn metadata_tags(metadata: Option<&EntryMetadata>) -> (r: Vec<String>)
    ensures
        strs(r@) == recorded_tags(opt_record(metadata)),
{
    match metadata {
        Some(m) => copy_strs(&m.tags),
        None => Vec::new(),
    }
}

fn metadata_note(metadata: Option<&EntryMetadata>) -> (r: Option<String>)
    ensures
        opt(r) == recorded_note(opt_record(metadata)),
{
    match metadata {
        Some(m) => copy_opt(&m.note),
        None => None,
    }
}

/// `s` holds what the questions start from where `updated` is the entry with the changes of the
/// request already made.
pub open spec fn seeded(s: InteractiveEditSeed, updated: HostView, m: Option<MetadataView>, a: EditArgs) -> bool {
    &&& s.host@ == updated.primary()
    &&& opt(s.hostname) == updated.hostname
    &&& opt(s.user) == updated.user
    &&& s.port == updated.port
    &&& opt(s.proxy_jump) == updated.proxy_jump
    &&& strs(s.local_forwards@) == updated.local_forwards
    &&& strs(s.remote_forwards@) == updated.remote_forwards
    &&& opt(s.ssh_tag) == updated.tag
    &&& s.template == (match new_template(a) {
        Some(Some(k)) => Some(k),
        _ => recorded_template(m),
    })
    &&& strs(s.tags@) == (match new_tags(a) {
        Some(t) => t,
        None => recorded_tags(m),
    })
    &&& opt(s.note) == (match new_note(a) {
        Some(n) => n,
        None => recorded_note(m),
    })
}

pub fn build_interactive_seed(
    current: &ManagedEntry,
    metadata: Option<&EntryMetadata>,
    args: &EditArgs,
) -> (r: Result<InteractiveEditSeed, ConfigError>)
    ensures
        match r {
            Ok(s) => edit_result(current@.entry, *args) is Ok && seeded(
                s,
                edit_result(current@.entry, *args)->Ok_0,
                opt_record(metadata),
                *args,
            ),
            Err(e) => edit_result(current@.entry, *args) == Err::<HostView, Seq<char>>(e@),
        },
{
    let updated: HostEntry = match build_updated_entry(&current.entry, args) {
        Ok(u) => u,
        Err(e) => {
            return Err(e);
        },
    };
    let recorded: Option<TemplateKind> = metadata_template(metadata);
    Ok(
        InteractiveEditSeed {
            host: updated.primary_pattern().to_owned(),
            hostname: copy_opt(&updated.hostname),
            user: copy_opt(&updated.user),
            port: updated.port,
            proxy_jump: copy_opt(&updated.proxy_jump),
            local_forwards: copy_strs(&updated.local_forwards),
            remote_forwards: copy_strs(&updated.remote_forwards),
            ssh_tag: copy_opt(&updated.tag),
            template: match template_update(args) {
                Some(Some(k)) => Some(k),
                _ => recorded,
            },
            tags: match tags_update(args) {
                Some(t) => t,
                None => metadata_tags(metadata),
            },
            note: match note_update(args) {
                Some(n) => n,
                None => metadata_note(metadata),
            },
        },
    )
}

/// The answers before any question has been asked: everything is kept.
pub fn initial_values(seed: &InteractiveEditSeed) -> (r: InteractiveEditValues)
    ensures
        r.host@ == seed.host@,
        opt(r.hostname) == opt(seed.hostname),
        opt(r.user) == opt(seed.user),
        r.port == seed.port,
        opt(r.proxy_jump) == opt(seed.proxy_jump),
        opt(r.ssh_tag) == opt(seed.ssh_tag),
        r.template == seed.template,
        strs(r.tags@) == strs(seed.tags@),
        opt(r.note) == opt(seed.note),
{
    InteractiveEditValues {
        host: seed.host.clone(),
        hostname: copy_opt(&seed.hostname),
        user: copy_opt(&seed.user),
        port: seed.port,
        proxy_jump: copy_opt(&seed.proxy_jump),
        ssh_tag: copy_opt(&seed.ssh_tag),
        template: seed.template,
        tags: copy_strs(&seed.tags),
        note: copy_opt(&seed.note),
    }
}

/// The questions, in the order in which they are asked.
#[derive(Debug, Clone, Copy, PartialEq, Eq, Structural)]
pub enum EditPrompt {
    Host,
    HostName,
    User,
    Port,
    ProxyJump,
    SshTag,
    Template,
    Note,
    Tags,
}

/// The question that follows.
pub fn following_prompt(after: Option<EditPrompt>) -> (r: Option<EditPrompt>)
    ensures
        r == (match after {
            None => Some(EditPrompt::Host),
            Some(EditPrompt::Host) => Some(EditPrompt::HostName),
            Some(EditPrompt::HostName) => Some(EditPrompt::User),
            Some(EditPrompt::User) => Some(EditPrompt::Port),
            Some(EditPrompt::Port) => Some(EditPrompt::ProxyJump),
            Some(EditPrompt::ProxyJump) => Some(EditPrompt::SshTag),
            Some(EditPrompt::SshTag) => Some(EditPrompt::Template),
            Some(EditPrompt::Template) => Some(EditPrompt::Note),
            Some(EditPrompt::Note) => Some(EditPrompt::Tags),
            Some(EditPrompt::Tags) => None,
        }),
{
    match after {
        None => Some(EditPrompt::Host),
        Some(EditPrompt::Host) => Some(EditPrompt::HostName),
        Some(EditPrompt::HostName) => Some(EditPrompt::User),
        Some(EditPrompt::User) => Some(EditPrompt::Port),
        Some(EditPrompt::Port) => Some(EditPrompt::ProxyJump),
        Some(EditPrompt::ProxyJump) => Some(EditPrompt::SshTag),
        Some(EditPrompt::SshTag) => Some(EditPrompt::Template),
        Some(EditPrompt::Template) => Some(EditPrompt::Note),
        Some(EditPrompt::Note) => Some(EditPrompt::Tags),
        Some(EditPrompt::Tags) => None,
    }
}

/// The words of a question, and the value that a blank answer keeps.
pub open spec fn edit_question(v: InteractiveEditValues, p: EditPrompt) -> (Seq<char>, Seq<char>) {
    match p {
        EditPrompt::Host => ("Host"@, v.host@),
        EditPrompt::HostName => (
            "HostName [Enter keeps, - clears]"@,
            shown_optional(opt(v.hostname)),
        ),
        EditPrompt::User => ("User (opt.) [Enter keeps, - clears]"@, shown_optional(opt(v.user))),
        EditPrompt::Port => (
            "Port (opt.) [Enter keeps, - clears]"@,
            shown_or_empty(port_text(v.port)),
        ),
        EditPrompt::ProxyJump => (
            "ProxyJump (opt.) [Enter keeps, - clears]"@,
            shown_optional(opt(v.proxy_jump)),
        ),
        EditPrompt::SshTag => (
            "SSH Tag (opt.) [Enter keeps, - clears]"@,
            shown_optional(opt(v.ssh_tag)),
        ),
        EditPrompt::Template => (
            "Template (opt.: "@ + template_names() + ") [Enter keeps, - clears]"@,
            shown_template(v.template),
        ),
        EditPrompt::Note => ("Note (opt.) [Enter keeps, - clears]"@, shown_optional(opt(v.note))),
        EditPrompt::Tags => (
            "Tags (opt., comma-separated) [Enter keeps, - clears]"@,
            shown_list(strs(v.tags@), ","@),
        ),
    }
}

pub fn question(values: &InteractiveEditValues, p: EditPrompt) -> (r: (String, String))
    ensures
        (r.0@, r.1@) == edit_question(*values, p),
{
    match p {
        EditPrompt::Host => ("Host".to_owned(), values.host.clone()),
        EditPrompt::HostName => (
            "HostName [Enter keeps, - clears]".to_owned(),
            display_optional(&values.hostname),
        ),
        EditPrompt::User => (
            "User (opt.) [Enter keeps, - clears]".to_owned(),
            display_optional(&values.user),
        ),
        EditPrompt::Port => (
            "Port (opt.) [Enter keeps, - clears]".to_owned(),
            display_port(values.port),
        ),
        EditPrompt::ProxyJump => (
            "ProxyJump (opt.) [Enter keeps, - clears]".to_owned(),
            display_optional(&values.proxy_jump),
        ),
        EditPrompt::SshTag => (
            "SSH Tag (opt.) [Enter keeps, - clears]".to_owned(),
            display_optional(&values.ssh_tag),
        ),
        EditPrompt::Template => (
            concat3("Template (opt.: ", &template_choices(), ") [Enter keeps, - clears]"),
            display_template(values.template).to_owned(),
        ),
        EditPrompt::Note => (
            "Note (opt.) [Enter keeps, - clears]".to_owned(),
            display_optional(&values.note),
        ),
        EditPrompt::Tags => (
            "Tags (opt., comma-separated) [Enter keeps, - clears]".to_owned(),
            display_list(&values.tags, ","),
        ),
    }
}

/// A value that is kept, set, or cleared by a dash.
pub open spec fn answered_text(current: Option<Seq<char>>, input: Seq<char>) -> Option<Seq<char>> {
    let t = trim(input);
    if t.len() == 0 {
        current
    } else if t == "-"@ {
        None
    } else {
        Some(t)
    }
}

/// What is said where an answer cannot be taken and the question is asked again.
pub open spec fn edit_refusal(p: EditPrompt, input: Seq<char>) -> Option<Seq<char>> {
    let t = trim(input);
    if t.len() == 0 || t == "-"@ {
        None
    } else {
        match p {
            EditPrompt::Port => if is_port(t) {
                None
            } else {
                Some(bad_port())
            },
            EditPrompt::Template => if kind_named(t) is Some {
                None
            } else {
                Some("! Unknown template `"@ + t + "`"@)
            },
            _ => None,
        }
    }
}

/// `after` is `v` with the answer taken.
pub open spec fn value_taken(
    v: InteractiveEditValues,
    p: EditPrompt,
    input: Seq<char>,
    after: InteractiveEditValues,
) -> bool {
    let t = trim(input);
    match p {
        EditPrompt::Host => after.host@ == (if t.len() == 0 {
            v.host@
        } else {
            t
        }) && after == (InteractiveEditValues { host: after.host, ..v }),
        EditPrompt::HostName => opt(after.hostname) == answered_text(opt(v.hostname), input)
            && after == (InteractiveEditValues { hostname: after.hostname, ..v }),
        EditPrompt::User => opt(after.user) == answered_text(opt(v.user), input) && after == (
        InteractiveEditValues { user: after.user, ..v }),
        EditPrompt::Port => after.port == (if t.len() == 0 {
            v.port
        } else if t == "-"@ {
            None
        } else {
            Some(parse_unsigned(t, 65535)->0 as u16)
        }) && after == (InteractiveEditValues { port: after.port, ..v }),
        EditPrompt::ProxyJump => opt(after.proxy_jump) == answered_text(opt(v.proxy_jump), input)
            && after == (InteractiveEditValues { proxy_jump: after.proxy_jump, ..v }),
        EditPrompt::SshTag => opt(after.ssh_tag) == answered_text(opt(v.ssh_tag), input) && after
            == (InteractiveEditValues { ssh_tag: after.ssh_tag, ..v }),
        EditPrompt::Template => after.template == (if t.len() == 0 {
            v.template
        } else if t == "-"@ {
            None
        } else {
            kind_named(t)
        }) && after == (InteractiveEditValues { template: after.template, ..v }),
        EditPrompt::Note => opt(after.note) == answered_text(opt(v.note), input) && after == (
        InteractiveEditValues { note: after.note, ..v }),
        EditPrompt::Tags => strs(after.tags@) == (if t.len() == 0 {
            strs(v.tags@)
        } else if t == "-"@ {
            Seq::empty()
        } else {
            items_of(t)
        }) && after == (InteractiveEditValues { tags: after.tags, ..v }),
    }
}

fn take_text(slot: &mut Option<String>, t: String)
    ensures
        t@ == trim(t@) ==> opt(*final(slot)) == answered_text(opt(*old(slot)), t@),
        t@.len() == 0 ==> *final(slot) == *old(slot),
        t@.len() > 0 && t@ == "-"@ ==> *final(slot) is None,
        t@.len() > 0 && t@ != "-"@ ==> opt(*final(slot)) == Some(t@),
{
    if t.as_str().is_empty() {
        return;
    }
    if same(&t, "-") {
        *slot = None;
    } else {
        *slot = Some(t);
    }
}

/// Takes an answer, or gives back what to say before the question is asked again.
pub fn take_edit_answer(values: &mut InteractiveEditValues, p: EditPrompt, input: &str) -> (r: Option<
    String,
>)
    ensures
        opt(r) == edit_refusal(p, input@),
        r is Some ==> *final(values) == *old(values),
        r is None ==> value_taken(*old(values), p, input@, *final(values)),
{
    let t: String = trimmed(input);
    let empty: bool = t.as_str().is_empty();
    let clear: bool = same(&t, "-");
    match p {
        EditPrompt::Host => {
            if !empty {
                values.host = t;
            }
        },
        EditPrompt::HostName => {
            take_text(&mut values.hostname, t);
        },
        EditPrompt::User => {
            take_text(&mut values.user, t);
        },
        EditPrompt::Port => {
            if !empty {
                if clear {
                    values.port = None;
                } else {
                    match port_answer(&t) {
                        Some(n) => {
                            values.port = Some(n);
                        },
                        None => {
                            return Some("! Port must be a number between 1 and 65535".to_owned());
                        },
                    }
                }
            }
        },
        EditPrompt::ProxyJump => {
            take_text(&mut values.proxy_jump, t);
        },
        EditPrompt::SshTag => {
            take_text(&mut values.ssh_tag, t);
        },
        EditPrompt::Template => {
            if !empty {
                if clear {
                    values.template = None;
                } else {
                    match parse_cli_name(&t) {
                        Some(k) => {
                            values.template = Some(k);
                        },
                        None => {
                            return Some(concat3("! Unknown template `", &t, "`"));
                        },
                    }
                }
            }
        },
        EditPrompt::Note => {
            take_text(&mut values.note, t);
        },
        EditPrompt::Tags => {
            if !empty {
                if clear {
                    values.tags = Vec::new();
                } else {
                    values.tags = split_multi_value(&t);
                }
            }
        },
    }
    None
}

/// What the answers say, line by line.
pub open spec fn edit_summary(s: InteractiveEditSeed, v: InteractiveEditValues) -> Seq<Seq<char>> {
    seq![
        "Host: "@ + v.host@,
        "HostName: "@ + shown_optional(opt(v.hostname)),
        "User: "@ + shown_optional(opt(v.user)),
        "Port: "@ + shown_or_empty(port_text(v.port)),
        "ProxyJump: "@ + shown_optional(opt(v.proxy_jump)),
        "SSH Tag: "@ + shown_optional(opt(v.ssh_tag)),
        "LocalForward(s): "@ + shown_list(strs(s.local_forwards@), " | "@),
        "RemoteForward(s): "@ + shown_list(strs(s.remote_forwards@), " | "@),
        "Template: "@ + shown_template(v.template),
        "Tags: "@ + shown_list(strs(v.tags@), ","@),
        "Note: "@ + shown_optional(opt(v.note)),
    ]
}

pub fn edit_summary_lines(seed: &InteractiveEditSeed, values: &InteractiveEditValues) -> (r: Vec<
    String,
>)
    ensures
        strs(r@) == edit_summary(*seed, *values),
{
    let r: Vec<String> = vec![
        concat2("Host: ", &values.host),
        concat2("HostName: ", &display_optional(&values.hostname)),
        concat2("User: ", &display_optional(&values.user)),
        concat2("Port: ", &display_port(values.port)),
        concat2("ProxyJump: ", &display_optional(&values.proxy_jump)),
        concat2("SSH Tag: ", &display_optional(&values.ssh_tag)),
        concat2("LocalForward(s): ", &display_repeatable_values(&seed.local_forwards)),
        concat2("RemoteForward(s): ", &display_repeatable_values(&seed.remote_forwards)),
        concat2("Template: ", display_template(values.template)),
        concat2("Tags: ", &display_list(&values.tags, ",")),
        concat2("Note: ", &display_optional(&values.note)),
    ];
    assert(strs(r@) =~= edit_summary(*seed, *values));
    r
}

/// The value where it differs from the current one.
pub open spec fn if_changed<A>(current: Option<A>, updated: Option<A>) -> Option<A> {
    if updated == current {
        None
    } else {
        updated
    }
}

fn changed_option_string(current: &Option<String>, updated: &Option<String>) -> (r: Option<String>)
    ensures
        opt(r) == if_changed(opt(*current), opt(*updated)),
{
    if same_opt(current, updated) {
        None
    } else {
        copy_opt(updated)
    }
}

/// `r` asks for the answers `v`: it sets what they change, clears what they leave out, and asks
/// for nothing else but what `base` asks for besides.
pub open spec fn asks_for_values(
    base: EditArgs,
    current: ManagedView,
    m: Option<MetadataView>,
    v: InteractiveEditValues,
    r: EditArgs,
) -> bool {
    let e = current.entry;
    &&& r.host@ == base.host@
    &&& !r.interactive
    &&& opt(r.new_host) == (if v.host@ == e.primary() {
        None
    } else {
        Some(v.host@)
    })
    &&& opt(r.hostname) == if_changed(e.hostname, opt(v.hostname))
    &&& r.clear_hostname == (e.hostname is Some && v.hostname is None)
    &&& opt(r.user) == if_changed(e.user, opt(v.user))
    &&& r.clear_user == (e.user is Some && v.user is None)
    &&& r.port == if_changed(e.port, v.port)
    &&& r.clear_port == (e.port is Some && v.port is None)
    &&& opt(r.proxy_jump) == if_changed(e.proxy_jump, opt(v.proxy_jump))
    &&& r.clear_proxy_jump == (e.proxy_jump is Some && v.proxy_jump is None)
    &&& strs(r.identity_files@) == strs(base.identity_files@)
    &&& r.clear_identity_files == base.clear_identity_files
    &&& strs(r.local_forwards@) == strs(base.local_forwards@)
    &&& r.clear_local_forwards == base.clear_local_forwards
    &&& strs(r.remote_forwards@) == strs(base.remote_forwards@)
    &&& r.clear_remote_forwards == base.clear_remote_forwards
    &&& opt(r.strict_host_key_checking) == opt(base.strict_host_key_checking)
    &&& r.clear_strict_host_key_checking == base.clear_strict_host_key_checking
    &&& opt(r.user_known_hosts_file) == opt(base.user_known_hosts_file)
    &&& r.clear_user_known_hosts_file == base.clear_user_known_hosts_file
    &&& opt(r.host_key_algorithms) == opt(base.host_key_algorithms)
    &&& r.clear_host_key_algorithms == base.clear_host_key_algorithms
    &&& opt(r.pubkey_accepted_algorithms) == opt(base.pubkey_accepted_algorithms)
    &&& r.clear_pubkey_accepted_algorithms == base.clear_pubkey_accepted_algorithms
    &&& opt(r.forward_agent) == opt(base.forward_agent)
    &&& r.clear_forward_agent == base.clear_forward_agent
    &&& opt(r.ssh_tag) == if_changed(e.tag, opt(v.ssh_tag))
    &&& r.clear_ssh_tag == (e.tag is Some && v.ssh_tag is None)
    &&& r.template == if_changed(recorded_template(m), v.template)
    &&& r.clear_template == (recorded_template(m) is Some && v.template is None)
    &&& r.order == base.order
    &&& strs(r.extras@) == strs(base.extras@)
    &&& r.clear_extras == base.clear_extras
    &&& strs(r.tags@) == (if strs(v.tags@) == recorded_tags(m) {
        Seq::empty()
    } else {
        strs(v.tags@)
    })
    &&& r.clear_tags == (recorded_tags(m).len() > 0 && v.tags@.len() == 0)
    &&& opt(r.note) == if_changed(recorded_note(m), opt(v.note))
    &&& r.clear_note == (recorded_note(m) is Some && v.note is None)
}

#[verifier::spinoff_prover]
#[verifier::rlimit(40)]
pub fn build_interactive_args(
    base: &EditArgs,
    current: &ManagedEntry,
    metadata: Option<&EntryMetadata>,
    values: &InteractiveEditValues,
) -> (r: EditArgs)
    ensures
        asks_for_values(*base, current@, opt_record(metadata), *values, r),
{
    let recorded: Option<TemplateKind> = metadata_template(metadata);
    let tags_before: Vec<String> = metadata_tags(metadata);
    let note_before: Option<String> = metadata_note(metadata);
    assert(strs(tags_before@).len() == tags_before@.len());
    let e: &HostEntry = &current.entry;
    EditArgs {
        host: base.host.clone(),
        interactive: false,
        new_host: if same(&values.host, e.primary_pattern()) {
            None
        } else {
            Some(values.host.clone())
        },
        hostname: changed_option_string(&e.hostname, &values.hostname),
        clear_hostname: e.hostname.is_some() && values.hostname.is_none(),
        user: changed_option_string(&e.user, &values.user),
        clear_user: e.user.is_some() && values.user.is_none(),
        port: if e.port == values.port {
            None
        } else {
            values.port
        },
        clear_port: e.port.is_some() && values.port.is_none(),
        proxy_jump: changed_option_string(&e.proxy_jump, &values.proxy_jump),
        clear_proxy_jump: e.proxy_jump.is_some() && values.proxy_jump.is_none(),
        identity_files: copy_strs(&base.identity_files),
        clear_identity_files: base.clear_identity_files,
        local_forwards: copy_strs(&base.local_forwards),
        clear_local_forwards: base.clear_local_forwards,
        remote_forwards: copy_strs(&base.remote_forwards),
        clear_remote_forwards: base.clear_remote_forwards,
        strict_host_key_checking: copy_opt(&base.strict_host_key_checking),
        clear_strict_host_key_checking: base.clear_strict_host_key_checking,
        user_known_hosts_file: copy_opt(&base.user_known_hosts_file),
        clear_user_known_hosts_file: base.clear_user_known_hosts_file,
        host_key_algorithms: copy_opt(&base.host_key_algorithms),
        clear_host_key_algorithms: base.clear_host_key_algorithms,
        pubkey_accepted_algorithms: copy_opt(&base.pubkey_accepted_algorithms),
        clear_pubkey_accepted_algorithms: base.clear_pubkey_accepted_algorithms,
        forward_agent: copy_opt(&base.forward_agent),
        clear_forward_agent: base.clear_forward_agent,
        ssh_tag: changed_option_string(&e.tag, &values.ssh_tag),
        clear_ssh_tag: e.tag.is_some() && values.ssh_tag.is_none(),
        template: match (values.template, recorded) {
            (Some(a), Some(b)) => {
                if a == b {
                    None
                } else {
                    Some(a)
                }
            },
            (t, _) => t,
        },
        clear_template: recorded.is_some() && values.template.is_none(),
        order: base.order,
        extras: copy_strs(&base.extras),
        clear_extras: base.clear_extras,
        tags: if same_strs(&values.tags, &tags_before) {
            Vec::new()
        } else {
            copy_strs(&values.tags)
        },
        clear_tags: tags_before.len() > 0 && values.tags.len() == 0,
        note: changed_option_string(&note_before, &values.note),
        clear_note: note_before.is_some() && values.note.is_none(),
    }
}

// ---------------------------------------------------------------------------
// Laws
// ---------------------------------------------------------------------------

/// A request that asks for no change leaves the entry as it is.
pub proof fn law_edit_without_changes(e: HostView, a: EditArgs)
    requires
        !asks_for_change(a),
    ensures
        edit_result(e, a) == Ok::<HostView, Seq<char>>(e),
{
    reveal(target_conflict);
    reveal(list_conflict);
    reveal(option_conflict);
    reveal(record_conflict);
    assert(strs(a.extras@) =~= Seq::<Seq<char>>::empty());
    assert(strs(a.identity_files@).len() == 0);
    assert(strs(a.local_forwards@).len() == 0);
    assert(strs(a.remote_forwards@).len() == 0);
    assert(edited(e, a, Seq::empty()) =~= e);
}

/// What was answered is what the entry says afterwards.
pub proof fn law_answers_are_taken(
    base: EditArgs,
    current: ManagedView,
    m: Option<MetadataView>,
    v: InteractiveEditValues,
    a: EditArgs,
)
    requires
        asks_for_values(base, current, m, v, a),
        edit_result(current.entry, a) is Ok,
    ensures
        ({
            let r = edit_result(current.entry, a)->Ok_0;
            &&& r.hostname == opt(v.hostname)
            &&& r.user == opt(v.user)
            &&& r.port == v.port
            &&& r.proxy_jump == opt(v.proxy_jump)
            &&& r.tag == opt(v.ssh_tag)
            &&& r.primary() == v.host@
        }),
{
}

} // verus!
