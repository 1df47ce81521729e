//! Entries in words: one entry, a list of entries, the merged view of a target, and the
//! templates.

#![verifier::loop_isolation(false)]

use vstd::prelude::*;

use crate::commands::cli::{ListArgs, ShowArgs};
use crate::commands::selection::{
    EntryFilter, SelectedEntry, filter_entries, opt_record, passing, requested_filter,
};
use crate::config::describe::{describe_resolved_target, description, push_all};
use crate::config::match_header::{BlockView, RootMatchBlock};
use crate::config::model::{
    HostEntry, HostView, ManagedEntry, ManagedView, ResolvedEntry, ResolvedView,
};
use crate::config::render::{directives, directives_of};
use crate::config::resolve::{
    MachineFacts, OptionsView, RootMatchResolveOptions, any_block_uses_ssh_version, first,
    options_here, portable_all, resolution, resolution_may_be,
    resolve_target_with_root_matches_and_options, resolved, source,
};
use crate::config::state::{AppState, EntryMetadata, MetadataView, find_entry_metadata, record_of};
use crate::config::store::{find_entry_by_host, managed, until_host};
use crate::config::template::{TemplateInfo, TemplateKind, all_kinds, str_pairs, template_infos};
use crate::error::ConfigError;
use crate::strings::{concat2, concat3, concat5, concat7, decimal_text, joined, pad, text_or_dash};
use crate::text::{
    decimal, join, lines, opt, opt_str, or_dash, padded, pairs, strs, trim_end, views,
};

verus! {

broadcast use crate::text::group_text;

// ---------------------------------------------------------------------------
// One entry
// ---------------------------------------------------------------------------

/// A directive in two columns.
pub open spec fn directive_line(d: (Seq<char>, Seq<char>)) -> Seq<char> {
    padded(d.0, 28) + " "@ + d.1
}

pub open spec fn directive_lines(e: HostView) -> Seq<Seq<char>> {
    directives_of(e).map_values(|d: (Seq<char>, Seq<char>)| directive_line(d))
}

pub fn host_entry_lines(entry: &HostEntry) -> (r: Vec<String>)
    ensures
        strs(r@) == directive_lines(entry@),
{
    let ds: Vec<(String, String)> = directives(entry);
    let ghost all = pairs(ds@);
    let mut out: Vec<String> = Vec::new();
    let mut i: usize = 0;
    while i < ds.len()
        invariant
            i <= ds.len(),
            all == pairs(ds@),
            strs(out@) =~= all.take(i as int).map_values(
                |d: (Seq<char>, Seq<char>)| directive_line(d),
            ),
        decreases ds.len() - i,
    {
        assert(all[i as int] == (ds[i as int].0@, ds[i as int].1@));
        out.push(concat3(&pad(&ds[i].0, 28), " ", &ds[i].1));
        i += 1;
    }
    assert(all.take(all.len() as int) =~= all);
    out
}

/// The tags on one line.
pub open spec fn tags_text(tags: Seq<Seq<char>>) -> Seq<char> {
    if tags.len() == 0 {
        "-"@
    } else {
        join(tags, ","@)
    }
}

pub fn write_tags(tags: &Vec<String>) -> (r: String)
    ensures
        r@ == tags_text(strs(tags@)),
{
    if tags.len() == 0 {
        "-".to_string()
    } else {
        joined(tags, ",")
    }
}

pub open spec fn record_lines(m: MetadataView) -> Seq<Seq<char>> {
    seq!["metadata id: "@ + m.id] + (match m.template_source {
        Some(t) => seq!["template source: "@ + t],
        None => Seq::empty(),
    }) + seq![
        "tags: "@ + tags_text(m.tags),
        "note: "@ + or_dash(m.note),
        "updated at: "@ + m.updated_at,
    ]
}

/// An entry with what is known of it, line by line.
pub open spec fn entry_description(e: ManagedView, m: Option<MetadataView>) -> Seq<Seq<char>> {
    seq![
        "order: "@ + decimal(e.order as nat),
        "slug: "@ + e.slug,
        "kind: "@ + e.entry.kind().spec_label(),
        "file: "@ + e.path,
    ] + (match m {
        Some(r) => record_lines(r),
        None => Seq::empty(),
    }) + seq![Seq::<char>::empty()] + directive_lines(e.entry)
}

fn write_record_lines(m: &EntryMetadata) -> (r: Vec<String>)
    ensures
        strs(r@) == record_lines(m@),
{
    let mut lines: Vec<String> = Vec::new();
    lines.push(concat2("metadata id: ", &m.id));
    match &m.template_source {
        Some(t) => {
            lines.push(concat2("template source: ", t));
        },
        None => {},
    }
    lines.push(concat2("tags: ", &write_tags(&m.tags)));
    lines.push(concat2("note: ", &text_or_dash(&m.note)));
    lines.push(concat2("updated at: ", &m.updated_at));
    assert(strs(lines@) =~= record_lines(m@));
    lines
}

/// The entry of a host, line by line.
pub fn show_lines(
    entries: &[ManagedEntry],
    state: &AppState,
    host: &str,
    windows: bool,
) -> (r: Result<
    Vec<String>,
    ConfigError,
>)
    ensures
        ({
            let es = views(entries@);
            let n = until_host(es, host@);
            match r {
                Ok(lines) => n < es.len() && strs(lines@) == entry_description(
                    es[n as int],
                    record_of(state@.entries, es[n as int], windows),
                ),
                Err(e) => n == es.len() && e@ == "managed entry `"@ + host@ + "` not found"@,
            }
        }),
{
    match find_entry_by_host(entries, host) {
        None => Err(ConfigError::new(concat3("managed entry `", host, "` not found"))),
        Some(e) => {
            let mut lines: Vec<String> = Vec::new();
            lines.push(concat2("order: ", &decimal_text(e.order as usize)));
            lines.push(concat2("slug: ", &e.slug));
            lines.push(concat2("kind: ", e.entry.kind().label()));
            lines.push(concat2("file: ", &e.path));
            let ghost head = strs(lines@);
            assert(head =~= seq![
                "order: "@ + decimal(e@.order as nat),
                "slug: "@ + e@.slug,
                "kind: "@ + e@.entry.kind().spec_label(),
                "file: "@ + e@.path,
            ]);
            match find_entry_metadata(state, e, windows) {
                Some(m) => {
                    push_all(&mut lines, write_record_lines(m));
                },
                None => {},
            }
            lines.push(String::new());
            push_all(&mut lines, host_entry_lines(&e.entry));
            assert(strs(lines@) =~= entry_description(
                e@,
                record_of(state@.entries, e@, windows),
            ));
            Ok(lines)
        },
    }
}

// ---------------------------------------------------------------------------
// The merged view
// ---------------------------------------------------------------------------

/// What a target is resolved with: what the arguments say, else what was found on the
/// machine; the version of the client only where a block asks for it.
pub open spec fn shown_options(
    args: ShowArgs,
    local_user: Seq<char>,
    local_networks: Seq<Seq<char>>,
    ssh_version: Option<Seq<char>>,
    bs: Seq<BlockView>,
) -> OptionsView {
    let here = options_here(local_user, local_networks, ssh_version, bs);
    OptionsView {
        local_user: first(opt(args.match_local_user), here.local_user),
        current_user: opt(args.match_user),
        initial_tag: opt(args.match_tag),
        ssh_version: first(opt(args.match_ssh_version), here.ssh_version),
        session_type: first(opt(args.match_session_type), here.session_type),
        command: first(opt(args.match_command), here.command),
        local_networks: if args.match_local_networks@.len() == 0 {
            local_networks
        } else {
            strs(args.match_local_networks@)
        },
        is_canonical: args.match_canonical,
        is_final: !args.match_non_final,
    }
}

/// The description of what came out, or why there is none.
pub open spec fn merged_output(
    resolution: Result<ResolvedView, Seq<char>>,
    host: Seq<char>,
) -> Result<Seq<char>, Seq<char>> {
    match resolution {
        Err(e) => Err(e),
        Ok(r) => if r.matched_entries.len() == 0 {
            Err("no matching entries for target `"@ + host + "`"@)
        } else {
            Ok(trim_end(join(description(r), "\n"@)))
        },
    }
}

pub open spec fn text_result(r: Result<String, ConfigError>) -> Result<Seq<char>, Seq<char>> {
    match r {
        Ok(s) => Ok(s@),
        Err(e) => Err(e@),
    }
}

/// Describes a target that was resolved.
pub fn describe_merged(resolution: Result<ResolvedEntry, ConfigError>, host: &str) -> (r: Result<
    String,
    ConfigError,
>)
    ensures
        text_result(r) == merged_output(resolved(resolution), host@),
{
    match resolution {
        Err(e) => Err(e),
        Ok(x) => {
            assert(views(x.matched_entries@).len() == x.matched_entries@.len());
            if x.matched_entries.len() == 0 {
                Err(ConfigError::new(concat3("no matching entries for target `", host, "`")))
            } else {
                Ok(describe_resolved_target(&x))
            }
        },
    }
}

fn first_str<'a>(a: &'a Option<String>, b: Option<&'a str>) -> (r: Option<&'a str>)
    ensures
        opt_str(r) == first(opt(*a), opt_str(b)),
{
    match a {
        Some(v) => Some(v.as_str()),
        None => b,
    }
}

/// What the merged view of a target may be, whatever the machine.
pub open spec fn merged_output_may_be(
    es: Seq<ManagedView>,
    host: Seq<char>,
    bs: Seq<BlockView>,
    o: OptionsView,
    text: Result<Seq<char>, Seq<char>>,
) -> bool {
    exists|x: Result<ResolvedView, Seq<char>>| #[trigger]
        resolution_may_be(es, host, bs, o, x) && text == merged_output(x, host)
}

/// The merged view of a target, with the `Match` blocks of the root config.
pub fn render_merged_output(
    entries: &[ManagedEntry],
    root_match_blocks: &[RootMatchBlock],
    args: &ShowArgs,
    facts: &MachineFacts,
) -> (r: Result<String, ConfigError>)
    ensures
        ({
            let es = views(entries@);
            let bs = views(root_match_blocks@);
            let o = shown_options(
                *args,
                facts.local_user@,
                strs(facts.local_networks@),
                opt(facts.ssh_version),
                bs,
            );
            &&& merged_output_may_be(es, args.host@, bs, o, text_result(r))
            &&& portable_all(es, args.host@, bs, o) ==> text_result(r) == merged_output(
                resolution(es, args.host@, bs, o),
                args.host@,
            )
        }),
{
    proof {
        reveal_strlit("");
    }
    assert(""@ =~= Seq::<char>::empty());
    let detected_user: Option<&str> = if facts.local_user.as_str().is_empty() {
        None
    } else {
        Some(facts.local_user.as_str())
    };
    let detected_version: Option<&str> = if any_block_uses_ssh_version(root_match_blocks) {
        match &facts.ssh_version {
            Some(v) => Some(v.as_str()),
            None => None,
        }
    } else {
        None
    };
    let local_networks: &[String] = if args.match_local_networks.len() == 0 {
        facts.local_networks.as_slice()
    } else {
        args.match_local_networks.as_slice()
    };
    let options = RootMatchResolveOptions {
        local_user: first_str(&args.match_local_user, detected_user),
        current_user: first_str(&args.match_user, None),
        initial_tag: first_str(&args.match_tag, None),
        ssh_version: first_str(&args.match_ssh_version, detected_version),
        session_type: first_str(&args.match_session_type, Some("shell")),
        command: first_str(&args.match_command, Some("")),
        local_networks,
        is_canonical: args.match_canonical,
        is_final: !args.match_non_final,
    };
    assert(options@ =~= shown_options(
        *args,
        facts.local_user@,
        strs(facts.local_networks@),
        opt(facts.ssh_version),
        views(root_match_blocks@),
    ));
    let resolution: Result<ResolvedEntry, ConfigError> =
        resolve_target_with_root_matches_and_options(
        entries,
        &args.host,
        root_match_blocks,
        options,
    );
    assert(resolution_may_be(
        views(entries@),
        args.host@,
        views(root_match_blocks@),
        options@,
        resolved(resolution),
    ));
    describe_merged(resolution, &args.host)
}

// ---------------------------------------------------------------------------
// Lists
// ---------------------------------------------------------------------------

/// A row of the list of entries.
pub open spec fn list_row(
    order: Seq<char>,
    kind: Seq<char>,
    host: Seq<char>,
    hostname: Seq<char>,
    tags: Seq<char>,
    note: Seq<char>,
) -> Seq<char> {
    padded(order, 6) + " "@ + padded(kind, 8) + " "@ + padded(host, 24) + " "@ + padded(
        hostname,
        24,
    ) + " "@ + padded(tags, 16) + " "@ + note
}

pub open spec fn entry_row(e: ManagedView, m: Option<MetadataView>) -> Seq<char> {
    list_row(
        decimal(e.order as nat),
        e.entry.kind().spec_label(),
        join(e.entry.host_patterns, ","@),
        or_dash(e.entry.hostname),
        match m {
            Some(r) => tags_text(r.tags),
            None => "-"@,
        },
        match m {
            Some(r) => or_dash(r.note),
            None => "-"@,
        },
    )
}

pub open spec fn list_of(
    es: Seq<ManagedView>,
    ms: Seq<MetadataView>,
    picked: Seq<int>,
    windows: bool,
) -> Seq<
    Seq<char>,
> {
    if picked.len() == 0 {
        seq!["no managed entries found"@]
    } else {
        seq![
            list_row("ORDER"@, "TYPE"@, "HOST"@, "HOSTNAME"@, "TAGS"@, "NOTE"@),
        ] + picked.map_values(|k: int| entry_row(es[k], record_of(ms, es[k], windows)))
    }
}

fn write_list_row(
    order: &str,
    kind: &str,
    host: &str,
    hostname: &str,
    tags: &str,
    note: &str,
) -> (r: String)
    ensures
        r@ == list_row(order@, kind@, host@, hostname@, tags@, note@),
{
    let head: String = concat5(&pad(order, 6), " ", &pad(kind, 8), " ", &pad(host, 24));
    concat7(&head, " ", &pad(hostname, 24), " ", &pad(tags, 16), " ", note)
}

fn write_entry_row(e: &ManagedEntry, m: Option<&EntryMetadata>) -> (r: String)
    ensures
        r@ == entry_row(e@, opt_record(m)),
{
    let tags: String = match m {
        Some(x) => write_tags(&x.tags),
        None => "-".to_string(),
    };
    let note: String = match m {
        Some(x) => text_or_dash(&x.note),
        None => "-".to_string(),
    };
    write_list_row(
        &decimal_text(e.order as usize),
        e.entry.kind().label(),
        &joined(&e.entry.host_patterns, ","),
        &text_or_dash(&e.entry.hostname),
        &tags,
        &note,
    )
}

/// The entries that pass the filter, in a table.
pub fn list_lines(
    entries: &[ManagedEntry],
    state: &AppState,
    args: &ListArgs,
    windows: bool,
) -> (r: Vec<String>)
    ensures
        strs(r@) == list_of(
            views(entries@),
            state@.entries,
            passing(
                requested_filter(args.filter),
                views(entries@),
                state@.entries,
                entries@.len(),
                windows,
            ),
            windows,
        ),
{
    let filter: EntryFilter = EntryFilter::from_args(&args.filter);
    let selected: Vec<SelectedEntry<'_>> = filter_entries(entries, state, &filter, windows);
    let ghost es = views(entries@);
    let ghost ms = state@.entries;
    let ghost picked = passing(filter@, es, ms, entries@.len(), windows);
    let mut out: Vec<String> = Vec::new();
    if selected.len() == 0 {
        out.push("no managed entries found".to_string());
        assert(strs(out@) =~= list_of(es, ms, picked, windows));
        return out;
    }
    out.push(write_list_row("ORDER", "TYPE", "HOST", "HOSTNAME", "TAGS", "NOTE"));
    let ghost head = seq![
        list_row("ORDER"@, "TYPE"@, "HOST"@, "HOSTNAME"@, "TAGS"@, "NOTE"@),
    ];
    let mut i: usize = 0;
    while i < selected.len()
        invariant
            i <= selected.len(),
            selected@.len() == picked.len(),
            strs(out@) =~= head + picked.take(i as int).map_values(
                |k: int| entry_row(es[k], record_of(ms, es[k], windows)),
            ),
        decreases selected.len() - i,
    {
        let s: &SelectedEntry<'_> = &selected[i];
        assert(selected@[i as int].entry@ == es[picked[i as int]]);
        out.push(write_entry_row(s.entry, s.metadata));
        i += 1;
    }
    assert(picked.take(picked.len() as int) =~= picked);
    out
}

pub open spec fn template_row(
    name: Seq<char>,
    status: Seq<char>,
    summary: Seq<char>,
    defaults: Seq<char>,
) -> Seq<char> {
    padded(name, 10) + " "@ + padded(status, 12) + " "@ + padded(summary, 44) + " "@ + defaults
}

/// The presets on one line.
pub open spec fn presets_text(ps: Seq<(Seq<char>, Seq<char>)>) -> Seq<char> {
    if ps.len() == 0 {
        "-"@
    } else {
        join(ps.map_values(|p: (Seq<char>, Seq<char>)| p.0 + "="@ + p.1), "; "@)
    }
}

pub open spec fn template_line(k: TemplateKind) -> Seq<char> {
    template_row(
        k.name(),
        if k.presets().len() == 0 {
            "placeholder"@
        } else {
            "available"@
        },
        k.summary(),
        presets_text(k.presets()),
    )
}

/// The list of the templates.
pub open spec fn template_table() -> Seq<Seq<char>> {
    seq![template_row("TEMPLATE"@, "STATUS"@, "SUMMARY"@, "DEFAULTS"@)] + all_kinds().map_values(
        |k: TemplateKind| template_line(k),
    )
}

fn write_template_row(name: &str, status: &str, summary: &str, defaults: &str) -> (r: String)
    ensures
        r@ == template_row(name@, status@, summary@, defaults@),
{
    concat7(&pad(name, 10), " ", &pad(status, 12), " ", &pad(summary, 44), " ", defaults)
}

fn write_presets(ps: &Vec<(&'static str, &'static str)>) -> (r: String)
    ensures
        r@ == presets_text(str_pairs(ps@)),
{
    if ps.len() == 0 {
        return "-".to_string();
    }
    let ghost all = str_pairs(ps@);
    let mut items: Vec<String> = Vec::new();
    let mut i: usize = 0;
    while i < ps.len()
        invariant
            i <= ps.len(),
            all == str_pairs(ps@),
            strs(items@) =~= all.take(i as int).map_values(
                |p: (Seq<char>, Seq<char>)| p.0 + "="@ + p.1,
            ),
        decreases ps.len() - i,
    {
        items.push(concat3(ps[i].0, "=", ps[i].1));
        i += 1;
    }
    assert(all.take(all.len() as int) =~= all);
    joined(&items, "; ")
}

pub fn template_lines() -> (r: Vec<String>)
    ensures
        strs(r@) == template_table(),
{
    let infos: Vec<TemplateInfo> = template_infos();
    let ghost head = seq![template_row("TEMPLATE"@, "STATUS"@, "SUMMARY"@, "DEFAULTS"@)];
    let mut out: Vec<String> = Vec::new();
    out.push(write_template_row("TEMPLATE", "STATUS", "SUMMARY", "DEFAULTS"));
    let mut i: usize = 0;
    while i < infos.len()
        invariant
            i <= infos.len(),
            infos@.len() == all_kinds().len(),
            strs(out@) =~= head + all_kinds().take(i as int).map_values(
                |k: TemplateKind| template_line(k),
            ),
        decreases infos.len() - i,
    {
        let info: &TemplateInfo = &infos[i];
        assert(infos@[i as int].describes(all_kinds()[i as int]));
        let status: &str = if info.directives.len() == 0 {
            "placeholder"
        } else {
            "available"
        };
        out.push(
            write_template_row(
                info.kind.cli_name(),
                status,
                info.summary,
                &write_presets(&info.directives),
            ),
        );
        i += 1;
    }
    assert(all_kinds().take(all_kinds().len() as int) =~= all_kinds());
    out
}

} // verus!
