//! A resolved target in words.

#![verifier::loop_isolation(false)]

use vstd::prelude::*;

use crate::config::model::{
    DirectiveOrigin, HostView, IgnoredScalarOverride, IgnoredView, ManagedEntry, ManagedView,
    OriginView, ResolvedDirectiveSource, ResolvedEntry, ResolvedView, SourceView,
};
use crate::config::render::{directives_of, render_directives, render_host_entry};
use crate::strings::{
    concat2, concat3, concat4, concat5, decimal3_text, decimal_text, joined, split_lines,
    trimmed_end,
};
use crate::text::{decimal, decimal3, join, lines, strs, trim_end, views};

verus! {

broadcast use crate::text::group_text;

pub open spec fn entry_line(e: ManagedView) -> Seq<char> {
    "  - order="@ + decimal(e.order as nat) + " kind="@ + e.entry.kind().spec_label() + " host="@
        + join(e.entry.host_patterns, ","@) + " file="@ + e.path
}

pub open spec fn origin_text(o: OriginView) -> Seq<char> {
    decimal3(o.order as nat) + " "@ + o.entry_kind.spec_label() + " "@ + join(
        o.host_patterns,
        ","@,
    ) + " ("@ + o.path + ")"@
}

pub open spec fn source_line(s: SourceView) -> Seq<char> {
    "  - "@ + s.key + " = "@ + s.value + " <- "@ + origin_text(s.origin)
}

pub open spec fn ignored_line(i: IgnoredView) -> Seq<char> {
    "  - "@ + i.key + " = "@ + i.attempted_value + " from "@ + origin_text(i.attempted_origin)
        + " ignored; locked by "@ + origin_text(i.winning_origin) + " -> "@ + i.winning_value
}

/// A heading, with an empty line before it, and the lines under it; nothing where there are none.
pub open spec fn section(title: Seq<char>, body: Seq<Seq<char>>) -> Seq<Seq<char>> {
    if body.len() == 0 {
        Seq::empty()
    } else {
        seq![Seq::<char>::empty(), title] + body
    }
}

pub open spec fn merged_lines(e: HostView) -> Seq<Seq<char>> {
    lines(trim_end(render_directives(directives_of(e), "\n"@)))
}

/// The description of a resolved target, line by line.
pub open spec fn description(r: ResolvedView) -> Seq<Seq<char>> {
    seq!["target: "@ + r.target, "matched entries:"@] + r.matched_entries.map_values(
        |e: ManagedView| entry_line(e),
    ) + seq![Seq::<char>::empty(), "merged view:"@] + merged_lines(r.merged_entry) + section(
        "field sources:"@,
        r.directive_sources.map_values(|s: SourceView| source_line(s)),
    ) + section(
        "ignored scalar assignments:"@,
        r.ignored_scalar_overrides.map_values(|i: IgnoredView| ignored_line(i)),
    ) + section(
        "root Match notes:"@,
        r.root_match_notes.map_values(|n: Seq<char>| "  - "@ + n),
    )
}

fn write_entry_line(e: &ManagedEntry) -> (r: String)
    ensures
        r@ == entry_line(e@),
{
    let head: String = concat4(
        "  - order=",
        &decimal_text(e.order as usize),
        " kind=",
        e.entry.kind().label(),
    );
    concat5(&head, " host=", &joined(&e.entry.host_patterns, ","), " file=", &e.path)
}

fn write_origin(o: &DirectiveOrigin) -> (r: String)
    ensures
        r@ == origin_text(o@),
{
    let head: String = concat5(
        &decimal3_text(o.order),
        " ",
        o.entry_kind.label(),
        " ",
        &joined(&o.host_patterns, ","),
    );
    concat4(&head, " (", &o.path, ")")
}

fn write_source_line(s: &ResolvedDirectiveSource) -> (r: String)
    ensures
        r@ == source_line(s@),
{
    let head: String = concat4("  - ", &s.key, " = ", &s.value);
    concat3(&head, " <- ", &write_origin(&s.origin))
}

fn write_ignored_line(i: &IgnoredScalarOverride) -> (r: String)
    ensures
        r@ == ignored_line(i@),
{
    let head: String = concat4("  - ", &i.key, " = ", &i.attempted_value);
    let more: String = concat3(&head, " from ", &write_origin(&i.attempted_origin));
    let rest: String = concat3(&more, " ignored; locked by ", &write_origin(&i.winning_origin));
    concat3(&rest, " -> ", &i.winning_value)
}

/// Puts a heading and the lines under it behind `lines`.
fn push_section(out: &mut Vec<String>, title: &str, body: Vec<String>)
    ensures
        strs(final(out)@) == strs(old(out)@) + section(title@, strs(body@)),
{
    let ghost was = strs(out@);
    let ghost b = strs(body@);
    assert(b.len() == body@.len());
    if body.len() > 0 {
        out.push(String::new());
        out.push(title.to_owned());
        let mut more: Vec<String> = body;
        out.append(&mut more);
    }
    assert(strs(out@) =~= was + section(title@, b));
}

fn entry_lines(es: &Vec<ManagedEntry>) -> (r: Vec<String>)
    ensures
        strs(r@) == views(es@).map_values(|e: ManagedView| entry_line(e)),
{
    let mut out: Vec<String> = Vec::new();
    let mut i: usize = 0;
    while i < es.len()
        invariant
            i <= es@.len(),
            strs(out@) == views(es@).take(i as int).map_values(|e: ManagedView| entry_line(e)),
        decreases es@.len() - i,
    {
        out.push(write_entry_line(&es[i]));
        i += 1;
        assert(strs(out@) =~= views(es@).take(i as int).map_values(|e: ManagedView| entry_line(e)));
    }
    out
}

fn source_lines(ss: &Vec<ResolvedDirectiveSource>) -> (r: Vec<String>)
    ensures
        strs(r@) == views(ss@).map_values(|s: SourceView| source_line(s)),
{
    let mut out: Vec<String> = Vec::new();
    let mut i: usize = 0;
    while i < ss.len()
        invariant
            i <= ss@.len(),
            strs(out@) == views(ss@).take(i as int).map_values(|s: SourceView| source_line(s)),
        decreases ss@.len() - i,
    {
        out.push(write_source_line(&ss[i]));
        i += 1;
        assert(strs(out@) =~= views(ss@).take(i as int).map_values(|s: SourceView| source_line(s)));
    }
    out
}

fn ignored_lines(ss: &Vec<IgnoredScalarOverride>) -> (r: Vec<String>)
    ensures
        strs(r@) == views(ss@).map_values(|s: IgnoredView| ignored_line(s)),
{
    let mut out: Vec<String> = Vec::new();
    let mut i: usize = 0;
    while i < ss.len()
        invariant
            i <= ss@.len(),
            strs(out@) == views(ss@).take(i as int).map_values(|s: IgnoredView| ignored_line(s)),
        decreases ss@.len() - i,
    {
        out.push(write_ignored_line(&ss[i]));
        i += 1;
        assert(strs(out@) =~= views(ss@).take(i as int).map_values(
            |s: IgnoredView| ignored_line(s),
        ));
    }
    out
}

fn note_lines(ns: &Vec<String>) -> (r: Vec<String>)
    ensures
        strs(r@) == strs(ns@).map_values(|n: Seq<char>| "  - "@ + n),
{
    let mut out: Vec<String> = Vec::new();
    let mut i: usize = 0;
    while i < ns.len()
        invariant
            i <= ns@.len(),
            strs(out@) == strs(ns@).take(i as int).map_values(|n: Seq<char>| "  - "@ + n),
        decreases ns@.len() - i,
    {
        out.push(concat2("  - ", &ns[i]));
        i += 1;
        assert(strs(out@) =~= strs(ns@).take(i as int).map_values(|n: Seq<char>| "  - "@ + n));
    }
    out
}

/// Puts `more` behind `out`.
pub fn push_all(out: &mut Vec<String>, more: Vec<String>)
    ensures
        strs(final(out)@) == strs(old(out)@) + strs(more@),
{
    let ghost was = strs(out@);
    let ghost m = strs(more@);
    let mut rest: Vec<String> = more;
    out.append(&mut rest);
    assert(strs(out@) =~= was + m);
}

pub fn describe_resolved_target_lines(resolved: &ResolvedEntry) -> (r: Vec<String>)
    ensures
        strs(r@) == description(resolved@),
{
    let mut out: Vec<String> = Vec::new();
    out.push(concat2("target: ", &resolved.target));
    out.push("matched entries:".to_owned());
    assert(strs(out@) =~= seq!["target: "@ + resolved@.target, "matched entries:"@]);
    push_all(&mut out, entry_lines(&resolved.matched_entries));
    let ghost before = strs(out@);
    out.push(String::new());
    out.push("merged view:".to_owned());
    assert(strs(out@) =~= before + seq![Seq::<char>::empty(), "merged view:"@]);
    let rendered: String = render_host_entry(&resolved.merged_entry, "\n");
    push_all(&mut out, split_lines(&trimmed_end(&rendered)));
    push_section(&mut out, "field sources:", source_lines(&resolved.directive_sources));
    push_section(
        &mut out,
        "ignored scalar assignments:",
        ignored_lines(&resolved.ignored_scalar_overrides),
    );
    push_section(&mut out, "root Match notes:", note_lines(&resolved.root_match_notes));
    out
}

pub fn describe_resolved_target(resolved: &ResolvedEntry) -> (r: String)
    ensures
        r@ == trim_end(join(description(resolved@), "\n"@)),
{
    trimmed_end(&joined(&describe_resolved_target_lines(resolved), "\n"))
}

} // verus!
