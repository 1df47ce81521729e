//! What is shown of entries.

use vstd::prelude::*;

use crate::commands::cli::ShowArgs;
use crate::commands::delete::{confirmation, deleted_of, listed_line};
use crate::commands::doctor::{doctor_lines, doctor_report};
use crate::commands::meta::{bulk_ids, recorded_ids, unrecorded};
use crate::commands::selection::{FilterView, passing};
use crate::commands::show::{
    directive_lines, entry_description, entry_row, list_of, merged_output, record_lines,
    shown_options, tags_text,
};
use crate::config::describe::{
    description, entry_line, ignored_line, merged_lines, origin_text, section, source_line,
};
use crate::config::match_header::BlockView;
use crate::config::model::{IgnoredView, ManagedView, ResolvedView, SourceView};
use crate::config::render::directives_of;
use crate::config::resolve::some_uses_version;
use crate::config::state::{MetadataView, StateView, missing_count, record_of, unused_count};
use crate::layout::AppPaths;
use crate::text::{contains_text, decimal, join, opt, or_dash, padded, starts_with, strs, trim_end};

verus! {

proof fn lemma_in_text(a: Seq<char>, x: Seq<char>, b: Seq<char>)
    ensures
        contains_text(a + x + b, x),
{
    let s = a + x + b;
    let k = a.len() as int;
    assert(s.skip(k).take(x.len() as int) =~= x);
    assert(starts_with(s.skip(k), x));
}

proof fn lemma_in_longer(a: Seq<char>, s: Seq<char>, b: Seq<char>, x: Seq<char>)
    requires
        contains_text(s, x),
    ensures
        contains_text(a + s + b, x),
{
    let k = choose|k: int| 0 <= k <= s.len() && #[trigger] starts_with(s.skip(k), x);
    let t = a + s + b;
    let n = a.len() + k;
    assert(t.skip(n).take(x.len() as int) =~= s.skip(k).take(x.len() as int));
    assert(starts_with(t.skip(n), x));
}

proof fn lemma_padded(s: Seq<char>, width: nat)
    ensures
        starts_with(padded(s, width), s),
        contains_text(padded(s, width), s),
        padded(s, width).len() >= width,
    decreases width - s.len(),
{
    let p = padded(s, width);
    if s.len() < width {
        lemma_padded(s.push(' '), width);
        assert(p.take(s.len() as int) =~= p.take(s.len() as int + 1).take(s.len() as int));
        assert(s.push(' ').take(s.len() as int) =~= s);
        assert(p.take(s.len() as int) =~= s);
    } else {
        assert(p.take(s.len() as int) =~= s);
    }
    assert(p.skip(0) =~= p);
    assert(starts_with(p.skip(0), s));
}

/// A column is the text, filled up with spaces to the width of the column.
pub proof fn law_column_starts_with_the_text(s: Seq<char>, width: nat)
    ensures
        starts_with(padded(s, width), s),
        s.len() < width ==> padded(s, width).len() == width,
        s.len() >= width ==> padded(s, width) == s,
        forall|i: int| s.len() <= i < padded(s, width).len() ==> #[trigger] padded(s, width)[i] == ' ',
    decreases width - s.len(),
{
    lemma_padded(s, width);
    if s.len() < width {
        law_column_starts_with_the_text(s.push(' '), width);
        let p = padded(s, width);
        assert(p.take(s.len() as int + 1)[s.len() as int] == s.push(' ')[s.len() as int]);
        assert(p[s.len() as int] == ' ');
    }
}

/// A row of the list shows the order, the kind, the patterns and the host name of the entry, and
/// the tags and the note of its record.
#[verifier::rlimit(30)]
pub proof fn law_row_shows_the_entry(e: ManagedView, m: Option<MetadataView>)
    ensures
        contains_text(entry_row(e, m), decimal(e.order as nat)),
        contains_text(entry_row(e, m), e.entry.kind().spec_label()),
        contains_text(entry_row(e, m), join(e.entry.host_patterns, ","@)),
        e.entry.hostname is Some ==> contains_text(entry_row(e, m), e.entry.hostname->0),
        m is Some && m->0.tags.len() > 0 ==> contains_text(entry_row(e, m), join(m->0.tags, ","@)),
        m is Some && m->0.note is Some ==> contains_text(entry_row(e, m), m->0.note->0),
{
    let c1 = padded(decimal(e.order as nat), 6);
    let c2 = padded(e.entry.kind().spec_label(), 8);
    let c3 = padded(join(e.entry.host_patterns, ","@), 24);
    let c4 = padded(or_dash(e.entry.hostname), 24);
    let tags = match m {
        Some(r) => tags_text(r.tags),
        None => "-"@,
    };
    let note = match m {
        Some(r) => or_dash(r.note),
        None => "-"@,
    };
    let c5 = padded(tags, 16);
    let row = entry_row(e, m);
    lemma_padded(decimal(e.order as nat), 6);
    lemma_padded(e.entry.kind().spec_label(), 8);
    lemma_padded(join(e.entry.host_patterns, ","@), 24);
    lemma_padded(or_dash(e.entry.hostname), 24);
    lemma_padded(tags, 16);
    let s = " "@;
    let r2 = c1 + s + c2;
    let r3 = r2 + s + c3;
    let r4 = r3 + s + c4;
    let r5 = r4 + s + c5;
    lemma_columns(c1, s, c2);
    lemma_columns(r2, s, c3);
    lemma_columns(r3, s, c4);
    lemma_columns(r4, s, c5);
    lemma_columns(r5, s, note);
    assert(row == r5 + s + note);
    assert(note.skip(0) =~= note);
    assert(note.take(note.len() as int) =~= note);
    assert(starts_with(note.skip(0), note));
    assert(contains_text(note, note));
}

proof fn lemma_columns(r: Seq<char>, s: Seq<char>, c: Seq<char>)
    ensures
        forall|x: Seq<char>| #[trigger] contains_text(r, x) ==> contains_text(r + s + c, x),
        forall|x: Seq<char>| #[trigger] contains_text(c, x) ==> contains_text(r + s + c, x),
{
    let none = Seq::<char>::empty();
    assert forall|x: Seq<char>| #[trigger] contains_text(r, x) implies contains_text(r + s + c, x) by {
        lemma_in_longer(none, r, s + c, x);
        assert(none + r + (s + c) =~= r + s + c);
    }
    assert forall|x: Seq<char>| #[trigger] contains_text(c, x) implies contains_text(r + s + c, x) by {
        lemma_in_longer(r + s, c, none, x);
        assert(r + s + c + none =~= r + s + c);
    }
}

/// The list has a row for each entry that was picked, in their order, with its record, under a
/// heading.
pub proof fn law_list_has_a_row_for_each(
    es: Seq<ManagedView>,
    ms: Seq<MetadataView>,
    picked: Seq<int>,
    windows: bool,
)
    ensures
        picked.len() > 0 ==> list_of(es, ms, picked, windows).len() == picked.len() + 1,
        forall|i: int|
            0 <= i < picked.len() ==> #[trigger] list_of(es, ms, picked, windows)[i + 1]
                == entry_row(es[picked[i]], record_of(ms, es[picked[i]], windows)),
        picked.len() == 0 ==> list_of(es, ms, picked, windows).len() == 1,
{
}

/// What is shown of an entry has its order, its kind, its file and each of its directives, and what
/// its record remembers.
#[verifier::rlimit(30)]
pub proof fn law_description_has_each_directive(e: ManagedView, m: Option<MetadataView>)
    ensures
        ({
            let ls = entry_description(e, m);
            &&& ls.contains("order: "@ + decimal(e.order as nat))
            &&& ls.contains("kind: "@ + e.entry.kind().spec_label())
            &&& ls.contains("slug: "@ + e.slug)
            &&& ls.contains("file: "@ + e.path)
            &&& forall|i: int|
                0 <= i < directives_of(e.entry).len() ==> ls.contains(
                    padded((#[trigger] directives_of(e.entry)[i]).0, 28) + " "@ + directives_of(
                        e.entry,
                    )[i].1,
                )
            &&& m is Some ==> ls.contains("metadata id: "@ + m->0.id) && ls.contains(
                "updated at: "@ + m->0.updated_at,
            )
            &&& m is Some && m->0.note is Some ==> ls.contains("note: "@ + m->0.note->0)
            &&& m is Some && m->0.tags.len() > 0 ==> ls.contains("tags: "@ + join(m->0.tags, ","@))
            &&& m is Some && m->0.template_source is Some ==> ls.contains(
                "template source: "@ + m->0.template_source->0,
            )
        }),
{
    let ls = entry_description(e, m);
    let ds = directive_lines(e.entry);
    let n = ls.len() - ds.len();
    assert(ls[0] == "order: "@ + decimal(e.order as nat));
    assert(ls[1] == "slug: "@ + e.slug);
    assert(ls[2] == "kind: "@ + e.entry.kind().spec_label());
    assert(ls[3] == "file: "@ + e.path);
    assert forall|i: int| 0 <= i < directives_of(e.entry).len() implies ls.contains(
        padded((#[trigger] directives_of(e.entry)[i]).0, 28) + " "@ + directives_of(e.entry)[i].1,
    ) by {
        assert(ls[n + i] == ds[i]);
    }
    if let Some(r) = m {
        let rs = record_lines(r);
        assert forall|i: int| 0 <= i < rs.len() implies ls[4 + i] == #[trigger] rs[i] by {}
        assert(rs[0] == "metadata id: "@ + r.id);
        let k = rs.len() - 3;
        assert(rs[k] == "tags: "@ + tags_text(r.tags));
        assert(rs[k + 1] == "note: "@ + or_dash(r.note));
        assert(rs[k + 2] == "updated at: "@ + r.updated_at);
        assert(ls[4] == rs[0]);
        assert(ls[4 + k] == rs[k]);
        assert(ls[4 + (k + 1)] == rs[k + 1]);
        assert(ls[4 + (k + 2)] == rs[k + 2]);
        if let Some(t) = r.template_source {
            assert(rs[1] == "template source: "@ + t);
            assert(ls[5] == rs[1]);
        }
    }
}

proof fn lemma_in_either(a: Seq<Seq<char>>, b: Seq<Seq<char>>)
    ensures
        forall|x: Seq<char>| #[trigger] a.contains(x) ==> (a + b).contains(x),
        forall|x: Seq<char>| #[trigger] b.contains(x) ==> (a + b).contains(x),
{
    let s = a + b;
    assert forall|x: Seq<char>| #[trigger] a.contains(x) implies s.contains(x) by {
        let i = choose|i: int| 0 <= i < a.len() && a[i] == x;
        assert(s[i] == x);
    }
    assert forall|x: Seq<char>| #[trigger] b.contains(x) implies s.contains(x) by {
        let i = choose|i: int| 0 <= i < b.len() && b[i] == x;
        assert(s[a.len() + i] == x);
    }
}

/// The preview of a target tells each entry that speaks of it, where each of its values comes from,
/// each value that was passed over, and each note on the `Match` blocks.
#[verifier::rlimit(30)]
pub proof fn law_preview_tells_all(r: ResolvedView)
    ensures
        ({
            let ls = description(r);
            &&& ls.contains("target: "@ + r.target)
            &&& forall|i: int|
                0 <= i < r.matched_entries.len() ==> ls.contains(
                    entry_line(#[trigger] r.matched_entries[i]),
                )
            &&& forall|i: int|
                0 <= i < r.directive_sources.len() ==> ls.contains(
                    source_line(#[trigger] r.directive_sources[i]),
                )
            &&& forall|i: int|
                0 <= i < r.ignored_scalar_overrides.len() ==> ls.contains(
                    ignored_line(#[trigger] r.ignored_scalar_overrides[i]),
                )
            &&& forall|i: int|
                0 <= i < r.root_match_notes.len() ==> ls.contains(
                    "  - "@ + #[trigger] r.root_match_notes[i],
                )
            &&& forall|i: int|
                0 <= i < merged_lines(r.merged_entry).len() ==> ls.contains(
                    #[trigger] merged_lines(r.merged_entry)[i],
                )
        }),
{
    let p0 = seq!["target: "@ + r.target, "matched entries:"@];
    let p1 = r.matched_entries.map_values(|e: ManagedView| entry_line(e));
    let p2 = seq![Seq::<char>::empty(), "merged view:"@];
    let p3 = merged_lines(r.merged_entry);
    let b4 = r.directive_sources.map_values(|s: SourceView| source_line(s));
    let b5 = r.ignored_scalar_overrides.map_values(|i: IgnoredView| ignored_line(i));
    let b6 = r.root_match_notes.map_values(|n: Seq<char>| "  - "@ + n);
    let p4 = section("field sources:"@, b4);
    let p5 = section("ignored scalar assignments:"@, b5);
    let p6 = section("root Match notes:"@, b6);
    lemma_in_either(p0, p1);
    lemma_in_either(p0 + p1, p2);
    lemma_in_either(p0 + p1 + p2, p3);
    lemma_in_either(p0 + p1 + p2 + p3, p4);
    lemma_in_either(p0 + p1 + p2 + p3 + p4, p5);
    lemma_in_either(p0 + p1 + p2 + p3 + p4 + p5, p6);
    let ls = description(r);
    assert(ls == p0 + p1 + p2 + p3 + p4 + p5 + p6);
    assert(p0[0] == "target: "@ + r.target);
    assert(p0.contains("target: "@ + r.target));
    assert forall|i: int| 0 <= i < r.matched_entries.len() implies ls.contains(
        entry_line(#[trigger] r.matched_entries[i]),
    ) by {
        assert(p1[i] == entry_line(r.matched_entries[i]));
        assert(p1.contains(p1[i]));
    }
    assert forall|i: int| 0 <= i < p3.len() implies ls.contains(#[trigger] p3[i]) by {
        assert(p3.contains(p3[i]));
    }
    assert forall|i: int| 0 <= i < r.directive_sources.len() implies ls.contains(
        source_line(#[trigger] r.directive_sources[i]),
    ) by {
        assert(p4[i + 2] == b4[i]);
        assert(p4.contains(b4[i]));
    }
    assert forall|i: int| 0 <= i < r.ignored_scalar_overrides.len() implies ls.contains(
        ignored_line(#[trigger] r.ignored_scalar_overrides[i]),
    ) by {
        assert(p5[i + 2] == b5[i]);
        assert(p5.contains(b5[i]));
    }
    assert forall|i: int| 0 <= i < r.root_match_notes.len() implies ls.contains(
        "  - "@ + #[trigger] r.root_match_notes[i],
    ) by {
        assert(p6[i + 2] == b6[i]);
        assert(p6.contains(b6[i]));
    }
}

/// The line of a value that was passed over shows both values and where they come from; the line of
/// a source shows its value and where it comes from.
pub proof fn law_lines_show_values_and_origins(s: SourceView, i: IgnoredView)
    ensures
        contains_text(source_line(s), s.key + " = "@ + s.value),
        contains_text(source_line(s), origin_text(s.origin)),
        contains_text(ignored_line(i), i.key + " = "@ + i.attempted_value),
        contains_text(ignored_line(i), i.winning_value),
        contains_text(ignored_line(i), origin_text(i.attempted_origin)),
        contains_text(ignored_line(i), origin_text(i.winning_origin)),
{
    let none = Seq::<char>::empty();
    let o = origin_text(s.origin);
    lemma_in_text("  - "@, s.key + " = "@ + s.value, " <- "@ + o);
    assert(source_line(s) =~= "  - "@ + (s.key + " = "@ + s.value) + (" <- "@ + o));
    lemma_in_text("  - "@ + s.key + " = "@ + s.value + " <- "@, o, none);
    assert(source_line(s) =~= "  - "@ + s.key + " = "@ + s.value + " <- "@ + o + none);
    let a = origin_text(i.attempted_origin);
    let w = origin_text(i.winning_origin);
    let kv = i.key + " = "@ + i.attempted_value;
    let by = " ignored; locked by "@;
    lemma_in_text("  - "@, kv, " from "@ + a + by + w + " -> "@ + i.winning_value);
    assert(ignored_line(i) =~= "  - "@ + kv + (" from "@ + a + by + w + " -> "@
        + i.winning_value));
    lemma_in_text("  - "@ + kv + " from "@, a, by + w + " -> "@ + i.winning_value);
    assert(ignored_line(i) =~= "  - "@ + kv + " from "@ + a + (by + w + " -> "@
        + i.winning_value));
    lemma_in_text("  - "@ + kv + " from "@ + a + by, w, " -> "@ + i.winning_value);
    assert(ignored_line(i) =~= "  - "@ + kv + " from "@ + a + by + w + (" -> "@
        + i.winning_value));
    lemma_in_text("  - "@ + kv + " from "@ + a + by + w + " -> "@, i.winning_value, none);
    assert(ignored_line(i) =~= "  - "@ + kv + " from "@ + a + by + w + " -> "@ + i.winning_value
        + none);
}

/// A preview is shown where some entry speaks of the target.
pub proof fn law_preview_is_shown_where_entries_match(r: ResolvedView, host: Seq<char>)
    ensures
        merged_output(Ok(r), host) is Ok <==> r.matched_entries.len() > 0,
        merged_output(Ok(r), host) matches Ok(t) ==> t == trim_end(join(description(r), "\n"@)),
{
}

/// What is asked for in the request goes before what the machine says.
pub proof fn law_request_goes_before_the_machine(
    args: ShowArgs,
    local_user: Seq<char>,
    local_networks: Seq<Seq<char>>,
    ssh_version: Option<Seq<char>>,
    bs: Seq<BlockView>,
)
    ensures
        ({
            let o = shown_options(args, local_user, local_networks, ssh_version, bs);
            &&& args.match_local_user is Some ==> o.local_user == opt(args.match_local_user)
            &&& args.match_local_user is None && local_user.len() > 0 ==> o.local_user == Some(
                local_user,
            )
            &&& o.current_user == opt(args.match_user)
            &&& o.initial_tag == opt(args.match_tag)
            &&& args.match_ssh_version is Some ==> o.ssh_version == opt(args.match_ssh_version)
            &&& args.match_ssh_version is None && some_uses_version(bs) ==> o.ssh_version
                == ssh_version
            &&& args.match_session_type is Some ==> o.session_type == opt(args.match_session_type)
            &&& args.match_session_type is None ==> o.session_type == Some("shell"@)
            &&& args.match_command is Some ==> o.command == opt(args.match_command)
            &&& args.match_command is None ==> o.command == Some(Seq::<char>::empty())
            &&& args.match_local_networks@.len() > 0 ==> o.local_networks == strs(
                args.match_local_networks@,
            )
            &&& args.match_local_networks@.len() == 0 ==> o.local_networks == local_networks
            &&& o.is_canonical == args.match_canonical
            &&& o.is_final == !args.match_non_final
        }),
{
}

/// What is asked before entries are deleted shows each of them, up to twenty, and how many there
/// are.
pub proof fn law_confirmation_shows_the_entries(
    es: Seq<ManagedView>,
    selector: Option<Seq<char>>,
    k: int,
)
    requires
        0 <= k < es.len(),
    ensures
        es.len() == 1 ==> confirmation(es, selector).contains("Host: "@ + es[0].entry.primary())
            && confirmation(es, selector).contains("File: "@ + es[0].path),
        es.len() > 1 && k < 20 ==> confirmation(es, selector).contains(listed_line(es[k])),
        es.len() > 1 ==> confirmation(es, selector).contains("Matched entries: "@ + decimal(es.len())),
        es.len() > 20 ==> confirmation(es, selector).contains(
            "  ... and "@ + decimal((es.len() - 20) as nat) + " more"@,
        ),
        deleted_of(es[k]).host == es[k].entry.primary() && deleted_of(es[k]).path == es[k].path,
{
    let ls = confirmation(es, selector);
    if es.len() == 1 {
        assert(ls[2] == "Host: "@ + es[0].entry.primary());
        assert(ls[5] == "File: "@ + es[0].path);
    } else {
        assert(ls[2] == "Matched entries: "@ + decimal(es.len()));
        let n: int = if selector is Some {
            4
        } else {
            3
        };
        if k < 20 {
            assert(ls[n + k] == listed_line(es[k]));
        }
        if es.len() > 20 {
            assert(ls[n + 20] == "  ... and "@ + decimal((es.len() - 20) as nat) + " more"@);
        }
    }
}

/// The snapshot of the state of things tells the places, how many entries and records there are,
/// and how many records are missing or stale.
pub proof fn law_doctor_tells_the_counts(
    paths: AppPaths,
    content: Option<Seq<char>>,
    es: Seq<ManagedView>,
    state: StateView,
    snapshots: int,
    version: Option<Seq<char>>,
    error: Option<Seq<char>>,
    windows: bool,
)
    ensures
        ({
            let d = doctor_report(paths, content, es, state, snapshots, version, error, windows);
            let ls = doctor_lines(d);
            &&& d.managed_entries == es.len()
            &&& d.records == state.entries.len()
            &&& d.missing_records == missing_count(state.entries, es, windows)
            &&& d.stale_records == unused_count(state.entries, es, state.entries.len(), windows)
            &&& d.snapshots == snapshots
            &&& d.ssh_available == (error is None && version is Some)
            &&& ls.contains("managed entry count: "@ + decimal(es.len()))
            &&& ls.contains("metadata entry count: "@ + decimal(state.entries.len()))
            &&& ls.contains("missing metadata count: "@ + decimal(d.missing_records as nat))
            &&& ls.contains("stale metadata count: "@ + decimal(d.stale_records as nat))
            &&& ls.contains("root config: "@ + paths.root_config@)
            &&& ls.contains("managed dir: "@ + paths.config_d_dir@)
            &&& ls.contains("state file: "@ + paths.state_file@)
            &&& ls.contains("backups dir: "@ + paths.backups_dir@)
        }),
{
    let d = doctor_report(paths, content, es, state, snapshots, version, error, windows);
    let ls = doctor_lines(d);
    assert(ls[1] == "root config: "@ + paths.root_config@);
    assert(ls[2] == "managed dir: "@ + paths.config_d_dir@);
    assert(ls[4] == "backups dir: "@ + paths.backups_dir@);
    assert(ls[5] == "state file: "@ + paths.state_file@);
    assert(ls[8] == "managed entry count: "@ + decimal(es.len()));
    assert(ls[10] == "metadata entry count: "@ + decimal(state.entries.len()));
    assert(ls[11] == "missing metadata count: "@ + decimal(d.missing_records as nat));
    assert(ls[12] == "stale metadata count: "@ + decimal(d.stale_records as nat));
}

#[verifier::rlimit(30)]
proof fn lemma_recorded_ids(
    es: Seq<ManagedView>,
    ms: Seq<MetadataView>,
    picked: Seq<int>,
    windows: bool,
)
    ensures
        unrecorded(es, ms, picked, windows).len() == 0 <==> forall|i: int|
            0 <= i < picked.len() ==> record_of(ms, es[#[trigger] picked[i]], windows) is Some,
        unrecorded(es, ms, picked, windows).len() == 0 ==> {
            let ids = recorded_ids(es, ms, picked, windows);
            ids.len() == picked.len() && forall|i: int|
                0 <= i < picked.len() ==> ids[i] == (record_of(
                    ms,
                    es[#[trigger] picked[i]],
                    windows,
                )->0).id
        },
    decreases picked.len(),
{
    if picked.len() > 0 {
        let head = picked.drop_last();
        lemma_recorded_ids(es, ms, head, windows);
        assert(picked[picked.len() - 1] == picked.last());
        assert(forall|i: int| 0 <= i < head.len() ==> #[trigger] head[i] == picked[i]);
        if unrecorded(es, ms, head, windows).len() > 0 {
            let i = choose|i: int|
                0 <= i < head.len() && record_of(ms, es[#[trigger] head[i]], windows) is None;
            assert(record_of(ms, es[picked[i]], windows) is None);
        } else {
            assert forall|i: int| 0 <= i < head.len() implies record_of(
                ms,
                es[#[trigger] picked[i]],
                windows,
            ) is Some by {
                assert(record_of(ms, es[head[i]], windows) is Some);
            }
            let before = recorded_ids(es, ms, head, windows);
            let ids = recorded_ids(es, ms, picked, windows);
            if record_of(ms, es[picked.last()], windows) is Some {
                assert forall|i: int| 0 <= i < picked.len() implies ids[i] == (record_of(
                    ms,
                    es[#[trigger] picked[i]],
                    windows,
                )->0).id by {
                    if i < head.len() {
                        assert(before[i] == (record_of(ms, es[head[i]], windows)->0).id);
                    }
                }
            }
        }
    }
}

/// Changes to many records are to those of the entries that pass, all of them, and are refused
/// where nothing was asked for, nothing passes, or an entry has no record.
pub proof fn law_bulk_changes_are_to_what_passes(
    es: Seq<ManagedView>,
    ms: Seq<MetadataView>,
    all: bool,
    f: FilterView,
    windows: bool,
)
    ensures
        ({
            let picked = passing(f, es, ms, es.len(), windows);
            let r = bulk_ids(es, ms, all, f, windows);
            &&& r is Ok <==> (all || !f.is_empty()) && picked.len() > 0 && forall|i: int|
                0 <= i < picked.len() ==> record_of(ms, es[#[trigger] picked[i]], windows) is Some
            &&& r matches Ok(ids) ==> ids.len() == picked.len() && forall|i: int|
                0 <= i < picked.len() ==> ids[i] == (record_of(
                    ms,
                    es[#[trigger] picked[i]],
                    windows,
                )->0).id
        }),
{
    lemma_recorded_ids(es, ms, passing(f, es, ms, es.len(), windows), windows);
}

} // verus!
