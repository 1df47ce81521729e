//! Changes to the records.

#![verifier::loop_isolation(false)]

use vstd::prelude::*;

use crate::commands::cli::MetaBulkSelectorArgs;
use crate::commands::selection::{
    EntryFilter, FilterView, SelectedEntry, filter_entries, opt_record, passing, requested_filter,
};
use crate::config::model::{ManagedEntry, ManagedView};
use crate::config::state::{
    AppState, ChangeView, EntryMetadata, MetadataChange, MetadataView, clean, record_of,
};
use crate::config::store::managed;
use crate::error::ConfigError;
use crate::strings::{concat2, concat3, decimal_text, joined, lowered, text_or_dash, trimmed};
use crate::text::{blank, decimal, join, or_dash, strs, trim, views};

verus! {

broadcast use crate::text::group_text;

/// A tag as it is recorded, unless it is blank.
pub fn normalize_tag(tag: &str) -> (r: Result<String, ConfigError>)
    ensures
        match r {
            Ok(t) => clean(tag@).len() > 0 && t@ == clean(tag@),
            Err(e) => clean(tag@).len() == 0 && e@ == "tag cannot be empty"@,
        },
{
    let t: String = lowered(&trimmed(tag));
    if t.as_str().is_empty() {
        return Err(ConfigError::of("tag cannot be empty"));
    }
    Ok(t)
}

/// The change that sets a note, unless it is blank.
pub fn set_note(note: &str) -> (r: Result<MetadataChange, ConfigError>)
    ensures
        match r {
            Ok(c) => !blank(note@) && c@ == ChangeView::SetNote(trim(note@)),
            Err(e) => blank(note@) && e@ == "note cannot be empty"@,
        },
{
    let n: String = trimmed(note);
    if n.as_str().is_empty() {
        return Err(ConfigError::of("note cannot be empty"));
    }
    Ok(MetadataChange::SetNote(n))
}

/// The change that adds a tag, unless it is blank.
pub fn add_tag(tag: &str) -> (r: Result<MetadataChange, ConfigError>)
    ensures
        match r {
            Ok(c) => clean(tag@).len() > 0 && c@ == ChangeView::AddTag(clean(tag@)),
            Err(e) => clean(tag@).len() == 0 && e@ == "tag cannot be empty"@,
        },
{
    match normalize_tag(tag) {
        Ok(t) => Ok(MetadataChange::AddTag(t)),
        Err(e) => Err(e),
    }
}

/// The change that removes a tag, unless it is blank.
pub fn remove_tag(tag: &str) -> (r: Result<MetadataChange, ConfigError>)
    ensures
        match r {
            Ok(c) => clean(tag@).len() > 0 && c@ == ChangeView::RemoveTag(clean(tag@)),
            Err(e) => clean(tag@).len() == 0 && e@ == "tag cannot be empty"@,
        },
{
    match normalize_tag(tag) {
        Ok(t) => Ok(MetadataChange::RemoveTag(t)),
        Err(e) => Err(e),
    }
}

/// The first patterns of the entries of the given indices that have no record.
pub open spec fn unrecorded(
    es: Seq<ManagedView>,
    ms: Seq<MetadataView>,
    picked: Seq<int>,
    windows: bool,
) -> Seq<Seq<char>>
    decreases picked.len(),
{
    if picked.len() == 0 {
        Seq::empty()
    } else {
        let before = unrecorded(es, ms, picked.drop_last(), windows);
        let e = es[picked.last()];
        if record_of(ms, e, windows) is None {
            before.push(e.entry.primary())
        } else {
            before
        }
    }
}

/// The identifiers of the records of the entries of the given indices.
pub open spec fn recorded_ids(
    es: Seq<ManagedView>,
    ms: Seq<MetadataView>,
    picked: Seq<int>,
    windows: bool,
) -> Seq<Seq<char>>
    decreases picked.len(),
{
    if picked.len() == 0 {
        Seq::empty()
    } else {
        let before = recorded_ids(es, ms, picked.drop_last(), windows);
        match record_of(ms, es[picked.last()], windows) {
            Some(m) => before.push(m.id),
            None => before,
        }
    }
}

/// The records that are changed together, or why none are.
pub open spec fn bulk_ids(
    es: Seq<ManagedView>,
    ms: Seq<MetadataView>,
    all: bool,
    f: FilterView,
    windows: bool,
) -> Result<Seq<Seq<char>>, Seq<char>> {
    let picked = passing(f, es, ms, es.len(), windows);
    let missing = unrecorded(es, ms, picked, windows);
    if !all && f.is_empty() {
        Err(
            "bulk selection requires --all or at least one filter (--query, --tag, --has-note, --template)"@,
        )
    } else if picked.len() == 0 {
        Err("no managed entries matched the provided selector"@)
    } else if missing.len() > 0 {
        Err("selected managed entries are missing metadata: "@ + join(missing, ", "@))
    } else {
        Ok(recorded_ids(es, ms, picked, windows))
    }
}

pub fn select_metadata_ids(
    entries: &[ManagedEntry],
    state: &AppState,
    selector: &MetaBulkSelectorArgs,
    windows: bool,
) -> (r: Result<Vec<String>, ConfigError>)
    ensures
        bulk_ids(
            views(entries@),
            state@.entries,
            selector.all,
            requested_filter(selector.filter),
            windows,
        ) == (match r {
            Ok(v) => Ok(strs(v@)),
            Err(e) => Err(e@),
        }),
{
    let filter: EntryFilter = EntryFilter::from_args(&selector.filter);
    if !selector.all && filter.is_empty() {
        return Err(
            ConfigError::of(
                "bulk selection requires --all or at least one filter (--query, --tag, --has-note, --template)",
            ),
        );
    }
    let selected: Vec<SelectedEntry> = filter_entries(entries, state, &filter, windows);
    let ghost es = views(entries@);
    let ghost ms = state@.entries;
    let ghost picked = passing(filter@, es, ms, es.len(), windows);
    if selected.len() == 0 {
        return Err(ConfigError::of("no managed entries matched the provided selector"));
    }
    let mut missing: Vec<String> = Vec::new();
    let mut ids: Vec<String> = Vec::new();
    let mut i: usize = 0;
    while i < selected.len()
        invariant
            i <= selected@.len() == picked.len(),
            es == views(entries@),
            ms == state@.entries,
            forall|k: int|
                0 <= k < selected@.len() ==> (#[trigger] selected@[k]).entry@ == es[picked[k]]
                    && opt_record(selected@[k].metadata) == record_of(ms, es[picked[k]], windows),
            strs(missing@) == unrecorded(es, ms, picked.take(i as int), windows),
            strs(ids@) == recorded_ids(es, ms, picked.take(i as int), windows),
        decreases selected@.len() - i,
    {
        let item: SelectedEntry = selected[i];
        assert(item.entry@ == es[picked[i as int]]);
        match item.metadata {
            Some(m) => {
                ids.push(m.id.clone());
            },
            None => {
                missing.push(item.entry.entry.primary_pattern().to_owned());
            },
        }
        i += 1;
    }
    assert(strs(missing@).len() == missing@.len());
    if missing.len() > 0 {
        return Err(
            ConfigError::new(
                concat2(
                    "selected managed entries are missing metadata: ",
                    &joined(&missing, ", "),
                ),
            ),
        );
    }
    Ok(ids)
}

/// A record in words, line by line.
pub open spec fn record_text(m: MetadataView) -> Seq<Seq<char>> {
    seq![
        "id: "@ + m.id,
        "host: "@ + m.primary_pattern,
        "hosts: "@ + join(m.host_patterns, ","@),
        "order: "@ + decimal(m.order as nat),
        "kind: "@ + m.entry_kind,
        "file: "@ + m.managed_filename,
        "template source: "@ + or_dash(m.template_source),
        "tags: "@ + (if m.tags.len() == 0 {
            "-"@
        } else {
            join(m.tags, ","@)
        }),
        "note: "@ + or_dash(m.note),
        "created at: "@ + m.created_at,
        "updated at: "@ + m.updated_at,
    ]
}

pub fn metadata_lines(metadata: &EntryMetadata) -> (r: Vec<String>)
    ensures
        strs(r@) == record_text(metadata@),
{
    assert(metadata@.tags.len() == metadata.tags@.len());
    let tags: String = if metadata.tags.len() == 0 {
        "-".to_owned()
    } else {
        joined(&metadata.tags, ",")
    };
    let r: Vec<String> = vec![
        concat2("id: ", &metadata.id),
        concat2("host: ", &metadata.primary_pattern),
        concat2("hosts: ", &joined(&metadata.host_patterns, ",")),
        concat2("order: ", &decimal_text(metadata.order as usize)),
        concat2("kind: ", &metadata.entry_kind),
        concat2("file: ", &metadata.managed_filename),
        concat2("template source: ", &text_or_dash(&metadata.template_source)),
        concat2("tags: ", &tags),
        concat2("note: ", &text_or_dash(&metadata.note)),
        concat2("created at: ", &metadata.created_at),
        concat2("updated at: ", &metadata.updated_at),
    ];
    assert(strs(r@) =~= record_text(metadata@));
    r
}

/// What is told of the records that were changed, line by line.
pub open spec fn bulk_summary(action: Seq<char>, ms: Seq<MetadataView>) -> Seq<Seq<char>> {
    seq![
        action + " managed entr"@ + (if ms.len() == 1 {
            "y"@
        } else {
            "ies"@
        }),
    ] + ms.map_values(|m: MetadataView| "  - "@ + m.primary_pattern)
}

pub fn bulk_summary_lines(action: &str, updated: &Vec<EntryMetadata>) -> (r: Vec<String>)
    ensures
        strs(r@) == bulk_summary(action@, views(updated@)),
{
    let ghost ms = views(updated@);
    assert(ms.len() == updated@.len());
    let ending: &str = if updated.len() == 1 {
        "y"
    } else {
        "ies"
    };
    let mut out: Vec<String> = vec![concat3(action, " managed entr", ending)];
    let ghost head = seq![action@ + " managed entr"@ + ending@];
    let mut i: usize = 0;
    assert(strs(out@) =~= head + ms.take(0).map_values(
        |m: MetadataView| "  - "@ + m.primary_pattern,
    ));
    while i < updated.len()
        invariant
            i <= updated@.len(),
            ms == views(updated@),
            strs(out@) == head + ms.take(i as int).map_values(
                |m: MetadataView| "  - "@ + m.primary_pattern,
            ),
        decreases updated@.len() - i,
    {
        out.push(concat2("  - ", &updated[i].primary_pattern));
        i += 1;
        assert(strs(out@) =~= head + ms.take(i as int).map_values(
            |m: MetadataView| "  - "@ + m.primary_pattern,
        ));
    }
    out
}

} // verus!
