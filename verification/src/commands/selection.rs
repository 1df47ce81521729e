//! Which entries a request speaks of.

#![verifier::loop_isolation(false)]

use vstd::prelude::*;

use crate::commands::cli::MetadataFilterArgs;
use crate::config::model::{ManagedEntry, ManagedView, copy_slice};
use crate::config::state::{
    AppState, EntryMetadata, MetadataView, clean, clean_tags, find_entry_metadata, normalize_tags,
    record_of, template_text,
};
use crate::config::store::{find_entry_by_host, managed, managed_all, until_host};
use crate::error::ConfigError;
use crate::strings::{
    concat2, concat3, equal_ignoring_case, has_text, holds, is_blank, joined, lowered, trimmed,
};
use crate::text::{
    blank, contains_text, join, lower, opt, opt_str, same_ignoring_case, strs, trim, views,
};

verus! {

broadcast use crate::text::group_text;

/// What an entry must show to be meant.
#[derive(Debug, PartialEq, Eq)]
pub struct EntryFilter {
    pub query: Option<String>,
    pub tags: Vec<String>,
    pub has_note: bool,
    pub template: Option<String>,
}

/// What an [`EntryFilter`] holds.
#[verifier::ext_equal]
pub struct FilterView {
    pub query: Option<Seq<char>>,
    pub tags: Seq<Seq<char>>,
    pub has_note: bool,
    pub template: Option<Seq<char>>,
}

impl View for EntryFilter {
    type V = FilterView;

    open spec fn view(&self) -> FilterView {
        FilterView {
            query: opt(self.query),
            tags: strs(self.tags@),
            has_note: self.has_note,
            template: opt(self.template),
        }
    }
}

/// An entry with its record.
#[derive(Debug, Clone, Copy)]
pub struct SelectedEntry<'a> {
    pub entry: &'a ManagedEntry,
    pub metadata: Option<&'a EntryMetadata>,
}

/// A text cleaned, unless it is blank.
pub open spec fn clean_optional(value: Option<Seq<char>>) -> Option<Seq<char>> {
    match value {
        Some(v) => if clean(v).len() == 0 {
            None
        } else {
            Some(clean(v))
        },
        None => None,
    }
}

fn normalize_optional(value: &Option<String>) -> (r: Option<String>)
    ensures
        opt(r) == clean_optional(opt(*value)),
{
    match value {
        Some(v) => {
            let c: String = lowered(&trimmed(v));
            if c.as_str().is_empty() {
                None
            } else {
                Some(c)
            }
        },
        None => None,
    }
}

/// The filter of the given parts: texts are cleaned, blank ones do not count.
pub open spec fn filter_of(
    query: Option<Seq<char>>,
    tags: Seq<Seq<char>>,
    has_note: bool,
    template: Option<Seq<char>>,
) -> FilterView {
    FilterView {
        query: clean_optional(query),
        tags: clean_tags(tags),
        has_note,
        template: clean_optional(template),
    }
}

/// The filter that a request asks for.
pub open spec fn requested_filter(args: MetadataFilterArgs) -> FilterView {
    filter_of(opt(args.query), strs(args.tags@), args.has_note, template_text(args.template))
}

impl FilterView {
    /// Nothing is asked of an entry.
    pub open spec fn is_empty(self) -> bool {
        self.query is None && self.tags.len() == 0 && !self.has_note && self.template is None
    }
}

/// Some text holds `query`, whatever the case of its letters.
pub open spec fn some_holds(texts: Seq<Seq<char>>, query: Seq<char>) -> bool {
    exists|i: int| 0 <= i < texts.len() && contains_text(lower(#[trigger] texts[i]), query)
}

pub open spec fn text_holds(text: Option<Seq<char>>, query: Seq<char>) -> bool {
    text matches Some(t) && contains_text(lower(t), query)
}

pub open spec fn query_hits(query: Seq<char>, e: ManagedView, m: Option<MetadataView>) -> bool {
    ||| some_holds(e.entry.host_patterns, query)
    ||| text_holds(e.entry.hostname, query)
    ||| m matches Some(r) && (some_holds(r.tags, query) || text_holds(r.note, query))
}

pub open spec fn has_all(texts: Seq<Seq<char>>, wanted: Seq<Seq<char>>) -> bool {
    forall|i: int| 0 <= i < wanted.len() ==> texts.contains(#[trigger] wanted[i])
}

/// The entry shows all that the filter asks for.
pub open spec fn passes(f: FilterView, e: ManagedView, m: Option<MetadataView>) -> bool {
    &&& f.query matches Some(q) ==> query_hits(q, e, m)
    &&& f.tags.len() > 0 ==> (m matches Some(r) && has_all(r.tags, f.tags))
    &&& f.has_note ==> (m matches Some(r) && r.note matches Some(n) && !blank(n))
    &&& f.template matches Some(t) ==> (m matches Some(r) && r.template_source matches Some(s)
        && same_ignoring_case(s, t))
}

/// The entry of that index shows all that the filter asks for.
pub open spec fn passes_at(
    f: FilterView,
    es: Seq<ManagedView>,
    ms: Seq<MetadataView>,
    i: int,
    windows: bool,
) -> bool {
    passes(f, es[i], record_of(ms, es[i], windows))
}

/// The indices of the entries that pass, among the first `n`.
pub open spec fn passing(
    f: FilterView,
    es: Seq<ManagedView>,
    ms: Seq<MetadataView>,
    n: nat,
    windows: bool,
) -> Seq<
    int,
>
    decreases n,
{
    if n == 0 {
        Seq::empty()
    } else {
        let before = passing(f, es, ms, (n - 1) as nat, windows);
        if passes_at(f, es, ms, n - 1, windows) {
            before.push(n - 1)
        } else {
            before
        }
    }
}

pub open spec fn ints(v: Seq<usize>) -> Seq<int> {
    Seq::new(v.len(), |i: int| v[i] as int)
}

fn any_holds(texts: &Vec<String>, query: &str) -> (r: bool)
    ensures
        r == some_holds(strs(texts@), query@),
{
    let ghost all = strs(texts@);
    let mut i: usize = 0;
    while i < texts.len()
        invariant
            i <= texts@.len(),
            all == strs(texts@),
            forall|k: int| 0 <= k < i ==> !contains_text(lower(#[trigger] all[k]), query@),
        decreases texts@.len() - i,
    {
        assert(all[i as int] == texts@[i as int]@);
        if has_text(&lowered(&texts[i]), query) {
            return true;
        }
        i += 1;
    }
    false
}

fn opt_holds(text: &Option<String>, query: &str) -> (r: bool)
    ensures
        r == text_holds(opt(*text), query@),
{
    match text {
        Some(t) => has_text(&lowered(t), query),
        None => false,
    }
}

fn holds_all(texts: &Vec<String>, wanted: &Vec<String>) -> (r: bool)
    ensures
        r == has_all(strs(texts@), strs(wanted@)),
{
    let ghost all = strs(wanted@);
    let mut i: usize = 0;
    while i < wanted.len()
        invariant
            i <= wanted@.len(),
            all == strs(wanted@),
            forall|k: int| 0 <= k < i ==> strs(texts@).contains(#[trigger] all[k]),
        decreases wanted@.len() - i,
    {
        assert(all[i as int] == wanted@[i as int]@);
        if !holds(texts, &wanted[i]) {
            return false;
        }
        i += 1;
    }
    true
}

pub open spec fn opt_record(m: Option<&EntryMetadata>) -> Option<MetadataView> {
    match m {
        Some(r) => Some(r@),
        None => None,
    }
}

impl EntryFilter {
    pub fn from_args(args: &MetadataFilterArgs) -> (r: EntryFilter)
        ensures
            r@ == requested_filter(*args),
    {
        let template: Option<String> = match args.template {
            Some(k) => Some(k.cli_name().to_owned()),
            None => None,
        };
        EntryFilter::from_parts(&args.query, &args.tags, args.has_note, &template)
    }

    pub fn from_parts(
        query: &Option<String>,
        tags: &Vec<String>,
        has_note: bool,
        template: &Option<String>,
    ) -> (r: EntryFilter)
        ensures
            r@ == filter_of(opt(*query), strs(tags@), has_note, opt(*template)),
    {
        EntryFilter {
            query: normalize_optional(query),
            tags: normalize_tags(tags),
            has_note,
            template: normalize_optional(template),
        }
    }

    pub fn is_empty(&self) -> (r: bool)
        ensures
            r == self@.is_empty(),
    {
        assert(self@.tags.len() == self.tags@.len());
        self.query.is_none() && self.tags.len() == 0 && !self.has_note && self.template.is_none()
    }

    pub fn matches(&self, entry: &ManagedEntry, metadata: Option<&EntryMetadata>) -> (r: bool)
        ensures
            r == passes(self@, entry@, opt_record(metadata)),
    {
        assert(self@.tags.len() == self.tags@.len());
        let query_match: bool = match &self.query {
            None => true,
            Some(q) => {
                any_holds(&entry.entry.host_patterns, q) || opt_holds(&entry.entry.hostname, q)
                    || match metadata {
                    Some(m) => any_holds(&m.tags, q) || opt_holds(&m.note, q),
                    None => false,
                }
            },
        };
        let tag_match: bool = self.tags.len() == 0 || match metadata {
            Some(m) => holds_all(&m.tags, &self.tags),
            None => false,
        };
        let note_match: bool = !self.has_note || match metadata {
            Some(m) => match &m.note {
                Some(n) => !is_blank(n),
                None => false,
            },
            None => false,
        };
        let template_match: bool = match &self.template {
            None => true,
            Some(t) => match metadata {
                Some(m) => match &m.template_source {
                    Some(s) => equal_ignoring_case(s, t),
                    None => false,
                },
                None => false,
            },
        };
        query_match && tag_match && note_match && template_match
    }
}

pub fn filter_entry_indices(
    entries: &[ManagedEntry],
    state: &AppState,
    filter: &EntryFilter,
    windows: bool,
) -> (r:
    Vec<usize>)
    ensures
        ints(r@) == passing(filter@, views(entries@), state@.entries, entries@.len(), windows),
        forall|k: int| 0 <= k < r@.len() ==> #[trigger] r@[k] < entries@.len(),
{
    let ghost es = views(entries@);
    let ghost ms = state@.entries;
    let mut out: Vec<usize> = Vec::new();
    let mut i: usize = 0;
    assert(ints(out@) =~= Seq::<int>::empty());
    while i < entries.len()
        invariant
            i <= entries@.len(),
            es == views(entries@),
            ms == state@.entries,
            ints(out@) == passing(filter@, es, ms, i as nat, windows),
            forall|k: int| 0 <= k < out@.len() ==> #[trigger] out@[k] < i,
        decreases entries@.len() - i,
    {
        assert(es[i as int] == entries@[i as int]@);
        let metadata: Option<&EntryMetadata> = find_entry_metadata(state, &entries[i], windows);
        if filter.matches(&entries[i], metadata) {
            let ghost before = ints(out@);
            out.push(i);
            assert(ints(out@) =~= before.push(i as int));
        }
        i += 1;
    }
    out
}

/// The entries that pass, with their records.
pub fn filter_entries<'a>(
    entries: &'a [ManagedEntry],
    state: &'a AppState,
    filter: &EntryFilter,
    windows: bool,
) -> (r: Vec<SelectedEntry<'a>>)
    ensures
        ({
            let picked = passing(filter@, views(entries@), state@.entries, entries@.len(), windows);
            &&& r@.len() == picked.len()
            &&& forall|k: int|
                0 <= k < r@.len() ==> (#[trigger] r@[k]).entry@ == views(entries@)[picked[k]]
                    && opt_record(r@[k].metadata) == record_of(
                    state@.entries,
                    views(entries@)[picked[k]],
                    windows,
                )
        }),
{
    let indices: Vec<usize> = filter_entry_indices(entries, state, filter, windows);
    let ghost es = views(entries@);
    let ghost picked = ints(indices@);
    let mut out: Vec<SelectedEntry<'a>> = Vec::new();
    let mut i: usize = 0;
    while i < indices.len()
        invariant
            i <= indices@.len(),
            es == views(entries@),
            picked == ints(indices@),
            out@.len() == i,
            forall|k: int| 0 <= k < indices@.len() ==> #[trigger] indices@[k] < entries@.len(),
            forall|k: int|
                0 <= k < i ==> (#[trigger] out@[k]).entry@ == es[picked[k]] && opt_record(
                    out@[k].metadata,
                ) == record_of(state@.entries, es[picked[k]], windows),
        decreases indices@.len() - i,
    {
        let n: usize = indices[i];
        let entry: &'a ManagedEntry = &entries[n];
        let metadata: Option<&'a EntryMetadata> = find_entry_metadata(state, entry, windows);
        assert(es[picked[i as int]] == entry@);
        out.push(SelectedEntry { entry, metadata });
        i += 1;
    }
    out
}

/// The entries of the given indices.
pub open spec fn at_indices(es: Seq<ManagedView>, picked: Seq<int>) -> Seq<ManagedView> {
    Seq::new(picked.len(), |k: int| es[picked[k]])
}

fn copies_at(entries: &[ManagedEntry], indices: &Vec<usize>) -> (r: Vec<ManagedEntry>)
    requires
        forall|k: int| 0 <= k < indices@.len() ==> #[trigger] indices@[k] < entries@.len(),
    ensures
        views(r@) == at_indices(views(entries@), ints(indices@)),
{
    let ghost es = views(entries@);
    let ghost picked = ints(indices@);
    let mut out: Vec<ManagedEntry> = Vec::new();
    let mut i: usize = 0;
    while i < indices.len()
        invariant
            i <= indices@.len(),
            es == views(entries@),
            picked == ints(indices@),
            forall|k: int| 0 <= k < indices@.len() ==> #[trigger] indices@[k] < entries@.len(),
            views(out@) == at_indices(es, picked).take(i as int),
        decreases indices@.len() - i,
    {
        out.push(entries[indices[i]].clone());
        i += 1;
        assert(views(out@) =~= at_indices(es, picked).take(i as int));
    }
    out
}

// ---------------------------------------------------------------------------
// A host, all entries, or a filter
// ---------------------------------------------------------------------------

/// Why a request does not say clearly which entries it means.
pub open spec fn selection_conflict(
    verb: Seq<char>,
    host: Option<Seq<char>>,
    all: bool,
    f: FilterView,
) -> Option<Seq<char>> {
    if all && host is Some {
        Some("cannot combine --all with a positional host"@)
    } else if all && !f.is_empty() {
        Some(
            "cannot combine --all with selector flags (--query, --tag, --has-note, --template)"@,
        )
    } else {
        match host {
            Some(h) => if blank(h) {
                Some("host cannot be empty"@)
            } else if !f.is_empty() {
                Some(
                    "cannot combine a positional host with selector flags (--all, --query, --tag, --has-note, --template)"@,
                )
            } else {
                None
            },
            None => if all || !f.is_empty() {
                None
            } else {
                Some(
                    verb
                        + " requires either a host or a selector (--all, --query, --tag, --has-note, --template)"@,
                )
            },
        }
    }
}

/// Accepts a request that names one host, or asks for all entries, or gives a filter, and no two
/// of these.
pub fn validate_selection(
    verb: &str,
    host: &Option<String>,
    all: bool,
    filter: &MetadataFilterArgs,
) -> (r: Result<(), ConfigError>)
    ensures
        selection_conflict(verb@, opt(*host), all, requested_filter(*filter)) == (match r {
            Ok(_) => None,
            Err(e) => Some(e@),
        }),
{
    let entry_filter: EntryFilter = EntryFilter::from_args(filter);
    let selector_requested: bool = !entry_filter.is_empty();
    if all && host.is_some() {
        return Err(ConfigError::of("cannot combine --all with a positional host"));
    }
    if all && selector_requested {
        return Err(
            ConfigError::of(
                "cannot combine --all with selector flags (--query, --tag, --has-note, --template)",
            ),
        );
    }
    match host {
        Some(h) => {
            if is_blank(h) {
                Err(ConfigError::of("host cannot be empty"))
            } else if selector_requested {
                Err(
                    ConfigError::of(
                        "cannot combine a positional host with selector flags (--all, --query, --tag, --has-note, --template)",
                    ),
                )
            } else {
                Ok(())
            }
        },
        None => {
            if all || selector_requested {
                Ok(())
            } else {
                Err(
                    ConfigError::new(
                        concat2(
                            verb,
                            " requires either a host or a selector (--all, --query, --tag, --has-note, --template)",
                        ),
                    ),
                )
            }
        },
    }
}

/// The entries that a request speaks of, or why there are none. `verb` names what is done to
/// several, `empty_is_error` whether there must be an entry where all are asked for.
pub open spec fn targets_of(
    verb: Seq<char>,
    empty_error: Option<Seq<char>>,
    es: Seq<ManagedView>,
    ms: Seq<MetadataView>,
    host: Option<Seq<char>>,
    all: bool,
    f: FilterView,
    windows: bool,
) -> Result<Seq<ManagedView>, Seq<char>> {
    match host {
        Some(h) => {
            let n = until_host(es, h);
            if n < es.len() {
                Ok(seq![es[n as int]])
            } else {
                Err("managed entry `"@ + h + "` not found"@)
            }
        },
        None => if all {
            match empty_error {
                Some(e) => if es.len() == 0 {
                    Err(e)
                } else {
                    Ok(es)
                },
                None => Ok(es),
            }
        } else if f.is_empty() {
            Err(
                "bulk "@ + verb
                    + " requires --all or at least one filter (--query, --tag, --has-note, --template)"@,
            )
        } else {
            let picked = passing(f, es, ms, es.len(), windows);
            if picked.len() == 0 {
                Err("no managed entries matched the provided selector"@)
            } else {
                Ok(at_indices(es, picked))
            }
        },
    }
}

/// The entries that a request speaks of.
pub fn select_targets(
    verb: &str,
    empty_error: Option<&str>,
    entries: &[ManagedEntry],
    state: &AppState,
    host: &Option<String>,
    all: bool,
    filter: &MetadataFilterArgs,
    windows: bool,
) -> (r: Result<Vec<ManagedEntry>, ConfigError>)
    ensures
        managed_all(r) == targets_of(
            verb@,
            opt_str(empty_error),
            views(entries@),
            state@.entries,
            opt(*host),
            all,
            requested_filter(*filter),
            windows,
        ),
{
    let ghost es = views(entries@);
    match host {
        Some(h) => match find_entry_by_host(entries, h) {
            Some(e) => {
                let r: Vec<ManagedEntry> = vec![e.clone()];
                assert(views(r@) =~= seq![e@]);
                Ok(r)
            },
            None => Err(ConfigError::new(concat3("managed entry `", h, "` not found"))),
        },
        None => {
            if all {
                if entries.len() == 0 {
                    match empty_error {
                        Some(e) => {
                            return Err(ConfigError::of(e));
                        },
                        None => {},
                    }
                }
                return Ok(copy_slice(entries));
            }
            let entry_filter: EntryFilter = EntryFilter::from_args(filter);
            if entry_filter.is_empty() {
                return Err(
                    ConfigError::new(
                        concat3(
                            "bulk ",
                            verb,
                            " requires --all or at least one filter (--query, --tag, --has-note, --template)",
                        ),
                    ),
                );
            }
            let indices: Vec<usize> = filter_entry_indices(entries, state, &entry_filter, windows);
            assert(ints(indices@).len() == indices@.len());
            if indices.len() == 0 {
                return Err(ConfigError::of("no managed entries matched the provided selector"));
            }
            Ok(copies_at(entries, &indices))
        },
    }
}

/// The selector of a request in words.
pub open spec fn selector_parts(args: MetadataFilterArgs) -> Seq<Seq<char>> {
    (match opt(args.query) {
        Some(q) => if blank(q) {
            Seq::<Seq<char>>::empty()
        } else {
            seq!["query="@ + trim(q)]
        },
        None => Seq::<Seq<char>>::empty(),
    }) + (if args.tags@.len() == 0 {
        Seq::<Seq<char>>::empty()
    } else {
        seq!["tags="@ + join(strs(args.tags@), ","@)]
    }) + (if args.has_note {
        seq!["note=yes"@]
    } else {
        Seq::<Seq<char>>::empty()
    }) + (match args.template {
        Some(k) => seq!["template="@ + k.name()],
        None => Seq::<Seq<char>>::empty(),
    })
}

/// What a request selects by, in words; nothing where it names a host.
pub fn selection_summary(host: &Option<String>, all: bool, filter: &MetadataFilterArgs) -> (r:
    Option<String>)
    ensures
        opt(r) == (if host is Some {
            None
        } else if all && requested_filter(*filter).is_empty() {
            Some("all managed entries"@)
        } else if selector_parts(*filter).len() == 0 {
            None
        } else {
            Some(join(selector_parts(*filter), " | "@))
        }),
{
    if host.is_some() {
        return None;
    }
    let entry_filter: EntryFilter = EntryFilter::from_args(filter);
    if all && entry_filter.is_empty() {
        return Some("all managed entries".to_owned());
    }
    let mut parts: Vec<String> = Vec::new();
    match &filter.query {
        Some(q) => {
            let t: String = trimmed(q);
            if !t.as_str().is_empty() {
                parts.push(concat2("query=", &t));
            }
        },
        None => {},
    }
    if filter.tags.len() > 0 {
        parts.push(concat2("tags=", &joined(&filter.tags, ",")));
    }
    if filter.has_note {
        parts.push("note=yes".to_owned());
    }
    match filter.template {
        Some(k) => {
            parts.push(concat2("template=", k.cli_name()));
        },
        None => {},
    }
    assert(strs(parts@) =~= selector_parts(*filter));
    assert(strs(parts@).len() == parts@.len());
    if parts.len() == 0 {
        None
    } else {
        Some(joined(&parts, " | "))
    }
}

// ---------------------------------------------------------------------------
// Laws
// ---------------------------------------------------------------------------

/// A filter that asks for nothing lets every entry pass.
pub proof fn law_empty_filter_passes_all(f: FilterView, e: ManagedView, m: Option<MetadataView>)
    requires
        f.is_empty(),
    ensures
        passes(f, e, m),
{
}

/// The selected indices rise, and are those of the entries that pass and no others.
pub proof fn law_selection_is_exact(
    f: FilterView,
    es: Seq<ManagedView>,
    ms: Seq<MetadataView>,
    n: nat,
    windows: bool,
)
    ensures
        forall|i: int, j: int|
            0 <= i < j < passing(f, es, ms, n, windows).len() ==> #[trigger] passing(f, es, ms, n, windows)[i]
                < #[trigger] passing(f, es, ms, n, windows)[j],
        forall|k: int|
            #[trigger] passing(f, es, ms, n, windows).contains(k) <==> 0 <= k < n && passes_at(
                f,
                es,
                ms,
                k,
                windows,
            ),
    decreases n,
{
    if n > 0 {
        let before = passing(f, es, ms, (n - 1) as nat, windows);
        law_selection_is_exact(f, es, ms, (n - 1) as nat, windows);
        let now = passing(f, es, ms, n, windows);
        assert forall|k: int| now.contains(k) <==> 0 <= k < n && passes_at(f, es, ms, k, windows) by {
            if now.contains(k) {
                let j = choose|j: int| 0 <= j < now.len() && now[j] == k;
                if j < before.len() {
                    assert(before[j] == k);
                    assert(before.contains(k));
                }
            }
            if 0 <= k < n && passes_at(f, es, ms, k, windows) {
                if k < n - 1 {
                    assert(before.contains(k));
                    let j = choose|j: int| 0 <= j < before.len() && before[j] == k;
                    assert(now[j] == k);
                } else {
                    assert(now[before.len() as int] == k);
                }
            }
        }
        assert forall|i: int, j: int| 0 <= i < j < now.len() implies #[trigger] now[i]
            < #[trigger] now[j] by {
            if j == before.len() {
                assert(before.contains(before[i]));
                assert(before[i] < n - 1);
                assert(now[i] == before[i]);
                assert(now[j] == n - 1);
            } else {
                assert(before[i] < before[j]);
                assert(now[i] == before[i] && now[j] == before[j]);
            }
        }
    }
}

} // verus!
