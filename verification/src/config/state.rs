//! What is known of the managed entries besides their directives.

#![verifier::loop_isolation(false)]

use vstd::prelude::*;

use crate::config::model::{ManagedEntry, ManagedView};
use crate::config::store::{dashed_name, managed, name_part, saved};
use crate::config::template::TemplateKind;
use crate::error::ConfigError;
use crate::paths::{file_name, file_name_of};
use crate::strings::{
    concat2, concat3, concat4, copy_opt, copy_strs, decimal_text, holds, is_less, lowered, same,
    same_strs, sorted_texts, texts_without, trimmed,
};
use crate::text::{blank, decimal, lower, opt, sort_texts, strs, text_less, trim, views, without};

verus! {

broadcast use crate::text::group_text;

pub const STATE_VERSION: u32 = 1;

/// The records of all entries.
#[derive(Debug, PartialEq, Eq)]
pub struct AppState {
    pub version: u32,
    pub entries: Vec<EntryMetadata>,
}

/// What an [`AppState`] holds.
#[verifier::ext_equal]
pub struct StateView {
    pub version: u32,
    pub entries: Seq<MetadataView>,
}

impl View for AppState {
    type V = StateView;

    open spec fn view(&self) -> StateView {
        StateView { version: self.version, entries: views(self.entries@) }
    }
}

impl Default for AppState {
    fn default() -> (r: AppState)
        ensures
            r@ == (StateView { version: STATE_VERSION, entries: Seq::empty() }),
    {
        AppState { version: STATE_VERSION, entries: Vec::new() }
    }
}

impl Clone for AppState {
    fn clone(&self) -> (r: AppState)
        ensures
            r@ == self@,
    {
        AppState { version: self.version, entries: copy_records(&self.entries) }
    }
}

/// The record of one entry.
#[derive(Debug, PartialEq, Eq)]
pub struct EntryMetadata {
    pub id: String,
    pub primary_pattern: String,
    pub host_patterns: Vec<String>,
    pub order: u16,
    pub entry_kind: String,
    pub managed_filename: String,
    pub template_source: Option<String>,
    pub tags: Vec<String>,
    pub note: Option<String>,
    pub created_at: String,
    pub updated_at: String,
    pub target_os: Option<String>,
    pub remote_user_home: Option<String>,
    pub authorized_keys_path: Option<String>,
    pub ssh_dir_mode: Option<String>,
    pub authorized_keys_mode: Option<String>,
}

/// What an [`EntryMetadata`] holds.
#[verifier::ext_equal]
pub struct MetadataView {
    pub id: Seq<char>,
    pub primary_pattern: Seq<char>,
    pub host_patterns: Seq<Seq<char>>,
    pub order: u16,
    pub entry_kind: Seq<char>,
    pub managed_filename: Seq<char>,
    pub template_source: Option<Seq<char>>,
    pub tags: Seq<Seq<char>>,
    pub note: Option<Seq<char>>,
    pub created_at: Seq<char>,
    pub updated_at: Seq<char>,
    pub target_os: Option<Seq<char>>,
    pub remote_user_home: Option<Seq<char>>,
    pub authorized_keys_path: Option<Seq<char>>,
    pub ssh_dir_mode: Option<Seq<char>>,
    pub authorized_keys_mode: Option<Seq<char>>,
}

impl View for EntryMetadata {
    type V = MetadataView;

    open spec fn view(&self) -> MetadataView {
        MetadataView {
            id: self.id@,
            primary_pattern: self.primary_pattern@,
            host_patterns: strs(self.host_patterns@),
            order: self.order,
            entry_kind: self.entry_kind@,
            managed_filename: self.managed_filename@,
            template_source: opt(self.template_source),
            tags: strs(self.tags@),
            note: opt(self.note),
            created_at: self.created_at@,
            updated_at: self.updated_at@,
            target_os: opt(self.target_os),
            remote_user_home: opt(self.remote_user_home),
            authorized_keys_path: opt(self.authorized_keys_path),
            ssh_dir_mode: opt(self.ssh_dir_mode),
            authorized_keys_mode: opt(self.authorized_keys_mode),
        }
    }
}

impl Clone for EntryMetadata {
    fn clone(&self) -> (r: EntryMetadata)
        ensures
            r@ == self@,
    {
        EntryMetadata {
            id: self.id.clone(),
            primary_pattern: self.primary_pattern.clone(),
            host_patterns: copy_strs(&self.host_patterns),
            order: self.order,
            entry_kind: self.entry_kind.clone(),
            managed_filename: self.managed_filename.clone(),
            template_source: copy_opt(&self.template_source),
            tags: copy_strs(&self.tags),
            note: copy_opt(&self.note),
            created_at: self.created_at.clone(),
            updated_at: self.updated_at.clone(),
            target_os: copy_opt(&self.target_os),
            remote_user_home: copy_opt(&self.remote_user_home),
            authorized_keys_path: copy_opt(&self.authorized_keys_path),
            ssh_dir_mode: copy_opt(&self.ssh_dir_mode),
            authorized_keys_mode: copy_opt(&self.authorized_keys_mode),
        }
    }
}

fn copy_records(v: &Vec<EntryMetadata>) -> (r: Vec<EntryMetadata>)
    ensures
        views(r@) == views(v@),
{
    let mut r: Vec<EntryMetadata> = Vec::new();
    let mut i: usize = 0;
    while i < v.len()
        invariant
            i <= v@.len(),
            views(r@) == views(v@).take(i as int),
        decreases v@.len() - i,
    {
        r.push(v[i].clone());
        i += 1;
        assert(views(r@) =~= views(v@).take(i as int));
    }
    r
}

/// How well the records fit the entries.
#[derive(Debug, Clone, Copy, PartialEq, Eq)]
pub struct StateSummary {
    pub metadata_entry_count: usize,
    pub missing_metadata_count: usize,
    pub stale_metadata_count: usize,
}

/// What is to change in a record; what is `None` stays.
#[derive(Debug, PartialEq, Eq)]
pub struct MetadataUpdate {
    pub template_source: Option<Option<String>>,
    pub tags: Option<Vec<String>>,
    pub note: Option<Option<String>>,
}

/// What a [`MetadataUpdate`] holds.
#[verifier::ext_equal]
pub struct UpdateView {
    pub template_source: Option<Option<Seq<char>>>,
    pub tags: Option<Seq<Seq<char>>>,
    pub note: Option<Option<Seq<char>>>,
}

pub open spec fn opt_opt(o: Option<Option<String>>) -> Option<Option<Seq<char>>> {
    match o {
        Some(x) => Some(opt(x)),
        None => None,
    }
}

pub open spec fn opt_strs(o: Option<Vec<String>>) -> Option<Seq<Seq<char>>> {
    match o {
        Some(x) => Some(strs(x@)),
        None => None,
    }
}

impl View for MetadataUpdate {
    type V = UpdateView;

    open spec fn view(&self) -> UpdateView {
        UpdateView {
            template_source: opt_opt(self.template_source),
            tags: opt_strs(self.tags),
            note: opt_opt(self.note),
        }
    }
}

pub open spec fn no_update() -> UpdateView {
    UpdateView { template_source: None, tags: None, note: None }
}

impl Default for MetadataUpdate {
    fn default() -> (r: MetadataUpdate)
        ensures
            r@ == no_update(),
    {
        MetadataUpdate { template_source: None, tags: None, note: None }
    }
}

// ---------------------------------------------------------------------------
// Tags and notes
// ---------------------------------------------------------------------------

/// A tag without white space at its ends and in small letters.
pub open spec fn clean(tag: Seq<char>) -> Seq<char> {
    lower(trim(tag))
}

/// The tags that are not blank, cleaned, each once.
pub open spec fn clean_tags(tags: Seq<Seq<char>>) -> Seq<Seq<char>>
    decreases tags.len(),
{
    if tags.len() == 0 {
        Seq::empty()
    } else {
        let before = clean_tags(tags.drop_last());
        let tag = clean(tags.last());
        if tag.len() == 0 || before.contains(tag) {
            before
        } else {
            before.push(tag)
        }
    }
}

pub fn normalize_tags(tags: &Vec<String>) -> (r: Vec<String>)
    ensures
        strs(r@) == clean_tags(strs(tags@)),
{
    let ghost all = strs(tags@);
    let mut out: Vec<String> = Vec::new();
    let mut i: usize = 0;
    while i < tags.len()
        invariant
            i <= tags@.len(),
            all == strs(tags@),
            strs(out@) == clean_tags(all.take(i as int)),
        decreases tags@.len() - i,
    {
        let tag: String = lowered(&trimmed(&tags[i]));
        if !tag.as_str().is_empty() && !holds(&out, &tag) {
            out.push(tag);
        }
        i += 1;
    }
    out
}

/// A text without white space at its ends, unless it is blank.
pub open spec fn clean_note(note: Option<Seq<char>>) -> Option<Seq<char>> {
    match note {
        Some(n) => if blank(n) {
            None
        } else {
            Some(trim(n))
        },
        None => None,
    }
}

pub fn normalize_note(note: &Option<String>) -> (r: Option<String>)
    ensures
        opt(r) == clean_note(opt(*note)),
{
    match note {
        Some(n) => {
            let t: String = trimmed(n);
            if t.as_str().is_empty() {
                None
            } else {
                Some(t)
            }
        },
        None => None,
    }
}

pub open spec fn template_text(t: Option<TemplateKind>) -> Option<Seq<char>> {
    match t {
        Some(k) => Some(k.name()),
        None => None,
    }
}

fn template_name(t: Option<TemplateKind>) -> (r: Option<String>)
    ensures
        opt(r) == template_text(t),
{
    match t {
        Some(k) => Some(k.cli_name().to_owned()),
        None => None,
    }
}

/// What is recorded of a new entry.
pub open spec fn created_with(
    template: Option<TemplateKind>,
    tags: Seq<Seq<char>>,
    note: Option<Seq<char>>,
) -> UpdateView {
    UpdateView {
        template_source: match template {
            Some(k) => Some(Some(k.name())),
            None => None,
        },
        tags: Some(clean_tags(tags)),
        note: Some(clean_note(note)),
    }
}

/// What is recorded of an edit.
pub open spec fn edited_with(
    template: Option<Option<TemplateKind>>,
    tags: Option<Seq<Seq<char>>>,
    note: Option<Option<Seq<char>>>,
) -> UpdateView {
    UpdateView {
        template_source: match template {
            Some(t) => Some(template_text(t)),
            None => None,
        },
        tags: match tags {
            Some(t) => Some(clean_tags(t)),
            None => None,
        },
        note: match note {
            Some(n) => Some(clean_note(n)),
            None => None,
        },
    }
}

pub fn metadata_update_for_create(
    template: Option<TemplateKind>,
    tags: Vec<String>,
    note: Option<String>,
) -> (r: MetadataUpdate)
    ensures
        r@ == created_with(template, strs(tags@), opt(note)),
{
    MetadataUpdate {
        template_source: match template {
            Some(k) => Some(template_name(Some(k))),
            None => None,
        },
        tags: Some(normalize_tags(&tags)),
        note: Some(normalize_note(&note)),
    }
}

pub fn metadata_update_for_edit(
    template: Option<Option<TemplateKind>>,
    tags: Option<Vec<String>>,
    note: Option<Option<String>>,
) -> (r: MetadataUpdate)
    ensures
        r@ == edited_with(template, opt_strs(tags), opt_opt(note)),
{
    MetadataUpdate {
        template_source: match template {
            Some(t) => Some(template_name(t)),
            None => None,
        },
        tags: match tags {
            Some(t) => Some(normalize_tags(&t)),
            None => None,
        },
        note: match note {
            Some(n) => Some(normalize_note(&n)),
            None => None,
        },
    }
}

// ---------------------------------------------------------------------------
// Records and entries
// ---------------------------------------------------------------------------

pub open spec fn file_name_or_empty(path: Seq<char>, windows: bool) -> Seq<char> {
    match file_name(path, windows) {
        Some(n) => n,
        None => Seq::empty(),
    }
}

/// The record is that of the entry: it names the same file, the same first pattern, or the same
/// patterns.
pub open spec fn record_fits(m: MetadataView, e: ManagedView, windows: bool) -> bool {
    ||| m.managed_filename == file_name_or_empty(e.path, windows)
    ||| m.primary_pattern == e.entry.primary()
    ||| m.host_patterns == e.entry.host_patterns
}

pub fn metadata_matches_entry(
    metadata: &EntryMetadata,
    target: &ManagedEntry,
    windows: bool,
) -> (r: bool)
    ensures
        r == record_fits(metadata@, target@, windows),
{
    let name: String = match file_name_of(&target.path, windows) {
        Some(n) => n,
        None => String::new(),
    };
    same(&metadata.managed_filename, &name) || same(
        &metadata.primary_pattern,
        target.entry.primary_pattern(),
    ) || same_strs(&metadata.host_patterns, &target.entry.host_patterns)
}

/// How many records stand before the first that is that of the entry.
pub open spec fn until_record(ms: Seq<MetadataView>, e: ManagedView, windows: bool) -> nat
    decreases ms.len(),
{
    if ms.len() == 0 || record_fits(ms[0], e, windows) {
        0
    } else {
        1 + until_record(ms.skip(1), e, windows)
    }
}

pub open spec fn record_at(ms: Seq<MetadataView>, e: ManagedView, windows: bool) -> Option<int> {
    let n = until_record(ms, e, windows);
    if n < ms.len() {
        Some(n as int)
    } else {
        None
    }
}

/// The record of an entry.
pub open spec fn record_of(
    ms: Seq<MetadataView>,
    e: ManagedView,
    windows: bool,
) -> Option<MetadataView> {
    match record_at(ms, e, windows) {
        Some(i) => Some(ms[i]),
        None => None,
    }
}

fn find_matching_index(
    entries: &Vec<EntryMetadata>,
    target: &ManagedEntry,
    windows: bool,
) -> (r: Option<usize>)
    ensures
        match r {
            Some(i) => i < entries@.len() && record_at(views(entries@), target@, windows) == Some(i as int),
            None => record_at(views(entries@), target@, windows) is None,
        },
{
    let ghost ms = views(entries@);
    let mut i: usize = 0;
    while i < entries.len()
        invariant
            i <= entries@.len(),
            ms == views(entries@),
            until_record(ms, target@, windows) == i + until_record(ms.skip(i as int), target@, windows),
        decreases entries@.len() - i,
    {
        assert(ms.skip(i as int)[0] == entries@[i as int]@);
        if metadata_matches_entry(&entries[i], target, windows) {
            return Some(i);
        }
        i += 1;
    }
    None
}

pub fn find_entry_metadata<'a>(
    state: &'a AppState,
    entry: &ManagedEntry,
    windows: bool,
) -> (r: Option<
    &'a EntryMetadata,
>)
    ensures
        record_of(state@.entries, entry@, windows) == (match r {
            Some(m) => Some(m@),
            None => None,
        }),
{
    match find_matching_index(&state.entries, entry, windows) {
        Some(i) => Some(&state.entries[i]),
        None => None,
    }
}

/// The record names the host.
pub open spec fn names_host(m: MetadataView, host: Seq<char>) -> bool {
    m.primary_pattern == host || m.host_patterns.contains(host)
}

pub open spec fn until_named(ms: Seq<MetadataView>, host: Seq<char>) -> nat
    decreases ms.len(),
{
    if ms.len() == 0 || names_host(ms[0], host) {
        0
    } else {
        1 + until_named(ms.skip(1), host)
    }
}

/// Where the first record stands that names the host.
pub open spec fn named_at(ms: Seq<MetadataView>, host: Seq<char>) -> Option<int> {
    let n = until_named(ms, host);
    if n < ms.len() {
        Some(n as int)
    } else {
        None
    }
}

pub fn find_named_index(entries: &Vec<EntryMetadata>, host: &str) -> (r: Option<usize>)
    ensures
        match r {
            Some(i) => i < entries@.len() && named_at(views(entries@), host@) == Some(i as int),
            None => named_at(views(entries@), host@) is None,
        },
{
    let ghost ms = views(entries@);
    let mut i: usize = 0;
    while i < entries.len()
        invariant
            i <= entries@.len(),
            ms == views(entries@),
            until_named(ms, host@) == i + until_named(ms.skip(i as int), host@),
        decreases entries@.len() - i,
    {
        assert(ms.skip(i as int)[0] == entries@[i as int]@);
        if same(&entries[i].primary_pattern, host) || holds(&entries[i].host_patterns, host) {
            return Some(i);
        }
        i += 1;
    }
    None
}

pub fn find_metadata_by_host<'a>(state: &'a AppState, host: &str) -> (r: Option<&'a EntryMetadata>)
    ensures
        match r {
            Some(m) => named_at(state@.entries, host@) matches Some(i) && m@ == state@.entries[i],
            None => named_at(state@.entries, host@) is None,
        },
{
    match find_named_index(&state.entries, host) {
        Some(i) => Some(&state.entries[i]),
        None => None,
    }
}

// ---------------------------------------------------------------------------
// Writing records
// ---------------------------------------------------------------------------

pub open spec fn or_kept<A>(update: Option<A>, kept: A) -> A {
    match update {
        Some(x) => x,
        None => kept,
    }
}

/// A record brought up to date with its entry.
pub open spec fn updated_record(
    m: MetadataView,
    e: ManagedView,
    u: UpdateView,
    now: Seq<char>,
    touch: bool,
    windows: bool,
) -> MetadataView {
    MetadataView {
        primary_pattern: e.entry.primary(),
        host_patterns: e.entry.host_patterns,
        order: e.order,
        entry_kind: e.entry.kind().spec_label(),
        managed_filename: file_name_or_empty(e.path, windows),
        template_source: or_kept(u.template_source, m.template_source),
        tags: or_kept(u.tags, m.tags),
        note: or_kept(u.note, m.note),
        updated_at: if touch {
            now
        } else {
            m.updated_at
        },
        ..m
    }
}

/// The identifier of a new record.
pub open spec fn record_id(primary: Seq<char>, stamp: Seq<char>) -> Seq<char> {
    "entry-"@ + name_part(primary, false) + "-"@ + stamp
}

/// The record of an entry that had none.
pub open spec fn new_record(
    e: ManagedView,
    u: UpdateView,
    now: Seq<char>,
    stamp: Seq<char>,
    windows: bool,
) -> MetadataView {
    MetadataView {
        id: record_id(e.entry.primary(), stamp),
        primary_pattern: e.entry.primary(),
        host_patterns: e.entry.host_patterns,
        order: e.order,
        entry_kind: e.entry.kind().spec_label(),
        managed_filename: file_name_or_empty(e.path, windows),
        template_source: or_kept(u.template_source, None),
        tags: or_kept(u.tags, Seq::empty()),
        note: or_kept(u.note, None),
        created_at: now,
        updated_at: now,
        target_os: None,
        remote_user_home: None,
        authorized_keys_path: None,
        ssh_dir_mode: None,
        authorized_keys_mode: None,
    }
}

/// The record that an entry is written to: that of the entry which it replaces, else its own.
pub open spec fn record_for(
    ms: Seq<MetadataView>,
    saved: ManagedView,
    previous: Option<ManagedView>,
    windows: bool,
) -> Option<
    int,
> {
    let of_previous = match previous {
        Some(p) => record_at(ms, p, windows),
        None => None,
    };
    match of_previous {
        Some(i) => Some(i),
        None => record_at(ms, saved, windows),
    }
}

pub open spec fn bad_file_name(path: Seq<char>) -> Seq<char> {
    "invalid managed entry file name "@ + path
}

/// The records once an entry has been written.
pub open spec fn upserted(
    ms: Seq<MetadataView>,
    saved: ManagedView,
    previous: Option<ManagedView>,
    u: UpdateView,
    now: Seq<char>,
    stamp: Seq<char>,
    windows: bool,
) -> Seq<MetadataView> {
    match record_for(ms, saved, previous, windows) {
        Some(i) => ms.update(i, updated_record(ms[i], saved, u, now, true, windows)),
        None => ms.push(new_record(saved, u, now, stamp, windows)),
    }
}

fn take_update(slot: &mut Option<String>, update: &Option<Option<String>>)
    ensures
        opt(*final(slot)) == or_kept(opt_opt(*update), opt(*old(slot))),
{
    match update {
        Some(v) => {
            *slot = copy_opt(v);
        },
        None => {},
    }
}

fn apply_entry(
    metadata: &mut EntryMetadata,
    entry: &ManagedEntry,
    file: &str,
    update: &MetadataUpdate,
    now: &str,
    update_timestamp: bool,
    windows: bool,
)
    requires
        file@ == file_name_or_empty(entry@.path, windows),
    ensures
        final(metadata)@ == updated_record(
            old(metadata)@,
            entry@,
            update@,
            now@,
            update_timestamp,
            windows,
        ),
{
    let ghost was = metadata@;
    metadata.primary_pattern = entry.entry.primary_pattern().to_owned();
    metadata.host_patterns = copy_strs(&entry.entry.host_patterns);
    metadata.order = entry.order;
    metadata.entry_kind = entry.entry.kind().label().to_owned();
    metadata.managed_filename = file.to_owned();
    take_update(&mut metadata.template_source, &update.template_source);
    match &update.tags {
        Some(t) => {
            metadata.tags = copy_strs(t);
        },
        None => {},
    }
    take_update(&mut metadata.note, &update.note);
    if update_timestamp {
        metadata.updated_at = now.to_owned();
    }
    assert(metadata@ =~= updated_record(was, entry@, update@, now@, update_timestamp, windows));
}

fn new_entry_metadata(
    entry: &ManagedEntry,
    file: &str,
    update: &MetadataUpdate,
    now: &str,
    stamp: &str,
    windows: bool,
) -> (r: EntryMetadata)
    requires
        file@ == file_name_or_empty(entry@.path, windows),
    ensures
        r@ == new_record(entry@, update@, now@, stamp@, windows),
{
    let primary: &str = entry.entry.primary_pattern();
    let r = EntryMetadata {
        id: concat4("entry-", &dashed_name(primary, false), "-", stamp),
        primary_pattern: primary.to_owned(),
        host_patterns: copy_strs(&entry.entry.host_patterns),
        order: entry.order,
        entry_kind: entry.entry.kind().label().to_owned(),
        managed_filename: file.to_owned(),
        template_source: match &update.template_source {
            Some(t) => copy_opt(t),
            None => None,
        },
        tags: match &update.tags {
            Some(t) => copy_strs(t),
            None => Vec::new(),
        },
        note: match &update.note {
            Some(n) => copy_opt(n),
            None => None,
        },
        created_at: now.to_owned(),
        updated_at: now.to_owned(),
        target_os: None,
        remote_user_home: None,
        authorized_keys_path: None,
        ssh_dir_mode: None,
        authorized_keys_mode: None,
    };
    assert(r@ =~= new_record(entry@, update@, now@, stamp@, windows));
    r
}

/// Writes an entry to its record, which is made where there is none. `now` is the time, `stamp`
/// makes the identifier of a new record unique.
pub fn upsert_entry(
    state: &mut AppState,
    saved: &ManagedEntry,
    previous: Option<&ManagedEntry>,
    update: &MetadataUpdate,
    now: &str,
    stamp: &str,
    windows: bool,
) -> (r: Result<EntryMetadata, ConfigError>)
    ensures
        match r {
            Ok(m) => {
                &&& file_name(saved@.path, windows) is Some
                &&& final(state)@ == (StateView {
                    entries: upserted(
                        old(state)@.entries,
                        saved@,
                        match previous {
                            Some(p) => Some(p@),
                            None => None,
                        },
                        update@,
                        now@,
                        stamp@,
                        windows,
                    ),
                    ..old(state)@
                })
                &&& m@ == (match record_for(
                    old(state)@.entries,
                    saved@,
                    match previous {
                        Some(p) => Some(p@),
                        None => None,
                    },
                    windows,
                ) {
                    Some(i) => updated_record(
                        old(state)@.entries[i],
                        saved@,
                        update@,
                        now@,
                        true,
                        windows,
                    ),
                    None => new_record(saved@, update@, now@, stamp@, windows),
                })
            },
            Err(e) => file_name(saved@.path, windows) is None && e@ == bad_file_name(saved@.path)
                && final(state)@ == old(state)@,
        },
{
    let ghost ms = state@.entries;
    let file: String = match file_name_of(&saved.path, windows) {
        Some(f) => f,
        None => {
            return Err(
                ConfigError::new(concat2("invalid managed entry file name ", &saved.path)),
            );
        },
    };
    let of_previous: Option<usize> = match previous {
        Some(p) => find_matching_index(&state.entries, p, windows),
        None => None,
    };
    let index: Option<usize> = match of_previous {
        Some(i) => Some(i),
        None => find_matching_index(&state.entries, saved, windows),
    };
    match index {
        Some(i) => {
            let mut record: EntryMetadata = state.entries[i].clone();
            apply_entry(&mut record, saved, &file, update, now, true, windows);
            let r: EntryMetadata = record.clone();
            state.entries.set(i, record);
            assert(state@.entries =~= ms.update(i as int, r@));
            Ok(r)
        },
        None => {
            let record: EntryMetadata = new_entry_metadata(saved, &file, update, now, stamp, windows);
            let r: EntryMetadata = record.clone();
            state.entries.push(record);
            Ok(r)
        },
    }
}

/// The record is that of one of the entries.
pub open spec fn fits_any(m: MetadataView, es: Seq<ManagedView>, windows: bool) -> bool {
    exists|i: int| 0 <= i < es.len() && record_fits(m, #[trigger] es[i], windows)
}

fn matches_any(metadata: &EntryMetadata, targets: &[ManagedEntry], windows: bool) -> (r: bool)
    ensures
        r == fits_any(metadata@, views(targets@), windows),
{
    let ghost es = views(targets@);
    let mut i: usize = 0;
    while i < targets.len()
        invariant
            i <= targets@.len(),
            es == views(targets@),
            forall|k: int| 0 <= k < i ==> !record_fits(metadata@, #[trigger] es[k], windows),
        decreases targets@.len() - i,
    {
        assert(es[i as int] == targets@[i as int]@);
        if metadata_matches_entry(metadata, &targets[i], windows) {
            return true;
        }
        i += 1;
    }
    false
}

/// The records that are those of none of the entries.
pub open spec fn records_without(
    ms: Seq<MetadataView>,
    es: Seq<ManagedView>,
    windows: bool,
) -> Seq<MetadataView>
    decreases ms.len(),
{
    if ms.len() == 0 {
        ms
    } else if fits_any(ms.last(), es, windows) {
        records_without(ms.drop_last(), es, windows)
    } else {
        records_without(ms.drop_last(), es, windows).push(ms.last())
    }
}

/// Drops the records of the entries; gives back how many were dropped.
pub fn remove_entries(state: &mut AppState, targets: &[ManagedEntry], windows: bool) -> (r: usize)
    ensures
        final(state)@ == (StateView {
            entries: records_without(old(state)@.entries, views(targets@), windows),
            ..old(state)@
        }),
        r == old(state)@.entries.len() - final(state)@.entries.len(),
{
    let ghost ms = state@.entries;
    let ghost es = views(targets@);
    let mut kept: Vec<EntryMetadata> = Vec::new();
    let mut i: usize = 0;
    while i < state.entries.len()
        invariant
            i <= state.entries.len(),
            ms == views(state.entries@),
            es == views(targets@),
            views(kept@) == records_without(ms.take(i as int), es, windows),
            kept@.len() <= i,
        decreases state.entries@.len() - i,
    {
        assert(ms[i as int] == state.entries@[i as int]@);
        if !matches_any(&state.entries[i], targets, windows) {
            kept.push(state.entries[i].clone());
        }
        i += 1;
    }
    assert(views(kept@).len() == kept@.len());
    assert(ms.len() == state.entries@.len());
    let removed: usize = state.entries.len() - kept.len();
    state.entries = kept;
    removed
}

/// The records of the entries, one for each, in their order: those that there are, brought up to
/// date, and new ones for the entries that have none. Each record serves one entry. `left` are
/// the records that are not taken yet.
pub open spec fn merged_records(
    left: Seq<MetadataView>,
    es: Seq<ManagedView>,
    now: Seq<char>,
    stamps: Seq<Seq<char>>,
    touch: bool,
    windows: bool,
) -> Seq<MetadataView>
    decreases es.len(),
{
    if es.len() == 0 {
        Seq::empty()
    } else {
        match record_at(left, es[0], windows) {
            Some(i) => seq![updated_record(left[i], es[0], no_update(), now, touch, windows)]
                + merged_records(left.remove(i), es.skip(1), now, stamps.skip(1), touch, windows),
            None => seq![new_record(es[0], no_update(), now, stamps[0], windows)] + merged_records(
                left,
                es.skip(1),
                now,
                stamps.skip(1),
                touch,
                windows,
            ),
        }
    }
}

/// The first entry without a file name.
pub open spec fn until_bad_file(es: Seq<ManagedView>, windows: bool) -> nat
    decreases es.len(),
{
    if es.len() == 0 || file_name(es[0].path, windows) is None {
        0
    } else {
        1 + until_bad_file(es.skip(1), windows)
    }
}

/// Brings the records up to date with the entries; those of entries that are gone are dropped.
#[verifier::spinoff_prover]
#[verifier::rlimit(40)]
pub fn sync_entries(
    state: &mut AppState,
    entries: &[ManagedEntry],
    update_timestamps: bool,
    now: &str,
    stamps: &Vec<String>,
    windows: bool,
) -> (r: Result<(), ConfigError>)
    requires
        stamps@.len() == entries@.len(),
    ensures
        match r {
            Ok(_) => until_bad_file(views(entries@), windows) == entries@.len() && final(state)@ == (
            StateView {
                entries: merged_records(
                    old(state)@.entries,
                    views(entries@),
                    now@,
                    strs(stamps@),
                    update_timestamps,
                    windows,
                ),
                ..old(state)@
            }),
            Err(e) => until_bad_file(views(entries@), windows) < entries@.len() && e@ == bad_file_name(
                views(entries@)[until_bad_file(views(entries@), windows) as int].path,
            ) && final(state)@ == old(state)@,
        },
{
    let ghost es = views(entries@);
    let ghost ts = strs(stamps@);
    let ghost whole = merged_records(state@.entries, es, now@, ts, update_timestamps, windows);
    let mut left: Vec<EntryMetadata> = copy_records(&state.entries);
    let mut merged: Vec<EntryMetadata> = Vec::new();
    let none: MetadataUpdate = MetadataUpdate::default();
    let mut i: usize = 0;
    while i < entries.len()
        invariant
            i <= entries@.len() == stamps@.len(),
            es == views(entries@),
            ts == strs(stamps@),
            none@ == no_update(),
            until_bad_file(es, windows) == i + until_bad_file(es.skip(i as int), windows),
            whole == views(merged@) + merged_records(
                views(left@),
                es.skip(i as int),
                now@,
                ts.skip(i as int),
                update_timestamps,
                windows,
            ),
        decreases entries@.len() - i,
    {
        let entry: &ManagedEntry = &entries[i];
        assert(es.skip(i as int)[0] == entry@);
        assert(es[i as int] == entry@);
        assert(ts.skip(i as int)[0] == stamps@[i as int]@);
        let ghost before = views(merged@);
        let ghost was = views(left@);
        match file_name_of(&entry.path, windows) {
            None => {
                return Err(
                    ConfigError::new(concat2("invalid managed entry file name ", &entry.path)),
                );
            },
            Some(file) => {
                let record: EntryMetadata = match find_matching_index(&left, entry, windows) {
                    Some(k) => {
                        let mut m: EntryMetadata = left.remove(k);
                        assert(views(left@) =~= was.remove(k as int));
                        apply_entry(&mut m, entry, &file, &none, now, update_timestamps, windows);
                        m
                    },
                    None => new_entry_metadata(entry, &file, &none, now, &stamps[i], windows),
                };
                let ghost x = record@;
                merged.push(record);
                proof {
                    let more = merged_records(
                        views(left@),
                        es.skip(i + 1),
                        now@,
                        ts.skip(i + 1),
                        update_timestamps,
                        windows,
                    );
                    assert(before + (seq![x] + more) =~= before.push(x) + more);
                }
            },
        }
        i += 1;
    }
    assert(views(merged@) + Seq::<MetadataView>::empty() =~= views(merged@));
    state.entries = merged;
    Ok(())
}

// ---------------------------------------------------------------------------
// Changing records
// ---------------------------------------------------------------------------

/// One change to a record.
#[derive(Debug, PartialEq, Eq)]
pub enum MetadataChange {
    SetNote(String),
    ClearNote,
    AddTag(String),
    RemoveTag(String),
    ClearTags,
}

/// What a [`MetadataChange`] holds.
pub enum ChangeView {
    SetNote(Seq<char>),
    ClearNote,
    AddTag(Seq<char>),
    RemoveTag(Seq<char>),
    ClearTags,
}

impl View for MetadataChange {
    type V = ChangeView;

    open spec fn view(&self) -> ChangeView {
        match self {
            MetadataChange::SetNote(n) => ChangeView::SetNote(n@),
            MetadataChange::ClearNote => ChangeView::ClearNote,
            MetadataChange::AddTag(t) => ChangeView::AddTag(t@),
            MetadataChange::RemoveTag(t) => ChangeView::RemoveTag(t@),
            MetadataChange::ClearTags => ChangeView::ClearTags,
        }
    }
}

/// The tags with `tag` among them; a tag that is new brings all of them in order.
pub open spec fn with_tag(tags: Seq<Seq<char>>, tag: Seq<char>) -> Seq<Seq<char>> {
    if tags.contains(tag) {
        tags
    } else {
        sort_texts(tags.push(tag))
    }
}

pub open spec fn changed(m: MetadataView, c: ChangeView) -> MetadataView {
    match c {
        ChangeView::SetNote(n) => MetadataView { note: Some(n), ..m },
        ChangeView::ClearNote => MetadataView { note: None, ..m },
        ChangeView::AddTag(t) => MetadataView { tags: with_tag(m.tags, t), ..m },
        ChangeView::RemoveTag(t) => MetadataView { tags: without(m.tags, t), ..m },
        ChangeView::ClearTags => MetadataView { tags: Seq::empty(), ..m },
    }
}

pub open spec fn changed_all(m: MetadataView, cs: Seq<ChangeView>) -> MetadataView
    decreases cs.len(),
{
    if cs.len() == 0 {
        m
    } else {
        changed(changed_all(m, cs.drop_last()), cs.last())
    }
}

/// A record once the changes have been made at the time `now`.
pub open spec fn changed_at(m: MetadataView, cs: Seq<ChangeView>, now: Seq<char>) -> MetadataView {
    MetadataView { updated_at: now, ..changed_all(m, cs) }
}

fn apply_change(m: &mut EntryMetadata, c: &MetadataChange)
    ensures
        final(m)@ == changed(old(m)@, c@),
{
    let ghost was = m@;
    match c {
        MetadataChange::SetNote(n) => {
            m.note = Some(n.clone());
        },
        MetadataChange::ClearNote => {
            m.note = None;
        },
        MetadataChange::AddTag(t) => {
            if !holds(&m.tags, t) {
                m.tags.push(t.clone());
                m.tags = sorted_texts(&m.tags);
            }
        },
        MetadataChange::RemoveTag(t) => {
            m.tags = texts_without(&m.tags, t);
        },
        MetadataChange::ClearTags => {
            m.tags = Vec::new();
        },
    }
    assert(m@ =~= changed(was, c@));
}

fn changed_record(m: &EntryMetadata, changes: &Vec<MetadataChange>, now: &str) -> (r: EntryMetadata)
    ensures
        r@ == changed_at(m@, views(changes@), now@),
{
    let ghost cs = views(changes@);
    let mut record: EntryMetadata = m.clone();
    let mut i: usize = 0;
    while i < changes.len()
        invariant
            i <= changes@.len(),
            cs == views(changes@),
            record@ == changed_all(m@, cs.take(i as int)),
        decreases changes@.len() - i,
    {
        apply_change(&mut record, &changes[i]);
        i += 1;
    }
    let ghost done = record@;
    record.updated_at = now.to_owned();
    assert(record@ =~= MetadataView { updated_at: now@, ..done });
    record
}

/// The first record that names the host with the changes, and all records then.
pub open spec fn changed_for_host(
    ms: Seq<MetadataView>,
    host: Seq<char>,
    cs: Seq<ChangeView>,
    now: Seq<char>,
) -> Option<(MetadataView, Seq<MetadataView>)> {
    match named_at(ms, host) {
        Some(i) => Some((changed_at(ms[i], cs, now), ms.update(i, changed_at(ms[i], cs, now)))),
        None => None,
    }
}

/// Changes the first record that names the host.
pub fn update_metadata_by_host(
    state: &mut AppState,
    host: &str,
    changes: &Vec<MetadataChange>,
    now: &str,
) -> (r: Result<EntryMetadata, ConfigError>)
    ensures
        match r {
            Ok(m) => {
                &&& changed_for_host(
                    old(state)@.entries,
                    host@,
                    views(changes@),
                    now@,
                ) == Some((m@, final(state)@.entries))
                &&& final(state)@.version == old(state)@.version
            },
            Err(e) => changed_for_host(old(state)@.entries, host@, views(changes@), now@) is None
                && final(state)@ == old(state)@ && e@ == "metadata for managed entry `"@ + host@
                + "` not found"@,
        },
{
    let ghost ms = state@.entries;
    match find_named_index(&state.entries, host) {
        None => Err(
            ConfigError::new(concat3("metadata for managed entry `", host, "` not found")),
        ),
        Some(i) => {
            let record: EntryMetadata = changed_record(&state.entries[i], changes, now);
            let r: EntryMetadata = record.clone();
            state.entries.set(i, record);
            assert(state@.entries =~= ms.update(i as int, r@));
            Ok(r)
        },
    }
}

/// All records with the identifiers changed, the others as they are.
pub open spec fn changed_by_ids(
    ms: Seq<MetadataView>,
    ids: Seq<Seq<char>>,
    cs: Seq<ChangeView>,
    now: Seq<char>,
) -> Seq<MetadataView> {
    Seq::new(
        ms.len(),
        |i: int|
            if ids.contains(ms[i].id) {
                changed_at(ms[i], cs, now)
            } else {
                ms[i]
            },
    )
}

/// The records with the identifiers, changed.
pub open spec fn picked_by_ids(
    ms: Seq<MetadataView>,
    ids: Seq<Seq<char>>,
    cs: Seq<ChangeView>,
    now: Seq<char>,
) -> Seq<MetadataView>
    decreases ms.len(),
{
    if ms.len() == 0 {
        ms
    } else {
        let before = picked_by_ids(ms.drop_last(), ids, cs, now);
        if ids.contains(ms.last().id) {
            before.push(changed_at(ms.last(), cs, now))
        } else {
            before
        }
    }
}

/// How many different texts stand in a row.
pub open spec fn distinct_count(v: Seq<Seq<char>>) -> nat
    decreases v.len(),
{
    if v.len() == 0 {
        0
    } else {
        distinct_count(v.drop_last()) + if v.drop_last().contains(v.last()) {
            0nat
        } else {
            1nat
        }
    }
}

fn count_distinct(v: &Vec<String>) -> (r: usize)
    ensures
        r == distinct_count(strs(v@)),
{
    let ghost all = strs(v@);
    let mut seen: Vec<String> = Vec::new();
    let mut n: usize = 0;
    let mut i: usize = 0;
    while i < v.len()
        invariant
            n <= i <= v.len(),
            all == strs(v@),
            strs(seen@) == all.take(i as int),
            n == distinct_count(all.take(i as int)),
        decreases v@.len() - i,
    {
        if !holds(&seen, &v[i]) {
            n += 1;
        }
        seen.push(v[i].clone());
        i += 1;
    }
    n
}

/// Changes all records with the identifiers, or none where one of them is missing.
pub fn update_metadata_by_ids(
    state: &mut AppState,
    ids: &Vec<String>,
    changes: &Vec<MetadataChange>,
    now: &str,
) -> (r: Result<Vec<EntryMetadata>, ConfigError>)
    ensures
        ({
            let picked = if ids@.len() == 0 {
                Seq::empty()
            } else {
                picked_by_ids(old(state)@.entries, strs(ids@), views(changes@), now@)
            };
            match r {
                Ok(v) => picked.len() == distinct_count(strs(ids@)) && views(v@) == picked && final(state)@ == (StateView {
                    entries: changed_by_ids(
                        old(state)@.entries,
                        strs(ids@),
                        views(changes@),
                        now@,
                    ),
                    ..old(state)@
                }),
                Err(e) => picked.len() != distinct_count(strs(ids@)) && final(state)@ == old(state)@ && e@ == "failed to update all selected metadata records (matched "@ + decimal(
                    picked.len(),
                ) + ", expected "@ + decimal(distinct_count(strs(ids@))) + ")"@,
            }
        }),
{
    let ghost ms = state@.entries;
    let ghost cs = views(changes@);
    let ghost want = strs(ids@);
    if ids.len() == 0 {
        assert(distinct_count(want) == 0);
        assert(changed_by_ids(ms, want, cs, now@) =~= ms) by {
            assert forall|x: Seq<char>| !want.contains(x) by {}
        }
        return Ok(Vec::new());
    }
    let mut all: Vec<EntryMetadata> = Vec::new();
    let mut picked: Vec<EntryMetadata> = Vec::new();
    let mut i: usize = 0;
    while i < state.entries.len()
        invariant
            i <= state.entries@.len(),
            ms == views(state.entries@),
            cs == views(changes@),
            want == strs(ids@),
            views(all@) == changed_by_ids(ms, want, cs, now@).take(i as int),
            views(picked@) == picked_by_ids(ms.take(i as int), want, cs, now@),
        decreases state.entries@.len() - i,
    {
        assert(ms[i as int] == state.entries@[i as int]@);
        if holds(ids, &state.entries[i].id) {
            let record: EntryMetadata = changed_record(&state.entries[i], changes, now);
            picked.push(record.clone());
            all.push(record);
        } else {
            all.push(state.entries[i].clone());
        }
        i += 1;
        assert(views(all@) =~= changed_by_ids(ms, want, cs, now@).take(i as int));
    }
    assert(views(picked@).len() == picked@.len());
    let expected: usize = count_distinct(ids);
    if picked.len() != expected {
        let head: String = concat4(
            "failed to update all selected metadata records (matched ",
            &decimal_text(picked.len()),
            ", expected ",
            &decimal_text(expected),
        );
        return Err(ConfigError::new(concat2(&head, ")")));
    }
    assert(views(all@) =~= changed_by_ids(ms, want, cs, now@));
    state.entries = all;
    Ok(picked)
}

// ---------------------------------------------------------------------------
// Summary
// ---------------------------------------------------------------------------

/// How many entries have no record.
pub open spec fn missing_count(ms: Seq<MetadataView>, es: Seq<ManagedView>, windows: bool) -> nat
    decreases es.len(),
{
    if es.len() == 0 {
        0
    } else {
        missing_count(ms, es.drop_last(), windows) + if record_at(ms, es.last(), windows) is None {
            1nat
        } else {
            0nat
        }
    }
}

/// The record of that index is found for one of the entries.
pub open spec fn is_used(
    ms: Seq<MetadataView>,
    es: Seq<ManagedView>,
    i: int,
    windows: bool,
) -> bool {
    exists|k: int| 0 <= k < es.len() && record_at(ms, #[trigger] es[k], windows) == Some(i)
}

/// How many of the first `n` records are found for no entry.
pub open spec fn unused_count(
    ms: Seq<MetadataView>,
    es: Seq<ManagedView>,
    n: nat,
    windows: bool,
) -> nat
    decreases n,
{
    if n == 0 {
        0
    } else {
        unused_count(ms, es, (n - 1) as nat, windows) + if is_used(ms, es, n - 1, windows) {
            0nat
        } else {
            1nat
        }
    }
}

fn record_is_used(state: &AppState, entries: &[ManagedEntry], i: usize, windows: bool) -> (r: bool)
    ensures
        r == is_used(state@.entries, views(entries@), i as int, windows),
{
    let ghost es = views(entries@);
    let ghost ms = state@.entries;
    let mut k: usize = 0;
    while k < entries.len()
        invariant
            k <= entries@.len(),
            es == views(entries@),
            ms == state@.entries,
            forall|j: int| 0 <= j < k ==> record_at(ms, #[trigger] es[j], windows) != Some(i as int),
        decreases entries@.len() - k,
    {
        assert(es[k as int] == entries@[k as int]@);
        match find_matching_index(&state.entries, &entries[k], windows) {
            Some(j) => {
                if j == i {
                    assert(record_at(ms, es[k as int], windows) == Some(i as int));
                    return true;
                }
            },
            None => {},
        }
        k += 1;
    }
    false
}

pub fn summarize_state(
    state: &AppState,
    entries: &[ManagedEntry],
    windows: bool,
) -> (r: StateSummary)
    ensures
        r.metadata_entry_count == state@.entries.len(),
        r.missing_metadata_count == missing_count(state@.entries, views(entries@), windows),
        r.stale_metadata_count == unused_count(
            state@.entries,
            views(entries@),
            state@.entries.len(),
            windows,
        ),
{
    let ghost es = views(entries@);
    let ghost ms = state@.entries;
    let mut missing: usize = 0;
    let mut i: usize = 0;
    while i < entries.len()
        invariant
            missing <= i <= entries.len(),
            es == views(entries@),
            ms == state@.entries,
            missing == missing_count(ms, es.take(i as int), windows),
        decreases entries@.len() - i,
    {
        assert(es[i as int] == entries@[i as int]@);
        if find_matching_index(&state.entries, &entries[i], windows).is_none() {
            missing += 1;
        }
        i += 1;
    }
    let mut stale: usize = 0;
    let mut k: usize = 0;
    while k < state.entries.len()
        invariant
            stale <= k <= state.entries.len(),
            es == views(entries@),
            ms == state@.entries,
            stale == unused_count(ms, es, k as nat, windows),
        decreases state.entries@.len() - k,
    {
        if !record_is_used(state, entries, k, windows) {
            stale += 1;
        }
        k += 1;
    }
    StateSummary {
        metadata_entry_count: state.entries.len(),
        missing_metadata_count: missing,
        stale_metadata_count: stale,
    }
}

// ---------------------------------------------------------------------------
// The file of the records
// ---------------------------------------------------------------------------

/// `a` stands before `b` in the file: by order, then by first pattern.
pub open spec fn record_less(a: MetadataView, b: MetadataView) -> bool {
    a.order < b.order || (a.order == b.order && text_less(a.primary_pattern, b.primary_pattern))
}

pub open spec fn insert_record(v: Seq<MetadataView>, x: MetadataView) -> Seq<MetadataView>
    decreases v.len(),
{
    if v.len() > 0 && record_less(x, v.last()) {
        insert_record(v.drop_last(), x).push(v.last())
    } else {
        v.push(x)
    }
}

/// The records in the order of the file.
pub open spec fn sort_records(v: Seq<MetadataView>) -> Seq<MetadataView>
    decreases v.len(),
{
    if v.len() == 0 {
        v
    } else {
        insert_record(sort_records(v.drop_last()), v.last())
    }
}

fn is_record_less(a: &EntryMetadata, b: &EntryMetadata) -> (r: bool)
    ensures
        r == record_less(a@, b@),
{
    a.order < b.order || (a.order == b.order && is_less(&a.primary_pattern, &b.primary_pattern))
}

fn insert_sorted_record(out: &mut Vec<EntryMetadata>, x: EntryMetadata)
    ensures
        views(final(out)@) == insert_record(views(old(out)@), x@),
{
    let ghost was = views(out@);
    let mut j: usize = out.len();
    let ghost mut tail = Seq::<MetadataView>::empty();
    assert(insert_record(was, x@) =~= insert_record(was.take(j as int), x@) + tail);
    while j > 0 && is_record_less(&x, &out[j - 1])
        invariant
            j <= out@.len(),
            views(out@) == was,
            tail == was.skip(j as int),
            insert_record(was, x@) == insert_record(was.take(j as int), x@) + tail,
        decreases j,
    {
        proof {
            let head = was.take(j as int);
            assert(head.last() == out@[j - 1]@);
            assert(head.drop_last() =~= was.take(j - 1));
            assert(insert_record(was.take(j - 1), x@).push(head.last()) + tail =~= insert_record(
                was.take(j - 1),
                x@,
            ) + was.skip(j - 1));
            tail = was.skip(j - 1);
        }
        j -= 1;
    }
    proof {
        let head = was.take(j as int);
        if j > 0 {
            assert(head.last() == out@[j - 1]@);
        }
        assert(insert_record(head, x@) == head.push(x@));
    }
    out.insert(j, x);
    assert(views(out@) =~= was.take(j as int).push(x@) + was.skip(j as int));
}

pub open spec fn saved_state(s: StateView) -> StateView {
    StateView { version: STATE_VERSION, entries: sort_records(s.entries) }
}

pub open spec fn loaded_state(read: Option<StateView>) -> StateView {
    match read {
        Some(s) => if s.version == 0 {
            StateView { version: STATE_VERSION, ..s }
        } else {
            s
        },
        None => StateView { version: STATE_VERSION, entries: Seq::empty() },
    }
}

/// The state as it is written: of the current version, its records in order.
pub fn save_state(state: &AppState) -> (r: AppState)
    ensures
        r@ == saved_state(state@),
{
    let ghost ms = state@.entries;
    let mut out: Vec<EntryMetadata> = Vec::new();
    let mut i: usize = 0;
    while i < state.entries.len()
        invariant
            i <= state.entries@.len(),
            ms == views(state.entries@),
            views(out@) == sort_records(ms.take(i as int)),
        decreases state.entries@.len() - i,
    {
        insert_sorted_record(&mut out, state.entries[i].clone());
        i += 1;
    }
    AppState { version: STATE_VERSION, entries: out }
}

/// The state as it is used once it has been read; where the file is missing or blank there is
/// nothing to read.
pub fn load_state(read: Option<AppState>) -> (r: AppState)
    ensures
        r@ == loaded_state(
            match read {
                Some(s) => Some(s@),
                None => None,
            },
        ),
{
    match read {
        Some(s) => {
            if s.version == 0 {
                AppState { version: STATE_VERSION, entries: s.entries }
            } else {
                s
            }
        },
        None => AppState::default(),
    }
}

} // verus!
