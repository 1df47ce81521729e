//! The files of the managed entries.

#![verifier::loop_isolation(false)]

use vstd::prelude::*;

use crate::config::model::{HostEntry, HostView, ManagedEntry, ManagedView};
use crate::config::parser::{parse_block, parse_host_entry};
use crate::config::render::{directives_of, render_directives, render_host_entry};
use crate::error::ConfigError;
use crate::paths::{file_name, file_name_of, join_path, path_in};
use crate::strings::{
    before_suffix, chars_of, concat2, concat3, concat5, count_until, decimal3_text, decimal_text,
    halves_at, holds, is_ascii_alphanumeric, lowered_char, number_fault_text, parse_u16, same,
    string_of, stripped,
};
use crate::text::{
    decimal, decimal3, ends_with, is_alphanumeric, lower_char, number_fault, opt_str,
    parse_unsigned, split_once, strip_end, strip_start, strs, until, views,
};

verus! {

broadcast use crate::text::group_text;

// ---------------------------------------------------------------------------
// File names
// ---------------------------------------------------------------------------

/// The character that stands for `c` in a slug, if one does; `q` stands for a question mark
/// where `question` holds.
pub open spec fn slug_char(c: char, question: bool) -> Option<char> {
    if is_alphanumeric(c) {
        Some(lower_char(c))
    } else if question && c == '?' {
        Some('q')
    } else {
        None
    }
}

/// `s` in small letters and digits, with one dash for each stretch of other characters; `dash`
/// says that the character before `s` was a dash.
pub open spec fn dashed(s: Seq<char>, dash: bool, question: bool) -> Seq<char>
    decreases s.len(),
{
    if s.len() == 0 {
        Seq::empty()
    } else {
        match slug_char(s[0], question) {
            Some(c) => seq![c] + dashed(s.skip(1), false, question),
            None => if dash {
                dashed(s.skip(1), true, question)
            } else {
                seq!['-'] + dashed(s.skip(1), true, question)
            },
        }
    }
}

/// `s` as a part of a name: dashed, without dashes at the ends, and not empty.
pub open spec fn name_part(s: Seq<char>, question: bool) -> Seq<char> {
    let t = strip_end(strip_start(dashed(s, false, question), seq!['-']), seq!['-']);
    if t.len() == 0 {
        "entry"@
    } else {
        t
    }
}

pub open spec fn slug_of(pattern: Seq<char>) -> Seq<char> {
    name_part(pattern, true)
}

/// Makes a part of a name of `s`.
pub fn dashed_name(s: &str, question: bool) -> (r: String)
    ensures
        r@ == name_part(s@, question),
{
    let v: Vec<char> = chars_of(s);
    let mut out: String = String::new();
    let mut dash: bool = false;
    let mut i: usize = 0;
    assert(dashed(v@, false, question) =~= out@ + dashed(v@.skip(0), dash, question));
    while i < v.len()
        invariant
            i <= v@.len(),
            dashed(v@, false, question) == out@ + dashed(v@.skip(i as int), dash, question),
        decreases v@.len() - i,
    {
        let c: char = v[i];
        let ghost was = out@;
        let ghost rest = v@.skip(i + 1);
        if is_ascii_alphanumeric(c) {
            let l: char = lowered_char(c);
            out.push(l);
            dash = false;
            assert(was + (seq![l] + dashed(rest, false, question)) =~= was.push(l) + dashed(
                rest,
                false,
                question,
            ));
        } else if question && c == '?' {
            out.push('q');
            dash = false;
            assert(was + (seq!['q'] + dashed(rest, false, question)) =~= was.push('q') + dashed(
                rest,
                false,
                question,
            ));
        } else if !dash {
            out.push('-');
            dash = true;
            assert(was + (seq!['-'] + dashed(rest, true, question)) =~= was.push('-') + dashed(
                rest,
                true,
                question,
            ));
        }
        i += 1;
    }
    assert(out@ + Seq::<char>::empty() =~= out@);
    proof {
        reveal_strlit("-");
        assert("-"@ =~= seq!['-']);
    }
    let t: String = stripped(&out, "-");
    if t.as_str().is_empty() {
        "entry".to_owned()
    } else {
        t
    }
}

pub fn slugify_host_pattern(pattern: &str) -> (r: String)
    ensures
        r@ == slug_of(pattern@),
{
    dashed_name(pattern, true)
}

/// The name of the file of an entry.
pub open spec fn entry_file_name(order: u16, e: HostView) -> Seq<char> {
    decimal3(order as nat) + "-"@ + e.kind().spec_label() + "-"@ + slug_of(e.primary()) + ".conf"@
}

fn managed_entry_target(
    base_dir: &str,
    order: u16,
    entry: &HostEntry,
    windows: bool,
) -> (r: (String, String))
    ensures
        r.0@ == slug_of(entry@.primary()),
        r.1@ == path_in(base_dir@, entry_file_name(order, entry@), windows),
{
    let slug: String = slugify_host_pattern(entry.primary_pattern());
    let head: String = concat5(
        &decimal3_text(order),
        "-",
        entry.kind().label(),
        "-",
        &slug,
    );
    let path: String = join_path(base_dir, &concat2(&head, ".conf"), windows);
    (slug, path)
}

/// The order and slug in the name of the file of an entry, or why it has none.
pub open spec fn order_and_slug(name: Seq<char>) -> Result<(u16, Seq<char>), Seq<char>> {
    if !ends_with(name, ".conf"@) {
        Err("unsupported managed file name `"@ + name + "`"@)
    } else {
        let stem = name.take(name.len() - ".conf"@.len());
        let order = stem.take(until(stem, '-') as int);
        match parse_unsigned(order, 65535) {
            None => Err(
                "invalid order in `"@ + name + "`"@ + ": "@ + number_fault(order, 65535),
            ),
            Some(n) => match split_once(stem, '-') {
                None => Err("missing kind in `"@ + name + "`"@),
                Some((_, rest)) => match split_once(rest, '-') {
                    None => Err("missing slug in `"@ + name + "`"@),
                    Some((_, slug)) => Ok((n as u16, slug)),
                },
            },
        }
    }
}

pub fn parse_order_and_slug(file_name: &str) -> (r: Result<(u16, String), ConfigError>)
    ensures
        order_and_slug(file_name@) == (match r {
            Ok((order, slug)) => Ok((order, slug@)),
            Err(e) => Err(e@),
        }),
{
    match before_suffix(file_name, ".conf") {
        None => Err(
            ConfigError::new(concat3("unsupported managed file name `", file_name, "`")),
        ),
        Some(stem) => {
            let v: Vec<char> = chars_of(&stem);
            let n: usize = count_until(&v, '-');
            let order: String = string_of(&v, 0, n);
            assert(order@ =~= stem@.take(n as int));
            match parse_u16(&order) {
                None => Err(
                    ConfigError::caused(
                        concat3("invalid order in `", file_name, "`"),
                        number_fault_text(&order, 65535),
                    ),
                ),
                Some(value) => match halves_at(&stem, '-') {
                    None => Err(ConfigError::new(concat3("missing kind in `", file_name, "`"))),
                    Some((_, rest)) => match halves_at(&rest, '-') {
                        None => Err(ConfigError::new(concat3("missing slug in `", file_name, "`"))),
                        Some((_, slug)) => Ok((value, slug)),
                    },
                },
            }
        },
    }
}

// ---------------------------------------------------------------------------
// Reading
// ---------------------------------------------------------------------------

/// A file, by its path and what it holds.
#[derive(Debug)]
pub struct EntryFile {
    pub path: String,
    pub content: String,
}

/// The entry in a file, or why it holds none.
pub open spec fn entry_in_file(path: Seq<char>, content: Seq<char>, windows: bool) -> Result<
    ManagedView,
    Seq<char>,
> {
    match file_name(path, windows) {
        None => Err("invalid file name: "@ + path),
        Some(name) => match order_and_slug(name) {
            Err(e) => Err(e),
            Ok((order, slug)) => match parse_block(path, content, true) {
                Err(e) => Err(e.told()),
                Ok(entry) => Ok(
                    ManagedView { order, slug, path, raw_content: content, entry },
                ),
            },
        },
    }
}

/// `x` put into a row behind all entries whose order is not above its own.
pub open spec fn insert_by_order(v: Seq<ManagedView>, x: ManagedView) -> Seq<ManagedView>
    decreases v.len(),
{
    if v.len() > 0 && x.order < v.last().order {
        insert_by_order(v.drop_last(), x).push(v.last())
    } else {
        v.push(x)
    }
}

pub open spec fn sorted_by_order(v: Seq<ManagedView>) -> bool {
    forall|i: int, j: int|
        0 <= i < j < v.len() ==> (#[trigger] v[i]).order <= (#[trigger] v[j]).order
}

/// The entries in the files, by their order; among equals, in the order of the files. Or the
/// first refusal.
pub open spec fn entries_in_files(files: Seq<(Seq<char>, Seq<char>)>, windows: bool) -> Result<
    Seq<ManagedView>,
    Seq<char>,
>
    decreases files.len(),
{
    if files.len() == 0 {
        Ok(Seq::empty())
    } else {
        match entries_in_files(files.drop_last(), windows) {
            Err(e) => Err(e),
            Ok(before) => match entry_in_file(files.last().0, files.last().1, windows) {
                Err(e) => Err(e),
                Ok(x) => Ok(insert_by_order(before, x)),
            },
        }
    }
}

pub open spec fn file_pairs(files: Seq<EntryFile>) -> Seq<(Seq<char>, Seq<char>)> {
    Seq::new(files.len(), |i: int| (files[i].path@, files[i].content@))
}

/// A result by what it holds.
pub open spec fn managed(r: Result<ManagedEntry, ConfigError>) -> Result<ManagedView, Seq<char>> {
    match r {
        Ok(x) => Ok(x@),
        Err(e) => Err(e@),
    }
}

/// A result by what it holds.
pub open spec fn managed_all(r: Result<Vec<ManagedEntry>, ConfigError>) -> Result<
    Seq<ManagedView>,
    Seq<char>,
> {
    match r {
        Ok(x) => Ok(views(x@)),
        Err(e) => Err(e@),
    }
}

fn read_entry(path: &str, content: &str, windows: bool) -> (r: Result<ManagedEntry, ConfigError>)
    ensures
        managed(r) == entry_in_file(path@, content@, windows),
{
    match file_name_of(path, windows) {
        None => Err(ConfigError::new(concat2("invalid file name: ", path))),
        Some(name) => match parse_order_and_slug(&name) {
            Err(e) => Err(e),
            Ok((order, slug)) => match parse_host_entry(path, content) {
                Err(e) => Err(e),
                Ok(entry) => Ok(
                    ManagedEntry {
                        order,
                        slug,
                        path: path.to_owned(),
                        raw_content: content.to_owned(),
                        entry,
                    },
                ),
            },
        },
    }
}

fn insert_entry(out: &mut Vec<ManagedEntry>, x: ManagedEntry)
    ensures
        views(final(out)@) == insert_by_order(views(old(out)@), x@),
{
    let ghost was = views(out@);
    let mut j: usize = out.len();
    let ghost mut tail = Seq::<ManagedView>::empty();
    assert(insert_by_order(was, x@) =~= insert_by_order(was.take(j as int), x@) + tail);
    while j > 0 && x.order < out[j - 1].order
        invariant
            j <= out@.len(),
            views(out@) == was,
            tail == was.skip(j as int),
            insert_by_order(was, x@) == insert_by_order(was.take(j as int), x@) + tail,
        decreases j,
    {
        proof {
            let head = was.take(j as int);
            assert(head.last() == out@[j - 1]@);
            assert(head.drop_last() =~= was.take(j - 1));
            assert(insert_by_order(was.take(j - 1), x@).push(head.last()) + tail
                =~= insert_by_order(was.take(j - 1), x@) + was.skip(j - 1));
            tail = was.skip(j - 1);
        }
        j -= 1;
    }
    proof {
        let head = was.take(j as int);
        if j > 0 {
            assert(head.last() == out@[j - 1]@);
        }
        assert(insert_by_order(head, x@) == head.push(x@));
    }
    out.insert(j, x);
    assert(views(out@) =~= was.take(j as int).push(x@) + was.skip(j as int));
}

proof fn lemma_files_broken(files: Seq<(Seq<char>, Seq<char>)>, i: int, windows: bool)
    requires
        0 <= i <= files.len(),
        entries_in_files(files.take(i), windows) is Err,
    ensures
        entries_in_files(files, windows) == entries_in_files(files.take(i), windows),
    decreases files.len() - i,
{
    if i < files.len() {
        lemma_files_broken(files, i + 1, windows);
    }
}

/// Reads the files of the managed entries.
pub fn load_managed_entries(
    files: &Vec<EntryFile>,
    windows: bool,
) -> (r: Result<Vec<ManagedEntry>, ConfigError>)
    ensures
        managed_all(r) == entries_in_files(file_pairs(files@), windows),
{
    let ghost all = file_pairs(files@);
    let mut out: Vec<ManagedEntry> = Vec::new();
    let mut i: usize = 0;
    while i < files.len()
        invariant
            i <= files@.len(),
            all == file_pairs(files@),
            entries_in_files(all.take(i as int), windows) == Ok::<Seq<ManagedView>, Seq<char>>(views(out@)),
        decreases files@.len() - i,
    {
        match read_entry(&files[i].path, &files[i].content, windows) {
            Err(e) => {
                proof {
                    lemma_files_broken(all, i + 1, windows);
                }
                return Err(e);
            },
            Ok(x) => {
                insert_entry(&mut out, x);
            },
        }
        i += 1;
    }
    Ok(out)
}

// ---------------------------------------------------------------------------
// Finding
// ---------------------------------------------------------------------------

/// How many entries stand before the first that lists `host` among its patterns.
pub open spec fn until_host(es: Seq<ManagedView>, host: Seq<char>) -> nat
    decreases es.len(),
{
    if es.len() == 0 || es[0].entry.host_patterns.contains(host) {
        0
    } else {
        1 + until_host(es.skip(1), host)
    }
}

/// Where the first entry stands that lists `host` among its patterns.
pub fn find_host_index(entries: &[ManagedEntry], host: &str) -> (r: Option<usize>)
    ensures
        match r {
            Some(i) => i == until_host(views(entries@), host@) && i < entries@.len()
                && views(entries@)[i as int].entry.host_patterns.contains(host@),
            None => until_host(views(entries@), host@) == entries@.len(),
        },
{
    let ghost es = views(entries@);
    let mut i: usize = 0;
    while i < entries.len()
        invariant
            i <= entries@.len(),
            es == views(entries@),
            until_host(es, host@) == i + until_host(es.skip(i as int), host@),
        decreases entries@.len() - i,
    {
        assert(es.skip(i as int)[0] == entries@[i as int]@);
        if holds(&entries[i].entry.host_patterns, host) {
            return Some(i);
        }
        i += 1;
    }
    None
}

/// The first entry that lists `host` among its patterns.
pub fn find_entry_by_host<'a>(entries: &'a [ManagedEntry], host: &str) -> (r: Option<
    &'a ManagedEntry,
>)
    ensures
        match r {
            Some(e) => until_host(views(entries@), host@) < entries@.len() && e@ == views(
                entries@,
            )[until_host(views(entries@), host@) as int],
            None => until_host(views(entries@), host@) == entries@.len(),
        },
{
    match find_host_index(entries, host) {
        Some(i) => Some(&entries[i]),
        None => None,
    }
}

// ---------------------------------------------------------------------------
// Writing
// ---------------------------------------------------------------------------

/// The order behind that of the last entry.
pub open spec fn order_after(es: Seq<ManagedView>) -> int {
    if es.len() == 0 {
        10
    } else {
        es.last().order + 10
    }
}

pub fn next_order(entries: &[ManagedEntry]) -> (r: u16)
    requires
        order_after(views(entries@)) <= 65535,
    ensures
        r == order_after(views(entries@)),
{
    let n: usize = entries.len();
    if n == 0 {
        10
    } else {
        assert(views(entries@).last() == entries@[n - 1]@);
        entries[n - 1].order + 10
    }
}

/// Another file than the one at `path` has the order.
pub open spec fn order_taken(es: Seq<ManagedView>, order: u16, path: Option<Seq<char>>) -> bool {
    exists|i: int|
        0 <= i < es.len() && (#[trigger] es[i]).order == order && path != Some(es[i].path)
}

pub fn order_is_taken(entries: &[ManagedEntry], order: u16, path: Option<&str>) -> (r: bool)
    ensures
        r == order_taken(views(entries@), order, opt_str(path)),
{
    let ghost es = views(entries@);
    let mut i: usize = 0;
    while i < entries.len()
        invariant
            i <= entries@.len(),
            es == views(entries@),
            forall|k: int|
                0 <= k < i ==> !((#[trigger] es[k]).order == order && opt_str(path) != Some(
                    es[k].path,
                )),
        decreases entries@.len() - i,
    {
        assert(es[i as int] == entries@[i as int]@);
        let own: bool = match path {
            Some(p) => same(p, &entries[i].path),
            None => false,
        };
        if entries[i].order == order && !own {
            return true;
        }
        i += 1;
    }
    false
}

/// An entry as it is written into its file.
pub open spec fn written(
    dir: Seq<char>,
    order: u16,
    e: HostView,
    newline: Seq<char>,
    windows: bool,
) -> ManagedView {
    ManagedView {
        order,
        slug: slug_of(e.primary()),
        path: path_in(dir, entry_file_name(order, e), windows),
        raw_content: render_directives(directives_of(e), newline),
        entry: e,
    }
}

/// What is written for a new entry, or why nothing is. `files` are the files that exist.
pub open spec fn saved(
    es: Seq<ManagedView>,
    files: Seq<Seq<char>>,
    dir: Seq<char>,
    e: HostView,
    requested: Option<u16>,
    newline: Seq<char>,
    windows: bool,
) -> Result<ManagedView, Seq<char>> {
    let order = match requested {
        Some(n) => n,
        None => order_after(es) as u16,
    };
    let w = written(dir, order, e, newline, windows);
    if order_taken(es, order, None) {
        Err("order "@ + decimal(order as nat) + " is already in use"@)
    } else if files.contains(w.path) {
        Err("target file already exists: "@ + w.path)
    } else {
        Ok(w)
    }
}

/// What is to be written for a new entry.
pub fn save_entry(
    existing: &[ManagedEntry],
    files: &Vec<String>,
    config_d_dir: &str,
    entry: &HostEntry,
    requested_order: Option<u16>,
    newline: &str,
    windows: bool,
) -> (r: Result<ManagedEntry, ConfigError>)
    requires
        requested_order is None ==> order_after(views(existing@)) <= 65535,
    ensures
        managed(r) == saved(
            views(existing@),
            strs(files@),
            config_d_dir@,
            entry@,
            requested_order,
            newline@,
            windows,
        ),
{
    let order: u16 = match requested_order {
        Some(n) => n,
        None => next_order(existing),
    };
    if order_is_taken(existing, order, None) {
        return Err(
            ConfigError::new(concat3("order ", &decimal_text(order as usize), " is already in use")),
        );
    }
    let (slug, path) = managed_entry_target(config_d_dir, order, entry, windows);
    if holds(files, &path) {
        return Err(ConfigError::new(concat2("target file already exists: ", &path)));
    }
    let raw_content: String = render_host_entry(entry, newline);
    Ok(ManagedEntry { order, slug, path, raw_content, entry: entry.clone() })
}

/// What is written in place of the entry in the file at `current`, or why nothing is.
pub open spec fn replaced(
    es: Seq<ManagedView>,
    files: Seq<Seq<char>>,
    dir: Seq<char>,
    current: ManagedView,
    e: HostView,
    requested: Option<u16>,
    newline: Seq<char>,
    windows: bool,
) -> Result<ManagedView, Seq<char>> {
    let order = match requested {
        Some(n) => n,
        None => current.order,
    };
    let w = written(dir, order, e, newline, windows);
    let n = until_host(es, e.primary());
    if order_taken(es, order, Some(current.path)) {
        Err("order "@ + decimal(order as nat) + " is already in use"@)
    } else if n < es.len() && es[n as int].path != current.path {
        Err("managed entry `"@ + e.primary() + "` already exists"@)
    } else if w.path != current.path && files.contains(w.path) {
        Err("target file already exists: "@ + w.path)
    } else {
        Ok(w)
    }
}

/// What is to be written in place of `current`; its file goes where the new one has another path.
pub fn replace_entry(
    existing: &[ManagedEntry],
    files: &Vec<String>,
    config_d_dir: &str,
    current: &ManagedEntry,
    entry: &HostEntry,
    requested_order: Option<u16>,
    newline: &str,
    windows: bool,
) -> (r: Result<ManagedEntry, ConfigError>)
    ensures
        managed(r) == replaced(
            views(existing@),
            strs(files@),
            config_d_dir@,
            current@,
            entry@,
            requested_order,
            newline@,
            windows,
        ),
{
    let order: u16 = match requested_order {
        Some(n) => n,
        None => current.order,
    };
    if order_is_taken(existing, order, Some(current.path.as_str())) {
        return Err(
            ConfigError::new(concat3("order ", &decimal_text(order as usize), " is already in use")),
        );
    }
    match find_entry_by_host(existing, entry.primary_pattern()) {
        Some(conflict) => {
            if !same(&conflict.path, &current.path) {
                return Err(
                    ConfigError::new(
                        concat3("managed entry `", entry.primary_pattern(), "` already exists"),
                    ),
                );
            }
        },
        None => {},
    }
    let (slug, path) = managed_entry_target(config_d_dir, order, entry, windows);
    if !same(&path, &current.path) && holds(files, &path) {
        return Err(ConfigError::new(concat2("target file already exists: ", &path)));
    }
    let raw_content: String = render_host_entry(entry, newline);
    Ok(ManagedEntry { order, slug, path, raw_content, entry: entry.clone() })
}

/// The order of the entry of that index in a list: tens, from ten on.
pub open spec fn order_at(index: int) -> int {
    (index + 1) * 10
}

/// An entry in the place of that index, otherwise unchanged.
pub open spec fn placed(dir: Seq<char>, index: int, e: ManagedView, windows: bool) -> ManagedView {
    let order = order_at(index) as u16;
    ManagedView {
        order,
        slug: slug_of(e.entry.primary()),
        path: path_in(dir, entry_file_name(order, e.entry), windows),
        raw_content: e.raw_content,
        entry: e.entry,
    }
}

pub open spec fn placed_all(
    dir: Seq<char>,
    es: Seq<ManagedView>,
    windows: bool,
) -> Seq<ManagedView> {
    Seq::new(es.len(), |i: int| placed(dir, i, es[i], windows))
}

/// The files of the entries in the order of the list, or a refusal where there are too many.
pub fn rewrite_entries(config_d_dir: &str, entries: &[ManagedEntry], windows: bool) -> (r: Result<
    Vec<ManagedEntry>,
    ConfigError,
>)
    ensures
        match r {
            Ok(v) => order_at(entries@.len() - 1) <= 65535 && views(v@) == placed_all(
                config_d_dir@,
                views(entries@),
                windows,
            ),
            Err(e) => order_at(entries@.len() - 1) > 65535 && e@
                == "managed entry order exceeds u16"@ + ": "@
                + "out of range integral type conversion attempted"@,
        },
{
    let ghost es = views(entries@);
    let mut out: Vec<ManagedEntry> = Vec::new();
    if entries.len() > 6553 {
        return Err(
            ConfigError::caused(
                "managed entry order exceeds u16".to_string(),
                "out of range integral type conversion attempted".to_string(),
            ),
        );
    }
    let mut i: usize = 0;
    while i < entries.len()
        invariant
            i <= entries@.len() <= 6553,
            es == views(entries@),
            views(out@) == placed_all(config_d_dir@, es, windows).take(i as int),
        decreases entries@.len() - i,
    {
        let order: u16 = (i as u16 + 1) * 10;
        let (slug, path) = managed_entry_target(config_d_dir, order, &entries[i].entry, windows);
        out.push(
            ManagedEntry {
                order,
                slug,
                path,
                raw_content: entries[i].raw_content.clone(),
                entry: entries[i].entry.clone(),
            },
        );
        assert(es[i as int] == entries@[i as int]@);
        assert(order == order_at(i as int) as u16);
        i += 1;
        assert(views(out@) =~= placed_all(config_d_dir@, es, windows).take(i as int));
    }
    Ok(out)
}

} // verus!
