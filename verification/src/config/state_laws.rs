//! What holds of the records.

use vstd::prelude::*;

use crate::config::model::ManagedView;
use crate::config::state::{
    MetadataView, UpdateView, clean, clean_note, clean_tags, file_name_or_empty, fits_any,
    insert_record, is_used, merged_records, missing_count, no_update, record_at, record_fits,
    record_for, record_less, record_of, records_without, sort_records, until_record, unused_count,
    upserted, with_tag,
};
use crate::config::store::saved;
use crate::text::{
    law_sort_texts, lemma_text_less_total, lemma_text_less_transitive, sort_texts, text_less, trim,
    without,
};
use crate::text_laws::{law_lower_of_trim, law_lower_once, law_trim_once};

verus! {

broadcast use crate::text::group_text;

// ---------------------------------------------------------------------------
// One record for each entry
// ---------------------------------------------------------------------------

/// The record says where the entry is and for which hosts.
pub open spec fn describes_entry(m: MetadataView, e: ManagedView, windows: bool) -> bool {
    &&& m.primary_pattern == e.entry.primary()
    &&& m.host_patterns == e.entry.host_patterns
    &&& m.order == e.order
    &&& m.entry_kind == e.entry.kind().spec_label()
    &&& m.managed_filename == file_name_or_empty(e.path, windows)
}

/// After the records were brought in line with the entries there is one for each entry, in
/// the order of the entries, and it describes the entry.
pub proof fn law_one_record_for_each_entry(
    ms: Seq<MetadataView>,
    es: Seq<ManagedView>,
    now: Seq<char>,
    stamps: Seq<Seq<char>>,
    touch: bool,
    windows: bool,
)
    ensures
        ({
            let r = merged_records(ms, es, now, stamps, touch, windows);
            &&& r.len() == es.len()
            &&& forall|i: int| 0 <= i < es.len() ==> describes_entry(#[trigger] r[i], es[i], windows)
        }),
    decreases es.len(),
{
    if es.len() > 0 {
        let rest = es.skip(1);
        let r = merged_records(ms, es, now, stamps, touch, windows);
        let left = match record_at(ms, es[0], windows) {
            Some(i) => ms.remove(i),
            None => ms,
        };
        law_one_record_for_each_entry(left, rest, now, stamps.skip(1), touch, windows);
        let tail = merged_records(left, rest, now, stamps.skip(1), touch, windows);
        assert forall|i: int| 0 <= i < es.len() implies describes_entry(#[trigger] r[i], es[i], windows) by {
            if i > 0 {
                assert(r[i] == tail[i - 1]);
                assert(es[i] == rest[i - 1]);
            }
        }
    }
}

proof fn lemma_fitting_record_is_found(ms: Seq<MetadataView>, e: ManagedView, i: int, windows: bool)
    requires
        0 <= i < ms.len(),
        record_fits(ms[i], e, windows),
    ensures
        until_record(ms, e, windows) <= i,
    decreases ms.len(),
{
    if !record_fits(ms[0], e, windows) {
        assert(ms.skip(1)[i - 1] == ms[i]);
        lemma_fitting_record_is_found(ms.skip(1), e, i - 1, windows);
    }
}

proof fn lemma_none_missing(ms: Seq<MetadataView>, es: Seq<ManagedView>, windows: bool)
    requires
        forall|i: int| 0 <= i < es.len() ==> record_at(ms, #[trigger] es[i], windows) is Some,
    ensures
        missing_count(ms, es, windows) == 0,
    decreases es.len(),
{
    if es.len() > 0 {
        let head = es.drop_last();
        assert forall|i: int| 0 <= i < head.len() implies record_at(ms, #[trigger] head[i], windows) is Some by {
            assert(head[i] == es[i]);
        }
        lemma_none_missing(ms, head, windows);
        assert(record_at(ms, es[es.len() - 1], windows) is Some);
    }
}

/// After the records were brought in line with the entries, no entry lacks one.
pub proof fn law_no_record_is_missing(
    ms: Seq<MetadataView>,
    es: Seq<ManagedView>,
    now: Seq<char>,
    stamps: Seq<Seq<char>>,
    touch: bool,
    windows: bool,
)
    ensures
        missing_count(merged_records(ms, es, now, stamps, touch, windows), es, windows) == 0,
{
    let r = merged_records(ms, es, now, stamps, touch, windows);
    law_one_record_for_each_entry(ms, es, now, stamps, touch, windows);
    assert forall|i: int| 0 <= i < es.len() implies record_at(r, #[trigger] es[i], windows) is Some by {
        assert(describes_entry(r[i], es[i], windows));
        lemma_fitting_record_is_found(r, es[i], i, windows);
    }
    lemma_none_missing(r, es, windows);
}

/// No two entries have the name of their file, their first pattern or their patterns in common.
pub open spec fn are_apart(es: Seq<ManagedView>, windows: bool) -> bool {
    forall|i: int, j: int|
        0 <= i < j < es.len() ==> {
            &&& file_name_or_empty((#[trigger] es[i]).path, windows) != file_name_or_empty(
                (#[trigger] es[j]).path,
                windows,
            )
            &&& es[i].entry.primary() != es[j].entry.primary()
            &&& es[i].entry.host_patterns != es[j].entry.host_patterns
        }
}

proof fn lemma_first_fitting_record(ms: Seq<MetadataView>, e: ManagedView, i: int, windows: bool)
    requires
        0 <= i < ms.len(),
        record_fits(ms[i], e, windows),
        forall|k: int| 0 <= k < i ==> !record_fits(#[trigger] ms[k], e, windows),
    ensures
        record_at(ms, e, windows) == Some(i),
    decreases ms.len(),
{
    if i > 0 {
        assert(!record_fits(ms[0], e, windows));
        let rest = ms.skip(1);
        assert(rest[i - 1] == ms[i]);
        assert forall|k: int| 0 <= k < i - 1 implies !record_fits(#[trigger] rest[k], e, windows) by {
            assert(rest[k] == ms[k + 1]);
        }
        lemma_first_fitting_record(rest, e, i - 1, windows);
    }
}

proof fn lemma_none_unused(ms: Seq<MetadataView>, es: Seq<ManagedView>, n: nat, windows: bool)
    requires
        forall|i: int| 0 <= i < n ==> #[trigger] is_used(ms, es, i, windows),
    ensures
        unused_count(ms, es, n, windows) == 0,
    decreases n,
{
    if n > 0 {
        lemma_none_unused(ms, es, (n - 1) as nat, windows);
        assert(is_used(ms, es, n - 1, windows));
    }
}

/// After the records were brought in line with the entries, none is left over, where no two
/// entries can be taken for one another.
pub proof fn law_no_record_is_stale(
    ms: Seq<MetadataView>,
    es: Seq<ManagedView>,
    now: Seq<char>,
    stamps: Seq<Seq<char>>,
    touch: bool,
    windows: bool,
)
    requires
        are_apart(es, windows),
    ensures
        ({
            let r = merged_records(ms, es, now, stamps, touch, windows);
            unused_count(r, es, r.len(), windows) == 0
        }),
{
    let r = merged_records(ms, es, now, stamps, touch, windows);
    law_one_record_for_each_entry(ms, es, now, stamps, touch, windows);
    assert forall|i: int| 0 <= i < r.len() implies #[trigger] is_used(r, es, i, windows) by {
        assert(describes_entry(r[i], es[i], windows));
        assert forall|k: int| 0 <= k < i implies !record_fits(#[trigger] r[k], es[i], windows) by {
            assert(describes_entry(r[k], es[k], windows));
            assert(es[k].entry.primary() != es[i].entry.primary());
        }
        lemma_first_fitting_record(r, es[i], i, windows);
        assert(record_at(r, es[i], windows) == Some(i));
    }
    lemma_none_unused(r, es, r.len(), windows);
}

/// What a record knows besides the entry.
pub open spec fn same_memory(a: MetadataView, b: MetadataView) -> bool {
    &&& a.id == b.id
    &&& a.created_at == b.created_at
    &&& a.template_source == b.template_source
    &&& a.tags == b.tags
    &&& a.note == b.note
    &&& a.target_os == b.target_os
    &&& a.remote_user_home == b.remote_user_home
    &&& a.authorized_keys_path == b.authorized_keys_path
    &&& a.ssh_dir_mode == b.ssh_dir_mode
    &&& a.authorized_keys_mode == b.authorized_keys_mode
}

/// When an entry is saved, its record keeps its id and its history, also where the entry got
/// another name or another file, and what the update does not speak of. No other record is
/// touched. A new record is made only where the entry had none.
pub proof fn law_saving_keeps_the_record(
    ms: Seq<MetadataView>,
    saved: ManagedView,
    previous: Option<ManagedView>,
    u: UpdateView,
    now: Seq<char>,
    stamp: Seq<char>,
    windows: bool,
)
    ensures
        ({
            let r = upserted(ms, saved, previous, u, now, stamp, windows);
            match record_for(ms, saved, previous, windows) {
                Some(i) => {
                    &&& 0 <= i < ms.len()
                    &&& r.len() == ms.len()
                    &&& r[i].id == ms[i].id
                    &&& r[i].created_at == ms[i].created_at
                    &&& u == no_update() ==> same_memory(r[i], ms[i])
                    &&& describes_entry(r[i], saved, windows)
                    &&& forall|k: int| 0 <= k < ms.len() && k != i ==> r[k] == #[trigger] ms[k]
                },
                None => {
                    &&& r.len() == ms.len() + 1
                    &&& describes_entry(r.last(), saved, windows)
                    &&& forall|k: int| 0 <= k < ms.len() ==> r[k] == #[trigger] ms[k]
                },
            }
        }),
        record_of(upserted(ms, saved, previous, u, now, stamp, windows), saved, windows) is Some,
{
    let r = upserted(ms, saved, previous, u, now, stamp, windows);
    match record_for(ms, saved, previous, windows) {
        Some(i) => {
            assert(record_fits(r[i], saved, windows));
            lemma_fitting_record_is_found(r, saved, i, windows);
        },
        None => {
            let n = ms.len() as int;
            assert(record_fits(r[n], saved, windows));
            lemma_fitting_record_is_found(r, saved, n, windows);
        },
    }
}

/// After entries were deleted no record of theirs is left, and all others are, in their order.
pub proof fn law_deleted_entries_leave_no_record(
    ms: Seq<MetadataView>,
    es: Seq<ManagedView>,
    windows: bool,
)
    ensures
        ({
            let r = records_without(ms, es, windows);
            &&& r.len() <= ms.len()
            &&& forall|i: int| 0 <= i < r.len() ==> !fits_any(#[trigger] r[i], es, windows)
            &&& forall|m: MetadataView|
                r.contains(m) <==> (#[trigger] ms.contains(m) && !fits_any(m, es, windows))
        }),
    decreases ms.len(),
{
    if ms.len() > 0 {
        let head = ms.drop_last();
        let last = ms.last();
        law_deleted_entries_leave_no_record(head, es, windows);
        let before = records_without(head, es, windows);
        let r = records_without(ms, es, windows);
        assert(ms[ms.len() - 1] == last);
        assert forall|i: int| 0 <= i < r.len() implies !fits_any(#[trigger] r[i], es, windows) by {
            if i < before.len() {
                assert(r[i] == before[i]);
            }
        }
        assert forall|m: MetadataView| r.contains(m) <==> (#[trigger] ms.contains(m) && !fits_any(
            m,
            es,
            windows,
        )) by {
            assert(head.contains(m) ==> ms.contains(m)) by {
                if head.contains(m) {
                    let i = choose|i: int| 0 <= i < head.len() && head[i] == m;
                    assert(ms[i] == m);
                }
            }
            if ms.contains(m) && m != last {
                let i = choose|i: int| 0 <= i < ms.len() && ms[i] == m;
                assert(head[i] == m);
                assert(head.contains(m));
            }
            if r.contains(m) {
                let i = choose|i: int| 0 <= i < r.len() && r[i] == m;
                if i < before.len() {
                    assert(before[i] == m);
                    assert(before.contains(m));
                }
            }
            if before.contains(m) {
                let i = choose|i: int| 0 <= i < before.len() && before[i] == m;
                assert(r[i] == m);
            }
            if m == last && !fits_any(m, es, windows) {
                assert(r[r.len() - 1] == m);
            }
        }
    } else {
        assert(forall|m: MetadataView| !ms.contains(m));
    }
}

// ---------------------------------------------------------------------------
// Saved records are sorted
// ---------------------------------------------------------------------------

pub open spec fn records_sorted(v: Seq<MetadataView>) -> bool {
    forall|i: int, j: int|
        0 <= i < j < v.len() ==> !record_less(#[trigger] v[j], #[trigger] v[i])
}

proof fn lemma_insert_record(v: Seq<MetadataView>, x: MetadataView)
    requires
        records_sorted(v),
    ensures
        records_sorted(insert_record(v, x)),
        insert_record(v, x).to_multiset() == v.to_multiset().insert(x),
        insert_record(v, x).len() == v.len() + 1,
        forall|k: int|
            0 <= k < insert_record(v, x).len() ==> (#[trigger] insert_record(v, x)[k] == x
                || v.contains(insert_record(v, x)[k])),
    decreases v.len(),
{
    broadcast use vstd::seq_lib::to_multiset_build;

    let r = insert_record(v, x);
    if v.len() > 0 && record_less(x, v.last()) {
        let head = v.drop_last();
        let top = v.last();
        assert(records_sorted(head)) by {
            assert forall|i: int, j: int| 0 <= i < j < head.len() implies !record_less(
                #[trigger] head[j],
                #[trigger] head[i],
            ) by {
                assert(!record_less(v[j], v[i]));
            }
        }
        lemma_insert_record(head, x);
        let rest = insert_record(head, x);
        assert(head.push(top) =~= v);
        assert forall|k: int| 0 <= k < r.len() implies (#[trigger] r[k] == x || v.contains(r[k])) by {
            if k < rest.len() {
                assert(r[k] == rest[k]);
                if rest[k] != x {
                    let i = choose|i: int| 0 <= i < head.len() && head[i] == rest[k];
                    assert(v[i] == r[k]);
                }
            } else {
                assert(v[v.len() - 1] == r[k]);
            }
        }
        assert forall|i: int, j: int| 0 <= i < j < r.len() implies !record_less(
            #[trigger] r[j],
            #[trigger] r[i],
        ) by {
            if j < rest.len() {
                assert(!record_less(rest[j], rest[i]));
            } else if rest[i] == x {
                lemma_less_is_one_way(x, top);
            } else {
                let k = choose|k: int| 0 <= k < head.len() && head[k] == rest[i];
                assert(!record_less(v[v.len() - 1], v[k]));
            }
        }
        assert(head.to_multiset().insert(x).insert(top) =~= head.to_multiset().insert(top).insert(
            x,
        ));
    } else {
        assert forall|i: int, j: int| 0 <= i < j < r.len() implies !record_less(
            #[trigger] r[j],
            #[trigger] r[i],
        ) by {
            if j < v.len() {
                assert(!record_less(v[j], v[i]));
            } else if i < v.len() - 1 {
                assert(!record_less(v[v.len() - 1], v[i]));
                lemma_not_less_transitive(x, v.last(), v[i]);
            }
        }
        assert forall|k: int| 0 <= k < r.len() implies (#[trigger] r[k] == x || v.contains(r[k])) by {
            if k < v.len() {
                assert(v[k] == r[k]);
            }
        }
    }
}

proof fn lemma_less_is_one_way(a: MetadataView, b: MetadataView)
    requires
        record_less(a, b),
    ensures
        !record_less(b, a),
{
    if a.order == b.order && record_less(b, a) {
        lemma_text_less_transitive(a.primary_pattern, b.primary_pattern, a.primary_pattern);
        lemma_not_less_than_itself(a.primary_pattern);
    }
}

proof fn lemma_not_less_than_itself(s: Seq<char>)
    ensures
        !text_less(s, s),
    decreases s.len(),
{
    if s.len() > 0 {
        lemma_not_less_than_itself(s.skip(1));
    }
}

proof fn lemma_not_less_transitive(x: MetadataView, y: MetadataView, z: MetadataView)
    requires
        !record_less(x, y),
        !record_less(y, z),
    ensures
        !record_less(x, z),
{
    if record_less(x, z) {
        if x.order == z.order && y.order == x.order {
            lemma_text_less_total(x.primary_pattern, y.primary_pattern);
            if x.primary_pattern != y.primary_pattern {
                lemma_text_less_transitive(
                    y.primary_pattern,
                    x.primary_pattern,
                    z.primary_pattern,
                );
            }
        }
    }
}

/// Saving sorts the records by order, and by name where the order is the same; none is lost,
/// and none is added.
pub proof fn law_saved_records_are_sorted(v: Seq<MetadataView>)
    ensures
        records_sorted(sort_records(v)),
        sort_records(v).to_multiset() == v.to_multiset(),
        sort_records(v).len() == v.len(),
    decreases v.len(),
{
    broadcast use vstd::seq_lib::to_multiset_build;

    if v.len() > 0 {
        law_saved_records_are_sorted(v.drop_last());
        lemma_insert_record(sort_records(v.drop_last()), v.last());
        assert(v.drop_last().push(v.last()) =~= v);
    }
}

// ---------------------------------------------------------------------------
// Tags and notes
// ---------------------------------------------------------------------------

/// A tag in the form in which it is kept.
pub open spec fn is_clean(tag: Seq<char>) -> bool {
    tag.len() > 0 && clean(tag) == tag
}

/// Tags that are kept are clean, and none is kept twice.
pub proof fn law_tags_are_clean(tags: Seq<Seq<char>>)
    ensures
        clean_tags(tags).no_duplicates(),
        forall|i: int| 0 <= i < clean_tags(tags).len() ==> is_clean(#[trigger] clean_tags(tags)[i]),
    decreases tags.len(),
{
    if tags.len() > 0 {
        law_tags_are_clean(tags.drop_last());
        let before = clean_tags(tags.drop_last());
        let tag = clean(tags.last());
        law_trim_once(tags.last());
        law_lower_of_trim(trim(tags.last()));
        law_lower_once(trim(tags.last()));
        assert(clean(tag) == tag);
        let r = clean_tags(tags);
        assert forall|i: int| 0 <= i < r.len() implies is_clean(#[trigger] r[i]) by {
            if i < before.len() {
                assert(r[i] == before[i]);
            }
        }
        assert forall|i: int, j: int| 0 <= i < r.len() && 0 <= j < r.len() && i != j implies r[i]
            != r[j] by {
            if i < before.len() && j < before.len() {
                assert(before[i] != before[j]);
            } else if i < before.len() {
                assert(before.contains(before[i]));
            } else {
                assert(before.contains(before[j]));
            }
        }
    }
}

proof fn lemma_clean_tags_stay(tags: Seq<Seq<char>>)
    requires
        tags.no_duplicates(),
        forall|i: int| 0 <= i < tags.len() ==> is_clean(#[trigger] tags[i]),
    ensures
        clean_tags(tags) == tags,
    decreases tags.len(),
{
    if tags.len() > 0 {
        let head = tags.drop_last();
        assert forall|i: int| 0 <= i < head.len() implies is_clean(#[trigger] head[i]) by {
            assert(head[i] == tags[i]);
        }
        assert(head.no_duplicates());
        lemma_clean_tags_stay(head);
        assert(is_clean(tags[tags.len() - 1]));
        assert(!head.contains(tags.last())) by {
            if head.contains(tags.last()) {
                let i = choose|i: int| 0 <= i < head.len() && head[i] == tags.last();
                assert(tags[i] != tags[tags.len() - 1]);
            }
        }
        assert(head.push(tags.last()) =~= tags);
    } else {
        assert(clean_tags(tags) =~= tags);
    }
}

/// Cleaning tags again changes nothing, nor does cleaning a note again.
pub proof fn law_cleaning_once_is_enough(tags: Seq<Seq<char>>, note: Option<Seq<char>>)
    ensures
        clean_tags(clean_tags(tags)) == clean_tags(tags),
        clean_note(clean_note(note)) == clean_note(note),
{
    law_tags_are_clean(tags);
    lemma_clean_tags_stay(clean_tags(tags));
    match note {
        Some(n) => law_trim_once(n),
        None => {},
    }
}

/// A tag that was added is there, one that was taken out is not; adding it twice is adding it
/// once.
pub proof fn law_tags_are_added_and_taken_out(tags: Seq<Seq<char>>, tag: Seq<char>)
    ensures
        with_tag(tags, tag).contains(tag),
        !without(tags, tag).contains(tag),
        with_tag(with_tag(tags, tag), tag) == with_tag(tags, tag),
{
    lemma_without(tags, tag);
    if !tags.contains(tag) {
        let all = tags.push(tag);
        law_sort_texts(all);
        assert(all[all.len() - 1] == tag);
        assert(all.contains(tag));
        vstd::seq_lib::to_multiset_contains(all, tag);
        vstd::seq_lib::to_multiset_contains(sort_texts(all), tag);
    }
}

proof fn lemma_without(v: Seq<Seq<char>>, x: Seq<char>)
    ensures
        !without(v, x).contains(x),
    decreases v.len(),
{
    if v.len() > 0 {
        lemma_without(v.drop_last(), x);
        let before = without(v.drop_last(), x);
        let r = without(v, x);
        if r.contains(x) {
            let i = choose|i: int| 0 <= i < r.len() && r[i] == x;
            if i < before.len() {
                assert(before[i] == x);
                assert(before.contains(x));
            }
        }
    }
}

} // verus!
