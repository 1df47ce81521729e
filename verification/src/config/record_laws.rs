//! What changes do to the records of entries.

use vstd::prelude::*;

use crate::config::model::ManagedView;
use crate::config::state::{
    ChangeView, MetadataView, StateView, UpdateView, changed_all, changed_at, changed_by_ids,
    changed_for_host, clean, clean_note, clean_tags, created_with, distinct_count, edited_with,
    fits_any, loaded_state, merged_records, missing_count, named_at, names_host, picked_by_ids,
    record_at, record_fits, records_without, saved_state, until_named, until_record, upserted,
    with_tag,
};
use crate::config::state_laws::{
    describes_entry, law_one_record_for_each_entry, law_saved_records_are_sorted, same_memory,
};
use crate::config::template::TemplateKind;
use crate::text::{blank, law_sort_texts, lower, sort_texts, trim, without};

verus! {

// ---------------------------------------------------------------------------
// Tags
// ---------------------------------------------------------------------------

/// The tags of a list are those of its items that are not blank, small and without white space
/// round them, each once.
#[verifier::rlimit(30)]
pub proof fn law_clean_tags_are_the_tags(tags: Seq<Seq<char>>, t: Seq<char>)
    ensures
        clean_tags(tags).contains(t) <==> t.len() > 0 && exists|i: int|
            0 <= i < tags.len() && lower(trim(#[trigger] tags[i])) == t,
    decreases tags.len(),
{
    if tags.len() > 0 {
        let head = tags.drop_last();
        let last = clean(tags.last());
        law_clean_tags_are_the_tags(head, t);
        law_clean_tags_are_the_tags(head, last);
        let before = clean_tags(head);
        let now = clean_tags(tags);
        assert(tags[tags.len() - 1] == tags.last());
        if now.contains(t) {
            let k = choose|k: int| 0 <= k < now.len() && now[k] == t;
            if k < before.len() {
                assert(before[k] == t);
                assert(before.contains(t));
                let i = choose|i: int| 0 <= i < head.len() && lower(trim(#[trigger] head[i])) == t;
                assert(tags[i] == head[i]);
            } else {
                assert(lower(trim(tags[tags.len() - 1])) == t);
            }
        }
        if t.len() > 0 && exists|i: int| 0 <= i < tags.len() && lower(trim(#[trigger] tags[i])) == t {
            let i = choose|i: int| 0 <= i < tags.len() && lower(trim(#[trigger] tags[i])) == t;
            if i < head.len() {
                assert(head[i] == tags[i]);
                let k = choose|k: int| 0 <= k < before.len() && before[k] == t;
                assert(now[k] == t);
            } else if !before.contains(t) {
                assert(now[before.len() as int] == t);
            } else {
                let k = choose|k: int| 0 <= k < before.len() && before[k] == t;
                assert(now[k] == t);
            }
        }
    } else {
        assert(clean_tags(tags) =~= Seq::<Seq<char>>::empty());
    }
}

/// Tags that are clean and apart stay as they are, in their order.
pub proof fn law_clean_tags_keep_their_order(tags: Seq<Seq<char>>)
    requires
        tags.no_duplicates(),
        forall|i: int|
            0 <= i < tags.len() ==> (#[trigger] tags[i]).len() > 0 && lower(trim(tags[i])) == tags[i],
    ensures
        clean_tags(tags) == tags,
    decreases tags.len(),
{
    if tags.len() == 0 {
        assert(clean_tags(tags) =~= tags);
    } else {
        let head = tags.drop_last();
        assert forall|i: int| 0 <= i < head.len() implies (#[trigger] head[i]).len() > 0 && lower(
            trim(head[i]),
        ) == head[i] by {
            assert(head[i] == tags[i]);
        }
        law_clean_tags_keep_their_order(head);
        assert(tags[tags.len() - 1] == tags.last());
        if head.contains(tags.last()) {
            let i = choose|i: int| 0 <= i < head.len() && head[i] == tags.last();
            assert(tags[i] == tags[tags.len() - 1]);
        }
        assert(head.push(tags.last()) =~= tags);
    }
}

/// A note is kept without white space round it, and a blank one is none.
pub proof fn law_notes_are_trimmed(note: Seq<char>)
    ensures
        !blank(note) ==> clean_note(Some(note)) == Some(trim(note)),
        blank(note) ==> clean_note(Some(note)) is None,
        clean_note(None) is None,
{
}

proof fn lemma_with_tag(tags: Seq<Seq<char>>, tag: Seq<char>, t: Seq<char>)
    ensures
        with_tag(tags, tag).contains(t) <==> t == tag || tags.contains(t),
{
    if !tags.contains(tag) {
        let all = tags.push(tag);
        let r = sort_texts(all);
        law_sort_texts(all);
        r.to_multiset_ensures();
        all.to_multiset_ensures();
        assert(r.contains(t) <==> r.to_multiset().count(t) > 0);
        assert(all.contains(t) <==> all.to_multiset().count(t) > 0);
        if tags.contains(t) {
            let i = choose|i: int| 0 <= i < tags.len() && tags[i] == t;
            assert(all[i] == t);
        }
        assert(all[tags.len() as int] == tag);
        if all.contains(t) && t != tag {
            let i = choose|i: int| 0 <= i < all.len() && all[i] == t;
            assert(tags[i] == t);
        }
    }
}

#[verifier::rlimit(30)]
proof fn lemma_without(tags: Seq<Seq<char>>, tag: Seq<char>, t: Seq<char>)
    ensures
        without(tags, tag).contains(t) <==> t != tag && tags.contains(t),
    decreases tags.len(),
{
    if tags.len() > 0 {
        let head = tags.drop_last();
        lemma_without(head, tag, t);
        let before = without(head, tag);
        let now = without(tags, tag);
        assert(tags[tags.len() - 1] == tags.last());
        if tags.contains(t) && t != tags.last() {
            let i = choose|i: int| 0 <= i < tags.len() && tags[i] == t;
            assert(head[i] == t);
        }
        if head.contains(t) {
            let i = choose|i: int| 0 <= i < head.len() && head[i] == t;
            assert(tags[i] == t);
        }
        if tags.last() != tag {
            assert(now[before.len() as int] == tags.last());
            if before.contains(t) {
                let i = choose|i: int| 0 <= i < before.len() && before[i] == t;
                assert(now[i] == t);
            }
            if now.contains(t) && t != tags.last() {
                let i = choose|i: int| 0 <= i < now.len() && now[i] == t;
                assert(before[i] == t);
            }
        }
    }
}

// ---------------------------------------------------------------------------
// Changes
// ---------------------------------------------------------------------------

/// The change is one of the note.
pub open spec fn is_of_note(c: ChangeView) -> bool {
    c is SetNote || c is ClearNote
}

/// The change puts the tag there or takes it away.
pub open spec fn is_of_tag(c: ChangeView, t: Seq<char>) -> bool {
    c == ChangeView::AddTag(t) || c == ChangeView::RemoveTag(t) || c is ClearTags
}

/// The note after some changes is what the last change of the note says, and the one that was
/// there where none is of the note.
pub proof fn law_last_change_of_the_note_counts(m: MetadataView, cs: Seq<ChangeView>, k: int)
    ensures
        (0 <= k < cs.len() && is_of_note(cs[k]) && forall|i: int|
            k < i < cs.len() ==> !is_of_note(#[trigger] cs[i])) ==> changed_all(m, cs).note == (
        match cs[k] {
            ChangeView::SetNote(n) => Some(n),
            _ => None,
        }),
        (forall|i: int| 0 <= i < cs.len() ==> !is_of_note(#[trigger] cs[i])) ==> changed_all(
            m,
            cs,
        ).note == m.note,
    decreases cs.len(),
{
    if cs.len() > 0 {
        let head = cs.drop_last();
        law_last_change_of_the_note_counts(m, head, k);
        assert(cs[cs.len() - 1] == cs.last());
        assert(forall|i: int| 0 <= i < head.len() ==> #[trigger] head[i] == cs[i]);
    }
}

/// A tag is there after some changes where the last change of it put it there, and where none is
/// of it, if it was there.
pub proof fn law_last_change_of_a_tag_counts(
    m: MetadataView,
    cs: Seq<ChangeView>,
    t: Seq<char>,
    k: int,
)
    ensures
        (0 <= k < cs.len() && is_of_tag(cs[k], t) && forall|i: int|
            k < i < cs.len() ==> !is_of_tag(#[trigger] cs[i], t)) ==> (changed_all(
            m,
            cs,
        ).tags.contains(t) <==> cs[k] == ChangeView::AddTag(t)),
        (forall|i: int| 0 <= i < cs.len() ==> !is_of_tag(#[trigger] cs[i], t)) ==> (changed_all(
            m,
            cs,
        ).tags.contains(t) <==> m.tags.contains(t)),
    decreases cs.len(),
{
    if cs.len() > 0 {
        let head = cs.drop_last();
        law_last_change_of_a_tag_counts(m, head, t, k);
        assert(cs[cs.len() - 1] == cs.last());
        assert(forall|i: int| 0 <= i < head.len() ==> #[trigger] head[i] == cs[i]);
        let tags = changed_all(m, head).tags;
        match cs.last() {
            ChangeView::AddTag(x) => {
                lemma_with_tag(tags, x, t);
            },
            ChangeView::RemoveTag(x) => {
                lemma_without(tags, x, t);
            },
            _ => {},
        }
    }
}

/// Changes are of the note, the tags and the time alone.
pub proof fn law_changes_leave_the_rest(m: MetadataView, cs: Seq<ChangeView>, now: Seq<char>)
    ensures
        changed_at(m, cs, now) == (MetadataView {
            note: changed_all(m, cs).note,
            tags: changed_all(m, cs).tags,
            updated_at: now,
            ..m
        }),
        (forall|i: int| 0 <= i < cs.len() ==> is_of_note(#[trigger] cs[i])) ==> changed_all(
            m,
            cs,
        ).tags == m.tags,
    decreases cs.len(),
{
    if cs.len() > 0 {
        let head = cs.drop_last();
        law_changes_leave_the_rest(m, head, now);
        assert(cs[cs.len() - 1] == cs.last());
        assert(forall|i: int| 0 <= i < head.len() ==> #[trigger] head[i] == cs[i]);
        let a = changed_at(m, head, now);
        assert(a == MetadataView { updated_at: now, ..changed_all(m, head) });
    }
}

pub open spec fn has_id_of(ids: Seq<Seq<char>>) -> spec_fn(MetadataView) -> bool {
    |m: MetadataView| ids.contains(m.id)
}

/// Changes by identifiers are made to the records with those, all of them, and to no others, and
/// what is told of them is how they are then.
pub proof fn law_changes_are_of_the_named_records(
    ms: Seq<MetadataView>,
    ids: Seq<Seq<char>>,
    cs: Seq<ChangeView>,
    now: Seq<char>,
)
    ensures
        changed_by_ids(ms, ids, cs, now).len() == ms.len(),
        forall|i: int|
            0 <= i < ms.len() && !ids.contains((#[trigger] ms[i]).id) ==> changed_by_ids(
                ms,
                ids,
                cs,
                now,
            )[i] == ms[i],
        forall|i: int|
            0 <= i < ms.len() && ids.contains((#[trigger] ms[i]).id) ==> changed_by_ids(
                ms,
                ids,
                cs,
                now,
            )[i] == changed_at(ms[i], cs, now),
        picked_by_ids(ms, ids, cs, now) == changed_by_ids(ms, ids, cs, now).filter(has_id_of(ids)),
    decreases ms.len(),
{
    reveal(Seq::filter);
    let r = changed_by_ids(ms, ids, cs, now);
    if ms.len() > 0 {
        let head = ms.drop_last();
        law_changes_are_of_the_named_records(head, ids, cs, now);
        assert(r.drop_last() =~= changed_by_ids(head, ids, cs, now));
        law_changes_leave_the_rest(ms.last(), cs, now);
        assert(r.last().id == ms.last().id);
    }
}

/// How many different texts there are is how large their set is.
pub proof fn law_distinct_texts_are_counted(v: Seq<Seq<char>>)
    ensures
        distinct_count(v) == v.to_set().len(),
    decreases v.len(),
{
    if v.len() == 0 {
        assert(v.to_set() =~= Set::<Seq<char>>::empty());
    } else {
        let head = v.drop_last();
        law_distinct_texts_are_counted(head);
        vstd::seq_lib::seq_to_set_is_finite(head);
        assert(v.to_set() =~= head.to_set().insert(v.last())) by {
            assert forall|x: Seq<char>| #[trigger] v.to_set().contains(x) <==> head.to_set().insert(
                v.last(),
            ).contains(x) by {
                if v.contains(x) {
                    let i = choose|i: int| 0 <= i < v.len() && v[i] == x;
                    if i < head.len() {
                        assert(head[i] == x);
                    }
                }
                if head.contains(x) {
                    let i = choose|i: int| 0 <= i < head.len() && head[i] == x;
                    assert(v[i] == x);
                }
                assert(v[v.len() - 1] == v.last());
            }
        }
        assert(head.to_set().contains(v.last()) <==> head.contains(v.last()));
    }
}

// ---------------------------------------------------------------------------
// Finding records
// ---------------------------------------------------------------------------

/// The record of a host is the first that lists it.
pub proof fn law_record_of_a_host_is_the_first(ms: Seq<MetadataView>, host: Seq<char>)
    ensures
        match named_at(ms, host) {
            Some(k) => {
                &&& 0 <= k < ms.len()
                &&& ms[k].primary_pattern == host || ms[k].host_patterns.contains(host)
                &&& forall|i: int|
                    0 <= i < k ==> (#[trigger] ms[i]).primary_pattern != host
                        && !ms[i].host_patterns.contains(host)
            },
            None => forall|i: int|
                0 <= i < ms.len() ==> (#[trigger] ms[i]).primary_pattern != host
                    && !ms[i].host_patterns.contains(host),
        },
    decreases ms.len(),
{
    if ms.len() > 0 && !names_host(ms[0], host) {
        let rest = ms.skip(1);
        law_record_of_a_host_is_the_first(rest, host);
        let n = until_named(rest, host) as int;
        assert forall|i: int| 0 <= i < ms.len() && i <= n implies (#[trigger] ms[i]).primary_pattern
            != host && !ms[i].host_patterns.contains(host) by {
            if i > 0 {
                assert(rest[i - 1] == ms[i]);
            }
        }
        if n < rest.len() {
            assert(ms[n + 1] == rest[n]);
        }
    }
}

/// What is saved goes into the record of the entry as it was, and else into that of the entry as
/// it is; the tags, the note and the template are those of the update where it gives some.
#[verifier::rlimit(30)]
pub proof fn law_saved_record_takes_the_update(
    ms: Seq<MetadataView>,
    saved: ManagedView,
    previous: Option<ManagedView>,
    u: UpdateView,
    now: Seq<char>,
    stamp: Seq<char>,
    windows: bool,
)
    ensures
        ({
            let r = upserted(ms, saved, previous, u, now, stamp, windows);
            let of_previous = if previous is Some {
                record_at(ms, previous->0, windows)
            } else {
                None
            };
            let at = if of_previous is Some {
                of_previous
            } else {
                record_at(ms, saved, windows)
            };
            let k = if at is Some {
                at->0
            } else {
                ms.len() as int
            };
            &&& 0 <= k < r.len()
            &&& r.len() == ms.len() + (if at is None {
                1int
            } else {
                0
            })
            &&& describes_entry(r[k], saved, windows)
            &&& r[k].updated_at == now
            &&& u.tags is Some ==> r[k].tags == u.tags->0
            &&& u.note is Some ==> r[k].note == u.note->0
            &&& u.template_source is Some ==> r[k].template_source == u.template_source->0
            &&& at is Some ==> {
                &&& r[k].id == ms[k].id && r[k].created_at == ms[k].created_at
                &&& u.tags is None ==> r[k].tags == ms[k].tags
                &&& u.note is None ==> r[k].note == ms[k].note
                &&& u.template_source is None ==> r[k].template_source == ms[k].template_source
                &&& r[k].target_os == ms[k].target_os && r[k].remote_user_home
                    == ms[k].remote_user_home && r[k].authorized_keys_path
                    == ms[k].authorized_keys_path && r[k].ssh_dir_mode == ms[k].ssh_dir_mode
                    && r[k].authorized_keys_mode == ms[k].authorized_keys_mode
            }
            &&& at is None ==> {
                &&& r[k].created_at == now
                &&& u.tags is None ==> r[k].tags.len() == 0
                &&& u.note is None ==> r[k].note is None
                &&& u.template_source is None ==> r[k].template_source is None
            }
            &&& forall|i: int| 0 <= i < ms.len() && i != k ==> r[i] == #[trigger] ms[i]
        }),
{
}

/// A record that is about one entry alone, the only record that is, stays what it was when the
/// records are brought up to date.
#[verifier::rlimit(30)]
pub proof fn law_records_remember(
    ms: Seq<MetadataView>,
    es: Seq<ManagedView>,
    now: Seq<char>,
    stamps: Seq<Seq<char>>,
    touch: bool,
    windows: bool,
    i: int,
    k: int,
)
    requires
        0 <= i < ms.len(),
        0 <= k < es.len(),
        record_fits(ms[i], es[k], windows),
        forall|j: int| 0 <= j < es.len() && j != k ==> !record_fits(ms[i], #[trigger] es[j], windows),
        forall|j: int| 0 <= j < ms.len() && j != i ==> !record_fits(#[trigger] ms[j], es[k], windows),
    ensures
        ({
            let r = merged_records(ms, es, now, stamps, touch, windows);
            &&& same_memory(r[k], ms[i])
            &&& r[k].updated_at == (if touch {
                now
            } else {
                ms[i].updated_at
            })
        }),
    decreases es.len(),
{
    let e = es[0];
    let rest = es.skip(1);
    lemma_record_at(ms, e, windows);
    let at = record_at(ms, e, windows);
    if k == 0 {
        if at is None {
            assert(!record_fits(ms[i], e, windows));
        } else {
            assert(at->0 == i);
        }
    } else {
        assert(!record_fits(ms[i], es[0], windows));
        let left = match at {
            Some(x) => ms.remove(x),
            None => ms,
        };
        let i2 = match at {
            Some(x) => if x < i {
                i - 1
            } else {
                i
            },
            None => i,
        };
        assert(left[i2] == ms[i]);
        assert(rest[k - 1] == es[k]);
        assert forall|j: int| 0 <= j < rest.len() && j != k - 1 implies !record_fits(
            left[i2],
            #[trigger] rest[j],
            windows,
        ) by {
            assert(rest[j] == es[j + 1]);
        }
        assert forall|j: int| 0 <= j < left.len() && j != i2 implies !record_fits(
            #[trigger] left[j],
            rest[k - 1],
            windows,
        ) by {
            let j2 = match at {
                Some(x) => if j < x {
                    j
                } else {
                    j + 1
                },
                None => j,
            };
            assert(left[j] == ms[j2]);
        }
        law_records_remember(left, rest, now, stamps.skip(1), touch, windows, i2, k - 1);
        let later = merged_records(left, rest, now, stamps.skip(1), touch, windows);
        law_one_record_for_each_entry(left, rest, now, stamps.skip(1), touch, windows);
        assert(merged_records(ms, es, now, stamps, touch, windows)[k] == later[k - 1]);
    }
}

proof fn lemma_record_at(ms: Seq<MetadataView>, e: ManagedView, windows: bool)
    ensures
        match record_at(ms, e, windows) {
            Some(k) => 0 <= k < ms.len() && record_fits(ms[k], e, windows),
            None => forall|i: int| 0 <= i < ms.len() ==> !record_fits(#[trigger] ms[i], e, windows),
        },
    decreases ms.len(),
{
    if ms.len() > 0 && !record_fits(ms[0], e, windows) {
        let rest = ms.skip(1);
        lemma_record_at(rest, e, windows);
        let n = until_record(rest, e, windows) as int;
        if n < rest.len() {
            assert(ms[n + 1] == rest[n]);
        } else {
            assert forall|i: int| 0 <= i < ms.len() implies !record_fits(
                #[trigger] ms[i],
                e,
                windows,
            ) by {
                if i > 0 {
                    assert(rest[i - 1] == ms[i]);
                }
            }
        }
    }
}

pub open spec fn is_about_none(es: Seq<ManagedView>, windows: bool) -> spec_fn(MetadataView) -> bool {
    |m: MetadataView|
        forall|i: int| 0 <= i < es.len() ==> !record_fits(m, #[trigger] es[i], windows)
}

/// Deleting entries leaves the records that are about none of them, in their order.
pub proof fn law_other_records_stay(ms: Seq<MetadataView>, es: Seq<ManagedView>, windows: bool)
    ensures
        records_without(ms, es, windows) == ms.filter(is_about_none(es, windows)),
    decreases ms.len(),
{
    reveal(Seq::filter);
    if ms.len() > 0 {
        law_other_records_stay(ms.drop_last(), es, windows);
        assert(fits_any(ms.last(), es, windows) == !is_about_none(es, windows)(ms.last()));
    } else {
        assert(ms.filter(is_about_none(es, windows)) =~= ms);
    }
}

pub open spec fn has_no_record(ms: Seq<MetadataView>, windows: bool) -> spec_fn(ManagedView) -> bool {
    |e: ManagedView|
        forall|i: int| 0 <= i < ms.len() ==> !record_fits(#[trigger] ms[i], e, windows)
}

/// The records that are missing are counted by the entries that no record is about.
pub proof fn law_missing_records_are_counted(
    ms: Seq<MetadataView>,
    es: Seq<ManagedView>,
    windows: bool,
)
    ensures
        missing_count(ms, es, windows) == es.filter(has_no_record(ms, windows)).len(),
    decreases es.len(),
{
    reveal(Seq::filter);
    if es.len() > 0 {
        law_missing_records_are_counted(ms, es.drop_last(), windows);
        lemma_record_at(ms, es.last(), windows);
    } else {
        assert(es.filter(has_no_record(ms, windows)) =~= es);
    }
}

/// Changes by a host are made to the first record that lists it, and to no other.
pub proof fn law_changes_for_a_host(
    ms: Seq<MetadataView>,
    host: Seq<char>,
    cs: Seq<ChangeView>,
    now: Seq<char>,
)
    ensures
        changed_for_host(ms, host, cs, now) is None <==> forall|i: int|
            0 <= i < ms.len() ==> (#[trigger] ms[i]).primary_pattern != host
                && !ms[i].host_patterns.contains(host),
        changed_for_host(ms, host, cs, now) matches Some((m, after)) ==> exists|k: int|
            {
                &&& 0 <= k < ms.len()
                &&& (#[trigger] ms[k]).primary_pattern == host || ms[k].host_patterns.contains(host)
                &&& forall|i: int|
                    0 <= i < k ==> (#[trigger] ms[i]).primary_pattern != host
                        && !ms[i].host_patterns.contains(host)
                &&& after.len() == ms.len()
                &&& after[k] == m
                &&& m == changed_at(ms[k], cs, now)
                &&& forall|i: int| 0 <= i < ms.len() && i != k ==> after[i] == #[trigger] ms[i]
            },
{
    law_record_of_a_host_is_the_first(ms, host);
    if let Some(k) = named_at(ms, host) {
        assert(ms[k].primary_pattern == host || ms[k].host_patterns.contains(host));
    }
}

/// What is recorded of a new entry: each tag that is not blank, small and trimmed; the note, unless
/// it is blank; and the name of the template.
pub proof fn law_what_is_recorded_of_a_new_entry(
    template: Option<TemplateKind>,
    tags: Seq<Seq<char>>,
    note: Option<Seq<char>>,
    t: Seq<char>,
)
    ensures
        ({
            let u = created_with(template, tags, note);
            &&& u.tags is Some && u.note is Some
            &&& u.tags->0.contains(t) <==> t.len() > 0 && exists|i: int|
                0 <= i < tags.len() && lower(trim(#[trigger] tags[i])) == t
            &&& note is Some && !blank(note->0) ==> u.note->0 == Some(trim(note->0))
            &&& note is None || blank(note->0) ==> u.note->0 is None
            &&& template is Some ==> u.template_source == Some(Some(template->0.name()))
            &&& template is None ==> u.template_source is None
        }),
{
    law_clean_tags_are_the_tags(tags, t);
}

/// What is recorded of an edit: what it gives or clears, and nothing else.
pub proof fn law_what_is_recorded_of_an_edit(
    template: Option<Option<TemplateKind>>,
    tags: Option<Seq<Seq<char>>>,
    note: Option<Option<Seq<char>>>,
    t: Seq<char>,
)
    ensures
        ({
            let u = edited_with(template, tags, note);
            &&& u.tags is Some <==> tags is Some
            &&& u.note is Some <==> note is Some
            &&& u.template_source is Some <==> template is Some
            &&& tags is Some ==> (u.tags->0.contains(t) <==> t.len() > 0 && exists|i: int|
                0 <= i < tags->0.len() && lower(trim(#[trigger] tags->0[i])) == t)
            &&& note is Some && note->0 is Some && !blank(note->0->0) ==> u.note->0 == Some(
                trim(note->0->0),
            )
            &&& note is Some && (note->0 is None || blank(note->0->0)) ==> u.note->0 is None
            &&& template is Some && template->0 is Some ==> u.template_source->0 == Some(
                template->0->0.name(),
            )
            &&& template is Some && template->0 is None ==> u.template_source->0 is None
        }),
{
    if let Some(ts) = tags {
        law_clean_tags_are_the_tags(ts, t);
    }
}

/// What was saved is there when it is loaded: the same records, sorted, under the current version;
/// without a file there are none.
pub proof fn law_saved_state_is_loaded(s: StateView)
    ensures
        loaded_state(Some(saved_state(s))) == saved_state(s),
        saved_state(s).entries.to_multiset() == s.entries.to_multiset(),
        saved_state(s).version == saved_state(saved_state(s)).version,
        loaded_state(None).entries.len() == 0,
        loaded_state(None).version == saved_state(s).version,
        loaded_state(Some(s)).entries == s.entries,
        s.version != 0 ==> loaded_state(Some(s)) == s,
{
    law_saved_records_are_sorted(s.entries);
}

} // verus!
