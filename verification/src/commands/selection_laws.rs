//! Which entries a filter picks.

use vstd::prelude::*;

use crate::commands::cli::MetadataFilterArgs;
use crate::commands::order_laws::{is_first_with, is_listed, law_entry_of_a_host_is_the_first};
use crate::commands::selection::{
    FilterView, at_indices, filter_of, passes, passes_at, passing, requested_filter,
    selection_conflict, some_holds, targets_of,
};
use crate::config::model::ManagedView;
use crate::config::record_laws::law_clean_tags_are_the_tags;
use crate::config::state::{
    MetadataView, clean, clean_tags, file_name_or_empty, record_at, record_fits, record_of,
    until_record,
};
use crate::config::store::until_host;
use crate::text::{
    blank, contains_text, lower, lower_char, opt, same_ignoring_case, starts_with, strs, trim,
};
use crate::text_laws::law_lower_once;

verus! {

/// `w` stands somewhere in the text, whatever the case of the letters.
pub open spec fn is_found_in(text: Seq<char>, w: Seq<char>) -> bool {
    exists|k: int| #[trigger] stands_at(text, w, k)
}

pub open spec fn stands_at(text: Seq<char>, w: Seq<char>, k: int) -> bool {
    &&& 0 <= k
    &&& k + w.len() <= text.len()
    &&& forall|j: int| 0 <= j < w.len() ==> lower_char(#[trigger] text[k + j]) == lower_char(w[j])
}

pub proof fn law_found_texts(text: Seq<char>, w: Seq<char>)
    ensures
        contains_text(lower(text), lower(w)) <==> is_found_in(text, w),
{
    if contains_text(lower(text), lower(w)) {
        let k = choose|k: int|
            0 <= k <= lower(text).len() && #[trigger] starts_with(lower(text).skip(k), lower(w));
        let t = lower(text).skip(k);
        assert forall|j: int| 0 <= j < w.len() implies lower_char(#[trigger] text[k + j])
            == lower_char(w[j]) by {
            assert(t.take(w.len() as int)[j] == lower(w)[j]);
            assert(t[j] == lower(text)[k + j]);
        }
        assert(stands_at(text, w, k));
    }
    if is_found_in(text, w) {
        let k = choose|k: int| #[trigger] stands_at(text, w, k);
        let t = lower(text).skip(k);
        assert forall|j: int| 0 <= j < w.len() implies t.take(w.len() as int)[j] == lower(w)[j] by {
            assert(lower_char(text[k + j]) == lower_char(w[j]));
        }
        assert(t.take(w.len() as int) =~= lower(w));
        assert(starts_with(lower(text).skip(k), lower(w)));
    }
}

/// Some text of the list holds `w`.
pub open spec fn is_found_in_some(texts: Seq<Seq<char>>, w: Seq<char>) -> bool {
    exists|i: int| 0 <= i < texts.len() && is_found_in(#[trigger] texts[i], w)
}

proof fn lemma_found_in_some(texts: Seq<Seq<char>>, w: Seq<char>)
    ensures
        some_holds(texts, lower(w)) <==> is_found_in_some(texts, w),
{
    if some_holds(texts, lower(w)) {
        let i = choose|i: int|
            0 <= i < texts.len() && contains_text(lower(#[trigger] texts[i]), lower(w));
        law_found_texts(texts[i], w);
        assert(is_found_in(texts[i], w));
    }
    if is_found_in_some(texts, w) {
        let i = choose|i: int| 0 <= i < texts.len() && is_found_in(#[trigger] texts[i], w);
        law_found_texts(texts[i], w);
        assert(contains_text(lower(texts[i]), lower(w)));
    }
}

/// A query is found in an entry where one of its host patterns, its host name, one of its tags or
/// its note holds it, whatever the case of the letters.
pub open spec fn mentions(e: ManagedView, m: Option<MetadataView>, w: Seq<char>) -> bool {
    ||| is_found_in_some(e.entry.host_patterns, w)
    ||| e.entry.hostname is Some && is_found_in(e.entry.hostname->0, w)
    ||| m is Some && is_found_in_some(m->0.tags, w)
    ||| m is Some && m->0.note is Some && is_found_in(m->0.note->0, w)
}

/// A filter that asks for a query alone passes an entry exactly where a host pattern, the host
/// name, a tag or the note holds it; a blank query asks for nothing.
pub proof fn law_query_is_searched_for(q: Seq<char>, e: ManagedView, m: Option<MetadataView>)
    ensures
        passes(filter_of(Some(q), Seq::empty(), false, None), e, m) <==> blank(q) || mentions(
            e,
            m,
            trim(q),
        ),
        forall|i: int|
            0 <= i < e.entry.host_patterns.len() && is_found_in(
                #[trigger] e.entry.host_patterns[i],
                trim(q),
            ) ==> passes(filter_of(Some(q), Seq::empty(), false, None), e, m),
        e.entry.hostname is Some && is_found_in(e.entry.hostname->0, trim(q)) ==> passes(
            filter_of(Some(q), Seq::empty(), false, None),
            e,
            m,
        ),
{
    let w = trim(q);
    lemma_found_in_some(e.entry.host_patterns, w);
    if let Some(h) = e.entry.hostname {
        law_found_texts(h, w);
    }
    if let Some(r) = m {
        lemma_found_in_some(r.tags, w);
        if let Some(n) = r.note {
            law_found_texts(n, w);
        }
    }
    assert(clean(q).len() == w.len());
    assert(clean_tags(Seq::empty()).len() == 0);
}

/// The tag, apart from its case and the white space round it, is one of those.
pub open spec fn has_tag(tags: Seq<Seq<char>>, wanted: Seq<char>) -> bool {
    tags.contains(lower(trim(wanted)))
}

/// An entry passes where it shows all that was asked for: the query, each tag that is not blank,
/// a note that is not blank, and the template.
#[verifier::rlimit(30)]
pub proof fn law_filter_asks_for_each_part(
    query: Option<Seq<char>>,
    tags: Seq<Seq<char>>,
    has_note: bool,
    template: Option<Seq<char>>,
    e: ManagedView,
    m: Option<MetadataView>,
)
    ensures
        passes(filter_of(query, tags, has_note, template), e, m) <==> {
            &&& query is Some && !blank(query->0) ==> mentions(e, m, trim(query->0))
            &&& forall|i: int|
                0 <= i < tags.len() && !blank(#[trigger] tags[i]) ==> m is Some && has_tag(
                    m->0.tags,
                    tags[i],
                )
            &&& has_note ==> m is Some && m->0.note is Some && !blank(m->0.note->0)
            &&& template is Some && !blank(template->0) ==> m is Some && m->0.template_source is Some
                && same_ignoring_case(m->0.template_source->0, trim(template->0))
        },
{
    let f = filter_of(query, tags, has_note, template);
    if let Some(q) = query {
        law_query_is_searched_for(q, e, m);
        let alone = filter_of(Some(q), Seq::empty(), false, None);
        assert(clean_tags(Seq::empty()).len() == 0);
        assert(alone.query == f.query);
        assert(clean(q).len() == trim(q).len());
    }
    if let Some(t) = template {
        assert(clean(t).len() == trim(t).len());
        assert(lower(clean(t)) =~= lower(trim(t))) by {
            law_lower_once(trim(t));
        }
    }
    let wanted = clean_tags(tags);
    assert forall|i: int| 0 <= i < tags.len() && !blank(#[trigger] tags[i]) implies wanted.contains(
        lower(trim(tags[i])),
    ) by {
        law_clean_tags_are_the_tags(tags, lower(trim(tags[i])));
        assert(lower(trim(tags[i])).len() == trim(tags[i]).len());
    }
    assert forall|k: int| 0 <= k < wanted.len() implies (exists|i: int|
        0 <= i < tags.len() && !blank(#[trigger] tags[i]) && lower(trim(tags[i]))
            == #[trigger] wanted[k]) by {
        law_clean_tags_are_the_tags(tags, wanted[k]);
        assert(wanted.contains(wanted[k]));
        let i = choose|i: int| 0 <= i < tags.len() && lower(trim(#[trigger] tags[i])) == wanted[k];
        assert(trim(tags[i]).len() == wanted[k].len());
        assert(!blank(tags[i]));
    }
    let asked = forall|i: int|
        0 <= i < tags.len() && !blank(#[trigger] tags[i]) ==> m is Some && has_tag(
            m->0.tags,
            tags[i],
        );
    let held = wanted.len() > 0 ==> (m is Some && forall|k: int|
        0 <= k < wanted.len() ==> m->0.tags.contains(#[trigger] wanted[k]));
    if asked {
        if wanted.len() > 0 {
            let i = choose|i: int|
                0 <= i < tags.len() && !blank(#[trigger] tags[i]) && lower(trim(tags[i]))
                    == wanted[0];
            assert(m is Some);
            assert forall|k: int| 0 <= k < wanted.len() implies m->0.tags.contains(
                #[trigger] wanted[k],
            ) by {
                let i = choose|i: int|
                    0 <= i < tags.len() && !blank(#[trigger] tags[i]) && lower(trim(tags[i]))
                        == wanted[k];
                assert(has_tag(m->0.tags, tags[i]));
            }
        }
    }
    if held {
        assert forall|i: int| 0 <= i < tags.len() && !blank(#[trigger] tags[i]) implies m is Some
            && has_tag(m->0.tags, tags[i]) by {
            assert(wanted.contains(lower(trim(tags[i]))));
            let k = choose|k: int| 0 <= k < wanted.len() && wanted[k] == lower(trim(tags[i]));
            assert(m->0.tags.contains(wanted[k]));
        }
    }
    assert(held == asked);
}

/// The record is for the entry: it names the same file, the same first pattern or the same
/// patterns.
pub open spec fn is_about(m: MetadataView, e: ManagedView, windows: bool) -> bool {
    ||| m.managed_filename == file_name_or_empty(e.path, windows)
    ||| m.primary_pattern == e.entry.primary()
    ||| m.host_patterns == e.entry.host_patterns
}

/// The record of an entry is the first that is about it.
#[verifier::rlimit(30)]
pub proof fn law_record_is_the_first_about_the_entry(
    ms: Seq<MetadataView>,
    e: ManagedView,
    windows: bool,
)
    ensures
        record_of(ms, e, windows) is None <==> forall|i: int|
            0 <= i < ms.len() ==> !is_about(#[trigger] ms[i], e, windows),
        record_of(ms, e, windows) is Some ==> exists|k: int|
            0 <= k < ms.len() && is_about(#[trigger] ms[k], e, windows) && record_of(
                ms,
                e,
                windows,
            ) == Some(ms[k]) && record_at(ms, e, windows) == Some(k) && forall|i: int|
                0 <= i < k ==> !is_about(#[trigger] ms[i], e, windows),
    decreases ms.len(),
{
    if ms.len() > 0 {
        assert(record_fits(ms[0], e, windows) == is_about(ms[0], e, windows));
        if is_about(ms[0], e, windows) {
            assert(record_of(ms, e, windows) == Some(ms[0]));
        } else {
            let rest = ms.skip(1);
            law_record_is_the_first_about_the_entry(rest, e, windows);
            let n = until_record(rest, e, windows);
            if record_of(rest, e, windows) is Some {
                let k = choose|k: int|
                    0 <= k < rest.len() && is_about(#[trigger] rest[k], e, windows) && record_of(
                        rest,
                        e,
                        windows,
                    ) == Some(rest[k]) && record_at(rest, e, windows) == Some(k) && forall|i: int|
                        0 <= i < k ==> !is_about(#[trigger] rest[i], e, windows);
                assert(ms[k + 1] == rest[k]);
                assert forall|i: int| 0 <= i < k + 1 implies !is_about(#[trigger] ms[i], e, windows) by {
                    if i > 0 {
                        assert(rest[i - 1] == ms[i]);
                    }
                }
                assert(is_about(ms[k + 1], e, windows));
            } else {
                assert forall|i: int| 0 <= i < ms.len() implies !is_about(
                    #[trigger] ms[i],
                    e,
                    windows,
                ) by {
                    if i > 0 {
                        assert(rest[i - 1] == ms[i]);
                    }
                }
            }
        }
    }
}

/// The test for the entries that pass.
pub open spec fn passing_test(f: FilterView, ms: Seq<MetadataView>, windows: bool) -> spec_fn(
    ManagedView,
) -> bool {
    |e: ManagedView| passes(f, e, record_of(ms, e, windows))
}

proof fn lemma_passing_is_filtered(
    f: FilterView,
    es: Seq<ManagedView>,
    ms: Seq<MetadataView>,
    n: nat,
    windows: bool,
)
    requires
        n <= es.len(),
    ensures
        passing(f, es, ms, n, windows).map_values(|i: int| es[i]) == es.take(n as int).filter(
            passing_test(f, ms, windows),
        ),
    decreases n,
{
    reveal(Seq::filter);
    if n > 0 {
        lemma_passing_is_filtered(f, es, ms, (n - 1) as nat, windows);
        assert(es.take(n as int).drop_last() =~= es.take(n - 1));
        assert(es.take(n as int).last() == es[n - 1]);
        assert(passes_at(f, es, ms, n - 1, windows) == passing_test(f, ms, windows)(es[n - 1]));
        let before = passing(f, es, ms, (n - 1) as nat, windows);
        assert(before.push(n - 1).map_values(|i: int| es[i]) =~= before.map_values(
            |i: int| es[i],
        ).push(es[n - 1]));
    } else {
        assert(passing(f, es, ms, n, windows).map_values(|i: int| es[i]) =~= Seq::<
            ManagedView,
        >::empty());
        assert(es.take(0) =~= Seq::<ManagedView>::empty());
    }
}

/// A request is for the entry of the host that it names, for all entries, or for those that pass
/// its filter, in their order.
pub proof fn law_request_is_for_what_it_names(
    verb: Seq<char>,
    empty_error: Option<Seq<char>>,
    es: Seq<ManagedView>,
    ms: Seq<MetadataView>,
    host: Option<Seq<char>>,
    all: bool,
    f: FilterView,
    windows: bool,
)
    ensures
        targets_of(verb, empty_error, es, ms, host, all, f, windows) matches Ok(ts) ==> {
            &&& host is Some ==> exists|k: int| #[trigger]
                is_first_with(es, host->0, k) && ts == seq![es[k]]
            &&& host is None && all ==> ts == es
            &&& host is None && !all ==> ts == es.filter(passing_test(f, ms, windows)) && ts.len()
                > 0
        },
        host is Some ==> (targets_of(verb, empty_error, es, ms, host, all, f, windows) is Ok
            <==> is_listed(es, host->0)),
        host is None && !all ==> (targets_of(verb, empty_error, es, ms, host, all, f, windows) is Ok
            <==> !f.is_empty() && es.filter(passing_test(f, ms, windows)).len() > 0),
        host is None && all && empty_error is None ==> targets_of(
            verb,
            empty_error,
            es,
            ms,
            host,
            all,
            f,
            windows,
        ) is Ok,
{
    if let Some(h) = host {
        law_entry_of_a_host_is_the_first(es, h);
        if until_host(es, h) < es.len() {
            assert(is_first_with(es, h, until_host(es, h) as int));
        }
    } else {
        lemma_passing_is_filtered(f, es, ms, es.len(), windows);
        assert(es.take(es.len() as int) =~= es);
        let picked = passing(f, es, ms, es.len(), windows);
        assert(at_indices(es, picked) =~= picked.map_values(|i: int| es[i]));
    }
}

/// A request names what it is for in one way: by a host that is not blank, by asking for all, or
/// by a filter that asks for something.
pub proof fn law_request_names_one_thing(
    verb: Seq<char>,
    host: Option<Seq<char>>,
    all: bool,
    f: FilterView,
)
    ensures
        selection_conflict(verb, host, all, f) is None <==> {
            ||| host is Some && !blank(host->0) && !all && f.is_empty()
            ||| host is None && all && f.is_empty()
            ||| host is None && !all && !f.is_empty()
        },
{
}

/// A filter asks for nothing where its query and its template are blank or missing, each of its
/// tags is blank, and no note is asked for.
pub proof fn law_filters_that_ask_for_nothing(
    query: Option<Seq<char>>,
    tags: Seq<Seq<char>>,
    has_note: bool,
    template: Option<Seq<char>>,
)
    ensures
        filter_of(query, tags, has_note, template).is_empty() <==> {
            &&& query is Some ==> blank(query->0)
            &&& template is Some ==> blank(template->0)
            &&& !has_note
            &&& forall|i: int| 0 <= i < tags.len() ==> blank(#[trigger] tags[i])
        },
{
    let wanted = clean_tags(tags);
    if let Some(q) = query {
        assert(clean(q).len() == trim(q).len());
    }
    if let Some(t) = template {
        assert(clean(t).len() == trim(t).len());
    }
    if wanted.len() > 0 {
        law_clean_tags_are_the_tags(tags, wanted[0]);
        assert(wanted.contains(wanted[0]));
        let i = choose|i: int| 0 <= i < tags.len() && lower(trim(#[trigger] tags[i])) == wanted[0];
        assert(trim(tags[i]).len() == wanted[0].len());
        assert(!blank(tags[i]));
    } else {
        assert forall|i: int| 0 <= i < tags.len() implies blank(#[trigger] tags[i]) by {
            let t = lower(trim(tags[i]));
            law_clean_tags_are_the_tags(tags, t);
            assert(t.len() == trim(tags[i]).len());
        }
    }
}

/// The filter of a request is what the request says.
pub proof fn law_requested_filter(a: MetadataFilterArgs)
    ensures
        requested_filter(a) == filter_of(
            opt(a.query),
            strs(a.tags@),
            a.has_note,
            if a.template is Some {
                Some(a.template->0.name())
            } else {
                None
            },
        ),
{
}

} // verus!
