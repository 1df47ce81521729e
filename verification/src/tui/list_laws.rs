//! What holds of the list of entries.

use vstd::prelude::*;

use crate::commands::selection::{FilterView, passing};
use crate::config::model::ManagedView;
use crate::config::state::MetadataView;
use crate::config::store::until_host;
use crate::tui::state::{TuiView, until_index};
use crate::tui::viewport::{law_selected_item_is_shown, shows};

verus! {

broadcast use crate::text::group_text;

proof fn lemma_until_index(v: Seq<int>, k: int)
    requires
        v.contains(k),
    ensures
        until_index(v, k) < v.len(),
        v[until_index(v, k) as int] == k,
    decreases v.len(),
{
    if v[0] != k {
        let i = choose|i: int| 0 <= i < v.len() && v[i] == k;
        let rest = v.skip(1);
        assert(rest[i - 1] == k);
        assert(rest.contains(k));
        lemma_until_index(rest, k);
        let n = until_index(rest, k) as int;
        assert(rest[n] == v[n + 1]);
    }
}

/// Whatever becomes of the list, the selection stays with the host: where the entry of the host
/// passes the filters, it is selected and shown.
pub proof fn law_selection_follows_the_host(s: TuiView, host: Seq<char>)
    requires
        until_host(s.entries, host) < s.entries.len(),
        passing(s.filter(), s.entries, s.records.entries, s.entries.len(), s.windows).contains(
            until_host(s.entries, host) as int,
        ),
        s.offset >= 0,
    ensures
        ({
            let r = s.refreshed(Some(host));
            &&& r.selected_index() == Some(until_host(s.entries, host) as int)
            &&& shows(r.selected, r.offset, r.viewport, r.filtered.len() as int)
        }),
{
    let all = passing(s.filter(), s.entries, s.records.entries, s.entries.len(), s.windows);
    let e = until_host(s.entries, host) as int;
    lemma_until_index(all, e);
    let n = until_index(all, e) as int;
    law_selected_item_is_shown(n, s.offset, s.viewport, all.len() as int);
}

/// The list holds those entries that pass the filters, each once and in their order; without
/// a filter it holds all.
pub proof fn law_list_is_what_passes(s: TuiView, preferred: Option<Seq<char>>)
    ensures
        ({
            let r = s.refreshed(preferred);
            &&& r.filtered == passing(s.filter(), s.entries, s.records.entries, s.entries.len(), s.windows)
            &&& r.entries == s.entries
            &&& r.raw == s.raw
            &&& r.records == s.records
            &&& r.mode == s.mode
            &&& r.status == s.status
        }),
        forall|i: int, j: int|
            0 <= i < j < s.refreshed(preferred).filtered.len() ==> s.refreshed(
                preferred,
            ).filtered[i] < s.refreshed(preferred).filtered[j],
{
    lemma_passing_rises(s.filter(), s.entries, s.records.entries, s.entries.len(), s.windows);
}

proof fn lemma_passing_rises(
    f: FilterView,
    es: Seq<ManagedView>,
    ms: Seq<MetadataView>,
    n: nat,
    w: bool,
)
    ensures
        forall|i: int|
            0 <= i < passing(f, es, ms, n, w).len() ==> 0 <= #[trigger] passing(f, es, ms, n, w)[i] < n,
        forall|i: int, j: int|
            0 <= i < j < passing(f, es, ms, n, w).len() ==> passing(f, es, ms, n, w)[i] < passing(
                f,
                es,
                ms,
                n,
                w,
            )[j],
    decreases n,
{
    if n > 0 {
        lemma_passing_rises(f, es, ms, (n - 1) as nat, w);
        let before = passing(f, es, ms, (n - 1) as nat, w);
        let r = passing(f, es, ms, n, w);
        assert forall|i: int| 0 <= i < r.len() implies 0 <= #[trigger] r[i] < n by {
            if i < before.len() {
                assert(r[i] == before[i]);
            }
        }
        assert forall|i: int, j: int| 0 <= i < j < r.len() implies r[i] < r[j] by {
            if j < before.len() {
                assert(r[i] == before[i] && r[j] == before[j]);
            } else {
                assert(r[i] == before[i]);
            }
        }
    }
}

} // verus!
