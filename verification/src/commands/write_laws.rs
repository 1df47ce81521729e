//! What holds of the entries that the commands write.

use vstd::prelude::*;

use crate::commands::add::created;
use crate::commands::cli::{AddArgs, DuplicateArgs, EditArgs};
use crate::commands::duplicate::duplicate_plan;
use crate::commands::edit::{
    changes_record, edit_plan, edit_result, new_note, new_tags, new_template,
};
use crate::config::model::{HostView, ManagedView};
use crate::config::state::{MetadataView, UpdateView, record_for, record_of, upserted};
use crate::config::state_laws::law_saving_keeps_the_record;
use crate::config::store::{saved, until_host};
use crate::config::validate::issues_of;
use crate::text::opt;

verus! {

broadcast use crate::text::group_text;

/// No entry lists the host.
pub open spec fn is_unknown(es: Seq<ManagedView>, host: Seq<char>) -> bool {
    forall|i: int| 0 <= i < es.len() ==> !(#[trigger] es[i]).entry.host_patterns.contains(host)
}

proof fn lemma_until_host(es: Seq<ManagedView>, host: Seq<char>)
    ensures
        until_host(es, host) <= es.len(),
        until_host(es, host) == es.len() ==> is_unknown(es, host),
        until_host(es, host) < es.len() ==> es[until_host(
            es,
            host,
        ) as int].entry.host_patterns.contains(host),
    decreases es.len(),
{
    if es.len() > 0 && !es[0].entry.host_patterns.contains(host) {
        let rest = es.skip(1);
        lemma_until_host(rest, host);
        let n = until_host(rest, host) as int;
        if n < rest.len() {
            assert(rest[n] == es[n + 1]);
        } else {
            assert forall|i: int| 0 <= i < es.len() implies !(
            #[trigger] es[i]).entry.host_patterns.contains(host) by {
                if i > 0 {
                    assert(es[i] == rest[i - 1]);
                }
            }
        }
    }
}

/// A new entry is written only if it is valid and its host is not managed yet; it holds what
/// the request asks for, and what its template adds.
pub proof fn law_created_entry_is_valid_and_new(
    es: Seq<ManagedView>,
    files: Seq<Seq<char>>,
    dir: Seq<char>,
    args: AddArgs,
    newline: Seq<char>,
    windows: bool,
)
    requires
        created(es, files, dir, args, newline, windows) is Ok,
    ensures
        ({
            let m = created(es, files, dir, args, newline, windows)->Ok_0;
            &&& issues_of(m.entry).len() == 0
            &&& is_unknown(es, m.entry.primary())
            &&& m.entry.primary() == args.host@
            &&& forall|i: int| 0 <= i < es.len() ==> (#[trigger] es[i]).order != m.order
        }),
{
    let m = created(es, files, dir, args, newline, windows)->Ok_0;
    lemma_until_host(es, m.entry.primary());
}

/// A changed entry is written only if it is valid; what is replaced is the entry of the host
/// that was asked for, and no other entry has the order of what replaces it, unless the entry
/// stays as it is.
pub proof fn law_edited_entry_is_valid(
    es: Seq<ManagedView>,
    files: Seq<Seq<char>>,
    dir: Seq<char>,
    args: EditArgs,
    newline: Seq<char>,
    windows: bool,
)
    requires
        edit_plan(es, files, dir, args, newline, windows) is Ok,
    ensures
        ({
            let (current, saved) = edit_plan(es, files, dir, args, newline, windows)->Ok_0;
            &&& es.contains(current)
            &&& current.entry.host_patterns.contains(args.host@)
            &&& issues_of(saved.entry).len() == 0
            &&& edit_result(current.entry, args) == Ok::<HostView, Seq<char>>(saved.entry)
            &&& saved != current ==> forall|i: int|
                0 <= i < es.len() && es[i].path != current.path ==> (#[trigger] es[i]).order
                    != saved.order
            &&& args.order is None ==> saved.order == current.order
        }),
{
    let n = until_host(es, args.host@) as int;
    lemma_until_host(es, args.host@);
    assert(es[n] == (edit_plan(es, files, dir, args, newline, windows)->Ok_0).0);
}

/// A request that changes the record alone is not refused where the entry is valid: the entry
/// stays as it is, and its record keeps its identifier and what the request does not speak of.
pub proof fn law_record_is_edited_alone(
    es: Seq<ManagedView>,
    files: Seq<Seq<char>>,
    dir: Seq<char>,
    args: EditArgs,
    newline: Seq<char>,
    ms: Seq<MetadataView>,
    u: UpdateView,
    now: Seq<char>,
    stamp: Seq<char>,
    windows: bool,
)
    requires
        until_host(es, args.host@) < es.len(),
        ({
            let current = es[until_host(es, args.host@) as int];
            &&& edit_result(current.entry, args) == Ok::<HostView, Seq<char>>(current.entry)
            &&& issues_of(current.entry).len() == 0
            &&& record_of(ms, current, windows) is Some
        }),
        args.order is None,
        changes_record(args),
        u.template_source is Some <==> new_template(args) is Some,
        u.tags is Some <==> new_tags(args) is Some,
        u.note is Some <==> new_note(args) is Some,
    ensures
        ({
            let current = es[until_host(es, args.host@) as int];
            let r = upserted(ms, current, Some(current), u, now, stamp, windows);
            let i = record_for(ms, current, Some(current), windows)->0;
            &&& edit_plan(es, files, dir, args, newline, windows) == Ok::<
                (ManagedView, ManagedView),
                Seq<char>,
            >((current, current))
            &&& record_for(ms, current, Some(current), windows) is Some && 0 <= i < ms.len()
            &&& r.len() == ms.len()
            &&& r[i].id == ms[i].id
            &&& u.template_source is Some ==> r[i].template_source == u.template_source->0
            &&& u.tags is Some ==> r[i].tags == u.tags->0
            &&& u.note is Some ==> r[i].note == u.note->0
            &&& new_template(args) is None ==> r[i].template_source == ms[i].template_source
            &&& new_tags(args) is None ==> r[i].tags == ms[i].tags
            &&& new_note(args) is None ==> r[i].note == ms[i].note
        }),
{
    let current = es[until_host(es, args.host@) as int];
    law_saving_keeps_the_record(ms, current, Some(current), u, now, stamp, windows);
}

/// A copy differs from its source in its pattern and its host name only; it is valid, and its
/// host was not managed before.
pub proof fn law_copy_differs_in_its_name_only(
    es: Seq<ManagedView>,
    files: Seq<Seq<char>>,
    dir: Seq<char>,
    a: DuplicateArgs,
    newline: Seq<char>,
    windows: bool,
)
    requires
        duplicate_plan(es, files, dir, a, newline, windows) is Ok,
    ensures
        ({
            let (source, saved) = duplicate_plan(es, files, dir, a, newline, windows)->Ok_0;
            &&& es.contains(source)
            &&& saved.entry == (HostView {
                host_patterns: seq![a.host@],
                hostname: saved.entry.hostname,
                ..source.entry
            })
            &&& a.keep_hostname ==> saved.entry.hostname == source.entry.hostname
            &&& a.hostname is Some ==> saved.entry.hostname == opt(a.hostname)
            &&& issues_of(saved.entry).len() == 0
            &&& is_unknown(es, a.host@)
        }),
{
    let n = until_host(es, a.source@) as int;
    lemma_until_host(es, a.source@);
    lemma_until_host(es, a.host@);
    let (source, saved) = duplicate_plan(es, files, dir, a, newline, windows)->Ok_0;
    assert(es[n] == source);
    assert(seq![a.host@][0] == a.host@);
}

} // verus!
