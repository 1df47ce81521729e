//! What the keys of the terminal interface do.

use vstd::prelude::*;

use crate::commands::add::{created, extras_of};
use crate::commands::add_laws::law_created_entry_says_what_was_asked;
use crate::commands::cli::{AddArgs, EditArgs};
use crate::commands::edit::edit_result;
use crate::commands::edit_laws::law_edit_does_what_is_asked;
use crate::commands::prompt::items_of;
use crate::commands::selection::passing;
use crate::config::model::{HostView, ManagedView};
use crate::config::state::{MetadataView, record_of};
use crate::config::store::until_host;
use crate::text::{blank, decimal, join, strs, trim};
use crate::tui::actions::{renumbered, restore_asked};
use crate::tui::catalog::CatalogView;
use crate::tui::forms::{
    EntryFormView, FilterField, FilterFormView, FormField, FormMode, InputMode, PaneFocus,
    empty_form, form_of, is_add_of, is_edit_of, port_of, shortened,
};
use crate::tui::keys::{KeyCode, KeyEvent, Request, key_step, letter_step, moved_by, normal_step};
use crate::tui::saving::{delete_done, form_saved, reload_done, save_refusal};
use crate::tui::state::{LoadedView, TuiView};
use crate::tui::viewport::{moved, neighbour, window_of};

verus! {

// ---------------------------------------------------------------------------
// Forms
// ---------------------------------------------------------------------------

/// The text without white space round it, or nothing where it is blank.
pub open spec fn text_or_none(s: Seq<char>) -> Option<Seq<char>> {
    if blank(s) {
        None
    } else {
        Some(trim(s))
    }
}

/// An entry that is made in the form says what its fields show.
#[verifier::rlimit(30)]
pub proof fn law_created_entry_says_what_the_form_shows(
    es: Seq<ManagedView>,
    files: Seq<Seq<char>>,
    dir: Seq<char>,
    a: AddArgs,
    newline: Seq<char>,
    windows: bool,
    f: EntryFormView,
)
    requires
        is_add_of(a, f),
        created(es, files, dir, a, newline, windows) is Ok,
    ensures
        ({
            let r = (created(es, files, dir, a, newline, windows)->Ok_0).entry;
            &&& r.host_patterns == seq![trim(f.text(FormField::Host))]
            &&& r.hostname == text_or_none(f.text(FormField::HostName))
            &&& r.user == text_or_none(f.text(FormField::User))
            &&& r.proxy_jump == text_or_none(f.text(FormField::ProxyJump))
            &&& r.forward_agent == text_or_none(f.text(FormField::ForwardAgent))
            &&& r.tag == text_or_none(f.text(FormField::SshTag))
            &&& r.identity_files == items_of(f.text(FormField::IdentityFiles))
            &&& r.local_forwards == items_of(f.text(FormField::LocalForwards))
            &&& r.remote_forwards == items_of(f.text(FormField::RemoteForwards))
            &&& Ok::<Option<u16>, Seq<char>>(r.port) == port_of(f.text(FormField::Port))
            &&& !blank(f.text(FormField::StrictHostKeyChecking)) ==> r.strict_host_key_checking
                == text_or_none(f.text(FormField::StrictHostKeyChecking))
            &&& !blank(f.text(FormField::UserKnownHostsFile)) ==> r.user_known_hosts_file
                == text_or_none(f.text(FormField::UserKnownHostsFile))
            &&& !blank(f.text(FormField::HostKeyAlgorithms)) ==> r.host_key_algorithms
                == text_or_none(f.text(FormField::HostKeyAlgorithms))
            &&& !blank(f.text(FormField::PubkeyAcceptedAlgorithms)) ==> r.pubkey_accepted_algorithms
                == text_or_none(f.text(FormField::PubkeyAcceptedAlgorithms))
        }),
{
    law_created_entry_says_what_was_asked(es, files, dir, a, newline, windows);
}

/// The list that a field shows: nothing where it is blank, its items where it has some, and else
/// what was there.
pub open spec fn shown_items(text: Seq<char>, before: Seq<Seq<char>>) -> Seq<Seq<char>> {
    if blank(text) {
        Seq::empty()
    } else if items_of(text).len() > 0 {
        items_of(text)
    } else {
        before
    }
}

/// An entry that is changed in the form says what its fields show: what was taken out of a field
/// is gone, and the extra directives, which have no field, stay.
pub proof fn law_edited_entry_says_what_the_form_shows(e: HostView, a: EditArgs, f: EntryFormView)
    requires
        is_edit_of(a, f),
        edit_result(e, a) is Ok,
    ensures
        ({
            let r = edit_result(e, a)->Ok_0;
            &&& Some(trim(f.text(FormField::Host))) != f.original_host ==> r.host_patterns == seq![
                trim(f.text(FormField::Host)),
            ]
            &&& Some(trim(f.text(FormField::Host))) == f.original_host ==> r.host_patterns
                == e.host_patterns
            &&& r.hostname == text_or_none(f.text(FormField::HostName))
            &&& r.user == text_or_none(f.text(FormField::User))
            &&& r.proxy_jump == text_or_none(f.text(FormField::ProxyJump))
            &&& r.forward_agent == text_or_none(f.text(FormField::ForwardAgent))
            &&& r.tag == text_or_none(f.text(FormField::SshTag))
            &&& Ok::<Option<u16>, Seq<char>>(r.port) == port_of(f.text(FormField::Port))
            &&& r.identity_files == shown_items(f.text(FormField::IdentityFiles), e.identity_files)
            &&& r.local_forwards == shown_items(f.text(FormField::LocalForwards), e.local_forwards)
            &&& r.remote_forwards == shown_items(
                f.text(FormField::RemoteForwards),
                e.remote_forwards,
            )
            &&& r.extra_options == e.extra_options
        }),
{
    law_edit_does_what_is_asked(e, a);
    assert(strs(a.extras@).len() == 0);
    assert(extras_of(strs(a.extras@))->Ok_0.len() == 0);
    let r = edit_result(e, a)->Ok_0;
    assert(blank(f.text(FormField::IdentityFiles)) ==> r.identity_files =~= Seq::<Seq<char>>::empty());
    assert(blank(f.text(FormField::LocalForwards)) ==> r.local_forwards =~= Seq::<Seq<char>>::empty());
    assert(blank(f.text(FormField::RemoteForwards)) ==> r.remote_forwards =~= Seq::<
        Seq<char>,
    >::empty());
}

/// The form of an entry shows what the entry says and what its record remembers.
#[verifier::rlimit(30)]
pub proof fn law_form_shows_the_entry(e: ManagedView, m: MetadataView)
    ensures
        ({
            let f = form_of(e, Some(m));
            let shown = |v: Option<Seq<char>>|
                if v is Some {
                    v->0
                } else {
                    Seq::empty()
                };
            &&& f.mode == FormMode::Edit
            &&& f.original_host == Some(e.entry.primary())
            &&& f.text(FormField::Host) == e.entry.primary()
            &&& f.text(FormField::HostName) == shown(e.entry.hostname)
            &&& f.text(FormField::User) == shown(e.entry.user)
            &&& e.entry.port is Some ==> f.text(FormField::Port) == decimal(e.entry.port->0 as nat)
            &&& e.entry.port is None ==> f.text(FormField::Port).len() == 0
            &&& f.text(FormField::ProxyJump) == shown(e.entry.proxy_jump)
            &&& f.text(FormField::IdentityFiles) == join(e.entry.identity_files, "; "@)
            &&& f.text(FormField::LocalForwards) == join(e.entry.local_forwards, "; "@)
            &&& f.text(FormField::RemoteForwards) == join(e.entry.remote_forwards, "; "@)
            &&& f.text(FormField::StrictHostKeyChecking) == shown(e.entry.strict_host_key_checking)
            &&& f.text(FormField::UserKnownHostsFile) == shown(e.entry.user_known_hosts_file)
            &&& f.text(FormField::HostKeyAlgorithms) == shown(e.entry.host_key_algorithms)
            &&& f.text(FormField::PubkeyAcceptedAlgorithms) == shown(
                e.entry.pubkey_accepted_algorithms,
            )
            &&& f.text(FormField::ForwardAgent) == shown(e.entry.forward_agent)
            &&& f.text(FormField::SshTag) == shown(e.entry.tag)
            &&& f.text(FormField::Tags) == join(m.tags, ","@)
            &&& f.text(FormField::Note) == shown(m.note)
            &&& f.text(FormField::Template) == shown(m.template_source)
        }),
{
}

/// A character goes to the end of the field that is being filled in, and to no other.
#[verifier::rlimit(30)]
pub proof fn law_typing_fills_the_active_field(f: EntryFormView, c: char, other: FormField)
    requires
        f.wf(),
    ensures
        f.pushed(c).text(f.active_field) == f.text(f.active_field).push(c),
        other != f.active_field ==> f.pushed(c).text(other) == f.text(other),
        f.popped().text(f.active_field) == shortened(f.text(f.active_field)),
        other != f.active_field ==> f.popped().text(other) == f.text(other),
        f.pushed(c).active_field == f.active_field,
        f.pushed(c).original_host == f.original_host,
{
}

// ---------------------------------------------------------------------------
// Keys
// ---------------------------------------------------------------------------

/// The key alone, without another one held down.
pub open spec fn plain_key(code: KeyCode) -> KeyEvent {
    KeyEvent { code, control: false, alt: false }
}

/// Where no form is open, the keys that move do no more than that.
pub proof fn law_moving_keys_only_move(s: TuiView, code: KeyCode)
    requires
        s.mode == InputMode::Normal,
        code == KeyCode::Down || code == KeyCode::Up || code == KeyCode::Home || code
            == KeyCode::End || code == KeyCode::PageUp || code == KeyCode::PageDown || code
            == KeyCode::Char('j') || code == KeyCode::Char('k') || code == KeyCode::Char('g')
            || code == KeyCode::Char('G'),
    ensures
        key_step(s, plain_key(code)) == (moved_by(s, plain_key(code)), Request::Nothing),
{
    lemma_normal_key(s, plain_key(code));
    match code {
        KeyCode::Char(c) => lemma_moving_letter(s, c),
        _ => lemma_moving_key(s, code),
    }
}

proof fn lemma_normal_key(s: TuiView, k: KeyEvent)
    requires
        s.mode == InputMode::Normal,
    ensures
        key_step(s, k) == normal_step(s, k),
{
}

proof fn lemma_moving_key(s: TuiView, code: KeyCode)
    requires
        !(code is Char),
        code != KeyCode::Tab,
    ensures
        normal_step(s, plain_key(code)) == (moved_by(s, plain_key(code)), Request::Nothing),
{
}

proof fn lemma_moving_letter(s: TuiView, c: char)
    requires
        c == 'j' || c == 'k' || c == 'g' || c == 'G',
    ensures
        normal_step(s, plain_key(KeyCode::Char(c))) == (
            moved_by(s, plain_key(KeyCode::Char(c))),
            Request::Nothing,
        ),
{
    assert(normal_step(s, plain_key(KeyCode::Char(c))) == letter_step(s, c, false));
}

/// Where the list has the focus, the key down selects the next entry, and stays on the last.
#[verifier::rlimit(30)]
pub proof fn law_down_selects_the_next(s: TuiView, letter: bool)
    requires
        s.focus == PaneFocus::HostList,
        s.filtered.len() > 0,
        0 <= s.selected < s.filtered.len(),
    ensures
        ({
            let k = if letter {
                KeyCode::Char('j')
            } else {
                KeyCode::Down
            };
            let t = moved_by(s, plain_key(k));
            &&& s.selected + 1 < s.filtered.len() ==> t.selected == s.selected + 1
            &&& s.selected + 1 == s.filtered.len() ==> t.selected == s.selected
            &&& t.entries == s.entries && t.filtered == s.filtered && t.mode == s.mode && t.focus
                == s.focus
        }),
{
}

/// The key up selects the entry before, and stays on the first.
#[verifier::rlimit(30)]
pub proof fn law_up_selects_the_one_before(s: TuiView, letter: bool)
    requires
        s.focus == PaneFocus::HostList,
        s.filtered.len() > 0,
        0 <= s.selected < s.filtered.len(),
    ensures
        ({
            let k = if letter {
                KeyCode::Char('k')
            } else {
                KeyCode::Up
            };
            let t = moved_by(s, plain_key(k));
            &&& s.selected > 0 ==> t.selected == s.selected - 1
            &&& s.selected == 0 ==> t.selected == 0
            &&& t.entries == s.entries && t.filtered == s.filtered && t.mode == s.mode && t.focus
                == s.focus
        }),
{
}

/// The key for the start selects the first entry.
#[verifier::rlimit(30)]
pub proof fn law_home_selects_the_first(s: TuiView, letter: bool)
    requires
        s.focus == PaneFocus::HostList,
        s.filtered.len() > 0,
        0 <= s.selected < s.filtered.len(),
    ensures
        ({
            let k = if letter {
                KeyCode::Char('g')
            } else {
                KeyCode::Home
            };
            let t = moved_by(s, plain_key(k));
            &&& t.selected == 0
            &&& t.entries == s.entries && t.filtered == s.filtered && t.mode == s.mode && t.focus
                == s.focus
        }),
{
}

/// The key for the end selects the last entry.
#[verifier::rlimit(30)]
pub proof fn law_end_selects_the_last(s: TuiView, letter: bool)
    requires
        s.focus == PaneFocus::HostList,
        s.filtered.len() > 0,
        0 <= s.selected < s.filtered.len(),
    ensures
        ({
            let k = if letter {
                KeyCode::Char('G')
            } else {
                KeyCode::End
            };
            let t = moved_by(s, plain_key(k));
            &&& t.selected == s.filtered.len() - 1
            &&& t.entries == s.entries && t.filtered == s.filtered && t.mode == s.mode && t.focus
                == s.focus
        }),
{
}

/// Where the detail has the focus, the key down scrolls it by a line, up to its end.
#[verifier::rlimit(30)]
pub proof fn law_down_scrolls_the_detail(s: TuiView)
    requires
        s.focus == PaneFocus::Detail,
        0 <= s.scroll <= s.max_scroll(),
    ensures
        ({
            let t = moved_by(s, plain_key(KeyCode::Down));
            &&& s.scroll < s.max_scroll() ==> t.scroll == s.scroll + 1
            &&& s.scroll == s.max_scroll() ==> t.scroll == s.scroll
            &&& t.selected == s.selected && t.entries == s.entries && t.mode == s.mode
        }),
{
}

/// The key up scrolls it back by a line, up to its start.
#[verifier::rlimit(30)]
pub proof fn law_up_scrolls_the_detail(s: TuiView)
    requires
        s.focus == PaneFocus::Detail,
        0 <= s.scroll <= s.max_scroll(),
    ensures
        ({
            let t = moved_by(s, plain_key(KeyCode::Up));
            &&& s.scroll > 0 ==> t.scroll == s.scroll - 1
            &&& s.scroll == 0 ==> t.scroll == 0
            &&& t.selected == s.selected && t.entries == s.entries && t.mode == s.mode
        }),
{
}

/// The key for the end scrolls it to its end.
#[verifier::rlimit(30)]
pub proof fn law_end_scrolls_the_detail(s: TuiView)
    requires
        s.focus == PaneFocus::Detail,
        0 <= s.scroll <= s.max_scroll(),
    ensures
        ({
            let t = moved_by(s, plain_key(KeyCode::End));
            &&& t.scroll == s.max_scroll()
            &&& t.selected == s.selected && t.entries == s.entries && t.mode == s.mode
        }),
{
}

/// What is typed into the search is the query, and the list is what passes then; the key to leave
/// takes the query back, and the key to confirm keeps it.
#[verifier::rlimit(30)]
pub proof fn law_typed_text_is_searched_for(s: TuiView, c: char)
    requires
        s.mode == InputMode::Search,
    ensures
        ({
            let t = key_step(s, plain_key(KeyCode::Char(c))).0;
            let back = key_step(s, plain_key(KeyCode::Backspace)).0;
            let left = key_step(s, plain_key(KeyCode::Esc)).0;
            let kept = key_step(s, plain_key(KeyCode::Enter)).0;
            &&& t.query == s.query.push(c)
            &&& t.mode == InputMode::Search
            &&& t.filtered == passing(
                (TuiView { query: s.query.push(c), ..s }).filter(),
                s.entries,
                s.records.entries,
                s.entries.len(),
                s.windows,
            )
            &&& back.query == shortened(s.query) && back.mode == InputMode::Search
            &&& left.query.len() == 0 && left.mode == InputMode::Normal
            &&& kept.query == s.query && kept.mode == InputMode::Normal && kept.filtered
                == s.filtered
            &&& t.entries == s.entries && t.tags == s.tags && t.template == s.template && t.has_note
                == s.has_note
        }),
{
}

/// Each letter does what it is for.
#[verifier::rlimit(30)]
pub proof fn law_letters(s: TuiView)
    requires
        s.mode == InputMode::Normal,
    ensures
        key_step(s, plain_key(KeyCode::Char('q'))) == (s, Request::Quit),
        key_step(s, KeyEvent { code: KeyCode::Char('c'), control: true, alt: false }) == (
            s,
            Request::Quit,
        ),
        key_step(s, plain_key(KeyCode::Char('/'))).0 == (TuiView { mode: InputMode::Search, ..s }),
        key_step(s, plain_key(KeyCode::Char('b'))) == (s, Request::ListBackups),
        key_step(s, plain_key(KeyCode::Char('V'))) == (s, Request::Validate),
        key_step(s, plain_key(KeyCode::Char('D'))) == (s, Request::Doctor),
        key_step(s, KeyEvent { code: KeyCode::Char('r'), control: true, alt: false }) == (
            s,
            Request::Reload,
        ),
        key_step(s, plain_key(KeyCode::Char('a'))).0 == (TuiView {
            form: Some(empty_form()),
            mode: InputMode::Edit,
            ..s
        }),
        key_step(s, plain_key(KeyCode::Tab)).0.focus != s.focus,
        key_step(s, plain_key(KeyCode::Char('f'))).0.mode == InputMode::Filter,
        key_step(s, plain_key(KeyCode::Char('?'))).0.mode == InputMode::Inspect,
        key_step(s, plain_key(KeyCode::Char('t'))).0.mode == InputMode::Inspect,
        ({
            let x = key_step(s, plain_key(KeyCode::Char('x'))).0;
            x.query.len() == 0 && x.tags.len() == 0 && x.template.len() == 0 && !x.has_note
        }),
{
}

/// The entry that is selected is the one that is edited and the one that is asked about before it
/// is deleted.
#[verifier::rlimit(30)]
pub proof fn law_selected_entry_is_meant(s: TuiView)
    requires
        s.mode == InputMode::Normal,
        0 <= s.selected < s.filtered.len(),
        0 <= s.filtered[s.selected] < s.entries.len(),
    ensures
        ({
            let e = s.entries[s.filtered[s.selected]];
            let edit = key_step(s, plain_key(KeyCode::Char('e'))).0;
            let delete = key_step(s, plain_key(KeyCode::Char('d'))).0;
            &&& edit.mode == InputMode::Edit
            &&& edit.form == Some(form_of(e, record_of(s.records.entries, e, s.windows)))
            &&& delete.mode == InputMode::ConfirmDelete
            &&& delete.deleting == Some(e.entry.primary())
        }),
{
}

/// The filter form opens with the filters that are set, and what it says when it is confirmed is
/// what is filtered by; leaving it changes nothing of them.
#[verifier::rlimit(30)]
pub proof fn law_filter_form_sets_the_filters(s: TuiView, f: FilterFormView)
    requires
        s.mode == InputMode::Filter,
        s.filters == Some(f),
    ensures
        ({
            let set = key_step(s, plain_key(KeyCode::Enter)).0;
            let left = key_step(s, plain_key(KeyCode::Esc)).0;
            &&& set.query == f.query && set.tags == f.tags && set.has_note == f.has_note
                && set.template == f.template
            &&& set.mode == InputMode::Normal && set.filters is None
            &&& set.filtered == passing(
                set.filter(),
                s.entries,
                s.records.entries,
                s.entries.len(),
                s.windows,
            )
            &&& left.query == s.query && left.tags == s.tags && left.has_note == s.has_note
                && left.template == s.template && left.filtered == s.filtered
            &&& left.mode == InputMode::Normal && left.filters is None
        }),
{
}

/// A confirmed question about an entry asks for it to be deleted, a denied one for nothing.
#[verifier::rlimit(30)]
pub proof fn law_deleting_is_confirmed(s: TuiView)
    requires
        s.mode == InputMode::ConfirmDelete,
    ensures
        key_step(s, plain_key(KeyCode::Char('y'))) == (s, Request::Delete),
        key_step(s, plain_key(KeyCode::Enter)) == (s, Request::Delete),
        key_step(s, plain_key(KeyCode::Esc)) == (
            TuiView { deleting: None, mode: InputMode::Normal, ..s },
            Request::Nothing,
        ),
        key_step(s, plain_key(KeyCode::Char('n'))) == key_step(s, plain_key(KeyCode::Esc)),
{
}

/// The same of a snapshot that is to be brought back.
#[verifier::rlimit(30)]
pub proof fn law_restoring_is_confirmed(s: TuiView)
    requires
        s.mode == InputMode::ConfirmRestore,
    ensures
        key_step(s, plain_key(KeyCode::Char('y'))) == (s, Request::Restore),
        key_step(s, plain_key(KeyCode::Enter)) == (s, Request::Restore),
        key_step(s, plain_key(KeyCode::Esc)) == (
            TuiView { restoring: None, mode: InputMode::BackupCatalog, ..s },
            Request::Nothing,
        ),
        key_step(s, plain_key(KeyCode::Char('n'))) == key_step(s, plain_key(KeyCode::Esc)),
{
}

/// The form and the new order are saved by the key to confirm, and left by the key to leave.
#[verifier::rlimit(30)]
pub proof fn law_forms_are_confirmed(s: TuiView)
    ensures
        s.mode == InputMode::Edit ==> key_step(s, plain_key(KeyCode::Enter)) == (
            s,
            Request::SaveForm,
        ),
        s.mode == InputMode::Edit ==> key_step(s, plain_key(KeyCode::Esc)) == (
            TuiView { form: None, mode: InputMode::Normal, ..s },
            Request::Nothing,
        ),
        s.mode == InputMode::Reorder ==> key_step(s, plain_key(KeyCode::Enter)) == (
            s,
            Request::SaveReorder,
        ),
{
}

// ---------------------------------------------------------------------------
// Moving
// ---------------------------------------------------------------------------

/// Moving changes places with the neighbour, and with no other; the orders that are shown count
/// in tens.
pub proof fn law_moving_changes_places(s: TuiView, up: bool)
    requires
        s.mode == InputMode::Reorder,
        s.reorder is Some,
        0 <= s.selected < s.filtered.len(),
        0 <= s.filtered[s.selected] < s.entries.len(),
        s.raw.len() == s.entries.len(),
    ensures
        ({
            let from = s.filtered[s.selected];
            let to = if up {
                from - 1
            } else {
                from + 1
            };
            let t = s.shifted(up);
            &&& !(0 <= to < s.entries.len()) ==> t.entries == s.entries && t.raw == s.raw
            &&& 0 <= to < s.entries.len() ==> {
                &&& t.entries.len() == s.entries.len()
                &&& t.entries[to].entry == s.entries[from].entry && t.entries[to].path
                    == s.entries[from].path
                &&& t.entries[from].entry == s.entries[to].entry && t.entries[from].path
                    == s.entries[to].path
                &&& t.raw[to] == s.raw[from] && t.raw[from] == s.raw[to]
                &&& forall|i: int|
                    0 <= i < s.entries.len() && i != from && i != to ==> (
                    #[trigger] t.entries[i]).entry == s.entries[i].entry && t.raw[i] == s.raw[i]
                &&& forall|i: int|
                    0 <= i < s.entries.len() && 10 * (i + 1) <= 65535 ==> (
                    #[trigger] t.entries[i]).order == 10 * (i + 1)
            }
        }),
{
    let from = s.filtered[s.selected];
    assert(s.selected_index() == Some(from));
    let to = if up {
        from - 1
    } else {
        from + 1
    };
    if 0 <= to < s.entries.len() {
        assert(neighbour(from, up, s.entries.len() as int) == Some(to));
        let es = moved(s.entries, from, to);
        let t = s.shifted(up);
        assert(t.entries == renumbered(es));
        assert(t.raw == moved(s.raw, from, to));
    } else {
        assert(neighbour(from, up, s.entries.len() as int) is None);
    }
}

// ---------------------------------------------------------------------------
// What follows a request
// ---------------------------------------------------------------------------

/// After a change the entries and records are those that are then read; where it failed they are
/// those from before, and the failure is told.
#[verifier::rlimit(30)]
pub proof fn law_changes_are_followed_by_reading(
    s: TuiView,
    saved: Result<(Seq<Seq<char>>, Option<Seq<char>>), Seq<char>>,
    deleted: Result<Option<Seq<char>>, Seq<char>>,
    l: LoadedView,
)
    requires
        s.form is Some ==> save_refusal(s.form->0) is None,
        s.deleting is Some ==> until_host(s.entries, s.deleting->0) < s.entries.len(),
    ensures
        reload_done(s, Ok(l)).0.entries == l.entries && reload_done(s, Ok(l)).0.records == l.records,
        s.form is Some && saved is Ok ==> {
            let (t, failure) = form_saved(s, saved, Ok(l));
            &&& failure is None && t.entries == l.entries && t.records == l.records
            &&& t.form is None && t.mode == InputMode::Normal
        },
        s.form is Some && saved is Err ==> {
            let (t, failure) = form_saved(s, saved, Ok(l));
            failure == Some(saved->Err_0) && t == s
        },
        s.deleting is Some && deleted is Ok ==> {
            let (t, failure) = delete_done(s, deleted, Ok(l));
            &&& failure is None && t.entries == l.entries && t.records == l.records
            &&& t.deleting is None && t.mode == InputMode::Normal
        },
        s.deleting is Some && deleted is Err ==> {
            let (t, failure) = delete_done(s, deleted, Ok(l));
            failure == Some(deleted->Err_0) && t.entries == s.entries && t.deleting is None
        },
{
}

/// A window on a list shows as many lines as fit, and none twice.
#[verifier::rlimit(30)]
pub proof fn law_window_is_inside(total: int, offset: int, viewport: int)
    requires
        total >= 0,
        offset >= 0,
        viewport >= 1,
    ensures
        total == 0 ==> window_of(total, offset, viewport) is None,
        total > 0 ==> {
            let (start, end) = window_of(total, offset, viewport)->0;
            &&& 0 <= start < end <= total
            &&& end - start <= viewport
            &&& offset < total ==> start == offset
            &&& offset + viewport <= total ==> end == offset + viewport
        },
{
}

/// A snapshot is selected by its place, and the last one where the place is behind it; the one that
/// is selected is the one that is asked about before it is brought back.
pub proof fn law_selected_snapshot_is_meant(s: TuiView, c: CatalogView, i: int)
    requires
        s.catalog == Some(c),
        c.snapshots.len() > 0,
        0 <= i,
        0 <= c.selected < c.snapshots.len(),
    ensures
        i < c.snapshots.len() ==> c.select(i).selected == i,
        i >= c.snapshots.len() ==> c.select(i).selected == c.snapshots.len() - 1,
        c.select(i).snapshots == c.snapshots,
        restore_asked(s).restoring == Some(c.snapshots[c.selected]),
        restore_asked(s).mode == InputMode::ConfirmRestore,
        restore_asked(s).entries == s.entries,
{
}

/// A character goes to the end of the field of the filter form that is being filled in, and to no
/// other.
pub proof fn law_typing_fills_the_active_filter(f: FilterFormView, c: char)
    ensures
        ({
            let r = f.pushed(c);
            &&& f.active_field == FilterField::Query ==> r == (FilterFormView {
                query: f.query.push(c),
                ..f
            })
            &&& f.active_field == FilterField::Tags ==> r == (FilterFormView {
                tags: f.tags.push(c),
                ..f
            })
            &&& f.active_field == FilterField::Template ==> r == (FilterFormView {
                template: f.template.push(c),
                ..f
            })
            &&& f.active_field == FilterField::HasNote ==> r == f
        }),
{
}

} // verus!
