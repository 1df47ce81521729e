//! The parts of the terminal interface that change entries, and the preview of an entry.

#![verifier::loop_isolation(false)]

use vstd::prelude::*;

use crate::backup::{RestoreBackupOutcome, beyond};
use crate::commands::cli::{AddArgs, EditArgs};
use crate::commands::order::{moved_host, paths_of};
use crate::config::describe::{describe_resolved_target_lines, description};
use crate::config::match_header::{BlockView, RootMatchBlock};
use crate::config::model::{
    EntryKind, HostEntry, HostView, ManagedEntry, ManagedView, ResolvedEntry, ResolvedView,
    copy_slice,
};
use crate::config::resolve::{
    MachineFacts, OptionsView, entries_portable, entries_step, no_options, options_here,
    portable_all, resolution, resolution_may_be, resolve_target, resolve_target_with_root_matches,
    resolved, resolved_from, start,
};
use crate::config::state::{AppState, StateView, record_of};
use crate::config::store::{find_entry_by_host, managed, saved, until_host};
use crate::error::ConfigError;
use crate::strings::{
    concat2, concat3, concat4, copy_strs, decimal_text, joined, trimmed, trimmed_end,
};
use crate::text::{decimal, join, lines, opt, strs, trim, trim_end, views};
use crate::tui::actions::{add_backup, preview_order, renumbered, with_backup};
use crate::tui::forms::{
    DetailMode, EntryForm, EntryFormView, FormField, FormMode, InputMode, empty_form, form_of,
    form_refusal, is_add_of, is_edit_of, or_nothing,
};
use crate::tui::state::{LoadedSnapshot, LoadedView, ReorderSession, TuiState, TuiView, loaded};
use crate::tui::viewport::{move_item, moved, offset_index};

verus! {

broadcast use crate::text::group_text;

/// What a form asks for.
#[derive(Debug)]
pub enum FormRequest {
    Create(AddArgs),
    Edit(EditArgs),
}

/// Why the form cannot be saved as it is.
pub open spec fn save_refusal(f: EntryFormView) -> Option<Seq<char>> {
    if f.mode == FormMode::Edit && f.original_host is None {
        Some("edit form is missing the original host"@)
    } else {
        form_refusal(f)
    }
}

/// The request is what the form asks for.
pub open spec fn asks_for(r: FormRequest, f: EntryFormView) -> bool {
    match r {
        FormRequest::Create(a) => f.mode == FormMode::Create && is_add_of(a, f),
        FormRequest::Edit(a) => f.mode == FormMode::Edit && is_edit_of(a, f),
    }
}

/// What came of saving an entry: its patterns, and the place of the backup.
pub open spec fn saved_entry(r: Result<(Vec<String>, Option<String>), ConfigError>) -> Result<
    (Seq<Seq<char>>, Option<Seq<char>>),
    Seq<char>,
> {
    match r {
        Ok(x) => Ok((strs(x.0@), opt(x.1))),
        Err(e) => Err(e@),
    }
}

/// The host that is named where an entry without patterns was saved.
pub open spec fn fallback_host(f: EntryFormView) -> Seq<char> {
    match f.mode {
        FormMode::Create => trim(f.text(FormField::Host)),
        FormMode::Edit => or_nothing(f.original_host),
    }
}

pub open spec fn first_of(v: Seq<Seq<char>>) -> Option<Seq<char>> {
    if v.len() == 0 {
        None
    } else {
        Some(v[0])
    }
}

pub open spec fn saved_message(
    f: EntryFormView,
    patterns: Seq<Seq<char>>,
    backup: Option<Seq<char>>,
) -> Seq<char> {
    with_backup(
        f.mode.spec_verb() + " `"@ + (match first_of(patterns) {
            Some(h) => h,
            None => fallback_host(f),
        }) + "`"@,
        " | backup "@,
        backup,
    )
}

/// The state after a form was saved, and the refusal where it was not. What is written
/// before a refusal stays written.
pub open spec fn form_saved(
    s: TuiView,
    done: Result<(Seq<Seq<char>>, Option<Seq<char>>), Seq<char>>,
    read: Result<LoadedView, Seq<char>>,
) -> (TuiView, Option<Seq<char>>) {
    match s.form {
        None => (s.in_mode(InputMode::Normal), None),
        Some(f) => match save_refusal(f) {
            Some(e) => (s, Some(e)),
            None => match done {
                Err(e) => (s, Some(e)),
                Ok((patterns, backup)) => {
                    let closed = TuiView { form: None, mode: InputMode::Normal, ..s };
                    match read {
                        Err(e) => (closed, Some(e)),
                        Ok(l) => (
                            closed.reloaded(first_of(patterns), l).with_status(
                                saved_message(f, patterns, backup),
                            ),
                            None,
                        ),
                    }
                },
            },
        },
    }
}

/// The state after the files were read again.
pub open spec fn reload_done(s: TuiView, read: Result<LoadedView, Seq<char>>) -> (
    TuiView,
    Option<Seq<char>>,
) {
    match read {
        Err(e) => (s, Some(e)),
        Ok(l) => (
            s.reloaded(s.selected_host(), l).with_status(
                "Reloaded managed entries from disk"@,
            ),
            None,
        ),
    }
}

/// The state after a deletion was confirmed.
pub open spec fn delete_done(
    s: TuiView,
    done: Result<Option<Seq<char>>, Seq<char>>,
    read: Result<LoadedView, Seq<char>>,
) -> (TuiView, Option<Seq<char>>) {
    match s.deleting {
        None => (s.in_mode(InputMode::Normal), None),
        Some(h) => {
            let taken = TuiView { deleting: None, ..s };
            if until_host(s.entries, h) >= s.entries.len() {
                (taken, Some("managed entry `"@ + h + "` not found"@))
            } else {
                match done {
                    Err(e) => (taken, Some(e)),
                    Ok(backup) => match read {
                        Err(e) => (taken.in_mode(InputMode::Normal), Some(e)),
                        Ok(l) => (
                            taken.in_mode(InputMode::Normal).reloaded(None, l).with_status(
                                with_backup("Deleted `"@ + h + "`"@, " | backup "@, backup),
                            ),
                            None,
                        ),
                    },
                }
            }
        },
    }
}

/// What came of bringing a snapshot back: its label, the place of the backup that was made
/// first, and the records for the entries that are there now.
pub open spec fn restored(r: Result<(RestoreBackupOutcome, AppState), ConfigError>) -> Result<
    (Seq<char>, Option<Seq<char>>, StateView),
    Seq<char>,
> {
    match r {
        Ok(x) => Ok((x.0.restored_snapshot@.label, opt(x.0.pre_restore_backup_path), x.1@)),
        Err(e) => Err(e@),
    }
}

/// The state after a restoration was confirmed.
pub open spec fn restore_done(
    s: TuiView,
    done: Result<(Seq<char>, Option<Seq<char>>, StateView), Seq<char>>,
    read: Result<LoadedView, Seq<char>>,
) -> (TuiView, Option<Seq<char>>) {
    match s.restoring {
        None => (s.in_mode(InputMode::BackupCatalog), None),
        Some(_) => {
            let taken = TuiView { restoring: None, ..s };
            match done {
                Err(e) => (taken, Some(e)),
                Ok((label, backup, records)) => {
                    let synced = TuiView { records, mode: InputMode::Normal, ..taken };
                    match read {
                        Err(e) => (synced, Some(e)),
                        Ok(l) => (
                            synced.reloaded(s.selected_host(), l).with_status(
                                with_backup(
                                    "Restored backup `"@ + label + "`"@,
                                    " | current state saved to "@,
                                    backup,
                                ),
                            ),
                            None,
                        ),
                    }
                },
            }
        },
    }
}

/// What came of writing the entries in their new order: the host, its order, and the places
/// of the backups.
pub open spec fn reordered(r: Result<(String, u16, Vec<String>), ConfigError>) -> Result<
    (Seq<char>, u16, Seq<Seq<char>>),
    Seq<char>,
> {
    match r {
        Ok(x) => Ok((x.0@, x.1, strs(x.2@))),
        Err(e) => Err(e@),
    }
}

/// The state after the new order was saved.
pub open spec fn reorder_done(
    s: TuiView,
    done: Result<(Seq<char>, u16, Seq<Seq<char>>), Seq<char>>,
    read: Result<LoadedView, Seq<char>>,
) -> (TuiView, Option<Seq<char>>) {
    match s.reorder {
        None => (s.in_mode(InputMode::Normal), None),
        Some(r) => {
            let taken = TuiView { reorder: None, ..s };
            if paths_of(s.entries) == paths_of(r.entries) {
                (
                    taken.in_mode(InputMode::Normal).with_status("No order changes to save"@),
                    None,
                )
            } else {
                match done {
                    Err(e) => (taken, Some(e)),
                    Ok((host, order, backups)) => match read {
                        Err(e) => (taken.in_mode(InputMode::Normal), Some(e)),
                        Ok(l) => (
                            taken.in_mode(InputMode::Normal).reloaded(
                                Some(r.host),
                                l,
                            ).with_status(
                                with_backup(
                                    "Moved `"@ + host + "` -> order "@ + decimal(order as nat),
                                    " | backup "@,
                                    first_of(backups),
                                ),
                            ),
                            None,
                        ),
                    },
                }
            }
        },
    }
}

pub open spec fn refusal(r: Result<(), ConfigError>) -> Option<Seq<char>> {
    match r {
        Ok(_) => None,
        Err(e) => Some(e@),
    }
}

fn first_text(v: &Vec<String>) -> (r: Option<String>)
    ensures
        opt(r) == first_of(strs(v@)),
{
    assert(strs(v@).len() == v@.len());
    if v.len() == 0 {
        None
    } else {
        Some(v[0].clone())
    }
}

/// The texts that the preview shows where there is no entry.
pub open spec fn nothing_selected(s: TuiView) -> Seq<char> {
    if s.entries.len() == 0 {
        "No managed entries found.\n\nRun `sshcfg init` and `sshcfg add ...` to create entries."@
    } else {
        "No entries match the current filters.\n\nActive filters: "@ + (match s.filter_summary() {
            Some(t) => t,
            None => "<none>"@,
        })
    }
}

/// The description of what an entry resolves to.
pub open spec fn preview_of(resolution: Result<ResolvedView, Seq<char>>, e: HostView) -> Seq<char> {
    let target = e.primary();
    match resolution {
        Err(m) => "Failed to resolve merged preview for `"@ + target + "`:\n"@ + m,
        Ok(r) => if r.matched_entries.len() == 0 {
            "No merged preview available for `"@ + target + "`."@
        } else {
            trim_end(join(noted(description(r), e.kind()), "\n"@))
        },
    }
}

pub open spec fn pattern_note() -> Seq<char> {
    "preview note: wildcard and negated patterns are resolved against the literal primary pattern."@
}

/// The lines with a note under the first where the entry is for a pattern.
pub open spec fn noted(lines: Seq<Seq<char>>, kind: EntryKind) -> Seq<Seq<char>> {
    if kind == EntryKind::Host {
        lines
    } else {
        lines.take(1) + seq![pattern_note(), Seq::<char>::empty()] + lines.skip(1)
    }
}

/// What the managed entries alone make of a target.
pub open spec fn plain_resolution(es: Seq<ManagedView>, target: Seq<char>) -> Result<
    ResolvedView,
    Seq<char>,
> {
    match entries_step(start(target), es, target) {
        Ok(m) => Ok(resolved_from(target, m)),
        Err(e) => Err(e),
    }
}

/// What the preview of an entry may be, whatever the machine.
pub open spec fn preview_may_be(
    es: Seq<ManagedView>,
    bs: Seq<BlockView>,
    o: OptionsView,
    e: HostView,
    text: Seq<char>,
) -> bool {
    exists|x: Result<ResolvedView, Seq<char>>| #[trigger]
        resolution_may_be(es, e.primary(), bs, o, x) && text == preview_of(x, e)
}

pub fn describe_preview(resolution: Result<ResolvedEntry, ConfigError>, entry: &HostEntry) -> (r:
    String)
    ensures
        r@ == preview_of(resolved(resolution), entry@),
{
    let target: &str = entry.primary_pattern();
    match resolution {
        Err(e) => concat4(
            "Failed to resolve merged preview for `",
            target,
            "`:\n",
            &e.text(),
        ),
        Ok(x) => {
            assert(views(x.matched_entries@).len() == x.matched_entries@.len());
            if x.matched_entries.len() == 0 {
                return concat3("No merged preview available for `", target, "`.");
            }
            let mut lines: Vec<String> = describe_resolved_target_lines(&x);
            let ghost all = strs(lines@);
            assert(all.len() >= 1);
            assert(all.len() == lines@.len());
            if entry.kind() != EntryKind::Host {
                lines.insert(
                    1,
                    "preview note: wildcard and negated patterns are resolved against the literal primary pattern.".to_string(),
                );
                lines.insert(2, String::new());
                assert(strs(lines@) =~= noted(all, entry@.kind()));
            }
            trimmed_end(&joined(&lines, "\n"))
        },
    }
}

impl TuiState {
    /// The text of the selected entry, or the preview of it; `root_match_blocks` are the
    /// blocks of the root config.
    pub fn selected_content(&self, root_match_blocks: &[RootMatchBlock], facts: &MachineFacts) -> (r:
        String)
        requires
            self@.wf(),
        ensures
            match self@.selected_index() {
                None => r@ == nothing_selected(self@),
                Some(i) => {
                    let e = self@.entries[i].entry;
                    let bs = views(root_match_blocks@);
                    let o = options_here(
                        facts.local_user@,
                        strs(facts.local_networks@),
                        opt(facts.ssh_version),
                        bs,
                    );
                    if self@.detail == DetailMode::Raw {
                        r@ == self@.raw[i]
                    } else if bs.len() == 0 {
                        &&& preview_may_be(self@.entries, bs, no_options(), e, r@)
                        &&& entries_portable(self@.entries, e.primary()) ==> r@ == preview_of(
                            plain_resolution(self@.entries, e.primary()),
                            e,
                        )
                    } else {
                        &&& preview_may_be(self@.entries, bs, o, e, r@)
                        &&& portable_all(self@.entries, e.primary(), bs, o) ==> r@ == preview_of(
                            resolution(self@.entries, e.primary(), bs, o),
                            e,
                        )
                    }
                },
            },
    {
        match self.selected_entry_index() {
            None => {
                assert(views(self.entries@).len() == self.entries@.len());
                if self.entries.len() == 0 {
                    return "No managed entries found.\n\nRun `sshcfg init` and `sshcfg add ...` to create entries.".to_string();
                }
                let summary: String = match self.active_filter_summary() {
                    Some(t) => t,
                    None => "<none>".to_string(),
                };
                concat2(
                    "No entries match the current filters.\n\nActive filters: ",
                    &summary,
                )
            },
            Some(i) => {
                if self.detail_mode == DetailMode::Raw {
                    self.raw_contents[i].clone()
                } else {
                    self.render_merged_preview(i, root_match_blocks, facts)
                }
            },
        }
    }

    fn render_merged_preview(
        &self,
        index: usize,
        root_match_blocks: &[RootMatchBlock],
        facts: &MachineFacts,
    ) -> (r: String)
        requires
            index < self@.entries.len(),
        ensures
            ({
                let e = self@.entries[index as int].entry;
                let bs = views(root_match_blocks@);
                let o = options_here(
                    facts.local_user@,
                    strs(facts.local_networks@),
                    opt(facts.ssh_version),
                    bs,
                );
                if bs.len() == 0 {
                    &&& preview_may_be(self@.entries, bs, no_options(), e, r@)
                    &&& entries_portable(self@.entries, e.primary()) ==> r@ == preview_of(
                        plain_resolution(self@.entries, e.primary()),
                        e,
                    )
                } else {
                    &&& preview_may_be(self@.entries, bs, o, e, r@)
                    &&& portable_all(self@.entries, e.primary(), bs, o) ==> r@ == preview_of(
                        resolution(self@.entries, e.primary(), bs, o),
                        e,
                    )
                }
            }),
    {
        let entry: &ManagedEntry = &self.entries[index];
        let target: &str = entry.entry.primary_pattern();
        assert(views(root_match_blocks@).len() == root_match_blocks@.len());
        let resolution: Result<ResolvedEntry, ConfigError> = if root_match_blocks.len() == 0 {
            resolve_target(&self.entries, target)
        } else {
            resolve_target_with_root_matches(&self.entries, target, root_match_blocks, facts)
        };
        proof {
            let bs = views(root_match_blocks@);
            if bs.len() == 0 {
                assert(bs =~= Seq::<BlockView>::empty());
                assert(resolution_may_be(
                    self@.entries,
                    target@,
                    bs,
                    no_options(),
                    resolved(resolution),
                ));
            }
        }
        describe_preview(resolution, &entry.entry)
    }

    // -----------------------------------------------------------------------
    // Forms
    // -----------------------------------------------------------------------

    pub fn start_add(&mut self)
        requires
            old(self)@.wf(),
        ensures
            final(self)@ == old(self)@.with_form(empty_form()).in_mode(InputMode::Edit),
            final(self)@.wf(),
    {
        self.entry_form = Some(EntryForm::new_create());
        self.input_mode = InputMode::Edit;
    }

    pub fn start_edit(&mut self)
        requires
            old(self)@.wf(),
        ensures
            final(self)@ == (match old(self)@.selected_entry() {
                Some(e) => old(self)@.with_form(
                    form_of(e, record_of(old(self)@.records.entries, e, old(self)@.windows)),
                ).in_mode(InputMode::Edit),
                None => old(self)@.with_status("No selected entry to edit"@),
            }),
            final(self)@.wf(),
    {
        match self.selected_entry_index() {
            None => self.set_status("No selected entry to edit"),
            Some(i) => {
                let form: EntryForm = EntryForm::from_entry(&self.entries[i], self.metadata(i));
                self.entry_form = Some(form);
                self.input_mode = InputMode::Edit;
            },
        }
    }

    pub fn form_next_field(&mut self)
        requires
            old(self)@.wf(),
        ensures
            final(self)@ == (match old(self)@.form {
                Some(f) => old(self)@.with_form(
                    EntryFormView { active_field: f.active_field.following(), ..f },
                ),
                None => old(self)@,
            }),
            final(self)@.wf(),
    {
        match &mut self.entry_form {
            Some(f) => f.next_field(),
            None => {},
        }
    }

    pub fn form_previous_field(&mut self)
        requires
            old(self)@.wf(),
        ensures
            final(self)@ == (match old(self)@.form {
                Some(f) => old(self)@.with_form(
                    EntryFormView { active_field: f.active_field.preceding(), ..f },
                ),
                None => old(self)@,
            }),
            final(self)@.wf(),
    {
        match &mut self.entry_form {
            Some(f) => f.previous_field(),
            None => {},
        }
    }

    pub fn push_form_char(&mut self, ch: char)
        requires
            old(self)@.wf(),
        ensures
            final(self)@ == (match old(self)@.form {
                Some(f) => old(self)@.with_form(f.pushed(ch)),
                None => old(self)@,
            }),
            final(self)@.wf(),
    {
        match &mut self.entry_form {
            Some(f) => f.push_char(ch),
            None => {},
        }
    }

    pub fn handle_form_space(&mut self)
        requires
            old(self)@.wf(),
        ensures
            final(self)@ == (match old(self)@.form {
                Some(f) => old(self)@.with_form(f.spaced()),
                None => old(self)@,
            }),
            final(self)@.wf(),
    {
        match &mut self.entry_form {
            Some(f) => f.handle_space(),
            None => {},
        }
    }

    pub fn pop_form_char(&mut self)
        requires
            old(self)@.wf(),
        ensures
            final(self)@ == (match old(self)@.form {
                Some(f) => old(self)@.with_form(f.popped()),
                None => old(self)@,
            }),
            final(self)@.wf(),
    {
        match &mut self.entry_form {
            Some(f) => f.backspace(),
            None => {},
        }
    }

    pub fn clear_form_field(&mut self)
        requires
            old(self)@.wf(),
        ensures
            final(self)@ == (match old(self)@.form {
                Some(f) => old(self)@.with_form(f.with_active(Seq::empty())),
                None => old(self)@,
            }),
            final(self)@.wf(),
    {
        match &mut self.entry_form {
            Some(f) => f.clear_active_field(),
            None => {},
        }
    }

    pub fn cycle_form_template_next(&mut self)
        requires
            old(self)@.wf(),
        ensures
            final(self)@ == (match old(self)@.form {
                Some(f) => old(self)@.with_form(f.arrowed(true)),
                None => old(self)@,
            }),
            final(self)@.wf(),
    {
        match &mut self.entry_form {
            Some(f) => {
                if f.active_field() == FormField::Template {
                    f.cycle_template_next();
                }
            },
            None => {},
        }
    }

    pub fn cycle_form_template_previous(&mut self)
        requires
            old(self)@.wf(),
        ensures
            final(self)@ == (match old(self)@.form {
                Some(f) => old(self)@.with_form(f.arrowed(false)),
                None => old(self)@,
            }),
            final(self)@.wf(),
    {
        match &mut self.entry_form {
            Some(f) => {
                if f.active_field() == FormField::Template {
                    f.cycle_template_previous();
                }
            },
            None => {},
        }
    }

    pub fn cancel_form(&mut self)
        requires
            old(self)@.wf(),
        ensures
            final(self)@ == (TuiView { form: None, mode: InputMode::Normal, ..old(self)@ }),
            final(self)@.wf(),
    {
        self.entry_form = None;
        self.input_mode = InputMode::Normal;
    }

    /// What the form asks for; `None` where no form is open.
    pub fn form_request(&self) -> (r: Option<Result<FormRequest, ConfigError>>)
        ensures
            match self@.form {
                None => r is None,
                Some(f) => match r {
                    None => false,
                    Some(Ok(x)) => save_refusal(f) is None && asks_for(x, f),
                    Some(Err(e)) => save_refusal(f) == Some(e@),
                },
            },
    {
        match &self.entry_form {
            None => None,
            Some(f) => match f.mode() {
                FormMode::Create => match f.build_add_args() {
                    Ok(a) => Some(Ok(FormRequest::Create(a))),
                    Err(e) => Some(Err(e)),
                },
                FormMode::Edit => match f.build_edit_args() {
                    Ok(a) => Some(Ok(FormRequest::Edit(a))),
                    Err(e) => Some(Err(e)),
                },
            },
        }
    }

    /// Closes the form after `done` came of what it asks for, with the files as `read`.
    pub fn save_form(
        &mut self,
        done: Result<(Vec<String>, Option<String>), ConfigError>,
        read: Result<LoadedSnapshot, ConfigError>,
    ) -> (r: Result<(), ConfigError>)
        requires
            old(self)@.wf(),
            read matches Ok(l) ==> l@.wf(),
        ensures
            (final(self)@, refusal(r)) == form_saved(old(self)@, saved_entry(done), loaded(read)),
            final(self)@.wf(),
    {
        let request: Option<Result<FormRequest, ConfigError>> = self.form_request();
        let ghost was = self@;
        match request {
            None => {
                self.input_mode = InputMode::Normal;
                Ok(())
            },
            Some(Err(e)) => Err(e),
            Some(Ok(_)) => match done {
                Err(e) => Err(e),
                Ok((patterns, backup)) => {
                    let preferred: Option<String> = first_text(&patterns);
                    let message: String = self.write_saved_message(&preferred, &backup);
                    self.entry_form = None;
                    self.input_mode = InputMode::Normal;
                    match read {
                        Err(e) => Err(e),
                        Ok(l) => {
                            self.reload_preserving(&preferred, l);
                            self.set_status(&message);
                            Ok(())
                        },
                    }
                },
            },
        }
    }

    fn write_saved_message(&self, preferred: &Option<String>, backup: &Option<String>) -> (r: String)
        requires
            self@.form is Some,
        ensures
            ({
                let f = self@.form->0;
                r@ == with_backup(
                    f.mode.spec_verb() + " `"@ + (match opt(*preferred) {
                        Some(h) => h,
                        None => fallback_host(f),
                    }) + "`"@,
                    " | backup "@,
                    opt(*backup),
                )
            }),
    {
        match &self.entry_form {
            None => String::new(),
            Some(f) => {
                let host: String = match preferred {
                    Some(h) => h.clone(),
                    None => match f.mode() {
                        FormMode::Create => trimmed(f.value(FormField::Host)),
                        FormMode::Edit => match f.original_host() {
                            Some(h) => h.to_string(),
                            None => String::new(),
                        },
                    },
                };
                add_backup(concat4(f.mode().verb(), " `", &host, "`"), " | backup ", backup)
            },
        }
    }

    // -----------------------------------------------------------------------
    // Reading the files again
    // -----------------------------------------------------------------------

    pub fn reload_preserving(&mut self, preferred_host: &Option<String>, read: LoadedSnapshot)
        requires
            old(self)@.wf(),
            read@.wf(),
        ensures
            final(self)@ == old(self)@.reloaded(opt(*preferred_host), read@),
            final(self)@.wf(),
    {
        let host: Option<String> = match preferred_host {
            Some(h) => Some(h.clone()),
            None => self.selected_host(),
        };
        self.entries = read.entries;
        self.raw_contents = read.raw_contents;
        self.metadata_state = read.metadata_state;
        self.backup_catalog = None;
        self.pending_restore_snapshot = None;
        self.filter_form = None;
        self.entry_form = None;
        self.inspection_report = None;
        self.reorder_session = None;
        match host {
            Some(h) => self.refresh_filter_preserving(Some(h.as_str())),
            None => self.refresh_filter_preserving(None),
        }
    }

    pub fn reload(&mut self, read: Result<LoadedSnapshot, ConfigError>) -> (r: Result<
        (),
        ConfigError,
    >)
        requires
            old(self)@.wf(),
            read matches Ok(l) ==> l@.wf(),
        ensures
            (final(self)@, refusal(r)) == reload_done(old(self)@, loaded(read)),
            final(self)@.wf(),
    {
        let host: Option<String> = self.selected_host();
        match read {
            Err(e) => Err(e),
            Ok(l) => {
                self.reload_preserving(&host, l);
                self.set_status("Reloaded managed entries from disk");
                Ok(())
            },
        }
    }

    // -----------------------------------------------------------------------
    // Deleting
    // -----------------------------------------------------------------------

    pub fn start_delete_confirmation(&mut self)
        requires
            old(self)@.wf(),
        ensures
            final(self)@ == (match old(self)@.selected_host() {
                Some(h) => TuiView {
                    deleting: Some(h),
                    mode: InputMode::ConfirmDelete,
                    ..old(self)@
                },
                None => old(self)@.with_status("No selected entry to delete"@),
            }),
            final(self)@.wf(),
    {
        match self.selected_host() {
            Some(h) => {
                self.pending_delete_host = Some(h);
                self.input_mode = InputMode::ConfirmDelete;
            },
            None => self.set_status("No selected entry to delete"),
        }
    }

    pub fn cancel_delete_confirmation(&mut self)
        requires
            old(self)@.wf(),
        ensures
            final(self)@ == (TuiView { deleting: None, mode: InputMode::Normal, ..old(self)@ }),
            final(self)@.wf(),
    {
        self.pending_delete_host = None;
        self.input_mode = InputMode::Normal;
    }

    /// The entry that is to be deleted.
    pub fn delete_target(&self) -> (r: Option<&ManagedEntry>)
        ensures
            match self@.deleting {
                None => r is None,
                Some(h) => {
                    let n = until_host(self@.entries, h);
                    match r {
                        Some(e) => n < self@.entries.len() && e@ == self@.entries[n as int],
                        None => n >= self@.entries.len(),
                    }
                },
            },
    {
        match &self.pending_delete_host {
            None => None,
            Some(h) => find_entry_by_host(&self.entries, h),
        }
    }

    /// Ends a deletion after `done` came of it, with the files as `read`.
    pub fn confirm_delete(
        &mut self,
        done: Result<Option<String>, ConfigError>,
        read: Result<LoadedSnapshot, ConfigError>,
    ) -> (r: Result<(), ConfigError>)
        requires
            old(self)@.wf(),
            read matches Ok(l) ==> l@.wf(),
        ensures
            (final(self)@, refusal(r)) == delete_done(
                old(self)@,
                match done {
                    Ok(b) => Ok(opt(b)),
                    Err(e) => Err(e@),
                },
                loaded(read),
            ),
            final(self)@.wf(),
    {
        let host: String = match self.pending_delete_host.take() {
            Some(h) => h,
            None => {
                self.input_mode = InputMode::Normal;
                return Ok(());
            },
        };
        if find_entry_by_host(&self.entries, &host).is_none() {
            return Err(ConfigError::new(concat3("managed entry `", &host, "` not found")));
        }
        match done {
            Err(e) => Err(e),
            Ok(backup) => {
                self.input_mode = InputMode::Normal;
                match read {
                    Err(e) => Err(e),
                    Ok(l) => {
                        self.reload_preserving(&None, l);
                        let message: String = add_backup(
                            concat3("Deleted `", &host, "`"),
                            " | backup ",
                            &backup,
                        );
                        self.set_status(&message);
                        Ok(())
                    },
                }
            },
        }
    }

    // -----------------------------------------------------------------------
    // Restoring
    // -----------------------------------------------------------------------

    /// Ends a restoration after `done` came of it, with the files as `read`.
    pub fn confirm_restore(
        &mut self,
        done: Result<(RestoreBackupOutcome, AppState), ConfigError>,
        read: Result<LoadedSnapshot, ConfigError>,
    ) -> (r: Result<(), ConfigError>)
        requires
            old(self)@.wf(),
            read matches Ok(l) ==> l@.wf(),
        ensures
            (final(self)@, refusal(r)) == restore_done(old(self)@, restored(done), loaded(read)),
            final(self)@.wf(),
    {
        let host: Option<String> = self.selected_host();
        if self.pending_restore_snapshot.is_none() {
            self.input_mode = InputMode::BackupCatalog;
            return Ok(());
        }
        self.pending_restore_snapshot = None;
        match done {
            Err(e) => Err(e),
            Ok((outcome, records)) => {
                self.metadata_state = records;
                self.input_mode = InputMode::Normal;
                match read {
                    Err(e) => Err(e),
                    Ok(l) => {
                        self.reload_preserving(&host, l);
                        let message: String = add_backup(
                            concat3(
                                "Restored backup `",
                                &outcome.restored_snapshot.label,
                                "`",
                            ),
                            " | current state saved to ",
                            &outcome.pre_restore_backup_path,
                        );
                        self.set_status(&message);
                        Ok(())
                    },
                }
            },
        }
    }

    // -----------------------------------------------------------------------
    // Moving
    // -----------------------------------------------------------------------

    pub fn start_reorder(&mut self)
        requires
            old(self)@.wf(),
        ensures
            final(self)@ == old(self)@.reorder_started(),
            final(self)@.wf(),
    {
        if self.has_active_filters() {
            self.set_status("Clear active filters before reordering");
            return;
        }
        match self.selected_host() {
            None => self.set_status("No selected entry to reorder"),
            Some(host) => {
                self.reorder_session = Some(
                    ReorderSession {
                        original_entries: copy_slice(&self.entries),
                        original_raw_contents: copy_strs(&self.raw_contents),
                        moved_host: host,
                    },
                );
                self.input_mode = InputMode::Reorder;
            },
        }
    }

    pub fn cancel_reorder(&mut self)
        requires
            old(self)@.wf(),
        ensures
            final(self)@ == old(self)@.reorder_cancelled(),
            final(self)@.wf(),
    {
        match self.reorder_session.take() {
            None => {
                self.input_mode = InputMode::Normal;
            },
            Some(session) => {
                self.entries = session.original_entries;
                self.raw_contents = session.original_raw_contents;
                self.input_mode = InputMode::Normal;
                self.refresh_filter_preserving(Some(session.moved_host.as_str()));
                self.set_status("Cancelled reorder changes");
            },
        }
    }

    /// Ends a move after `done` came of writing the entries, with the files as `read`.
    pub fn save_reorder(
        &mut self,
        done: Result<(String, u16, Vec<String>), ConfigError>,
        read: Result<LoadedSnapshot, ConfigError>,
    ) -> (r: Result<(), ConfigError>)
        requires
            old(self)@.wf(),
            read matches Ok(l) ==> l@.wf(),
        ensures
            (final(self)@, refusal(r)) == reorder_done(old(self)@, reordered(done), loaded(read)),
            final(self)@.wf(),
    {
        let dirty: bool = self.reorder_dirty();
        let host: String = match self.reorder_session.take() {
            None => {
                self.input_mode = InputMode::Normal;
                return Ok(());
            },
            Some(session) => session.moved_host,
        };
        if !dirty {
            self.input_mode = InputMode::Normal;
            self.set_status("No order changes to save");
            return Ok(());
        }
        match done {
            Err(e) => Err(e),
            Ok((moved_host, order, backups)) => {
                self.input_mode = InputMode::Normal;
                match read {
                    Err(e) => Err(e),
                    Ok(l) => {
                        self.reload_preserving(&Some(host), l);
                        let message: String = add_backup(
                            concat4(
                                "Moved `",
                                &moved_host,
                                "` -> order ",
                                &decimal_text(order as usize),
                            ),
                            " | backup ",
                            &first_text(&backups),
                        );
                        self.set_status(&message);
                        Ok(())
                    },
                }
            },
        }
    }

    pub fn reorder_up(&mut self)
        requires
            old(self)@.wf(),
        ensures
            final(self)@ == old(self)@.shifted(true),
            final(self)@.wf(),
    {
        self.shift_selected_entry(true);
    }

    pub fn reorder_down(&mut self)
        requires
            old(self)@.wf(),
        ensures
            final(self)@ == old(self)@.shifted(false),
            final(self)@.wf(),
    {
        self.shift_selected_entry(false);
    }

    #[verifier::spinoff_prover]
    #[verifier::rlimit(40)]
    fn shift_selected_entry(&mut self, up: bool)
        requires
            old(self)@.wf(),
        ensures
            final(self)@ == old(self)@.shifted(up),
            final(self)@.wf(),
    {
        if self.input_mode != InputMode::Reorder {
            return;
        }
        let from: usize = match self.selected_entry_index() {
            Some(i) => i,
            None => {
                return;
            },
        };
        let host: String = match &self.reorder_session {
            Some(s) => s.moved_host.clone(),
            None => {
                return;
            },
        };
        assert(views(self.entries@).len() == self.entries@.len());
        assert(strs(self.raw_contents@).len() == self.raw_contents@.len());
        match offset_index(from, up, self.entries.len()) {
            None => self.set_status("Cannot move beyond the list boundary"),
            Some(to) => {
                let ghost was = self@;
                let ghost es = self.entries@;
                let ghost raw = self.raw_contents@;
                move_item(&mut self.entries, from, to);
                move_item(&mut self.raw_contents, from, to);
                assert(strs(self.raw_contents@) =~= moved(was.raw, from as int, to as int));
                assert(views(self.entries@) =~= moved(was.entries, from as int, to as int));
                renumber(&mut self.entries);
                self.refresh_filter_preserving(Some(host.as_str()));
            },
        }
    }
}

/// Gives the entries the orders that they would get.
fn renumber(entries: &mut Vec<ManagedEntry>)
    ensures
        views(final(entries)@) == renumbered(views(old(entries)@)),
{
    let ghost es = views(entries@);
    let n: usize = entries.len();
    let mut i: usize = 0;
    while i < n
        invariant
            i <= n,
            n == entries@.len(),
            n == es.len(),
            forall|k: int|
                0 <= k < i ==> #[trigger] entries@[k]@ == (ManagedView {
                    order: preview_order(k),
                    ..es[k]
                }),
            forall|k: int| i <= k < n ==> #[trigger] entries@[k]@ == es[k],
        decreases n - i,
    {
        let place: usize = i % 65536 + 1;
        let order: u16 = ((place * 10) % 65536) as u16;
        assert(order == preview_order(i as int)) by (nonlinear_arith)
            requires
                place == i % 65536 + 1,
                order as int == (place * 10) % 65536,
                preview_order(i as int) == ((10 * (i + 1)) % 65536) as u16,
        {
        }
        let old_entry: &ManagedEntry = &entries[i];
        let e = ManagedEntry {
            order,
            slug: old_entry.slug.clone(),
            path: old_entry.path.clone(),
            raw_content: old_entry.raw_content.clone(),
            entry: old_entry.entry.clone(),
        };
        assert(entries@[i as int]@ == es[i as int]);
        assert(e@ == ManagedView { order: preview_order(i as int), ..es[i as int] });
        entries.set(i, e);
        i += 1;
    }
    assert(views(entries@) =~= renumbered(es));
}

} // verus!
