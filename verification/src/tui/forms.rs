//! The modes of the terminal interface and its forms.

#![verifier::loop_isolation(false)]

use vstd::prelude::*;

use crate::commands::cli::{AddArgs, EditArgs};
use crate::commands::prompt::{items_of, split_multi_value};
use crate::commands::selection::opt_record;
use crate::config::model::{HostEntry, HostView, ManagedEntry, ManagedView};
use crate::config::state::{EntryMetadata, MetadataView};
use crate::config::template::{TemplateKind, kind_named, parse_cli_name};
use crate::error::ConfigError;
use crate::strings::{
    chars_of, concat3, decimal_text, equal_ignoring_case, joined, number_fault_text, parse_u16,
    same, string_of, trimmed,
};
use crate::text::{
    decimal, join, number_fault, opt, opt_str, parse_unsigned, same_ignoring_case, strs, trim,
};

verus! {

broadcast use crate::text::group_text;

/// What the keys do at the moment.
#[derive(Debug, Clone, Copy, PartialEq, Eq, Structural)]
pub enum InputMode {
    Normal,
    Search,
    Filter,
    Inspect,
    BackupCatalog,
    ConfirmDelete,
    ConfirmRestore,
    Edit,
    Reorder,
}

impl InputMode {
    pub open spec fn spec_label(self) -> Seq<char> {
        match self {
            InputMode::Normal => "normal"@,
            InputMode::Search => "search"@,
            InputMode::Filter => "filter"@,
            InputMode::Inspect => "inspect"@,
            InputMode::BackupCatalog => "backups"@,
            InputMode::ConfirmDelete => "confirm-delete"@,
            InputMode::ConfirmRestore => "confirm-restore"@,
            InputMode::Edit => "edit"@,
            InputMode::Reorder => "reorder"@,
        }
    }

    pub fn label(self) -> (r: &'static str)
        ensures
            r@ == self.spec_label(),
    {
        match self {
            InputMode::Normal => "normal",
            InputMode::Search => "search",
            InputMode::Filter => "filter",
            InputMode::Inspect => "inspect",
            InputMode::BackupCatalog => "backups",
            InputMode::ConfirmDelete => "confirm-delete",
            InputMode::ConfirmRestore => "confirm-restore",
            InputMode::Edit => "edit",
            InputMode::Reorder => "reorder",
        }
    }
}

/// What is shown of the selected entry.
#[derive(Debug, Clone, Copy, PartialEq, Eq, Structural)]
pub enum DetailMode {
    Raw,
    Merged,
}

impl DetailMode {
    pub open spec fn other(self) -> DetailMode {
        match self {
            DetailMode::Raw => DetailMode::Merged,
            DetailMode::Merged => DetailMode::Raw,
        }
    }

    pub fn toggle(&mut self)
        ensures
            *final(self) == old(self).other(),
    {
        *self = match *self {
            DetailMode::Raw => DetailMode::Merged,
            DetailMode::Merged => DetailMode::Raw,
        };
    }
}

impl DetailMode {
    pub open spec fn spec_title(self) -> Seq<char> {
        match self {
            DetailMode::Raw => "Raw File"@,
            DetailMode::Merged => "Merged Preview"@,
        }
    }

    pub fn title(self) -> (r: &'static str)
        ensures
            r@ == self.spec_title(),
    {
        match self {
            DetailMode::Raw => "Raw File",
            DetailMode::Merged => "Merged Preview",
        }
    }
}

impl DetailMode {
    pub open spec fn spec_short_label(self) -> Seq<char> {
        match self {
            DetailMode::Raw => "raw"@,
            DetailMode::Merged => "merged"@,
        }
    }

    pub fn short_label(self) -> (r: &'static str)
        ensures
            r@ == self.spec_short_label(),
    {
        match self {
            DetailMode::Raw => "raw",
            DetailMode::Merged => "merged",
        }
    }
}

/// Which half of the screen the keys move in.
#[derive(Debug, Clone, Copy, PartialEq, Eq, Structural)]
pub enum PaneFocus {
    HostList,
    Detail,
}

impl PaneFocus {
    pub open spec fn spec_label(self) -> Seq<char> {
        match self {
            PaneFocus::HostList => "hosts"@,
            PaneFocus::Detail => "detail"@,
        }
    }

    pub fn label(self) -> (r: &'static str)
        ensures
            r@ == self.spec_label(),
    {
        match self {
            PaneFocus::HostList => "hosts",
            PaneFocus::Detail => "detail",
        }
    }
}

impl PaneFocus {
    pub open spec fn other(self) -> PaneFocus {
        match self {
            PaneFocus::HostList => PaneFocus::Detail,
            PaneFocus::Detail => PaneFocus::HostList,
        }
    }

    pub fn toggle(&mut self)
        ensures
            *final(self) == old(self).other(),
    {
        *self = match *self {
            PaneFocus::HostList => PaneFocus::Detail,
            PaneFocus::Detail => PaneFocus::HostList,
        };
    }
}

/// Toggling twice changes nothing.
pub proof fn law_toggle_twice(d: DetailMode, p: PaneFocus)
    ensures
        d.other().other() == d,
        p.other().other() == p,
        d.other() != d,
        p.other() != p,
{
}

/// What becomes of a form.
#[derive(Debug, Clone, Copy, PartialEq, Eq, Structural)]
pub enum FormMode {
    Create,
    Edit,
}

impl FormMode {
    pub open spec fn spec_title(self) -> Seq<char> {
        match self {
            FormMode::Create => "Create Entry"@,
            FormMode::Edit => "Edit Entry"@,
        }
    }

    pub fn title(self) -> (r: &'static str)
        ensures
            r@ == self.spec_title(),
    {
        match self {
            FormMode::Create => "Create Entry",
            FormMode::Edit => "Edit Entry",
        }
    }
}

impl FormMode {
    pub open spec fn spec_verb(self) -> Seq<char> {
        match self {
            FormMode::Create => "Created"@,
            FormMode::Edit => "Saved"@,
        }
    }

    pub fn verb(self) -> (r: &'static str)
        ensures
            r@ == self.spec_verb(),
    {
        match self {
            FormMode::Create => "Created",
            FormMode::Edit => "Saved",
        }
    }
}

/// The fields of the form for an entry.
#[derive(Debug, Clone, Copy, PartialEq, Eq, Structural)]
pub enum FormField {
    Host,
    HostName,
    User,
    Port,
    ProxyJump,
    IdentityFiles,
    LocalForwards,
    RemoteForwards,
    StrictHostKeyChecking,
    UserKnownHostsFile,
    HostKeyAlgorithms,
    PubkeyAcceptedAlgorithms,
    ForwardAgent,
    SshTag,
    Tags,
    Note,
    Template,
}

impl FormField {
    /// The place of the field in the form.
    pub open spec fn place(self) -> int {
        match self {
            FormField::Host => 0,
            FormField::HostName => 1,
            FormField::User => 2,
            FormField::Port => 3,
            FormField::ProxyJump => 4,
            FormField::IdentityFiles => 5,
            FormField::LocalForwards => 6,
            FormField::RemoteForwards => 7,
            FormField::StrictHostKeyChecking => 8,
            FormField::UserKnownHostsFile => 9,
            FormField::HostKeyAlgorithms => 10,
            FormField::PubkeyAcceptedAlgorithms => 11,
            FormField::ForwardAgent => 12,
            FormField::SshTag => 13,
            FormField::Tags => 14,
            FormField::Note => 15,
            FormField::Template => 16,
        }
    }

    /// The field behind, and the first one behind the last.
    pub open spec fn following(self) -> FormField {
        form_fields()[(self.place() + 1) % 17]
    }

    /// The field before, and the last one before the first.
    pub open spec fn preceding(self) -> FormField {
        form_fields()[(self.place() + 16) % 17]
    }

    pub fn next(self) -> (r: FormField)
        ensures
            r == self.following(),
    {
        match self {
            FormField::Host => FormField::HostName,
            FormField::HostName => FormField::User,
            FormField::User => FormField::Port,
            FormField::Port => FormField::ProxyJump,
            FormField::ProxyJump => FormField::IdentityFiles,
            FormField::IdentityFiles => FormField::LocalForwards,
            FormField::LocalForwards => FormField::RemoteForwards,
            FormField::RemoteForwards => FormField::StrictHostKeyChecking,
            FormField::StrictHostKeyChecking => FormField::UserKnownHostsFile,
            FormField::UserKnownHostsFile => FormField::HostKeyAlgorithms,
            FormField::HostKeyAlgorithms => FormField::PubkeyAcceptedAlgorithms,
            FormField::PubkeyAcceptedAlgorithms => FormField::ForwardAgent,
            FormField::ForwardAgent => FormField::SshTag,
            FormField::SshTag => FormField::Tags,
            FormField::Tags => FormField::Note,
            FormField::Note => FormField::Template,
            FormField::Template => FormField::Host,
        }
    }

    pub fn previous(self) -> (r: FormField)
        ensures
            r == self.preceding(),
    {
        match self {
            FormField::Host => FormField::Template,
            FormField::HostName => FormField::Host,
            FormField::User => FormField::HostName,
            FormField::Port => FormField::User,
            FormField::ProxyJump => FormField::Port,
            FormField::IdentityFiles => FormField::ProxyJump,
            FormField::LocalForwards => FormField::IdentityFiles,
            FormField::RemoteForwards => FormField::LocalForwards,
            FormField::StrictHostKeyChecking => FormField::RemoteForwards,
            FormField::UserKnownHostsFile => FormField::StrictHostKeyChecking,
            FormField::HostKeyAlgorithms => FormField::UserKnownHostsFile,
            FormField::PubkeyAcceptedAlgorithms => FormField::HostKeyAlgorithms,
            FormField::ForwardAgent => FormField::PubkeyAcceptedAlgorithms,
            FormField::SshTag => FormField::ForwardAgent,
            FormField::Tags => FormField::SshTag,
            FormField::Note => FormField::Tags,
            FormField::Template => FormField::Note,
        }
    }
}

/// The fields in their order.
pub open spec fn form_fields() -> Seq<FormField> {
    seq![
        FormField::Host,
        FormField::HostName,
        FormField::User,
        FormField::Port,
        FormField::ProxyJump,
        FormField::IdentityFiles,
        FormField::LocalForwards,
        FormField::RemoteForwards,
        FormField::StrictHostKeyChecking,
        FormField::UserKnownHostsFile,
        FormField::HostKeyAlgorithms,
        FormField::PubkeyAcceptedAlgorithms,
        FormField::ForwardAgent,
        FormField::SshTag,
        FormField::Tags,
        FormField::Note,
        FormField::Template,
    ]
}

impl FormField {
    pub open spec fn spec_label(self) -> Seq<char> {
        match self {
            FormField::Host => "Host"@,
            FormField::HostName => "HostName"@,
            FormField::User => "User"@,
            FormField::Port => "Port"@,
            FormField::ProxyJump => "ProxyJump"@,
            FormField::IdentityFiles => "IdentityFile(s)"@,
            FormField::LocalForwards => "LocalForward(s)"@,
            FormField::RemoteForwards => "RemoteForward(s)"@,
            FormField::StrictHostKeyChecking => "StrictHostKeyChecking"@,
            FormField::UserKnownHostsFile => "UserKnownHostsFile"@,
            FormField::HostKeyAlgorithms => "HostKeyAlgorithms"@,
            FormField::PubkeyAcceptedAlgorithms => "PubkeyAcceptedAlgorithms"@,
            FormField::ForwardAgent => "ForwardAgent"@,
            FormField::SshTag => "SSH Tag"@,
            FormField::Tags => "Tags"@,
            FormField::Note => "Note"@,
            FormField::Template => "Template"@,
        }
    }

    pub fn label(self) -> (r: &'static str)
        ensures
            r@ == self.spec_label(),
    {
        match self {
            FormField::Host => "Host",
            FormField::HostName => "HostName",
            FormField::User => "User",
            FormField::Port => "Port",
            FormField::ProxyJump => "ProxyJump",
            FormField::IdentityFiles => "IdentityFile(s)",
            FormField::LocalForwards => "LocalForward(s)",
            FormField::RemoteForwards => "RemoteForward(s)",
            FormField::StrictHostKeyChecking => "StrictHostKeyChecking",
            FormField::UserKnownHostsFile => "UserKnownHostsFile",
            FormField::HostKeyAlgorithms => "HostKeyAlgorithms",
            FormField::PubkeyAcceptedAlgorithms => "PubkeyAcceptedAlgorithms",
            FormField::ForwardAgent => "ForwardAgent",
            FormField::SshTag => "SSH Tag",
            FormField::Tags => "Tags",
            FormField::Note => "Note",
            FormField::Template => "Template",
        }
    }
}

/// The fields of the form for the filters.
#[derive(Debug, Clone, Copy, PartialEq, Eq, Structural)]
pub enum FilterField {
    Query,
    Tags,
    HasNote,
    Template,
}

impl FilterField {
    /// The place of the field in the form.
    pub open spec fn place(self) -> int {
        match self {
            FilterField::Query => 0,
            FilterField::Tags => 1,
            FilterField::HasNote => 2,
            FilterField::Template => 3,
        }
    }

    /// The field behind, and the first one behind the last.
    pub open spec fn following(self) -> FilterField {
        filter_fields()[(self.place() + 1) % 4]
    }

    /// The field before, and the last one before the first.
    pub open spec fn preceding(self) -> FilterField {
        filter_fields()[(self.place() + 3) % 4]
    }

    pub fn next(self) -> (r: FilterField)
        ensures
            r == self.following(),
    {
        match self {
            FilterField::Query => FilterField::Tags,
            FilterField::Tags => FilterField::HasNote,
            FilterField::HasNote => FilterField::Template,
            FilterField::Template => FilterField::Query,
        }
    }

    pub fn previous(self) -> (r: FilterField)
        ensures
            r == self.preceding(),
    {
        match self {
            FilterField::Query => FilterField::Template,
            FilterField::Tags => FilterField::Query,
            FilterField::HasNote => FilterField::Tags,
            FilterField::Template => FilterField::HasNote,
        }
    }
}

/// The fields in their order.
pub open spec fn filter_fields() -> Seq<FilterField> {
    seq![
        FilterField::Query,
        FilterField::Tags,
        FilterField::HasNote,
        FilterField::Template,
    ]
}

impl FilterField {
    pub open spec fn spec_label(self) -> Seq<char> {
        match self {
            FilterField::Query => "Query"@,
            FilterField::Tags => "Tags"@,
            FilterField::HasNote => "HasNote"@,
            FilterField::Template => "Template"@,
        }
    }

    pub fn label(self) -> (r: &'static str)
        ensures
            r@ == self.spec_label(),
    {
        match self {
            FilterField::Query => "Query",
            FilterField::Tags => "Tags",
            FilterField::HasNote => "HasNote",
            FilterField::Template => "Template",
        }
    }
}

impl FilterField {
    pub fn all() -> (r: [FilterField; 4])
        ensures
            r@ == filter_fields(),
    {
        let r: [FilterField; 4] = [
            FilterField::Query,
            FilterField::Tags,
            FilterField::HasNote,
            FilterField::Template,
        ];
        assert(r@ =~= filter_fields());
        r
    }
}

/// Going on and going back undo each other, and either way all fields are passed.
pub proof fn law_fields_are_a_ring(f: FormField, g: FilterField)
    ensures
        f.following().preceding() == f,
        f.preceding().following() == f,
        g.following().preceding() == g,
        g.preceding().following() == g,
        f.following().place() == (f.place() + 1) % 17,
        g.following().place() == (g.place() + 1) % 4,
{
}

// ---------------------------------------------------------------------------
// Values
// ---------------------------------------------------------------------------

/// A text without its last character.
pub open spec fn shortened(s: Seq<char>) -> Seq<char> {
    if s.len() == 0 {
        s
    } else {
        s.drop_last()
    }
}

pub fn without_last_char(s: &str) -> (r: String)
    ensures
        r@ == shortened(s@),
{
    let v: Vec<char> = chars_of(s);
    if v.len() == 0 {
        s.to_string()
    } else {
        let r: String = string_of(&v, 0, v.len() - 1);
        assert(r@ =~= s@.drop_last());
        r
    }
}

pub fn with_char(s: &str, ch: char) -> (r: String)
    ensures
        r@ == s@.push(ch),
{
    let mut r: String = s.to_string();
    r.push(ch);
    r
}

/// A value without white space round it, `None` where nothing is left.
pub open spec fn value_if_any(value: Seq<char>) -> Option<Seq<char>> {
    if trim(value).len() == 0 {
        None
    } else {
        Some(trim(value))
    }
}

pub fn trim_to_option(value: &str) -> (r: Option<String>)
    ensures
        opt(r) == value_if_any(value@),
{
    let t: String = trimmed(value);
    if t.as_str().is_empty() {
        None
    } else {
        Some(t)
    }
}

pub open spec fn shown_or(value: Seq<char>, empty: Seq<char>) -> Seq<char> {
    match value_if_any(value) {
        Some(v) => v,
        None => empty,
    }
}

pub fn display_filter_value(value: &str, empty: &str) -> (r: String)
    ensures
        r@ == shown_or(value@, empty@),
{
    match trim_to_option(value) {
        Some(v) => v,
        None => empty.to_string(),
    }
}

/// A port, none where the text is blank.
pub open spec fn port_of(value: Seq<char>) -> Result<Option<u16>, Seq<char>> {
    let t = trim(value);
    if t.len() == 0 {
        Ok(None)
    } else {
        match parse_unsigned(t, 65535) {
            Some(n) => Ok(Some(n as u16)),
            None => Err("invalid Port `"@ + t + "`"@ + ": "@ + number_fault(t, 65535)),
        }
    }
}

pub fn parse_port(value: &str) -> (r: Result<Option<u16>, ConfigError>)
    ensures
        port_of(value@) == (match r {
            Ok(p) => Ok(p),
            Err(e) => Err(e@),
        }),
{
    let t: String = trimmed(value);
    if t.as_str().is_empty() {
        return Ok(None);
    }
    match parse_u16(&t) {
        Some(n) => Ok(Some(n)),
        None => Err(
            ConfigError::caused(
                concat3("invalid Port `", &t, "`"),
                number_fault_text(&t, 65535),
            ),
        ),
    }
}

/// A template, none where the text is blank or says so.
pub open spec fn template_of(value: Seq<char>) -> Result<Option<TemplateKind>, Seq<char>> {
    let t = trim(value);
    if t.len() == 0 || same_ignoring_case(t, "none"@) {
        Ok(None)
    } else {
        match kind_named(t) {
            Some(k) => Ok(Some(k)),
            None => Err("unknown Template `"@ + t + "`"@),
        }
    }
}

pub fn parse_template(value: &str) -> (r: Result<Option<TemplateKind>, ConfigError>)
    ensures
        template_of(value@) == (match r {
            Ok(p) => Ok(p),
            Err(e) => Err(e@),
        }),
{
    let t: String = trimmed(value);
    if t.as_str().is_empty() || equal_ignoring_case(&t, "none") {
        return Ok(None);
    }
    match parse_cli_name(&t) {
        Some(k) => Ok(Some(k)),
        None => Err(ConfigError::new(concat3("unknown Template `", &t, "`"))),
    }
}

/// What can be chosen as a template: none, or one by its name.
pub open spec fn template_choices() -> Seq<Seq<char>> {
    seq![Seq::<char>::empty(), "embedded"@, "legacy"@, "vps"@, "jump"@, "forward"@]
}

/// The place of a choice, whatever the case of its letters; an unknown one counts as none.
pub open spec fn choice_place(value: Seq<char>) -> int {
    let t = trim(value);
    if same_ignoring_case(t, "embedded"@) {
        1
    } else if same_ignoring_case(t, "legacy"@) {
        2
    } else if same_ignoring_case(t, "vps"@) {
        3
    } else if same_ignoring_case(t, "jump"@) {
        4
    } else if same_ignoring_case(t, "forward"@) {
        5
    } else {
        0
    }
}

/// The next choice, or the one before, round and round.
pub open spec fn next_choice(value: Seq<char>, forward: bool) -> Seq<char> {
    template_choices()[(choice_place(value) + (if forward {
        1int
    } else {
        5
    })) % 6]
}

fn find_choice(value: &str) -> (r: usize)
    ensures
        r == choice_place(value@),
        r < 6,
{
    let t: String = trimmed(value);
    if equal_ignoring_case(&t, "embedded") {
        1
    } else if equal_ignoring_case(&t, "legacy") {
        2
    } else if equal_ignoring_case(&t, "vps") {
        3
    } else if equal_ignoring_case(&t, "jump") {
        4
    } else if equal_ignoring_case(&t, "forward") {
        5
    } else {
        0
    }
}

pub fn next_template_name(current: &str, forward: bool) -> (r: String)
    ensures
        r@ == next_choice(current@, forward),
{
    let at: usize = find_choice(current);
    let next: usize = if forward {
        (at + 1) % 6
    } else {
        (at + 5) % 6
    };
    match next {
        0 => String::new(),
        1 => TemplateKind::Embedded.cli_name().to_string(),
        2 => TemplateKind::Legacy.cli_name().to_string(),
        3 => TemplateKind::Vps.cli_name().to_string(),
        4 => TemplateKind::Jump.cli_name().to_string(),
        _ => TemplateKind::Forward.cli_name().to_string(),
    }
}

// ---------------------------------------------------------------------------
// Filters
// ---------------------------------------------------------------------------

/// The filters while they are changed.
#[derive(Debug, PartialEq, Eq)]
pub struct FilterForm {
    pub query: String,
    pub tags: String,
    pub has_note: bool,
    pub template: String,
    pub active_field: FilterField,
}

/// What a [`FilterForm`] holds.
#[verifier::ext_equal]
pub struct FilterFormView {
    pub query: Seq<char>,
    pub tags: Seq<char>,
    pub has_note: bool,
    pub template: Seq<char>,
    pub active_field: FilterField,
}

impl View for FilterForm {
    type V = FilterFormView;

    open spec fn view(&self) -> FilterFormView {
        FilterFormView {
            query: self.query@,
            tags: self.tags@,
            has_note: self.has_note,
            template: self.template@,
            active_field: self.active_field,
        }
    }
}

impl FilterFormView {
    /// The text of the active field; a switch has none.
    pub open spec fn active_text(self) -> Option<Seq<char>> {
        match self.active_field {
            FilterField::Query => Some(self.query),
            FilterField::Tags => Some(self.tags),
            FilterField::HasNote => None,
            FilterField::Template => Some(self.template),
        }
    }

    /// With another text in the active field, where it has one.
    pub open spec fn with_active(self, text: Seq<char>) -> FilterFormView {
        match self.active_field {
            FilterField::Query => FilterFormView { query: text, ..self },
            FilterField::Tags => FilterFormView { tags: text, ..self },
            FilterField::HasNote => self,
            FilterField::Template => FilterFormView { template: text, ..self },
        }
    }

    pub open spec fn pushed(self, ch: char) -> FilterFormView {
        match self.active_text() {
            Some(t) => self.with_active(t.push(ch)),
            None => self,
        }
    }

    pub open spec fn popped(self) -> FilterFormView {
        match self.active_text() {
            Some(t) => self.with_active(shortened(t)),
            None => self,
        }
    }

    pub open spec fn cleared(self) -> FilterFormView {
        if self.active_field == FilterField::HasNote {
            FilterFormView { has_note: false, ..self }
        } else {
            self.with_active(Seq::empty())
        }
    }

    pub open spec fn note_toggled(self) -> FilterFormView {
        if self.active_field == FilterField::HasNote {
            FilterFormView { has_note: !self.has_note, ..self }
        } else {
            self
        }
    }

    pub open spec fn template_cycled(self, forward: bool) -> FilterFormView {
        if self.active_field == FilterField::Template {
            FilterFormView { template: next_choice(self.template, forward), ..self }
        } else {
            self
        }
    }

    /// What the space bar does.
    pub open spec fn spaced(self) -> FilterFormView {
        match self.active_field {
            FilterField::HasNote => self.note_toggled(),
            FilterField::Template => self.template_cycled(true),
            _ => self.pushed(' '),
        }
    }

    pub open spec fn display(self, field: FilterField) -> Seq<char> {
        match field {
            FilterField::Query => shown_or(self.query, "<any>"@),
            FilterField::Tags => shown_or(self.tags, "<any>"@),
            FilterField::HasNote => if self.has_note {
                "yes"@
            } else {
                "no"@
            },
            FilterField::Template => shown_or(self.template, "<any>"@),
        }
    }
}

/// A character that was typed is taken back.
pub proof fn law_filter_backspace(f: FilterFormView, ch: char)
    ensures
        f.pushed(ch).popped() == f,
{
    match f.active_text() {
        Some(t) => {
            assert(t.push(ch).drop_last() =~= t);
        },
        None => {},
    }
}

impl FilterForm {
    pub fn new(query: &str, tags: &str, has_note: bool, template: &str) -> (r: FilterForm)
        ensures
            r@ == (FilterFormView {
                query: query@,
                tags: tags@,
                has_note,
                template: template@,
                active_field: FilterField::Query,
            }),
    {
        FilterForm {
            query: query.to_string(),
            tags: tags.to_string(),
            has_note,
            template: template.to_string(),
            active_field: FilterField::Query,
        }
    }

    pub fn active_field(&self) -> (r: FilterField)
        ensures
            r == self@.active_field,
    {
        self.active_field
    }

    pub fn next_field(&mut self)
        ensures
            final(self)@ == (FilterFormView {
                active_field: old(self)@.active_field.following(),
                ..old(self)@
            }),
    {
        self.active_field = self.active_field.next();
    }

    pub fn previous_field(&mut self)
        ensures
            final(self)@ == (FilterFormView {
                active_field: old(self)@.active_field.preceding(),
                ..old(self)@
            }),
    {
        self.active_field = self.active_field.previous();
    }

    pub fn display_value(&self, field: FilterField) -> (r: String)
        ensures
            r@ == self@.display(field),
    {
        match field {
            FilterField::Query => display_filter_value(&self.query, "<any>"),
            FilterField::Tags => display_filter_value(&self.tags, "<any>"),
            FilterField::HasNote => {
                if self.has_note {
                    "yes".to_string()
                } else {
                    "no".to_string()
                }
            },
            FilterField::Template => display_filter_value(&self.template, "<any>"),
        }
    }

    fn active_value(&self) -> (r: Option<&str>)
        ensures
            opt_str(r) == self@.active_text(),
    {
        match self.active_field {
            FilterField::Query => Some(self.query.as_str()),
            FilterField::Tags => Some(self.tags.as_str()),
            FilterField::HasNote => None,
            FilterField::Template => Some(self.template.as_str()),
        }
    }

    fn set_active_value(&mut self, value: String)
        ensures
            final(self)@ == old(self)@.with_active(value@),
    {
        match self.active_field {
            FilterField::Query => {
                self.query = value;
            },
            FilterField::Tags => {
                self.tags = value;
            },
            FilterField::HasNote => {},
            FilterField::Template => {
                self.template = value;
            },
        }
    }

    pub fn push_char(&mut self, ch: char)
        ensures
            final(self)@ == old(self)@.pushed(ch),
    {
        let value: Option<String> = match self.active_value() {
            Some(v) => Some(with_char(v, ch)),
            None => None,
        };
        match value {
            Some(v) => {
                self.set_active_value(v);
            },
            None => {},
        }
    }

    pub fn backspace(&mut self)
        ensures
            final(self)@ == old(self)@.popped(),
    {
        let value: Option<String> = match self.active_value() {
            Some(v) => Some(without_last_char(v)),
            None => None,
        };
        match value {
            Some(v) => {
                self.set_active_value(v);
            },
            None => {},
        }
    }

    pub fn clear_active_field(&mut self)
        ensures
            final(self)@ == old(self)@.cleared(),
    {
        match self.active_field {
            FilterField::HasNote => {
                self.has_note = false;
            },
            _ => {
                self.set_active_value(String::new());
            },
        }
    }

    pub fn toggle_has_note(&mut self)
        ensures
            final(self)@ == old(self)@.note_toggled(),
    {
        if self.active_field == FilterField::HasNote {
            self.has_note = !self.has_note;
        }
    }

    pub fn cycle_template_next(&mut self)
        ensures
            final(self)@ == old(self)@.template_cycled(true),
    {
        if self.active_field == FilterField::Template {
            self.template = next_template_name(&self.template, true);
        }
    }

    pub fn cycle_template_previous(&mut self)
        ensures
            final(self)@ == old(self)@.template_cycled(false),
    {
        if self.active_field == FilterField::Template {
            self.template = next_template_name(&self.template, false);
        }
    }

    /// What the space bar does in the active field.
    pub fn handle_space(&mut self)
        ensures
            final(self)@ == old(self)@.spaced(),
    {
        match self.active_field {
            FilterField::HasNote => self.toggle_has_note(),
            FilterField::Template => self.cycle_template_next(),
            _ => self.push_char(' '),
        }
    }

    pub fn into_parts(self) -> (r: (String, String, bool, String))
        ensures
            (r.0@, r.1@, r.2, r.3@) == (
                self@.query,
                self@.tags,
                self@.has_note,
                self@.template,
            ),
    {
        (self.query, self.tags, self.has_note, self.template)
    }
}

// ---------------------------------------------------------------------------
// Entries
// ---------------------------------------------------------------------------

/// An entry while it is written.
#[derive(Debug, PartialEq, Eq)]
pub struct EntryForm {
    pub mode: FormMode,
    pub original_host: Option<String>,
    pub original_host_label: String,
    pub host: String,
    pub hostname: String,
    pub user: String,
    pub port: String,
    pub proxy_jump: String,
    pub identity_files: String,
    pub local_forwards: String,
    pub remote_forwards: String,
    pub strict_host_key_checking: String,
    pub user_known_hosts_file: String,
    pub host_key_algorithms: String,
    pub pubkey_accepted_algorithms: String,
    pub forward_agent: String,
    pub ssh_tag: String,
    pub tags: String,
    pub note: String,
    pub template: String,
    pub active_field: FormField,
}

/// What an [`EntryForm`] holds: the texts of its fields, in their order.
#[verifier::ext_equal]
pub struct EntryFormView {
    pub mode: FormMode,
    pub original_host: Option<Seq<char>>,
    pub original_host_label: Seq<char>,
    pub texts: Seq<Seq<char>>,
    pub active_field: FormField,
}

impl View for EntryForm {
    type V = EntryFormView;

    open spec fn view(&self) -> EntryFormView {
        EntryFormView {
            mode: self.mode,
            original_host: opt(self.original_host),
            original_host_label: self.original_host_label@,
            texts: seq![
                self.host@,
                self.hostname@,
                self.user@,
                self.port@,
                self.proxy_jump@,
                self.identity_files@,
                self.local_forwards@,
                self.remote_forwards@,
                self.strict_host_key_checking@,
                self.user_known_hosts_file@,
                self.host_key_algorithms@,
                self.pubkey_accepted_algorithms@,
                self.forward_agent@,
                self.ssh_tag@,
                self.tags@,
                self.note@,
                self.template@,
            ],
            active_field: self.active_field,
        }
    }
}

impl EntryFormView {
    pub open spec fn wf(self) -> bool {
        self.texts.len() == 17
    }

    /// The text of a field.
    pub open spec fn text(self, field: FormField) -> Seq<char> {
        self.texts[field.place()]
    }

    pub open spec fn with_active(self, text: Seq<char>) -> EntryFormView {
        EntryFormView { texts: self.texts.update(self.active_field.place(), text), ..self }
    }

    pub open spec fn pushed(self, ch: char) -> EntryFormView {
        self.with_active(self.text(self.active_field).push(ch))
    }

    pub open spec fn popped(self) -> EntryFormView {
        self.with_active(shortened(self.text(self.active_field)))
    }

    pub open spec fn template_cycled(self, forward: bool) -> EntryFormView {
        EntryFormView {
            texts: self.texts.update(
                FormField::Template.place(),
                next_choice(self.text(FormField::Template), forward),
            ),
            ..self
        }
    }

    /// What the space bar does.
    pub open spec fn spaced(self) -> EntryFormView {
        if self.active_field == FormField::Template {
            self.template_cycled(true)
        } else {
            self.pushed(' ')
        }
    }

    /// What the arrows do: they choose among the templates.
    pub open spec fn arrowed(self, forward: bool) -> EntryFormView {
        if self.active_field == FormField::Template {
            self.template_cycled(forward)
        } else {
            self
        }
    }
}

/// A character that was typed is taken back.
pub proof fn law_entry_backspace(f: EntryFormView, ch: char)
    requires
        f.wf(),
    ensures
        f.pushed(ch).popped() == f,
{
    let t = f.text(f.active_field);
    assert(t.push(ch).drop_last() =~= t);
    assert(f.pushed(ch).popped().texts =~= f.texts);
}

pub open spec fn or_nothing(value: Option<Seq<char>>) -> Seq<char> {
    match value {
        Some(v) => v,
        None => Seq::empty(),
    }
}

pub open spec fn number_or_nothing(value: Option<u16>) -> Seq<char> {
    match value {
        Some(n) => decimal(n as nat),
        None => Seq::empty(),
    }
}

/// The form for a new entry.
pub open spec fn empty_form() -> EntryFormView {
    EntryFormView {
        mode: FormMode::Create,
        original_host: None,
        original_host_label: "<new>"@,
        texts: Seq::new(17, |i: int| Seq::empty()),
        active_field: FormField::Host,
    }
}

/// The texts that stand for an entry and its record.
pub open spec fn entry_texts(e: HostView, m: Option<MetadataView>) -> Seq<Seq<char>> {
    seq![
        e.primary(),
        or_nothing(e.hostname),
        or_nothing(e.user),
        number_or_nothing(e.port),
        or_nothing(e.proxy_jump),
        join(e.identity_files, "; "@),
        join(e.local_forwards, "; "@),
        join(e.remote_forwards, "; "@),
        or_nothing(e.strict_host_key_checking),
        or_nothing(e.user_known_hosts_file),
        or_nothing(e.host_key_algorithms),
        or_nothing(e.pubkey_accepted_algorithms),
        or_nothing(e.forward_agent),
        or_nothing(e.tag),
        match m {
            Some(r) => join(r.tags, ","@),
            None => Seq::empty(),
        },
        match m {
            Some(r) => or_nothing(r.note),
            None => Seq::empty(),
        },
        match m {
            Some(r) => or_nothing(r.template_source),
            None => Seq::empty(),
        },
    ]
}

/// The form for an entry that is changed.
pub open spec fn form_of(e: ManagedView, m: Option<MetadataView>) -> EntryFormView {
    EntryFormView {
        mode: FormMode::Edit,
        original_host: Some(e.entry.primary()),
        original_host_label: join(e.entry.host_patterns, ","@),
        texts: entry_texts(e.entry, m),
        active_field: FormField::Host,
    }
}

fn or_new(value: &Option<String>) -> (r: String)
    ensures
        r@ == or_nothing(opt(*value)),
{
    match value {
        Some(v) => v.clone(),
        None => String::new(),
    }
}

/// Why a form cannot be saved.
pub open spec fn form_refusal(f: EntryFormView) -> Option<Seq<char>> {
    if trim(f.text(FormField::Host)).len() == 0 {
        Some("Host cannot be empty"@)
    } else {
        match port_of(f.text(FormField::Port)) {
            Err(e) => Some(e),
            Ok(_) => match template_of(f.text(FormField::Template)) {
                Err(e) => Some(e),
                Ok(_) => None,
            },
        }
    }
}

/// The arguments with which the entry of a form is created.
pub open spec fn is_add_of(a: AddArgs, f: EntryFormView) -> bool {
    &&& a.host@ == trim(f.text(FormField::Host))
    &&& !a.interactive
    &&& a.order is None
    &&& a.extras@.len() == 0
    &&& port_of(f.text(FormField::Port)) == Ok::<Option<u16>, Seq<char>>(a.port)
    &&& template_of(f.text(FormField::Template)) == Ok::<Option<TemplateKind>, Seq<char>>(
        a.template,
    )
    &&& opt(a.hostname) == value_if_any(f.text(FormField::HostName))
    &&& opt(a.user) == value_if_any(f.text(FormField::User))
    &&& opt(a.proxy_jump) == value_if_any(f.text(FormField::ProxyJump))
    &&& strs(a.identity_files@) == items_of(f.text(FormField::IdentityFiles))
    &&& strs(a.local_forwards@) == items_of(f.text(FormField::LocalForwards))
    &&& strs(a.remote_forwards@) == items_of(f.text(FormField::RemoteForwards))
    &&& opt(a.strict_host_key_checking) == value_if_any(f.text(FormField::StrictHostKeyChecking))
    &&& opt(a.user_known_hosts_file) == value_if_any(f.text(FormField::UserKnownHostsFile))
    &&& opt(a.host_key_algorithms) == value_if_any(f.text(FormField::HostKeyAlgorithms))
    &&& opt(a.pubkey_accepted_algorithms) == value_if_any(f.text(FormField::PubkeyAcceptedAlgorithms))
    &&& opt(a.forward_agent) == value_if_any(f.text(FormField::ForwardAgent))
    &&& opt(a.ssh_tag) == value_if_any(f.text(FormField::SshTag))
    &&& strs(a.tags@) == items_of(f.text(FormField::Tags))
    &&& opt(a.note) == value_if_any(f.text(FormField::Note))
}

/// The arguments with which the entry of a form is changed: a field that is blank clears the
/// value.
pub open spec fn is_edit_of(a: EditArgs, f: EntryFormView) -> bool {
    &&& Some(a.host@) == f.original_host
    &&& !a.interactive
    &&& opt(a.new_host) == (if trim(f.text(FormField::Host)) == a.host@ {
        None
    } else {
        Some(trim(f.text(FormField::Host)))
    })
    &&& a.order is None
    &&& a.extras@.len() == 0
    &&& !a.clear_extras
    &&& port_of(f.text(FormField::Port)) == Ok::<Option<u16>, Seq<char>>(a.port)
    &&& a.clear_port == is_unset(f, FormField::Port)
    &&& template_of(f.text(FormField::Template)) == Ok::<Option<TemplateKind>, Seq<char>>(
        a.template,
    )
    &&& a.clear_template == is_unset(f, FormField::Template)
    &&& values_edited(a, f)
}

pub open spec fn is_unset(f: EntryFormView, field: FormField) -> bool {
    trim(f.text(field)).len() == 0
}

pub open spec fn values_edited(a: EditArgs, f: EntryFormView) -> bool {
    &&& opt(a.hostname) == value_if_any(f.text(FormField::HostName))
    &&& a.clear_hostname == is_unset(f, FormField::HostName)
    &&& opt(a.user) == value_if_any(f.text(FormField::User))
    &&& a.clear_user == is_unset(f, FormField::User)
    &&& opt(a.proxy_jump) == value_if_any(f.text(FormField::ProxyJump))
    &&& a.clear_proxy_jump == is_unset(f, FormField::ProxyJump)
    &&& strs(a.identity_files@) == items_of(f.text(FormField::IdentityFiles))
    &&& a.clear_identity_files == is_unset(f, FormField::IdentityFiles)
    &&& strs(a.local_forwards@) == items_of(f.text(FormField::LocalForwards))
    &&& a.clear_local_forwards == is_unset(f, FormField::LocalForwards)
    &&& strs(a.remote_forwards@) == items_of(f.text(FormField::RemoteForwards))
    &&& a.clear_remote_forwards == is_unset(f, FormField::RemoteForwards)
    &&& opt(a.strict_host_key_checking) == value_if_any(f.text(FormField::StrictHostKeyChecking))
    &&& a.clear_strict_host_key_checking == is_unset(f, FormField::StrictHostKeyChecking)
    &&& opt(a.user_known_hosts_file) == value_if_any(f.text(FormField::UserKnownHostsFile))
    &&& a.clear_user_known_hosts_file == is_unset(f, FormField::UserKnownHostsFile)
    &&& opt(a.host_key_algorithms) == value_if_any(f.text(FormField::HostKeyAlgorithms))
    &&& a.clear_host_key_algorithms == is_unset(f, FormField::HostKeyAlgorithms)
    &&& opt(a.pubkey_accepted_algorithms) == value_if_any(f.text(FormField::PubkeyAcceptedAlgorithms))
    &&& a.clear_pubkey_accepted_algorithms == is_unset(f, FormField::PubkeyAcceptedAlgorithms)
    &&& opt(a.forward_agent) == value_if_any(f.text(FormField::ForwardAgent))
    &&& a.clear_forward_agent == is_unset(f, FormField::ForwardAgent)
    &&& opt(a.ssh_tag) == value_if_any(f.text(FormField::SshTag))
    &&& a.clear_ssh_tag == is_unset(f, FormField::SshTag)
    &&& strs(a.tags@) == items_of(f.text(FormField::Tags))
    &&& a.clear_tags == is_unset(f, FormField::Tags)
    &&& opt(a.note) == value_if_any(f.text(FormField::Note))
    &&& a.clear_note == is_unset(f, FormField::Note)
}

impl EntryForm {
    pub fn new_create() -> (r: EntryForm)
        ensures
            r@ == empty_form(),
    {
        let r = EntryForm {
            mode: FormMode::Create,
            original_host: None,
            original_host_label: "<new>".to_string(),
            host: String::new(),
            hostname: String::new(),
            user: String::new(),
            port: String::new(),
            proxy_jump: String::new(),
            identity_files: String::new(),
            local_forwards: String::new(),
            remote_forwards: String::new(),
            strict_host_key_checking: String::new(),
            user_known_hosts_file: String::new(),
            host_key_algorithms: String::new(),
            pubkey_accepted_algorithms: String::new(),
            forward_agent: String::new(),
            ssh_tag: String::new(),
            tags: String::new(),
            note: String::new(),
            template: String::new(),
            active_field: FormField::Host,
        };
        assert(r@.texts =~= empty_form().texts);
        r
    }

    pub fn from_entry(entry: &ManagedEntry, metadata: Option<&EntryMetadata>) -> (r: EntryForm)
        ensures
            r@ == form_of(entry@, opt_record(metadata)),
    {
        let e: &HostEntry = &entry.entry;
        let port: String = match e.port {
            Some(p) => decimal_text(p as usize),
            None => String::new(),
        };
        let tags: String = match metadata {
            Some(m) => joined(&m.tags, ","),
            None => String::new(),
        };
        let note: String = match metadata {
            Some(m) => or_new(&m.note),
            None => String::new(),
        };
        let template: String = match metadata {
            Some(m) => or_new(&m.template_source),
            None => String::new(),
        };
        let r = EntryForm {
            mode: FormMode::Edit,
            original_host: Some(e.primary_pattern().to_string()),
            original_host_label: joined(&e.host_patterns, ","),
            host: e.primary_pattern().to_string(),
            hostname: or_new(&e.hostname),
            user: or_new(&e.user),
            port,
            proxy_jump: or_new(&e.proxy_jump),
            identity_files: joined(&e.identity_files, "; "),
            local_forwards: joined(&e.local_forwards, "; "),
            remote_forwards: joined(&e.remote_forwards, "; "),
            strict_host_key_checking: or_new(&e.strict_host_key_checking),
            user_known_hosts_file: or_new(&e.user_known_hosts_file),
            host_key_algorithms: or_new(&e.host_key_algorithms),
            pubkey_accepted_algorithms: or_new(&e.pubkey_accepted_algorithms),
            forward_agent: or_new(&e.forward_agent),
            ssh_tag: or_new(&e.tag),
            tags,
            note,
            template,
            active_field: FormField::Host,
        };
        assert(r@.texts =~= form_of(entry@, opt_record(metadata)).texts);
        r
    }

    pub fn mode(&self) -> (r: FormMode)
        ensures
            r == self@.mode,
    {
        self.mode
    }

    pub fn original_host(&self) -> (r: Option<&str>)
        ensures
            opt_str(r) == self@.original_host,
    {
        match &self.original_host {
            Some(h) => Some(h.as_str()),
            None => None,
        }
    }

    pub fn original_host_label(&self) -> (r: &str)
        ensures
            r@ == self@.original_host_label,
    {
        self.original_host_label.as_str()
    }

    pub fn active_field(&self) -> (r: FormField)
        ensures
            r == self@.active_field,
    {
        self.active_field
    }

    pub fn next_field(&mut self)
        ensures
            final(self)@ == (EntryFormView {
                active_field: old(self)@.active_field.following(),
                ..old(self)@
            }),
    {
        self.active_field = self.active_field.next();
    }

    pub fn previous_field(&mut self)
        ensures
            final(self)@ == (EntryFormView {
                active_field: old(self)@.active_field.preceding(),
                ..old(self)@
            }),
    {
        self.active_field = self.active_field.previous();
    }

    /// The text of a field.
    pub fn value(&self, field: FormField) -> (r: &str)
        ensures
            r@ == self@.text(field),
    {
        match field {
            FormField::Host => self.host.as_str(),
            FormField::HostName => self.hostname.as_str(),
            FormField::User => self.user.as_str(),
            FormField::Port => self.port.as_str(),
            FormField::ProxyJump => self.proxy_jump.as_str(),
            FormField::IdentityFiles => self.identity_files.as_str(),
            FormField::LocalForwards => self.local_forwards.as_str(),
            FormField::RemoteForwards => self.remote_forwards.as_str(),
            FormField::StrictHostKeyChecking => self.strict_host_key_checking.as_str(),
            FormField::UserKnownHostsFile => self.user_known_hosts_file.as_str(),
            FormField::HostKeyAlgorithms => self.host_key_algorithms.as_str(),
            FormField::PubkeyAcceptedAlgorithms => self.pubkey_accepted_algorithms.as_str(),
            FormField::ForwardAgent => self.forward_agent.as_str(),
            FormField::SshTag => self.ssh_tag.as_str(),
            FormField::Tags => self.tags.as_str(),
            FormField::Note => self.note.as_str(),
            FormField::Template => self.template.as_str(),
        }
    }

    /// The fields in their order, with their texts.
    pub fn fields(&self) -> (r: [(FormField, &str); 17])
        ensures
            forall|i: int|
                0 <= i < 17 ==> (#[trigger] r@[i]).0 == form_fields()[i] && r@[i].1@
                    == self@.texts[i],
    {
        [
            (FormField::Host, self.host.as_str()),
            (FormField::HostName, self.hostname.as_str()),
            (FormField::User, self.user.as_str()),
            (FormField::Port, self.port.as_str()),
            (FormField::ProxyJump, self.proxy_jump.as_str()),
            (FormField::IdentityFiles, self.identity_files.as_str()),
            (FormField::LocalForwards, self.local_forwards.as_str()),
            (FormField::RemoteForwards, self.remote_forwards.as_str()),
            (FormField::StrictHostKeyChecking, self.strict_host_key_checking.as_str()),
            (FormField::UserKnownHostsFile, self.user_known_hosts_file.as_str()),
            (FormField::HostKeyAlgorithms, self.host_key_algorithms.as_str()),
            (FormField::PubkeyAcceptedAlgorithms, self.pubkey_accepted_algorithms.as_str()),
            (FormField::ForwardAgent, self.forward_agent.as_str()),
            (FormField::SshTag, self.ssh_tag.as_str()),
            (FormField::Tags, self.tags.as_str()),
            (FormField::Note, self.note.as_str()),
            (FormField::Template, self.template.as_str()),
        ]
    }

    fn set_active_value(&mut self, value: String)
        ensures
            final(self)@ == old(self)@.with_active(value@),
    {
        let ghost was = self@;
        let ghost text = value@;
        match self.active_field {
            FormField::Host => {
                self.host = value;
            },
            FormField::HostName => {
                self.hostname = value;
            },
            FormField::User => {
                self.user = value;
            },
            FormField::Port => {
                self.port = value;
            },
            FormField::ProxyJump => {
                self.proxy_jump = value;
            },
            FormField::IdentityFiles => {
                self.identity_files = value;
            },
            FormField::LocalForwards => {
                self.local_forwards = value;
            },
            FormField::RemoteForwards => {
                self.remote_forwards = value;
            },
            FormField::StrictHostKeyChecking => {
                self.strict_host_key_checking = value;
            },
            FormField::UserKnownHostsFile => {
                self.user_known_hosts_file = value;
            },
            FormField::HostKeyAlgorithms => {
                self.host_key_algorithms = value;
            },
            FormField::PubkeyAcceptedAlgorithms => {
                self.pubkey_accepted_algorithms = value;
            },
            FormField::ForwardAgent => {
                self.forward_agent = value;
            },
            FormField::SshTag => {
                self.ssh_tag = value;
            },
            FormField::Tags => {
                self.tags = value;
            },
            FormField::Note => {
                self.note = value;
            },
            FormField::Template => {
                self.template = value;
            },
        }
        assert(self@.texts =~= was.with_active(text).texts);
    }

    pub fn push_char(&mut self, ch: char)
        ensures
            final(self)@ == old(self)@.pushed(ch),
    {
        let value: String = with_char(self.value(self.active_field), ch);
        self.set_active_value(value);
    }

    pub fn backspace(&mut self)
        ensures
            final(self)@ == old(self)@.popped(),
    {
        let value: String = without_last_char(self.value(self.active_field));
        self.set_active_value(value);
    }

    pub fn clear_active_field(&mut self)
        ensures
            final(self)@ == old(self)@.with_active(Seq::empty()),
    {
        self.set_active_value(String::new());
    }

    pub fn cycle_template_next(&mut self)
        ensures
            final(self)@ == old(self)@.template_cycled(true),
    {
        let ghost was = self@;
        self.template = next_template_name(&self.template, true);
        assert(self@.texts =~= was.template_cycled(true).texts);
    }

    pub fn cycle_template_previous(&mut self)
        ensures
            final(self)@ == old(self)@.template_cycled(false),
    {
        let ghost was = self@;
        self.template = next_template_name(&self.template, false);
        assert(self@.texts =~= was.template_cycled(false).texts);
    }

    /// What the space bar does in the active field.
    pub fn handle_space(&mut self)
        ensures
            final(self)@ == old(self)@.spaced(),
    {
        if self.active_field == FormField::Template {
            self.cycle_template_next();
        } else {
            self.push_char(' ');
        }
    }

    pub fn build_add_args(&self) -> (r: Result<AddArgs, ConfigError>)
        ensures
            match r {
                Ok(a) => form_refusal(self@) is None && is_add_of(a, self@),
                Err(e) => form_refusal(self@) == Some(e@),
            },
    {
        let host: String = trimmed(&self.host);
        if host.as_str().is_empty() {
            return Err(ConfigError::of("Host cannot be empty"));
        }
        let port: Option<u16> = match parse_port(&self.port) {
            Ok(p) => p,
            Err(e) => {
                return Err(e);
            },
        };
        let template: Option<TemplateKind> = match parse_template(&self.template) {
            Ok(t) => t,
            Err(e) => {
                return Err(e);
            },
        };
        Ok(
            AddArgs {
                host,
                interactive: false,
                port,
                template,
                order: None,
                extras: Vec::new(),
                hostname: trim_to_option(&self.hostname),
                user: trim_to_option(&self.user),
                proxy_jump: trim_to_option(&self.proxy_jump),
                identity_files: split_multi_value(&self.identity_files),
                local_forwards: split_multi_value(&self.local_forwards),
                remote_forwards: split_multi_value(&self.remote_forwards),
                strict_host_key_checking: trim_to_option(&self.strict_host_key_checking),
                user_known_hosts_file: trim_to_option(&self.user_known_hosts_file),
                host_key_algorithms: trim_to_option(&self.host_key_algorithms),
                pubkey_accepted_algorithms: trim_to_option(&self.pubkey_accepted_algorithms),
                forward_agent: trim_to_option(&self.forward_agent),
                ssh_tag: trim_to_option(&self.ssh_tag),
                tags: split_multi_value(&self.tags),
                note: trim_to_option(&self.note),
            },
        )
    }

    pub fn build_edit_args(&self) -> (r: Result<EditArgs, ConfigError>)
        ensures
            match r {
                Ok(a) => form_refusal(self@) is None && is_edit_of(a, self@),
                Err(e) => if self@.original_host is None {
                    e@ == "edit form is missing the original host"@
                } else {
                    form_refusal(self@) == Some(e@)
                },
            },
    {
        let original_host: &String = match &self.original_host {
            Some(h) => h,
            None => {
                return Err(ConfigError::of("edit form is missing the original host"));
            },
        };
        let host: String = trimmed(&self.host);
        if host.as_str().is_empty() {
            return Err(ConfigError::of("Host cannot be empty"));
        }
        let port: Option<u16> = match parse_port(&self.port) {
            Ok(p) => p,
            Err(e) => {
                return Err(e);
            },
        };
        let template: Option<TemplateKind> = match parse_template(&self.template) {
            Ok(t) => t,
            Err(e) => {
                return Err(e);
            },
        };
        let new_host: Option<String> = if same(&host, original_host) {
            None
        } else {
            Some(host)
        };
        Ok(
            EditArgs {
                host: original_host.clone(),
                interactive: false,
                new_host,
                port,
                clear_port: blank_text(&self.port),
                template,
                clear_template: blank_text(&self.template),
                order: None,
                extras: Vec::new(),
                clear_extras: false,
                hostname: trim_to_option(&self.hostname),
                clear_hostname: blank_text(&self.hostname),
                user: trim_to_option(&self.user),
                clear_user: blank_text(&self.user),
                proxy_jump: trim_to_option(&self.proxy_jump),
                clear_proxy_jump: blank_text(&self.proxy_jump),
                identity_files: split_multi_value(&self.identity_files),
                clear_identity_files: blank_text(&self.identity_files),
                local_forwards: split_multi_value(&self.local_forwards),
                clear_local_forwards: blank_text(&self.local_forwards),
                remote_forwards: split_multi_value(&self.remote_forwards),
                clear_remote_forwards: blank_text(&self.remote_forwards),
                strict_host_key_checking: trim_to_option(&self.strict_host_key_checking),
                clear_strict_host_key_checking: blank_text(&self.strict_host_key_checking),
                user_known_hosts_file: trim_to_option(&self.user_known_hosts_file),
                clear_user_known_hosts_file: blank_text(&self.user_known_hosts_file),
                host_key_algorithms: trim_to_option(&self.host_key_algorithms),
                clear_host_key_algorithms: blank_text(&self.host_key_algorithms),
                pubkey_accepted_algorithms: trim_to_option(&self.pubkey_accepted_algorithms),
                clear_pubkey_accepted_algorithms: blank_text(&self.pubkey_accepted_algorithms),
                forward_agent: trim_to_option(&self.forward_agent),
                clear_forward_agent: blank_text(&self.forward_agent),
                ssh_tag: trim_to_option(&self.ssh_tag),
                clear_ssh_tag: blank_text(&self.ssh_tag),
                tags: split_multi_value(&self.tags),
                clear_tags: blank_text(&self.tags),
                note: trim_to_option(&self.note),
                clear_note: blank_text(&self.note),
            },
        )
    }
}

fn blank_text(value: &str) -> (r: bool)
    ensures
        r == (trim(value@).len() == 0),
{
    trimmed(value).as_str().is_empty()
}

} // verus!
