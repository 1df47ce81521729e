//! The requests that the program takes.

use vstd::prelude::*;

use crate::config::template::TemplateKind;

verus! {

/// What the program was asked to do.
#[derive(Debug)]
pub struct Cli {
    pub command: Option<Commands>,
}

/// The commands of the program.
#[derive(Debug)]
pub enum Commands {
    Init(InitArgs),
    List(ListArgs),
    Show(ShowArgs),
    Meta(MetaArgs),
    Add(AddArgs),
    Edit(EditArgs),
    Duplicate(DuplicateArgs),
    Order(OrderArgs),
    Delete(DeleteArgs),
    Template(TemplateArgs),
    Validate(ValidateArgs),
    Doctor,
    Tui,
}

/// Arguments of `init`.
#[derive(Debug)]
pub struct InitArgs {
    pub migrate: bool,
}

/// Arguments of `validate`.
#[derive(Debug)]
pub struct ValidateArgs {
    pub ssh_g: bool,
}

/// Arguments of `list`.
#[derive(Debug)]
pub struct ListArgs {
    pub filter: MetadataFilterArgs,
}

/// Arguments of `show`.
#[derive(Debug)]
pub struct ShowArgs {
    pub host: String,
    pub merged: bool,
    pub match_tag: Option<String>,
    pub match_ssh_version: Option<String>,
    pub match_user: Option<String>,
    pub match_local_user: Option<String>,
    pub match_session_type: Option<String>,
    pub match_command: Option<String>,
    pub match_local_networks: Vec<String>,
    pub match_canonical: bool,
    pub match_non_final: bool,
}

/// Arguments of `meta`.
#[derive(Debug)]
pub struct MetaArgs {
    pub command: MetaCommands,
}

/// The commands under `meta`.
#[derive(Debug)]
pub enum MetaCommands {
    Show(MetaShowArgs),
    SetNote(MetaNoteArgs),
    ClearNote(MetaTargetArgs),
    AddTag(MetaTagArgs),
    RemoveTag(MetaTagArgs),
    ClearTags(MetaTargetArgs),
    Bulk(MetaBulkArgs),
}

/// An entry whose record is changed.
#[derive(Debug)]
pub struct MetaTargetArgs {
    pub host: String,
}

/// An entry whose record is shown.
#[derive(Debug)]
pub struct MetaShowArgs {
    pub host: String,
}

/// A note for the record of an entry.
#[derive(Debug)]
pub struct MetaNoteArgs {
    pub host: String,
    pub note: String,
}

/// A tag for the record of an entry.
#[derive(Debug)]
pub struct MetaTagArgs {
    pub host: String,
    pub tag: String,
}

/// Which entries are meant, by what is known of them.
#[derive(Debug)]
pub struct MetadataFilterArgs {
    pub query: Option<String>,
    pub tags: Vec<String>,
    pub has_note: bool,
    pub template: Option<TemplateKind>,
}

impl Default for MetadataFilterArgs {
    fn default() -> (r: MetadataFilterArgs)
        ensures
            r.query is None,
            r.tags@.len() == 0,
            !r.has_note,
            r.template is None,
    {
        MetadataFilterArgs { query: None, tags: Vec::new(), has_note: false, template: None }
    }
}

/// Which records are changed together.
#[derive(Debug)]
pub struct MetaBulkSelectorArgs {
    pub all: bool,
    pub filter: MetadataFilterArgs,
}

/// Arguments of `meta bulk`.
#[derive(Debug)]
pub struct MetaBulkArgs {
    pub command: MetaBulkCommands,
}

/// The commands under `meta bulk`.
#[derive(Debug)]
pub enum MetaBulkCommands {
    SetNote(MetaBulkNoteArgs),
    ClearNote(MetaBulkTargetArgs),
    AddTag(MetaBulkTagArgs),
    RemoveTag(MetaBulkTagArgs),
    ClearTags(MetaBulkTargetArgs),
}

/// Records that are changed together.
#[derive(Debug)]
pub struct MetaBulkTargetArgs {
    pub selector: MetaBulkSelectorArgs,
}

/// A note for several records.
#[derive(Debug)]
pub struct MetaBulkNoteArgs {
    pub selector: MetaBulkSelectorArgs,
    pub note: String,
}

/// A tag for several records.
#[derive(Debug)]
pub struct MetaBulkTagArgs {
    pub selector: MetaBulkSelectorArgs,
    pub tag: String,
}

/// Arguments of `add`.
#[derive(Debug)]
pub struct AddArgs {
    pub host: String,
    pub interactive: bool,
    pub hostname: Option<String>,
    pub user: Option<String>,
    pub port: Option<u16>,
    pub proxy_jump: Option<String>,
    pub identity_files: Vec<String>,
    pub local_forwards: Vec<String>,
    pub remote_forwards: Vec<String>,
    pub strict_host_key_checking: Option<String>,
    pub user_known_hosts_file: Option<String>,
    pub host_key_algorithms: Option<String>,
    pub pubkey_accepted_algorithms: Option<String>,
    pub forward_agent: Option<String>,
    pub ssh_tag: Option<String>,
    pub template: Option<TemplateKind>,
    pub order: Option<u16>,
    pub extras: Vec<String>,
    pub tags: Vec<String>,
    pub note: Option<String>,
}

/// Arguments of `edit`.
#[derive(Debug)]
pub struct EditArgs {
    pub host: String,
    pub interactive: bool,
    pub new_host: Option<String>,
    pub hostname: Option<String>,
    pub clear_hostname: bool,
    pub user: Option<String>,
    pub clear_user: bool,
    pub port: Option<u16>,
    pub clear_port: bool,
    pub proxy_jump: Option<String>,
    pub clear_proxy_jump: bool,
    pub identity_files: Vec<String>,
    pub clear_identity_files: bool,
    pub local_forwards: Vec<String>,
    pub clear_local_forwards: bool,
    pub remote_forwards: Vec<String>,
    pub clear_remote_forwards: bool,
    pub strict_host_key_checking: Option<String>,
    pub clear_strict_host_key_checking: bool,
    pub user_known_hosts_file: Option<String>,
    pub clear_user_known_hosts_file: bool,
    pub host_key_algorithms: Option<String>,
    pub clear_host_key_algorithms: bool,
    pub pubkey_accepted_algorithms: Option<String>,
    pub clear_pubkey_accepted_algorithms: bool,
    pub forward_agent: Option<String>,
    pub clear_forward_agent: bool,
    pub ssh_tag: Option<String>,
    pub clear_ssh_tag: bool,
    pub template: Option<TemplateKind>,
    pub clear_template: bool,
    pub order: Option<u16>,
    pub extras: Vec<String>,
    pub clear_extras: bool,
    pub tags: Vec<String>,
    pub clear_tags: bool,
    pub note: Option<String>,
    pub clear_note: bool,
}

/// Arguments of `duplicate`.
#[derive(Debug)]
pub struct DuplicateArgs {
    pub source: String,
    pub host: String,
    pub hostname: Option<String>,
    pub keep_hostname: bool,
    pub order: Option<u16>,
}

/// Arguments of `order`.
#[derive(Debug)]
pub struct OrderArgs {
    pub host: Option<String>,
    pub all: bool,
    pub filter: MetadataFilterArgs,
    pub interactive: bool,
    pub before: Option<String>,
    pub after: Option<String>,
    pub first: bool,
    pub last: bool,
}

/// Arguments of `delete`.
#[derive(Debug)]
pub struct DeleteArgs {
    pub host: Option<String>,
    pub all: bool,
    pub filter: MetadataFilterArgs,
    pub yes: bool,
}

/// Arguments of `template`.
#[derive(Debug)]
pub struct TemplateArgs {
    pub command: TemplateCommands,
}

/// The commands under `template`.
#[derive(Debug)]
pub enum TemplateCommands {
    List,
}

} // verus!
