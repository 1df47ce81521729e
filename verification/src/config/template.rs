//! Presets for new entries.

use vstd::prelude::*;

use crate::config::model::{HostEntry, HostView};
use crate::strings::{lowered, same, trimmed};
use crate::text::{lower, opt, trim};

verus! {

#[derive(Debug, Clone, Copy, PartialEq, Eq, Structural)]
pub enum TemplateKind {
    Embedded,
    Legacy,
    Vps,
    Jump,
    Forward,
}

/// A template as it is shown to the user.
#[derive(Debug)]
pub struct TemplateInfo {
    pub kind: TemplateKind,
    pub summary: &'static str,
    pub directives: Vec<(&'static str, &'static str)>,
}

impl TemplateKind {
    pub open spec fn name(self) -> Seq<char> {
        match self {
            TemplateKind::Embedded => "embedded"@,
            TemplateKind::Legacy => "legacy"@,
            TemplateKind::Vps => "vps"@,
            TemplateKind::Jump => "jump"@,
            TemplateKind::Forward => "forward"@,
        }
    }

    pub fn cli_name(self) -> (r: &'static str)
        ensures
            r@ == self.name(),
    {
        match self {
            TemplateKind::Embedded => "embedded",
            TemplateKind::Legacy => "legacy",
            TemplateKind::Vps => "vps",
            TemplateKind::Jump => "jump",
            TemplateKind::Forward => "forward",
        }
    }

    pub open spec fn summary(self) -> Seq<char> {
        match self {
            TemplateKind::Embedded => "Embedded devices / frequent reflashing"@,
            TemplateKind::Legacy => "Legacy SSH devices that still require ssh-rsa"@,
            TemplateKind::Vps => "Reserved for VPS presets such as IdentityFile"@,
            TemplateKind::Jump => "Reserved for jump-host presets such as ProxyJump"@,
            TemplateKind::Forward => "Reserved for port-forward presets such as LocalForward"@,
        }
    }

    /// The directives that the template gives to an entry without them.
    pub open spec fn presets(self) -> Seq<(Seq<char>, Seq<char>)> {
        match self {
            TemplateKind::Embedded => seq![
                ("StrictHostKeyChecking"@, "no"@),
                ("UserKnownHostsFile"@, "/dev/null"@),
            ],
            TemplateKind::Legacy => seq![
                ("StrictHostKeyChecking"@, "no"@),
                ("UserKnownHostsFile"@, "/dev/null"@),
                ("HostKeyAlgorithms"@, "+ssh-rsa"@),
                ("PubkeyAcceptedAlgorithms"@, "+ssh-rsa"@),
            ],
            _ => Seq::empty(),
        }
    }
}

/// All templates in the order in which they are shown.
pub open spec fn all_kinds() -> Seq<TemplateKind> {
    seq![
        TemplateKind::Embedded,
        TemplateKind::Legacy,
        TemplateKind::Vps,
        TemplateKind::Jump,
        TemplateKind::Forward,
    ]
}

/// The template of that name, whatever the case of its letters and the white space round it.
pub open spec fn kind_named(value: Seq<char>) -> Option<TemplateKind> {
    let name = lower(trim(value));
    if name == "embedded"@ {
        Some(TemplateKind::Embedded)
    } else if name == "legacy"@ {
        Some(TemplateKind::Legacy)
    } else if name == "vps"@ {
        Some(TemplateKind::Vps)
    } else if name == "jump"@ {
        Some(TemplateKind::Jump)
    } else if name == "forward"@ {
        Some(TemplateKind::Forward)
    } else {
        None
    }
}

pub fn parse_cli_name(value: &str) -> (r: Option<TemplateKind>)
    ensures
        r == kind_named(value@),
{
    let name: String = lowered(&trimmed(value));
    if same(&name, "embedded") {
        Some(TemplateKind::Embedded)
    } else if same(&name, "legacy") {
        Some(TemplateKind::Legacy)
    } else if same(&name, "vps") {
        Some(TemplateKind::Vps)
    } else if same(&name, "jump") {
        Some(TemplateKind::Jump)
    } else if same(&name, "forward") {
        Some(TemplateKind::Forward)
    } else {
        None
    }
}

/// The texts that a row of pairs holds.
pub open spec fn str_pairs(v: Seq<(&'static str, &'static str)>) -> Seq<(Seq<char>, Seq<char>)> {
    Seq::new(v.len(), |i: int| (v[i].0@, v[i].1@))
}

impl TemplateInfo {
    /// Says what there is to say of a template.
    pub open spec fn describes(&self, kind: TemplateKind) -> bool {
        &&& self.kind == kind
        &&& self.summary@ == kind.summary()
        &&& str_pairs(self.directives@) == kind.presets()
    }
}

fn template_info(kind: TemplateKind) -> (r: TemplateInfo)
    ensures
        r.describes(kind),
{
    let r = match kind {
        TemplateKind::Embedded => TemplateInfo {
            kind,
            summary: "Embedded devices / frequent reflashing",
            directives: vec![("StrictHostKeyChecking", "no"), ("UserKnownHostsFile", "/dev/null")],
        },
        TemplateKind::Legacy => TemplateInfo {
            kind,
            summary: "Legacy SSH devices that still require ssh-rsa",
            directives: vec![
                ("StrictHostKeyChecking", "no"),
                ("UserKnownHostsFile", "/dev/null"),
                ("HostKeyAlgorithms", "+ssh-rsa"),
                ("PubkeyAcceptedAlgorithms", "+ssh-rsa"),
            ],
        },
        TemplateKind::Vps => TemplateInfo {
            kind,
            summary: "Reserved for VPS presets such as IdentityFile",
            directives: Vec::new(),
        },
        TemplateKind::Jump => TemplateInfo {
            kind,
            summary: "Reserved for jump-host presets such as ProxyJump",
            directives: Vec::new(),
        },
        TemplateKind::Forward => TemplateInfo {
            kind,
            summary: "Reserved for port-forward presets such as LocalForward",
            directives: Vec::new(),
        },
    };
    assert(str_pairs(r.directives@) =~= kind.presets());
    r
}

pub fn template_infos() -> (r: Vec<TemplateInfo>)
    ensures
        r@.len() == all_kinds().len(),
        forall|i: int| 0 <= i < r@.len() ==> (#[trigger] r@[i]).describes(all_kinds()[i]),
{
    vec![
        template_info(TemplateKind::Embedded),
        template_info(TemplateKind::Legacy),
        template_info(TemplateKind::Vps),
        template_info(TemplateKind::Jump),
        template_info(TemplateKind::Forward),
    ]
}

pub open spec fn or_else(slot: Option<Seq<char>>, value: Seq<char>) -> Option<Seq<char>> {
    match slot {
        Some(v) => Some(v),
        None => Some(value),
    }
}

/// `e` with the directives of the template that it does not have.
pub open spec fn with_template(e: HostView, kind: TemplateKind) -> HostView {
    match kind {
        TemplateKind::Embedded => HostView {
            strict_host_key_checking: or_else(e.strict_host_key_checking, "no"@),
            user_known_hosts_file: or_else(e.user_known_hosts_file, "/dev/null"@),
            ..e
        },
        TemplateKind::Legacy => HostView {
            strict_host_key_checking: or_else(e.strict_host_key_checking, "no"@),
            user_known_hosts_file: or_else(e.user_known_hosts_file, "/dev/null"@),
            host_key_algorithms: or_else(e.host_key_algorithms, "+ssh-rsa"@),
            pubkey_accepted_algorithms: or_else(e.pubkey_accepted_algorithms, "+ssh-rsa"@),
            ..e
        },
        _ => e,
    }
}

pub fn apply_template(entry: &mut HostEntry, template: TemplateKind)
    ensures
        final(entry)@ == with_template(old(entry)@, template),
{
    let ghost was = entry@;
    match template {
        TemplateKind::Embedded => {
            set_if_missing(&mut entry.strict_host_key_checking, "no");
            set_if_missing(&mut entry.user_known_hosts_file, "/dev/null");
        },
        TemplateKind::Legacy => {
            set_if_missing(&mut entry.strict_host_key_checking, "no");
            set_if_missing(&mut entry.user_known_hosts_file, "/dev/null");
            set_if_missing(&mut entry.host_key_algorithms, "+ssh-rsa");
            set_if_missing(&mut entry.pubkey_accepted_algorithms, "+ssh-rsa");
        },
        TemplateKind::Vps | TemplateKind::Jump | TemplateKind::Forward => {},
    }
    assert(entry@ =~= with_template(was, template));
}

fn set_if_missing(slot: &mut Option<String>, value: &str)
    ensures
        opt(*final(slot)) == or_else(opt(*old(slot)), value@),
{
    if slot.is_none() {
        *slot = Some(value.to_owned());
    }
}

/// Every template is found by its own name.
pub proof fn law_template_found_by_its_name(kind: TemplateKind)
    ensures
        kind_named(kind.name()) == Some(kind),
{
    lemma_names_are_plain(kind);
}

/// A template changes no directive that the entry already has, and applying it again changes
/// nothing.
pub proof fn law_template_keeps_what_is_set(e: HostView, kind: TemplateKind)
    ensures
        e.strict_host_key_checking is Some ==> with_template(e, kind).strict_host_key_checking
            == e.strict_host_key_checking,
        e.user_known_hosts_file is Some ==> with_template(e, kind).user_known_hosts_file
            == e.user_known_hosts_file,
        e.host_key_algorithms is Some ==> with_template(e, kind).host_key_algorithms
            == e.host_key_algorithms,
        e.pubkey_accepted_algorithms is Some ==> with_template(e, kind).pubkey_accepted_algorithms
            == e.pubkey_accepted_algorithms,
        with_template(e, kind) == (HostView {
            strict_host_key_checking: with_template(e, kind).strict_host_key_checking,
            user_known_hosts_file: with_template(e, kind).user_known_hosts_file,
            host_key_algorithms: with_template(e, kind).host_key_algorithms,
            pubkey_accepted_algorithms: with_template(e, kind).pubkey_accepted_algorithms,
            ..e
        }),
        with_template(with_template(e, kind), kind) == with_template(e, kind),
{
}

proof fn lemma_names_are_plain(kind: TemplateKind)
    ensures
        lower(trim(kind.name())) == kind.name(),
        all_names_differ(),
{
    reveal_strlit("embedded");
    reveal_strlit("legacy");
    reveal_strlit("vps");
    reveal_strlit("jump");
    reveal_strlit("forward");
    assert(trim(kind.name()) == kind.name());
    assert(lower(kind.name()) =~= kind.name());
    assert("embedded"@[0] == 'e' && "legacy"@[0] == 'l' && "vps"@[0] == 'v' && "jump"@[0] == 'j'
        && "forward"@[0] == 'f');
}

spec fn all_names_differ() -> bool {
    &&& "embedded"@ != "legacy"@
    &&& "embedded"@ != "vps"@
    &&& "embedded"@ != "jump"@
    &&& "embedded"@ != "forward"@
    &&& "legacy"@ != "vps"@
    &&& "legacy"@ != "jump"@
    &&& "legacy"@ != "forward"@
    &&& "vps"@ != "jump"@
    &&& "vps"@ != "forward"@
    &&& "jump"@ != "forward"@
}

} // verus!
