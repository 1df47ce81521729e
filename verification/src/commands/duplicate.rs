//! Copies of an entry.

#![verifier::loop_isolation(false)]

use vstd::prelude::*;

use crate::commands::add::{is_host_target, looks_like_host_target, looks_like_pattern};
use crate::commands::cli::DuplicateArgs;
use crate::commands::edit::host_result;
use crate::config::model::{HostEntry, HostView, ManagedEntry, ManagedView, is_wild};
use crate::config::state::{
    AppState, EntryMetadata, MetadataView, StateView, find_named_index, named_at,
};
use crate::config::store::{
    find_entry_by_host, find_host_index, managed, order_after, order_is_taken, order_taken,
    save_entry, saved, until_host,
};
use crate::config::validate::{issues_of, validate_entry};
use crate::error::ConfigError;
use crate::strings::{concat3, concat5, copy_opt, copy_strs, decimal_text, same};
use crate::text::{decimal, join, opt, strs, views};

verus! {

broadcast use crate::text::group_text;

pub fn validate_duplicate_args(args: &DuplicateArgs) -> (r: Result<(), ConfigError>)
    ensures
        match r {
            Ok(_) => !(args.keep_hostname && args.hostname is Some),
            Err(e) => args.keep_hostname && args.hostname is Some && e@
                == "cannot use --hostname with --keep-hostname"@,
        },
{
    if args.keep_hostname && args.hostname.is_some() {
        return Err(ConfigError::of("cannot use --hostname with --keep-hostname"));
    }
    Ok(())
}

/// The address of the copy: the one that is asked for, that of the source where it is to be
/// kept, or the new host where that names a machine. An alias needs one of the first two, unless
/// the source has no address.
pub open spec fn copy_hostname(source: HostView, a: DuplicateArgs) -> Result<
    Option<Seq<char>>,
    Seq<char>,
> {
    if a.hostname is Some {
        Ok(opt(a.hostname))
    } else if a.keep_hostname {
        Ok(source.hostname)
    } else if is_host_target(a.host@) {
        Ok(Some(a.host@))
    } else if source.hostname is None || is_wild(a.host@) {
        Ok(source.hostname)
    } else {
        Err(
            "duplicating `"@ + source.primary() + "` to alias `"@ + a.host@
                + "` requires --hostname or --keep-hostname"@,
        )
    }
}

pub open spec fn copied(source: HostView, a: DuplicateArgs) -> Result<HostView, Seq<char>> {
    match copy_hostname(source, a) {
        Err(e) => Err(e),
        Ok(hostname) => Ok(HostView { host_patterns: seq![a.host@], hostname, ..source }),
    }
}

fn select_duplicate_hostname(source: &HostEntry, args: &DuplicateArgs) -> (r: Result<
    Option<String>,
    ConfigError,
>)
    ensures
        copy_hostname(source@, *args) == (match r {
            Ok(h) => Ok(opt(h)),
            Err(e) => Err(e@),
        }),
{
    if args.hostname.is_some() {
        return Ok(copy_opt(&args.hostname));
    }
    if args.keep_hostname {
        return Ok(copy_opt(&source.hostname));
    }
    if looks_like_host_target(&args.host) {
        return Ok(Some(args.host.clone()));
    }
    if source.hostname.is_none() || looks_like_pattern(&args.host) {
        return Ok(copy_opt(&source.hostname));
    }
    Err(
        ConfigError::new(
            concat5(
                "duplicating `",
                source.primary_pattern(),
                "` to alias `",
                &args.host,
                "` requires --hostname or --keep-hostname",
            ),
        ),
    )
}

pub fn build_duplicate_entry(source: &HostEntry, args: &DuplicateArgs) -> (r: Result<
    HostEntry,
    ConfigError,
>)
    ensures
        host_result(r) == copied(source@, *args),
{
    match select_duplicate_hostname(source, args) {
        Err(e) => Err(e),
        Ok(hostname) => {
            let ghost h = opt(hostname);
            let mut duplicated: HostEntry = source.clone();
            duplicated.host_patterns = vec![args.host.clone()];
            assert(strs(duplicated.host_patterns@) =~= seq![args.host@]);
            duplicated.hostname = hostname;
            assert(duplicated@ =~= HostView {
                host_patterns: seq![args.host@],
                hostname: h,
                ..source@
            });
            Ok(duplicated)
        },
    }
}

/// What is copied, and what is written.
#[derive(Debug)]
pub struct DuplicatePlan {
    pub source: ManagedEntry,
    pub saved: ManagedEntry,
}

/// Why a copy is refused before an order is given out, if it is.
pub open spec fn copy_refusal(es: Seq<ManagedView>, a: DuplicateArgs) -> Option<Seq<char>> {
    let n = until_host(es, a.source@);
    if a.keep_hostname && a.hostname is Some {
        Some("cannot use --hostname with --keep-hostname"@)
    } else if n >= es.len() {
        Some("managed entry `"@ + a.source@ + "` not found"@)
    } else {
        let source = es[n as int];
        if a.host@ == source.entry.primary() {
            Some("duplicate target must differ from source `"@ + a.source@ + "`"@)
        } else {
            match copied(source.entry, a) {
                Err(e) => Some(e),
                Ok(entry) => if issues_of(entry).len() > 0 {
                    Some(join(issues_of(entry), "; "@))
                } else if until_host(es, entry.primary()) < es.len() {
                    Some("managed entry `"@ + entry.primary() + "` already exists"@)
                } else if a.order matches Some(k) && order_taken(es, k, None) {
                    Some("order "@ + decimal(a.order->0 as nat) + " is already in use"@)
                } else {
                    None
                },
            }
        }
    }
}

/// What is copied and written for a request, or why nothing is.
pub open spec fn duplicate_plan(
    es: Seq<ManagedView>,
    files: Seq<Seq<char>>,
    dir: Seq<char>,
    a: DuplicateArgs,
    newline: Seq<char>,
    windows: bool,
) -> Result<(ManagedView, ManagedView), Seq<char>> {
    match copy_refusal(es, a) {
        Some(e) => Err(e),
        None => {
            let source = es[until_host(es, a.source@) as int];
            let entry = copied(source.entry, a)->Ok_0;
            match saved(es, files, dir, entry, a.order, newline, windows) {
                Ok(m) => Ok((source, m)),
                Err(e) => Err("failed to save duplicated managed SSH entry"@ + ": "@ + e),
            }
        },
    }
}

/// The entry that is copied and the copy, unless the copy is refused before an order is given out.
pub fn check_copy(entries: &[ManagedEntry], args: &DuplicateArgs) -> (r: Result<
    (ManagedEntry, HostEntry),
    ConfigError,
>)
    ensures
        match r {
            Ok((source, e)) => copy_refusal(views(entries@), *args) is None && source@ == views(
                entries@,
            )[until_host(views(entries@), args.source@) as int] && copied(source@.entry, *args)
                == Ok::<HostView, Seq<char>>(e@),
            Err(e) => copy_refusal(views(entries@), *args) == Some(e@),
        },
{
    match validate_duplicate_args(args) {
        Ok(_) => {},
        Err(e) => {
            return Err(e);
        },
    }
    let source: ManagedEntry = match find_entry_by_host(entries, &args.source) {
        Some(e) => e.clone(),
        None => {
            return Err(
                ConfigError::new(concat3("managed entry `", &args.source, "` not found")),
            );
        },
    };
    if same(&args.host, source.entry.primary_pattern()) {
        return Err(
            ConfigError::new(
                concat3("duplicate target must differ from source `", &args.source, "`"),
            ),
        );
    }
    let entry: HostEntry = match build_duplicate_entry(&source.entry, args) {
        Ok(e) => e,
        Err(e) => {
            return Err(e);
        },
    };
    match validate_entry(&entry) {
        Ok(_) => {},
        Err(e) => {
            return Err(e);
        },
    }
    if find_host_index(entries, entry.primary_pattern()).is_some() {
        return Err(
            ConfigError::new(
                concat3("managed entry `", entry.primary_pattern(), "` already exists"),
            ),
        );
    }
    match args.order {
        Some(n) => {
            if order_is_taken(entries, n, None) {
                return Err(
                    ConfigError::new(
                        concat3("order ", &decimal_text(n as usize), " is already in use"),
                    ),
                );
            }
        },
        None => {},
    }
    Ok((source, entry))
}

/// What is to be written for a copy. Where it is not refused and asks for no order, one must be
/// left behind the last entry.
pub fn duplicate_managed_entry(
    entries: &[ManagedEntry],
    files: &Vec<String>,
    config_d_dir: &str,
    args: &DuplicateArgs,
    newline: &str,
    windows: bool,
) -> (r: Result<DuplicatePlan, ConfigError>)
    requires
        copy_refusal(views(entries@), *args) is None && args.order is None ==> order_after(
            views(entries@),
        ) <= 65535,
    ensures
        duplicate_plan(views(entries@), strs(files@), config_d_dir@, *args, newline@, windows) == (match r {
            Ok(p) => Ok((p.source@, p.saved@)),
            Err(e) => Err(e@),
        }),
{
    let (source, entry) = match check_copy(entries, args) {
        Ok(p) => p,
        Err(e) => {
            return Err(e);
        },
    };
    match save_entry(entries, files, config_d_dir, &entry, args.order, newline, windows) {
        Ok(saved) => Ok(DuplicatePlan { source, saved }),
        Err(e) => Err(
            ConfigError::caused(
                "failed to save duplicated managed SSH entry".to_string(),
                e.text(),
            ),
        ),
    }
}

/// The record `m` with what `source` says beyond its entry.
pub open spec fn with_source_record(m: MetadataView, source: MetadataView, now: Seq<char>) -> MetadataView {
    MetadataView {
        template_source: source.template_source,
        tags: source.tags,
        note: source.note,
        target_os: source.target_os,
        remote_user_home: source.remote_user_home,
        authorized_keys_path: source.authorized_keys_path,
        ssh_dir_mode: source.ssh_dir_mode,
        authorized_keys_mode: source.authorized_keys_mode,
        updated_at: now,
        ..m
    }
}

/// Copies what the record of the source says beyond its entry to the record of the host.
pub fn copy_metadata_from_source(
    state: &mut AppState,
    host: &str,
    source: &EntryMetadata,
    now: &str,
) -> (r: Result<EntryMetadata, ConfigError>)
    ensures
        match r {
            Ok(m) => {
                &&& named_at(old(state)@.entries, host@) matches Some(i)
                &&& m@ == with_source_record(old(state)@.entries[i], source@, now@)
                &&& final(state)@ == (StateView {
                    entries: old(state)@.entries.update(i, m@),
                    ..old(state)@
                })
            },
            Err(e) => named_at(old(state)@.entries, host@) is None && final(state)@ == old(state)@
                && e@ == "metadata for managed entry `"@ + host@ + "` not found"@,
        },
{
    let ghost ms = state@.entries;
    match find_named_index(&state.entries, host) {
        None => Err(
            ConfigError::new(concat3("metadata for managed entry `", host, "` not found")),
        ),
        Some(i) => {
            let mut record: EntryMetadata = state.entries[i].clone();
            let ghost was = record@;
            record.template_source = copy_opt(&source.template_source);
            record.tags = copy_strs(&source.tags);
            record.note = copy_opt(&source.note);
            record.target_os = copy_opt(&source.target_os);
            record.remote_user_home = copy_opt(&source.remote_user_home);
            record.authorized_keys_path = copy_opt(&source.authorized_keys_path);
            record.ssh_dir_mode = copy_opt(&source.ssh_dir_mode);
            record.authorized_keys_mode = copy_opt(&source.authorized_keys_mode);
            record.updated_at = now.to_owned();
            assert(record@ =~= with_source_record(was, source@, now@));
            let r: EntryMetadata = record.clone();
            state.entries.set(i, record);
            assert(state@.entries =~= ms.update(i as int, r@));
            Ok(r)
        },
    }
}

} // verus!
