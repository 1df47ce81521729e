//! Where the files stand, and the lines that tie the managed ones to the root configuration.

#![verifier::loop_isolation(false)]

use vstd::prelude::*;

use crate::paths::{file_name, file_name_of, join_path, path_in};
use crate::strings::{
    concat3, concat4, equal_ignoring_case, halves_at_last, has_text, same, sorted_texts,
    split_lines, trimmed,
};
use crate::text::{contains_text, lines, same_ignoring_case, sort_texts, split_last, strs, trim};

verus! {

broadcast use crate::text::group_text;

pub const MANAGED_BLOCK_START: &'static str = "# >>> sshcfg managed include >>>";

pub const MANAGED_BLOCK_END: &'static str = "# <<< sshcfg managed include <<<";

pub const MANAGED_INCLUDE_LINE: &'static str = "Include ~/.ssh/config.d/*";

/// The files and directories of the configuration. Components are separated by `/`.
#[derive(Debug, PartialEq, Eq)]
pub struct AppPaths {
    pub ssh_dir: String,
    pub root_config: String,
    pub config_d_dir: String,
    pub app_dir: String,
    pub backups_dir: String,
    pub state_file: String,
}

impl AppPaths {
    /// The paths of the user whose home directory is `home`. `windows` says which kind of paths
    /// these are.
    pub fn discover(home: &str, windows: bool) -> (r: AppPaths)
        ensures
            r.ssh_dir@ == path_in(home@, ".ssh"@, windows),
            r.root_config@ == path_in(r.ssh_dir@, "config"@, windows),
            r.config_d_dir@ == path_in(r.ssh_dir@, "config.d"@, windows),
            r.app_dir@ == path_in(r.ssh_dir@, ".sshcfg"@, windows),
            r.backups_dir@ == path_in(r.app_dir@, "backups"@, windows),
            r.state_file@ == path_in(r.app_dir@, "state.toml"@, windows),
    {
        let ssh_dir: String = join_path(home, ".ssh", windows);
        let app_dir: String = join_path(&ssh_dir, ".sshcfg", windows);
        AppPaths {
            root_config: join_path(&ssh_dir, "config", windows),
            config_d_dir: join_path(&ssh_dir, "config.d", windows),
            backups_dir: join_path(&app_dir, "backups", windows),
            state_file: join_path(&app_dir, "state.toml", windows),
            ssh_dir,
            app_dir,
        }
    }

    /// Where the managed entries alone are written for `ssh -G`.
    pub fn managed_config_path(&self, windows: bool) -> (r: String)
        ensures
            r@ == path_in(self.app_dir@, "ssh-g-managed.conf"@, windows),
    {
        join_path(&self.app_dir, "ssh-g-managed.conf", windows)
    }

    /// Where the managed entries and the `Match` blocks are written for `ssh -G`.
    pub fn managed_match_config_path(&self, windows: bool) -> (r: String)
        ensures
            r@ == path_in(self.app_dir@, "ssh-g-managed-with-match.conf"@, windows),
    {
        join_path(&self.app_dir, "ssh-g-managed-with-match.conf", windows)
    }
}

/// The name of a file that may hold a managed entry: it ends in `.conf`, and something stands
/// before that.
pub open spec fn is_entry_file(name: Seq<char>) -> bool {
    split_last(name, '.') matches Some((stem, extension)) && stem.len() > 0 && extension
        == "conf"@
}

/// Of the files of a directory, those that may hold a managed entry.
pub open spec fn entry_files(paths: Seq<Seq<char>>, windows: bool) -> Seq<Seq<char>>
    decreases paths.len(),
{
    if paths.len() == 0 {
        Seq::empty()
    } else {
        let before = entry_files(paths.drop_last(), windows);
        if file_name(paths.last(), windows) matches Some(name) && is_entry_file(name) {
            before.push(paths.last())
        } else {
            before
        }
    }
}

/// The files of a directory that may hold a managed entry, in the order of their paths.
pub fn managed_entry_files(paths: &Vec<String>, windows: bool) -> (r: Vec<String>)
    ensures
        strs(r@) == sort_texts(entry_files(strs(paths@), windows)),
{
    let ghost all = strs(paths@);
    let mut out: Vec<String> = Vec::new();
    let mut i: usize = 0;
    while i < paths.len()
        invariant
            i <= paths@.len(),
            all == strs(paths@),
            strs(out@) == entry_files(all.take(i as int), windows),
        decreases paths@.len() - i,
    {
        match file_name_of(&paths[i], windows) {
            Some(name) => match halves_at_last(&name, '.') {
                Some((stem, extension)) => {
                    if !stem.as_str().is_empty() && same(&extension, "conf") {
                        out.push(paths[i].clone());
                    }
                },
                None => {},
            },
            None => {},
        }
        i += 1;
    }
    sorted_texts(&out)
}

/// How lines end on the machine.
pub fn platform_newline(windows: bool) -> (r: &'static str)
    ensures
        r@ == newline_for(windows),
{
    if windows {
        "\r\n"
    } else {
        "\n"
    }
}

pub open spec fn newline_for(windows: bool) -> Seq<char> {
    if windows {
        "\r\n"@
    } else {
        "\n"@
    }
}

/// How lines end in `content`, or on the machine where `content` does not tell.
pub open spec fn newline_of(content: Seq<char>, windows: bool) -> Seq<char> {
    if contains_text(content, "\r\n"@) {
        "\r\n"@
    } else {
        newline_for(windows)
    }
}

pub fn detect_newline(content: &str, windows: bool) -> (r: &'static str)
    ensures
        r@ == newline_of(content@, windows),
{
    if has_text(content, "\r\n") {
        "\r\n"
    } else {
        platform_newline(windows)
    }
}

pub fn has_managed_block(content: &str) -> (r: bool)
    ensures
        r == (contains_text(content@, MANAGED_BLOCK_START@) && contains_text(
            content@,
            MANAGED_BLOCK_END@,
        )),
{
    has_text(content, MANAGED_BLOCK_START) && has_text(content, MANAGED_BLOCK_END)
}

/// A line of `content` brings the managed entries in.
pub open spec fn names_managed_entries(content: Seq<char>) -> bool {
    exists|i: int|
        0 <= i < lines(content).len() && same_ignoring_case(
            trim(#[trigger] lines(content)[i]),
            MANAGED_INCLUDE_LINE@,
        )
}

pub fn has_include_line(content: &str) -> (r: bool)
    ensures
        r == names_managed_entries(content@),
{
    let all: Vec<String> = split_lines(content);
    let ghost ls = lines(content@);
    let mut i: usize = 0;
    while i < all.len()
        invariant
            i <= all@.len(),
            ls == strs(all@),
            ls == lines(content@),
            forall|k: int|
                0 <= k < i ==> !same_ignoring_case(trim(#[trigger] ls[k]), MANAGED_INCLUDE_LINE@),
        decreases all@.len() - i,
    {
        assert(ls[i as int] == all@[i as int]@);
        if equal_ignoring_case(&trimmed(&all[i]), MANAGED_INCLUDE_LINE) {
            assert(same_ignoring_case(trim(lines(content@)[i as int]), MANAGED_INCLUDE_LINE@));
            return true;
        }
        i += 1;
    }
    false
}

/// The three lines that stand in the root configuration for the managed entries.
pub open spec fn anchor_text(newline: Seq<char>) -> Seq<char> {
    MANAGED_BLOCK_START@ + newline + MANAGED_INCLUDE_LINE@ + newline + MANAGED_BLOCK_END@ + newline
}

pub fn managed_block(newline: &str) -> (r: String)
    ensures
        r@ == anchor_text(newline@),
{
    let head: String = concat4(MANAGED_BLOCK_START, newline, MANAGED_INCLUDE_LINE, newline);
    concat3(&head, MANAGED_BLOCK_END, newline)
}

} // verus!
