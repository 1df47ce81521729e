//! The report on the layout of the files and the records.

#![verifier::loop_isolation(false)]

use vstd::prelude::*;

use crate::backup::retention_limit;
use crate::commands::validate::{
    bool_text, conditions_text, counted_line, report_of, with_count, write_conditions, write_count,
    write_with_count, yes_no,
};
use crate::config::describe::push_all;
use crate::config::match_header::RootMatchBlock;
use crate::config::model::{ManagedEntry, ManagedView};
use crate::config::openssh::OpenSshProbe;
use crate::config::root_config::{
    extract_match_blocks, unsupported_match_block_count, unsupported_match_conditions,
};
use crate::config::state::{
    AppState, StateSummary, StateView, missing_count, summarize_state, unused_count,
};
use crate::layout::{AppPaths, has_include_line, has_managed_block, managed_block};
use crate::strings::{concat2, concat3, concat4, copy_opt, decimal_text, text_or_dash};
use crate::text::{decimal, lines, opt, opt_str, or_dash, strs, views};

verus! {

broadcast use crate::text::group_text;

/// Where the files are and what is in them.
#[derive(Debug, PartialEq, Eq)]
pub struct DoctorReport {
    pub ssh_dir: String,
    pub root_config: String,
    pub managed_dir: String,
    pub app_dir: String,
    pub backups_dir: String,
    pub state_file: String,
    pub backup_snapshot_count: usize,
    pub backup_retention_limit: usize,
    pub managed_entry_count: usize,
    pub state_version: u32,
    pub metadata_entry_count: usize,
    pub missing_metadata_count: usize,
    pub stale_metadata_count: usize,
    pub has_managed_block: bool,
    pub has_include_line: bool,
    pub root_match_block_count: usize,
    pub root_match_unsupported_block_count: usize,
    pub root_match_unsupported_conditions: Vec<String>,
    pub ssh_available: bool,
    pub ssh_version: Option<String>,
    pub ssh_error: Option<String>,
}

/// What a [`DoctorReport`] holds.
#[verifier::ext_equal]
pub struct DoctorView {
    pub ssh_dir: Seq<char>,
    pub root_config: Seq<char>,
    pub managed_dir: Seq<char>,
    pub app_dir: Seq<char>,
    pub backups_dir: Seq<char>,
    pub state_file: Seq<char>,
    pub snapshots: int,
    pub retention_limit: int,
    pub managed_entries: int,
    pub state_version: int,
    pub records: int,
    pub missing_records: int,
    pub stale_records: int,
    pub has_managed_block: bool,
    pub has_include_line: bool,
    pub match_blocks: int,
    pub unsupported_blocks: int,
    pub unsupported_conditions: Seq<Seq<char>>,
    pub ssh_available: bool,
    pub ssh_version: Option<Seq<char>>,
    pub ssh_error: Option<Seq<char>>,
}

impl View for DoctorReport {
    type V = DoctorView;

    open spec fn view(&self) -> DoctorView {
        DoctorView {
            ssh_dir: self.ssh_dir@,
            root_config: self.root_config@,
            managed_dir: self.managed_dir@,
            app_dir: self.app_dir@,
            backups_dir: self.backups_dir@,
            state_file: self.state_file@,
            snapshots: self.backup_snapshot_count as int,
            retention_limit: self.backup_retention_limit as int,
            managed_entries: self.managed_entry_count as int,
            state_version: self.state_version as int,
            records: self.metadata_entry_count as int,
            missing_records: self.missing_metadata_count as int,
            stale_records: self.stale_metadata_count as int,
            has_managed_block: self.has_managed_block,
            has_include_line: self.has_include_line,
            match_blocks: self.root_match_block_count as int,
            unsupported_blocks: self.root_match_unsupported_block_count as int,
            unsupported_conditions: strs(self.root_match_unsupported_conditions@),
            ssh_available: self.ssh_available,
            ssh_version: opt(self.ssh_version),
            ssh_error: opt(self.ssh_error),
        }
    }
}

pub open spec fn doctor_summary(d: DoctorView) -> Seq<char> {
    with_count(
        "Doctor snapshot | "@ + decimal(d.managed_entries as nat) + " managed | missing metadata "@
            + decimal(d.missing_records as nat) + " | stale metadata "@ + decimal(
            d.stale_records as nat,
        ),
        " | unsupported root Match "@,
        d.unsupported_blocks,
        Seq::empty(),
    )
}

pub open spec fn place_lines(d: DoctorView) -> Seq<Seq<char>> {
    seq![
        "ssh dir: "@ + d.ssh_dir,
        "root config: "@ + d.root_config,
        "managed dir: "@ + d.managed_dir,
        "app dir: "@ + d.app_dir,
        "backups dir: "@ + d.backups_dir,
        "state file: "@ + d.state_file,
    ]
}

pub open spec fn count_lines(d: DoctorView) -> Seq<Seq<char>> {
    seq![
        counted_line("backup snapshot count: "@, d.snapshots),
        counted_line("backup retention limit: "@, d.retention_limit),
        counted_line("managed entry count: "@, d.managed_entries),
        counted_line("state version: "@, d.state_version),
        counted_line("metadata entry count: "@, d.records),
        counted_line("missing metadata count: "@, d.missing_records),
        counted_line("stale metadata count: "@, d.stale_records),
    ]
}

pub open spec fn config_lines(d: DoctorView) -> Seq<Seq<char>> {
    seq![
        "has managed block: "@ + yes_no(d.has_managed_block),
        "has include line: "@ + yes_no(d.has_include_line),
        counted_line("root Match block count: "@, d.match_blocks),
        counted_line("unsupported root Match block count: "@, d.unsupported_blocks),
        "unsupported root Match conditions: "@ + conditions_text(d.unsupported_conditions),
        "ssh available: "@ + yes_no(d.ssh_available),
        "ssh version: "@ + or_dash(d.ssh_version),
        "ssh error: "@ + or_dash(d.ssh_error),
    ]
}

/// The report, line by line.
pub open spec fn doctor_lines(d: DoctorView) -> Seq<Seq<char>> {
    place_lines(d) + count_lines(d) + config_lines(d)
}

fn write_place_lines(d: &DoctorReport) -> (r: Vec<String>)
    ensures
        strs(r@) == place_lines(d@),
{
    let mut lines: Vec<String> = Vec::new();
    lines.push(concat2("ssh dir: ", &d.ssh_dir));
    lines.push(concat2("root config: ", &d.root_config));
    lines.push(concat2("managed dir: ", &d.managed_dir));
    lines.push(concat2("app dir: ", &d.app_dir));
    lines.push(concat2("backups dir: ", &d.backups_dir));
    lines.push(concat2("state file: ", &d.state_file));
    assert(strs(lines@) =~= place_lines(d@));
    lines
}

fn write_count_lines(d: &DoctorReport) -> (r: Vec<String>)
    ensures
        strs(r@) == count_lines(d@),
{
    let mut lines: Vec<String> = Vec::new();
    lines.push(write_count("backup snapshot count: ", d.backup_snapshot_count));
    lines.push(write_count("backup retention limit: ", d.backup_retention_limit));
    lines.push(write_count("managed entry count: ", d.managed_entry_count));
    lines.push(write_count("state version: ", d.state_version as usize));
    lines.push(write_count("metadata entry count: ", d.metadata_entry_count));
    lines.push(write_count("missing metadata count: ", d.missing_metadata_count));
    lines.push(write_count("stale metadata count: ", d.stale_metadata_count));
    assert(strs(lines@) =~= count_lines(d@));
    lines
}

fn write_config_lines(d: &DoctorReport) -> (r: Vec<String>)
    ensures
        strs(r@) == config_lines(d@),
{
    let mut lines: Vec<String> = Vec::new();
    lines.push(concat2("has managed block: ", bool_text(d.has_managed_block)));
    lines.push(concat2("has include line: ", bool_text(d.has_include_line)));
    lines.push(write_count("root Match block count: ", d.root_match_block_count));
    lines.push(
        write_count("unsupported root Match block count: ", d.root_match_unsupported_block_count),
    );
    lines.push(
        concat2(
            "unsupported root Match conditions: ",
            &write_conditions(&d.root_match_unsupported_conditions),
        ),
    );
    lines.push(concat2("ssh available: ", bool_text(d.ssh_available)));
    lines.push(concat2("ssh version: ", &text_or_dash(&d.ssh_version)));
    lines.push(concat2("ssh error: ", &text_or_dash(&d.ssh_error)));
    assert(strs(lines@) =~= config_lines(d@));
    lines
}

impl DoctorReport {
    pub fn summary(&self) -> (r: String)
        ensures
            r@ == doctor_summary(self@),
    {
        proof {
            reveal_strlit("");
        }
        assert(""@ =~= Seq::<char>::empty());
        let head: String = concat4(
            "Doctor snapshot | ",
            &decimal_text(self.managed_entry_count),
            " managed | missing metadata ",
            &decimal_text(self.missing_metadata_count),
        );
        let all: String = concat3(
            &head,
            " | stale metadata ",
            &decimal_text(self.stale_metadata_count),
        );
        write_with_count(
            all,
            " | unsupported root Match ",
            self.root_match_unsupported_block_count,
            "",
        )
    }

    pub fn detail_lines(&self) -> (r: Vec<String>)
        ensures
            strs(r@) == doctor_lines(self@),
    {
        let mut lines: Vec<String> = write_place_lines(self);
        push_all(&mut lines, write_count_lines(self));
        push_all(&mut lines, write_config_lines(self));
        lines
    }
}

/// The report on files at `paths`: `content` is what the root config holds.
pub open spec fn doctor_report(
    paths: AppPaths,
    content: Option<Seq<char>>,
    es: Seq<ManagedView>,
    state: StateView,
    snapshots: int,
    version: Option<Seq<char>>,
    error: Option<Seq<char>>,
    windows: bool,
) -> DoctorView {
    let report = report_of(paths.root_config@, content, es, None, Seq::empty());
    DoctorView {
        ssh_dir: paths.ssh_dir@,
        root_config: paths.root_config@,
        managed_dir: paths.config_d_dir@,
        app_dir: paths.app_dir@,
        backups_dir: paths.backups_dir@,
        state_file: paths.state_file@,
        snapshots,
        retention_limit: 30,
        managed_entries: es.len() as int,
        state_version: state.version as int,
        records: state.entries.len() as int,
        missing_records: missing_count(state.entries, es, windows) as int,
        stale_records: unused_count(state.entries, es, state.entries.len(), windows) as int,
        has_managed_block: report.has_managed_block,
        has_include_line: report.has_include_line,
        match_blocks: report.match_blocks,
        unsupported_blocks: report.unsupported_blocks,
        unsupported_conditions: report.unsupported_conditions,
        ssh_available: error is None && version is Some,
        ssh_version: version,
        ssh_error: error,
    }
}

/// Puts the report together. `root_content` is what the root config holds, `None` where it
/// does not exist; `snapshot_count` is the number of snapshots that are kept.
pub fn collect_report(
    paths: &AppPaths,
    root_content: Option<&str>,
    entries: &[ManagedEntry],
    state: &AppState,
    snapshot_count: usize,
    probe: &OpenSshProbe,
    windows: bool,
) -> (r: DoctorReport)
    ensures
        r@ == doctor_report(
            *paths,
            opt_str(root_content),
            views(entries@),
            state@,
            snapshot_count as int,
            opt(probe.version),
            opt(probe.error),
            windows,
        ),
{
    let summary: StateSummary = summarize_state(state, entries, windows);
    let mut managed_block: bool = false;
    let mut include_line: bool = false;
    let mut blocks: Vec<RootMatchBlock> = Vec::new();
    match root_content {
        Some(c) => {
            managed_block = has_managed_block(c);
            include_line = has_include_line(c);
            blocks = extract_match_blocks(c);
        },
        None => {},
    }
    assert(views(blocks@).len() == blocks@.len());
    assert(views(entries@).len() == entries@.len());
    DoctorReport {
        ssh_dir: paths.ssh_dir.clone(),
        root_config: paths.root_config.clone(),
        managed_dir: paths.config_d_dir.clone(),
        app_dir: paths.app_dir.clone(),
        backups_dir: paths.backups_dir.clone(),
        state_file: paths.state_file.clone(),
        backup_snapshot_count: snapshot_count,
        backup_retention_limit: retention_limit(),
        managed_entry_count: entries.len(),
        state_version: state.version,
        metadata_entry_count: summary.metadata_entry_count,
        missing_metadata_count: summary.missing_metadata_count,
        stale_metadata_count: summary.stale_metadata_count,
        has_managed_block: managed_block,
        has_include_line: include_line,
        root_match_block_count: blocks.len(),
        root_match_unsupported_block_count: unsupported_match_block_count(&blocks),
        root_match_unsupported_conditions: unsupported_match_conditions(&blocks),
        ssh_available: probe.available(),
        ssh_version: copy_opt(&probe.version),
        ssh_error: copy_opt(&probe.error),
    }
}

} // verus!
