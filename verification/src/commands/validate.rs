//! The report on the root config and the managed entries.

#![verifier::loop_isolation(false)]

use vstd::prelude::*;

use crate::commands::cli::ValidateArgs;
use crate::commands::compare::compared_fields;
use crate::commands::init::{parse_root_config, root_parts};
use crate::config::describe::push_all;
use crate::config::match_header::RootMatchBlock;
use crate::config::model::{ManagedEntry, ManagedView};
use crate::config::root_config::{
    blocks_of, extract_match_blocks, unsupported_count, unsupported_match_block_count,
    unsupported_match_conditions, unsupported_of,
};
use crate::config::validate::{collect_entry_issues, issues_of};
use crate::layout::{
    AppPaths, MANAGED_BLOCK_END, MANAGED_BLOCK_START, has_include_line, has_managed_block,
    managed_block, names_managed_entries,
};
use crate::strings::{concat2, concat3, concat4, concat5, decimal_text, joined, text_or_dash};
use crate::text::{contains_text, decimal, join, lines, opt, opt_str, or_dash, strs, views};

verus! {

broadcast use crate::text::group_text;

/// What is to be checked besides the files.
#[derive(Debug, Clone, Copy, PartialEq, Eq)]
pub struct ValidateOptions {
    pub ssh_g: bool,
}

impl Default for ValidateOptions {
    fn default() -> (r: ValidateOptions)
        ensures
            !r.ssh_g,
    {
        ValidateOptions { ssh_g: false }
    }
}

impl ValidateOptions {
    pub fn from_args(args: &ValidateArgs) -> (r: ValidateOptions)
        ensures
            r.ssh_g == args.ssh_g,
    {
        ValidateOptions { ssh_g: args.ssh_g }
    }
}

/// What the check against the OpenSSH client came to.
#[derive(Debug, PartialEq, Eq)]
pub struct ExternalSshReport {
    pub ssh_available: bool,
    pub ssh_version: Option<String>,
    pub ssh_error: Option<String>,
    pub checked_target_count: usize,
    pub skipped_pattern_count: usize,
    pub skipped_invalid_target_count: usize,
    pub compared_fields: Vec<String>,
    pub root_match_influenced_mismatch_count: usize,
    pub root_influenced_mismatch_count: usize,
    pub managed_semantic_mismatch_count: usize,
    pub unclassified_mismatch_count: usize,
}

/// What an [`ExternalSshReport`] holds.
#[verifier::ext_equal]
pub struct ExternalView {
    pub ssh_available: bool,
    pub ssh_version: Option<Seq<char>>,
    pub ssh_error: Option<Seq<char>>,
    pub checked: int,
    pub skipped_patterns: int,
    pub skipped_invalid: int,
    pub compared_fields: Seq<Seq<char>>,
    pub root_match_influenced: int,
    pub root_influenced: int,
    pub managed_semantic: int,
    pub unclassified: int,
}

impl View for ExternalSshReport {
    type V = ExternalView;

    open spec fn view(&self) -> ExternalView {
        ExternalView {
            ssh_available: self.ssh_available,
            ssh_version: opt(self.ssh_version),
            ssh_error: opt(self.ssh_error),
            checked: self.checked_target_count as int,
            skipped_patterns: self.skipped_pattern_count as int,
            skipped_invalid: self.skipped_invalid_target_count as int,
            compared_fields: strs(self.compared_fields@),
            root_match_influenced: self.root_match_influenced_mismatch_count as int,
            root_influenced: self.root_influenced_mismatch_count as int,
            managed_semantic: self.managed_semantic_mismatch_count as int,
            unclassified: self.unclassified_mismatch_count as int,
        }
    }
}

/// The report on the configuration.
#[derive(Debug, PartialEq, Eq)]
pub struct ValidationReport {
    pub managed_entry_count: usize,
    pub root_config_exists: bool,
    pub has_managed_block: bool,
    pub has_include_line: bool,
    pub root_match_block_count: usize,
    pub root_match_unsupported_block_count: usize,
    pub root_match_unsupported_conditions: Vec<String>,
    pub issues: Vec<String>,
    pub external_ssh: Option<ExternalSshReport>,
}

/// What a [`ValidationReport`] holds.
#[verifier::ext_equal]
pub struct ReportView {
    pub managed_entries: int,
    pub root_config_exists: bool,
    pub has_managed_block: bool,
    pub has_include_line: bool,
    pub match_blocks: int,
    pub unsupported_blocks: int,
    pub unsupported_conditions: Seq<Seq<char>>,
    pub issues: Seq<Seq<char>>,
    pub external_ssh: Option<ExternalView>,
}

pub open spec fn opt_external(r: Option<ExternalSshReport>) -> Option<ExternalView> {
    match r {
        Some(x) => Some(x@),
        None => None,
    }
}

impl View for ValidationReport {
    type V = ReportView;

    open spec fn view(&self) -> ReportView {
        ReportView {
            managed_entries: self.managed_entry_count as int,
            root_config_exists: self.root_config_exists,
            has_managed_block: self.has_managed_block,
            has_include_line: self.has_include_line,
            match_blocks: self.root_match_block_count as int,
            unsupported_blocks: self.root_match_unsupported_block_count as int,
            unsupported_conditions: strs(self.root_match_unsupported_conditions@),
            issues: strs(self.issues@),
            external_ssh: opt_external(self.external_ssh),
        }
    }
}

// ---------------------------------------------------------------------------
// The report in words
// ---------------------------------------------------------------------------

pub open spec fn yes_no(b: bool) -> Seq<char> {
    if b {
        "true"@
    } else {
        "false"@
    }
}

pub fn bool_text(b: bool) -> (r: &'static str)
    ensures
        r@ == yes_no(b),
{
    if b {
        "true"
    } else {
        "false"
    }
}

/// Conditions on one line.
pub open spec fn conditions_text(conditions: Seq<Seq<char>>) -> Seq<char> {
    if conditions.len() == 0 {
        "-"@
    } else {
        join(conditions, " | "@)
    }
}

pub fn write_conditions(conditions: &Vec<String>) -> (r: String)
    ensures
        r@ == conditions_text(strs(conditions@)),
{
    if conditions.len() == 0 {
        "-".to_string()
    } else {
        joined(conditions, " | ")
    }
}

/// `s` with a part behind it where there is something to count.
pub open spec fn with_count(s: Seq<char>, before: Seq<char>, n: int, after: Seq<char>) -> Seq<char> {
    if n > 0 {
        s + before + decimal(n as nat) + after
    } else {
        s
    }
}

pub open spec fn report_summary(r: ReportView) -> Seq<char> {
    if r.issues.len() > 0 {
        "Validation failed with "@ + decimal(r.issues.len()) + " issue(s)"@
    } else {
        let entries = "Validation passed | "@ + decimal(r.managed_entries as nat)
            + " managed entr"@ + (if r.managed_entries == 1 {
            "y"@
        } else {
            "ies"@
        }) + " checked"@;
        let targets = match r.external_ssh {
            Some(x) => entries + " | ssh -G "@ + decimal(x.checked as nat) + " target(s)"@,
            None => entries,
        };
        with_count(
            with_count(targets, " | root Match blocks "@, r.match_blocks, " detected"@),
            " | unsupported root Match "@,
            r.unsupported_blocks,
            Seq::empty(),
        )
    }
}

pub open spec fn counted_line(label: Seq<char>, n: int) -> Seq<char> {
    label + decimal(n as nat)
}

pub open spec fn root_lines(r: ReportView) -> Seq<Seq<char>> {
    seq![
        counted_line("managed entries checked: "@, r.managed_entries),
        "root config exists: "@ + yes_no(r.root_config_exists),
        "has managed block: "@ + yes_no(r.has_managed_block),
        "has include line: "@ + yes_no(r.has_include_line),
        counted_line("root Match block count: "@, r.match_blocks),
        counted_line("unsupported root Match block count: "@, r.unsupported_blocks),
        "unsupported root Match conditions: "@ + conditions_text(r.unsupported_conditions),
    ]
}

pub open spec fn external_lines(x: ExternalView) -> Seq<Seq<char>> {
    seq![
        Seq::<char>::empty(),
        "External ssh -G check:"@,
        "ssh available: "@ + yes_no(x.ssh_available),
        "ssh version: "@ + or_dash(x.ssh_version),
    ] + (match x.ssh_error {
        Some(e) => seq!["ssh error: "@ + e],
        None => Seq::empty(),
    }) + seq![
        counted_line("checked exact targets: "@, x.checked),
        counted_line("skipped pattern-only entries: "@, x.skipped_patterns),
        counted_line("skipped invalid exact targets: "@, x.skipped_invalid),
        "compared fields: "@ + join(x.compared_fields, ", "@),
        counted_line("root Match influenced mismatches: "@, x.root_match_influenced),
        counted_line("root/global influenced mismatches: "@, x.root_influenced),
        counted_line("managed semantic mismatches: "@, x.managed_semantic),
        counted_line("unclassified mismatches: "@, x.unclassified),
    ]
}

pub open spec fn issue_lines(issues: Seq<Seq<char>>) -> Seq<Seq<char>> {
    if issues.len() == 0 {
        seq![Seq::<char>::empty(), "No validation issues found."@]
    } else {
        seq![Seq::<char>::empty(), "Issues:"@] + issues.map_values(|i: Seq<char>| "- "@ + i)
    }
}

/// The report, line by line.
pub open spec fn report_lines(r: ReportView) -> Seq<Seq<char>> {
    root_lines(r) + (match r.external_ssh {
        Some(x) => external_lines(x),
        None => Seq::empty(),
    }) + issue_lines(r.issues)
}

pub fn write_count(label: &str, n: usize) -> (r: String)
    ensures
        r@ == counted_line(label@, n as int),
{
    concat2(label, &decimal_text(n))
}

pub fn write_with_count(s: String, before: &str, n: usize, after: &str) -> (r: String)
    ensures
        r@ == with_count(s@, before@, n as int, after@),
{
    if n > 0 {
        concat4(&s, before, &decimal_text(n), after)
    } else {
        s
    }
}

fn write_external_lines(x: &ExternalSshReport) -> (r: Vec<String>)
    ensures
        strs(r@) == external_lines(x@),
{
    let mut lines: Vec<String> = Vec::new();
    lines.push(String::new());
    lines.push("External ssh -G check:".to_string());
    lines.push(concat2("ssh available: ", bool_text(x.ssh_available)));
    lines.push(concat2("ssh version: ", &text_or_dash(&x.ssh_version)));
    match &x.ssh_error {
        Some(e) => {
            lines.push(concat2("ssh error: ", e));
        },
        None => {},
    }
    lines.push(write_count("checked exact targets: ", x.checked_target_count));
    lines.push(write_count("skipped pattern-only entries: ", x.skipped_pattern_count));
    lines.push(write_count("skipped invalid exact targets: ", x.skipped_invalid_target_count));
    lines.push(concat2("compared fields: ", &joined(&x.compared_fields, ", ")));
    lines.push(
        write_count("root Match influenced mismatches: ", x.root_match_influenced_mismatch_count),
    );
    lines.push(
        write_count("root/global influenced mismatches: ", x.root_influenced_mismatch_count),
    );
    lines.push(write_count("managed semantic mismatches: ", x.managed_semantic_mismatch_count));
    lines.push(write_count("unclassified mismatches: ", x.unclassified_mismatch_count));
    assert(strs(lines@) =~= external_lines(x@));
    lines
}

fn write_issue_lines(issues: &Vec<String>) -> (r: Vec<String>)
    ensures
        strs(r@) == issue_lines(strs(issues@)),
{
    let mut lines: Vec<String> = Vec::new();
    lines.push(String::new());
    if issues.len() == 0 {
        lines.push("No validation issues found.".to_string());
        assert(strs(lines@) =~= issue_lines(strs(issues@)));
        return lines;
    }
    lines.push("Issues:".to_string());
    let ghost all = strs(issues@);
    let ghost head = seq![Seq::<char>::empty(), "Issues:"@];
    let mut i: usize = 0;
    while i < issues.len()
        invariant
            i <= issues.len(),
            all == strs(issues@),
            strs(lines@) =~= head + all.take(i as int).map_values(|i: Seq<char>| "- "@ + i),
        decreases issues.len() - i,
    {
        lines.push(concat2("- ", &issues[i]));
        i += 1;
    }
    assert(all.take(all.len() as int) =~= all);
    lines
}

impl ValidationReport {
    pub fn is_ok(&self) -> (r: bool)
        ensures
            r == (self@.issues.len() == 0),
    {
        self.issues.len() == 0
    }

    pub fn summary(&self) -> (r: String)
        ensures
            r@ == report_summary(self@),
    {
        if !self.is_ok() {
            return concat3(
                "Validation failed with ",
                &decimal_text(self.issues.len()),
                " issue(s)",
            );
        }
        let ending: &str = if self.managed_entry_count == 1 {
            "y"
        } else {
            "ies"
        };
        let entries: String = concat5(
            "Validation passed | ",
            &decimal_text(self.managed_entry_count),
            " managed entr",
            ending,
            " checked",
        );
        let targets: String = match &self.external_ssh {
            Some(x) => concat4(
                &entries,
                " | ssh -G ",
                &decimal_text(x.checked_target_count),
                " target(s)",
            ),
            None => entries,
        };
        let blocks: String = write_with_count(
            targets,
            " | root Match blocks ",
            self.root_match_block_count,
            " detected",
        );
        proof {
            reveal_strlit("");
        }
        let r: String = write_with_count(
            blocks,
            " | unsupported root Match ",
            self.root_match_unsupported_block_count,
            "",
        );
        assert(""@ =~= Seq::<char>::empty());
        r
    }

    pub fn detail_lines(&self) -> (r: Vec<String>)
        ensures
            strs(r@) == report_lines(self@),
    {
        let mut lines: Vec<String> = Vec::new();
        lines.push(write_count("managed entries checked: ", self.managed_entry_count));
        lines.push(concat2("root config exists: ", bool_text(self.root_config_exists)));
        lines.push(concat2("has managed block: ", bool_text(self.has_managed_block)));
        lines.push(concat2("has include line: ", bool_text(self.has_include_line)));
        lines.push(write_count("root Match block count: ", self.root_match_block_count));
        lines.push(
            write_count(
                "unsupported root Match block count: ",
                self.root_match_unsupported_block_count,
            ),
        );
        lines.push(
            concat2(
                "unsupported root Match conditions: ",
                &write_conditions(&self.root_match_unsupported_conditions),
            ),
        );
        assert(strs(lines@) =~= root_lines(self@));
        match &self.external_ssh {
            Some(x) => {
                push_all(&mut lines, write_external_lines(x));
            },
            None => {},
        }
        push_all(&mut lines, write_issue_lines(&self.issues));
        assert(strs(lines@) =~= report_lines(self@));
        lines
    }
}

// ---------------------------------------------------------------------------
// The report on the files
// ---------------------------------------------------------------------------

/// The issues of the entries, each with the file it is in.
pub open spec fn entry_file_issues(es: Seq<ManagedView>) -> Seq<Seq<char>>
    decreases es.len(),
{
    if es.len() == 0 {
        Seq::empty()
    } else {
        entry_file_issues(es.drop_last()) + issues_of(es.last().entry).map_values(
            |i: Seq<char>| es.last().path + ": "@ + i,
        )
    }
}

/// How many of the entries have the order.
pub open spec fn order_uses(es: Seq<ManagedView>, order: u16) -> nat
    decreases es.len(),
{
    if es.len() == 0 {
        0
    } else {
        order_uses(es.drop_last(), order) + (if es.last().order == order {
            1nat
        } else {
            0
        })
    }
}

/// One issue for each order that more than one entry has, where the second of them stands.
pub open spec fn order_issues(es: Seq<ManagedView>) -> Seq<Seq<char>>
    decreases es.len(),
{
    if es.len() == 0 {
        Seq::empty()
    } else {
        let before = order_issues(es.drop_last());
        if order_uses(es.drop_last(), es.last().order) == 1 {
            before.push(
                "order "@ + decimal(es.last().order as nat)
                    + " is used by more than one managed entry"@,
            )
        } else {
            before
        }
    }
}

/// The root config takes the managed entries in more than once.
pub open spec fn is_anchored_twice(content: Seq<char>) -> bool {
    root_parts(content) matches Ok(p) && p.anchor_count > 1
}

/// The issues of the root config.
pub open spec fn root_issues(path: Seq<char>, content: Option<Seq<char>>) -> Seq<Seq<char>> {
    match content {
        Some(c) => (if has_anchor(c) {
            Seq::empty()
        } else {
            seq!["root config is missing `Include ~/.ssh/config.d/*`: "@ + path]
        }) + (if is_anchored_twice(c) {
            seq!["root config contains multiple include anchors: "@ + path]
        } else {
            Seq::empty()
        }),
        None => seq!["root config does not exist: "@ + path],
    }
}

pub open spec fn has_block(content: Seq<char>) -> bool {
    contains_text(content, MANAGED_BLOCK_START@) && contains_text(content, MANAGED_BLOCK_END@)
}

/// The root config takes the managed entries in.
pub open spec fn has_anchor(content: Seq<char>) -> bool {
    has_block(content) || names_managed_entries(content)
}

/// The report on a root config with `content`, `None` where there is none, and on the
/// managed entries; with what the check against the client came to, and its issues last.
pub open spec fn report_of(
    path: Seq<char>,
    content: Option<Seq<char>>,
    es: Seq<ManagedView>,
    external: Option<ExternalView>,
    external_issues: Seq<Seq<char>>,
) -> ReportView {
    let blocks = match content {
        Some(c) => blocks_of(c),
        None => Seq::empty(),
    };
    ReportView {
        managed_entries: es.len() as int,
        root_config_exists: content is Some,
        has_managed_block: content matches Some(c) && has_block(c),
        has_include_line: content matches Some(c) && names_managed_entries(c),
        match_blocks: blocks.len() as int,
        unsupported_blocks: unsupported_count(blocks) as int,
        unsupported_conditions: unsupported_of(blocks),
        issues: root_issues(path, content) + entry_file_issues(es) + order_issues(es)
            + external_issues,
        external_ssh: external,
    }
}

fn collect_entry_file_issues(entries: &[ManagedEntry]) -> (r: Vec<String>)
    ensures
        strs(r@) == entry_file_issues(views(entries@)),
{
    let ghost es = views(entries@);
    let mut out: Vec<String> = Vec::new();
    let mut i: usize = 0;
    while i < entries.len()
        invariant
            i <= entries.len(),
            es == views(entries@),
            strs(out@) == entry_file_issues(es.take(i as int)),
        decreases entries.len() - i,
    {
        assert(es.take(i + 1).drop_last() =~= es.take(i as int));
        let e: &ManagedEntry = &entries[i];
        assert(es[i as int] == e@);
        assert(es.take(i + 1).last() == e@);
        let found: Vec<String> = collect_entry_issues(&e.entry);
        let ghost all = strs(found@);
        let ghost before = strs(out@);
        let mut j: usize = 0;
        while j < found.len()
            invariant
                j <= found.len(),
                all == strs(found@),
                strs(out@) =~= before + all.take(j as int).map_values(
                    |i: Seq<char>| e@.path + ": "@ + i,
                ),
            decreases found.len() - j,
        {
            out.push(concat3(&e.path, ": ", &found[j]));
            j += 1;
        }
        assert(all.take(all.len() as int) =~= all);
        assert(all.map_values(|i: Seq<char>| e@.path + ": "@ + i) =~= issues_of(
            es.take(i + 1).last().entry,
        ).map_values(|k: Seq<char>| es.take(i + 1).last().path + ": "@ + k));
        i += 1;
    }
    assert(es.take(es.len() as int) =~= es);
    out
}

fn collect_order_issues(entries: &[ManagedEntry]) -> (r: Vec<String>)
    ensures
        strs(r@) == order_issues(views(entries@)),
{
    let ghost es = views(entries@);
    let mut out: Vec<String> = Vec::new();
    let mut i: usize = 0;
    while i < entries.len()
        invariant
            i <= entries.len(),
            es == views(entries@),
            strs(out@) == order_issues(es.take(i as int)),
        decreases entries.len() - i,
    {
        let order: u16 = entries[i].order;
        let mut uses: usize = 0;
        let mut j: usize = 0;
        while j < i
            invariant
                j <= i < entries.len(),
                es == views(entries@),
                uses <= j,
                uses == order_uses(es.take(j as int), order),
            decreases i - j,
        {
            assert(es.take(j + 1).drop_last() =~= es.take(j as int));
            assert(es.take(j + 1).last() == entries@[j as int]@);
            if entries[j].order == order {
                uses += 1;
            }
            j += 1;
        }
        assert(es.take(i + 1).drop_last() =~= es.take(i as int));
        assert(es.take(i + 1).last() == entries@[i as int]@);
        if uses == 1 {
            out.push(
                concat3(
                    "order ",
                    &decimal_text(order as usize),
                    " is used by more than one managed entry",
                ),
            );
        }
        i += 1;
    }
    assert(es.take(es.len() as int) =~= es);
    out
}

fn is_anchored_more_than_once(content: &str) -> (r: bool)
    ensures
        r == is_anchored_twice(content@),
{
    match parse_root_config(content) {
        Ok(p) => p.anchor_count > 1,
        Err(_) => false,
    }
}

/// Puts the report together. `root_content` is what the root config holds, `None` where it
/// does not exist; `external` is what the check against the client came to, with its issues.
pub fn collect_report(
    paths: &AppPaths,
    root_content: Option<&str>,
    entries: &[ManagedEntry],
    external: Option<(ExternalSshReport, Vec<String>)>,
) -> (r: ValidationReport)
    ensures
        r@ == report_of(
            paths.root_config@,
            opt_str(root_content),
            views(entries@),
            match external {
                Some(x) => Some(x.0@),
                None => None,
            },
            match external {
                Some(x) => strs(x.1@),
                None => Seq::empty(),
            },
        ),
{
    let mut issues: Vec<String> = Vec::new();
    let mut managed_block: bool = false;
    let mut include_line: bool = false;
    let mut blocks: Vec<RootMatchBlock> = Vec::new();
    match root_content {
        Some(c) => {
            managed_block = has_managed_block(c);
            include_line = has_include_line(c);
            blocks = extract_match_blocks(c);
            if !(managed_block || include_line) {
                issues.push(
                    concat2(
                        "root config is missing `Include ~/.ssh/config.d/*`: ",
                        &paths.root_config,
                    ),
                );
            }
            if is_anchored_more_than_once(c) {
                issues.push(
                    concat2("root config contains multiple include anchors: ", &paths.root_config),
                );
            }
        },
        None => {
            issues.push(concat2("root config does not exist: ", &paths.root_config));
        },
    }
    assert(strs(issues@) =~= root_issues(paths.root_config@, opt_str(root_content)));
    push_all(&mut issues, collect_entry_file_issues(entries));
    push_all(&mut issues, collect_order_issues(entries));
    let external_ssh: Option<ExternalSshReport> = match external {
        Some((x, more)) => {
            push_all(&mut issues, more);
            Some(x)
        },
        None => None,
    };
    let root_match_block_count: usize = blocks.len();
    assert(views(blocks@).len() == blocks@.len());
    let r = ValidationReport {
        managed_entry_count: entries.len(),
        root_config_exists: root_content.is_some(),
        has_managed_block: managed_block,
        has_include_line: include_line,
        root_match_block_count,
        root_match_unsupported_block_count: unsupported_match_block_count(&blocks),
        root_match_unsupported_conditions: unsupported_match_conditions(&blocks),
        issues,
        external_ssh,
    };
    assert(views(entries@).len() == entries@.len());
    assert(r@.issues =~= report_of(
        paths.root_config@,
        opt_str(root_content),
        views(entries@),
        match external {
            Some(x) => Some(x.0@),
            None => None,
        },
        match external {
            Some(x) => strs(x.1@),
            None => Seq::empty(),
        },
    ).issues);
    r
}

/// What is printed of a report that found issues.
pub fn failure_message(report: &ValidationReport) -> (r: String)
    ensures
        r@ == "validation failed with "@ + decimal(report@.issues.len()) + " issue(s)"@,
{
    concat3("validation failed with ", &decimal_text(report.issues.len()), " issue(s)")
}

proof fn lemma_order_uses(es: Seq<ManagedView>, order: u16)
    ensures
        order_uses(es, order) > 0 <==> exists|i: int| 0 <= i < es.len() && (#[trigger] es[i]).order == order,
        order_uses(es, order) <= es.len(),
    decreases es.len(),
{
    if es.len() > 0 {
        let head = es.drop_last();
        lemma_order_uses(head, order);
        if order_uses(head, order) > 0 {
            let i = choose|i: int| 0 <= i < head.len() && (#[trigger] head[i]).order == order;
            assert(es[i].order == order);
        }
        if es.last().order == order {
            assert(es[es.len() - 1].order == order);
        }
        if exists|i: int| 0 <= i < es.len() && (#[trigger] es[i]).order == order {
            let i = choose|i: int| 0 <= i < es.len() && (#[trigger] es[i]).order == order;
            if i < head.len() {
                assert(head[i].order == order);
            }
        }
    }
}

/// The check of the files is silent about the orders only where no two entries share one.
pub proof fn law_shared_orders_are_told(es: Seq<ManagedView>)
    ensures
        order_issues(es).len() == 0 <==> forall|i: int, j: int|
            0 <= i < j < es.len() ==> (#[trigger] es[i]).order != (#[trigger] es[j]).order,
    decreases es.len(),
{
    if es.len() > 0 {
        let head = es.drop_last();
        let top = es.last();
        law_shared_orders_are_told(head);
        lemma_order_uses(head, top.order);
        if order_issues(es).len() == 0 {
            assert forall|i: int, j: int| 0 <= i < j < es.len() implies (#[trigger] es[i]).order != (
            #[trigger] es[j]).order by {
                if j < head.len() {
                    assert(head[i].order != head[j].order);
                } else if es[i].order == top.order {
                    assert(head[i].order == top.order);
                    lemma_shared_order_is_told(head, top.order);
                }
            }
        }
        if forall|i: int, j: int|
            0 <= i < j < es.len() ==> (#[trigger] es[i]).order != (#[trigger] es[j]).order {
            assert forall|i: int, j: int| 0 <= i < j < head.len() implies (#[trigger] head[i]).order
                != (#[trigger] head[j]).order by {
                assert(es[i].order != es[j].order);
            }
            assert forall|i: int| 0 <= i < head.len() implies (#[trigger] head[i]).order
                != top.order by {
                assert(es[i].order != es[es.len() - 1].order);
            }
        }
    }
}

proof fn lemma_shared_order_is_told(es: Seq<ManagedView>, order: u16)
    ensures
        order_uses(es, order) > 1 ==> order_issues(es).len() > 0,
    decreases es.len(),
{
    if es.len() > 0 {
        lemma_shared_order_is_told(es.drop_last(), order);
    }
}

} // verus!
