//! The check of the managed entries against the OpenSSH client.

#![verifier::loop_isolation(false)]

use vstd::prelude::*;

use crate::commands::compare::{
    FindingsView, Resolutions, ResolutionsView, SshFindings, compare_resolved_target,
    compared_field_labels, compared_fields, compared_target, counted, opt_config, with_issue,
};
use crate::commands::validate::{ExternalSshReport, ExternalView};
use crate::config::match_header::{BlockView, RootMatchBlock};
use crate::config::model::{EntryKind, ManagedEntry, ManagedView, ResolvedEntry, ResolvedView};
use crate::config::openssh::{OpenSshProbe, SshResolvedConfig};
use crate::config::render::{directives_of, render_directives, render_host_entry};
use crate::config::resolve::{
    MachineFacts, OptionsView, RootMatchResolveOptions, portable_all, resolution, resolution_may_be,
    resolve_target_with_root_matches_and_options, resolved, start,
};
use crate::config::validate::{collect_entry_issues, issues_of};
use crate::error::ConfigError;
use crate::strings::{chars_of, concat2, concat4, concat5, copy_opt};
use crate::text::{opt, strs, views};

verus! {

broadcast use crate::text::group_text;

// ---------------------------------------------------------------------------
// Configs for the client
// ---------------------------------------------------------------------------

/// The texts of the blocks on one side of the managed entries, each ended by a line end.
pub open spec fn blocks_text(bs: Seq<BlockView>, before: bool, newline: Seq<char>) -> Seq<char>
    decreases bs.len(),
{
    if bs.len() == 0 {
        Seq::empty()
    } else {
        let head = blocks_text(bs.drop_last(), before, newline);
        if bs.last().before_anchor == before {
            head + ended(bs.last().raw, newline)
        } else {
            head
        }
    }
}

/// A text with a line end behind it where it has none.
pub open spec fn ended(raw: Seq<char>, newline: Seq<char>) -> Seq<char> {
    if raw.len() > 0 && (raw.last() == '\n' || raw.last() == '\r') {
        raw
    } else {
        raw + newline
    }
}

pub open spec fn entries_text(es: Seq<ManagedView>, newline: Seq<char>) -> Seq<char>
    decreases es.len(),
{
    if es.len() == 0 {
        Seq::empty()
    } else {
        entries_text(es.drop_last(), newline) + render_directives(
            directives_of(es.last().entry),
            newline,
        ) + newline
    }
}

/// A config of the managed entries between the `Match` blocks that stand before and behind
/// them in the root config.
pub open spec fn synthetic_config(
    es: Seq<ManagedView>,
    bs: Seq<BlockView>,
    newline: Seq<char>,
) -> Seq<char> {
    blocks_text(bs, true, newline) + entries_text(es, newline) + blocks_text(bs, false, newline)
}

fn append_root_match_block(content: &mut String, block: &RootMatchBlock, newline: &str)
    ensures
        final(content)@ == old(content)@ + ended(block@.raw, newline@),
{
    let v: Vec<char> = chars_of(&block.raw);
    content.push_str(&block.raw);
    if !(v.len() > 0 && (v[v.len() - 1] == '\n' || v[v.len() - 1] == '\r')) {
        content.push_str(newline);
    }
    assert(content@ =~= old(content)@ + ended(block@.raw, newline@));
}

fn append_root_match_blocks(
    content: &mut String,
    blocks: &[RootMatchBlock],
    before: bool,
    newline: &str,
)
    ensures
        final(content)@ == old(content)@ + blocks_text(views(blocks@), before, newline@),
{
    let ghost start = content@;
    let ghost bs = views(blocks@);
    let mut i: usize = 0;
    assert(start + Seq::<char>::empty() =~= start);
    while i < blocks.len()
        invariant
            i <= blocks.len(),
            bs == views(blocks@),
            content@ =~= start + blocks_text(bs.take(i as int), before, newline@),
        decreases blocks.len() - i,
    {
        assert(bs.take(i + 1).drop_last() =~= bs.take(i as int));
        assert(bs.take(i + 1).last() == blocks[i as int]@);
        if blocks[i].appears_before_managed_anchor == before {
            append_root_match_block(content, &blocks[i], newline);
        }
        i += 1;
    }
    assert(bs.take(bs.len() as int) =~= bs);
}

/// The config with which the client is asked what the managed entries, with the given
/// `Match` blocks, resolve to.
pub fn synthetic_ssh_config(
    entries: &[ManagedEntry],
    root_match_blocks: &[RootMatchBlock],
    newline: &str,
) -> (r: String)
    ensures
        r@ == synthetic_config(views(entries@), views(root_match_blocks@), newline@),
{
    let ghost es = views(entries@);
    let ghost bs = views(root_match_blocks@);
    let mut content: String = String::new();
    append_root_match_blocks(&mut content, root_match_blocks, true, newline);
    let ghost head = content@;
    assert(head =~= blocks_text(bs, true, newline@));
    let mut i: usize = 0;
    while i < entries.len()
        invariant
            i <= entries.len(),
            es == views(entries@),
            content@ =~= head + entries_text(es.take(i as int), newline@),
        decreases entries.len() - i,
    {
        assert(es.take(i + 1).drop_last() =~= es.take(i as int));
        assert(es.take(i + 1).last() == entries[i as int]@);
        content.push_str(&render_host_entry(&entries[i].entry, newline));
        content.push_str(newline);
        i += 1;
    }
    assert(es.take(es.len() as int) =~= es);
    append_root_match_blocks(&mut content, root_match_blocks, false, newline);
    content
}

// ---------------------------------------------------------------------------
// Targets
// ---------------------------------------------------------------------------

/// The entries for one host, by their names.
pub open spec fn exact_targets(es: Seq<ManagedView>) -> Seq<Seq<char>>
    decreases es.len(),
{
    if es.len() == 0 {
        Seq::empty()
    } else {
        let before = exact_targets(es.drop_last());
        if es.last().entry.kind() == EntryKind::Host {
            before.push(es.last().entry.primary())
        } else {
            before
        }
    }
}

/// The targets that the client can be asked for.
pub fn exact_target_names(entries: &[ManagedEntry]) -> (r: Vec<String>)
    ensures
        strs(r@) == exact_targets(views(entries@)),
        r@.len() <= entries@.len(),
{
    let ghost es = views(entries@);
    let mut out: Vec<String> = Vec::new();
    let mut i: usize = 0;
    while i < entries.len()
        invariant
            i <= entries.len(),
            es == views(entries@),
            out@.len() <= i,
            strs(out@) == exact_targets(es.take(i as int)),
        decreases entries.len() - i,
    {
        assert(es.take(i + 1).drop_last() =~= es.take(i as int));
        assert(es.take(i + 1).last() == entries[i as int]@);
        match entries[i].entry.kind() {
            EntryKind::Host => {
                out.push(entries[i].entry.primary_pattern().to_string());
            },
            EntryKind::Pattern => {},
        }
        i += 1;
    }
    assert(es.take(es.len() as int) =~= es);
    out
}

/// What is to be done for a target: it is not asked for where the preview of it fails or is
/// not valid.
#[derive(Debug)]
pub enum TargetPlan {
    Unresolved(String),
    Invalid,
    Check(ResolvedEntry),
}

#[verifier::ext_equal]
pub enum PlanView {
    Unresolved(Seq<char>),
    Invalid,
    Check(ResolvedView),
}

impl View for TargetPlan {
    type V = PlanView;

    open spec fn view(&self) -> PlanView {
        match self {
            TargetPlan::Unresolved(e) => PlanView::Unresolved(e@),
            TargetPlan::Invalid => PlanView::Invalid,
            TargetPlan::Check(r) => PlanView::Check(r@),
        }
    }
}

/// What the preview of a target is made with: a shell on this machine.
pub open spec fn check_options(
    local_user: Seq<char>,
    local_networks: Seq<Seq<char>>,
    ssh_version: Option<Seq<char>>,
) -> OptionsView {
    OptionsView {
        local_user: if local_user.len() == 0 {
            None
        } else {
            Some(local_user)
        },
        current_user: None,
        initial_tag: None,
        ssh_version,
        session_type: Some("shell"@),
        command: Some(Seq::empty()),
        local_networks,
        is_canonical: false,
        is_final: true,
    }
}

pub open spec fn plan_of(resolution: Result<ResolvedView, Seq<char>>, target: Seq<char>) -> PlanView {
    match resolution {
        Err(e) => PlanView::Unresolved(
            "failed to resolve managed preview for `"@ + target + "` before ssh -G check: "@ + e,
        ),
        Ok(r) => if issues_of(r.merged_entry).len() > 0 {
            PlanView::Invalid
        } else {
            PlanView::Check(r)
        },
    }
}

/// Says by the preview of a target whether the client is to be asked for it.
pub fn judge_preview(preview: Result<ResolvedEntry, ConfigError>, target: &str) -> (r: TargetPlan)
    ensures
        r@ == plan_of(resolved(preview), target@),
{
    match preview {
        Err(e) => TargetPlan::Unresolved(
            concat4(
                "failed to resolve managed preview for `",
                target,
                "` before ssh -G check: ",
                &e.text(),
            ),
        ),
        Ok(r) => {
            let issues: Vec<String> = collect_entry_issues(&r.merged_entry);
            assert(strs(issues@).len() == issues@.len());
            if issues.len() > 0 {
                TargetPlan::Invalid
            } else {
                TargetPlan::Check(r)
            }
        },
    }
}

/// What may be planned for a target, whatever the machine.
pub open spec fn plan_may_be(
    es: Seq<ManagedView>,
    target: Seq<char>,
    bs: Seq<BlockView>,
    o: OptionsView,
    plan: PlanView,
) -> bool {
    exists|x: Result<ResolvedView, Seq<char>>| #[trigger]
        resolution_may_be(es, target, bs, o, x) && plan == plan_of(x, target)
}

/// Makes the preview of a target and says whether the client is to be asked for it.
pub fn plan_target(
    entries: &[ManagedEntry],
    target: &str,
    root_match_blocks: &[RootMatchBlock],
    facts: &MachineFacts,
) -> (r: TargetPlan)
    ensures
        ({
            let es = views(entries@);
            let bs = views(root_match_blocks@);
            let o = check_options(
                facts.local_user@,
                strs(facts.local_networks@),
                opt(facts.ssh_version),
            );
            &&& plan_may_be(es, target@, bs, o, r@)
            &&& portable_all(es, target@, bs, o) ==> r@ == plan_of(
                resolution(es, target@, bs, o),
                target@,
            )
        }),
{
    proof {
        reveal_strlit("");
    }
    let local_user: Option<&str> = if facts.local_user.as_str().is_empty() {
        None
    } else {
        Some(facts.local_user.as_str())
    };
    let ssh_version: Option<&str> = match &facts.ssh_version {
        Some(v) => Some(v.as_str()),
        None => None,
    };
    let options = RootMatchResolveOptions {
        local_user,
        current_user: None,
        initial_tag: None,
        ssh_version,
        session_type: Some("shell"),
        command: Some(""),
        local_networks: facts.local_networks.as_slice(),
        is_canonical: false,
        is_final: true,
    };
    assert(""@ =~= Seq::<char>::empty());
    assert(options@ =~= check_options(
        facts.local_user@,
        strs(facts.local_networks@),
        opt(facts.ssh_version),
    ));
    let preview: Result<ResolvedEntry, ConfigError> = resolve_target_with_root_matches_and_options(
        entries,
        target,
        root_match_blocks,
        options,
    );
    assert(resolution_may_be(
        views(entries@),
        target@,
        views(root_match_blocks@),
        options@,
        resolved(preview),
    ));
    judge_preview(preview, target)
}

/// What the client said of a target: with the root config, and, where that went well, with
/// the managed entries alone and with them and the `Match` blocks.
#[derive(Debug)]
pub struct TargetRuns {
    pub root: Result<SshResolvedConfig, ConfigError>,
    pub managed: Option<Result<SshResolvedConfig, ConfigError>>,
    pub matched: Option<Result<SshResolvedConfig, ConfigError>>,
}

/// What became of a target.
#[derive(Debug)]
pub enum TargetOutcome {
    Unresolved(String),
    Invalid,
    Checked(ResolvedEntry, TargetRuns),
}

#[verifier::ext_equal]
pub struct RunsView {
    pub root: Result<Seq<(Seq<char>, Seq<char>)>, Seq<char>>,
    pub managed: Option<Result<Seq<(Seq<char>, Seq<char>)>, Seq<char>>>,
    pub matched: Option<Result<Seq<(Seq<char>, Seq<char>)>, Seq<char>>>,
}

pub open spec fn run_view(r: Result<SshResolvedConfig, ConfigError>) -> Result<
    Seq<(Seq<char>, Seq<char>)>,
    Seq<char>,
> {
    match r {
        Ok(c) => Ok(c@),
        Err(e) => Err(e@),
    }
}

pub open spec fn opt_run(r: Option<Result<SshResolvedConfig, ConfigError>>) -> Option<
    Result<Seq<(Seq<char>, Seq<char>)>, Seq<char>>,
> {
    match r {
        Some(x) => Some(run_view(x)),
        None => None,
    }
}

impl View for TargetRuns {
    type V = RunsView;

    open spec fn view(&self) -> RunsView {
        RunsView {
            root: run_view(self.root),
            managed: opt_run(self.managed),
            matched: opt_run(self.matched),
        }
    }
}

#[verifier::ext_equal]
pub enum OutcomeView {
    Unresolved(Seq<char>),
    Invalid,
    Checked(ResolvedView, RunsView),
}

impl View for TargetOutcome {
    type V = OutcomeView;

    open spec fn view(&self) -> OutcomeView {
        match self {
            TargetOutcome::Unresolved(e) => OutcomeView::Unresolved(e@),
            TargetOutcome::Invalid => OutcomeView::Invalid,
            TargetOutcome::Checked(r, runs) => OutcomeView::Checked(r@, runs@),
        }
    }
}

/// The findings and how many targets were checked and passed over.
#[verifier::ext_equal]
pub struct CheckView {
    pub findings: FindingsView,
    pub checked: int,
    pub invalid: int,
}

/// The config that a run gave, and the issue where it gave none.
pub open spec fn run_config(run: Option<Result<Seq<(Seq<char>, Seq<char>)>, Seq<char>>>) -> Option<
    Seq<(Seq<char>, Seq<char>)>,
> {
    match run {
        Some(Ok(c)) => Some(c),
        _ => None,
    }
}

pub open spec fn run_issue(
    f: FindingsView,
    run: Option<Result<Seq<(Seq<char>, Seq<char>)>, Seq<char>>>,
    target: Seq<char>,
    what: Seq<char>,
) -> FindingsView {
    match run {
        Some(Err(e)) => with_issue(
            f,
            "ssh -G failed for `"@ + target + "` with synthetic "@ + what + " config: "@ + e,
        ),
        _ => f,
    }
}

pub open spec fn runs_step(
    f: FindingsView,
    target: Seq<char>,
    r: ResolvedView,
    runs: RunsView,
    home: Seq<char>,
    windows: bool,
) -> FindingsView {
    match runs.root {
        Err(e) => with_issue(f, "ssh -G failed for `"@ + target + "`: "@ + e),
        Ok(actual) => compared_target(
            run_issue(
                run_issue(f, runs.managed, target, "managed-only"@),
                runs.matched,
                target,
                "managed+Match"@,
            ),
            target,
            r.merged_entry,
            r.ignored_scalar_overrides,
            ResolutionsView {
                actual,
                managed: run_config(runs.managed),
                matched: run_config(runs.matched),
                home,
                windows,
            },
        ),
    }
}

pub open spec fn outcome_step(
    c: CheckView,
    target: Seq<char>,
    outcome: OutcomeView,
    home: Seq<char>,
    windows: bool,
) -> CheckView {
    match outcome {
        OutcomeView::Unresolved(e) => CheckView { findings: with_issue(c.findings, e), ..c },
        OutcomeView::Invalid => CheckView { invalid: c.invalid + 1, ..c },
        OutcomeView::Checked(r, runs) => CheckView {
            findings: runs_step(c.findings, target, r, runs, home, windows),
            checked: c.checked + 1,
            ..c
        },
    }
}

/// One target after the other.
pub open spec fn outcomes_step(
    c: CheckView,
    outcomes: Seq<(Seq<char>, OutcomeView)>,
    home: Seq<char>,
    windows: bool,
) -> CheckView
    decreases outcomes.len(),
{
    if outcomes.len() == 0 {
        c
    } else {
        outcome_step(
            outcomes_step(c, outcomes.drop_last(), home, windows),
            outcomes.last().0,
            outcomes.last().1,
            home,
            windows,
        )
    }
}

pub open spec fn outcome_views(v: Seq<(String, TargetOutcome)>) -> Seq<(Seq<char>, OutcomeView)> {
    v.map_values(|o: (String, TargetOutcome)| (o.0@, o.1@))
}

pub open spec fn nothing_found(issues: Seq<Seq<char>>) -> FindingsView {
    FindingsView {
        issues,
        root_match_influenced: 0,
        root_influenced: 0,
        managed_semantic: 0,
        unclassified: 0,
    }
}

fn push_run_issue(
    f: &mut SshFindings,
    run: &Option<Result<SshResolvedConfig, ConfigError>>,
    target: &str,
    what: &str,
)
    requires
        old(f)@.wf(),
    ensures
        final(f)@ == run_issue(old(f)@, opt_run(*run), target@, what@),
        final(f)@.wf(),
{
    match run {
        Some(Err(e)) => {
            let head: String = concat5(
                "ssh -G failed for `",
                target,
                "` with synthetic ",
                what,
                " config: ",
            );
            f.issues.push(concat2(&head, &e.text()));
        },
        _ => {},
    }
}

fn config_of_run<'a>(run: &'a Option<Result<SshResolvedConfig, ConfigError>>) -> (r: Option<
    &'a SshResolvedConfig,
>)
    ensures
        opt_config(r) == run_config(opt_run(*run)),
{
    match run {
        Some(Ok(c)) => Some(c),
        _ => None,
    }
}

/// Holds what the client said of a target against the preview.
pub fn judge_runs(
    f: &mut SshFindings,
    target: &str,
    preview: &ResolvedEntry,
    runs: &TargetRuns,
    home_dir: &str,
    windows: bool,
)
    requires
        old(f)@.wf(),
    ensures
        final(f)@ == runs_step(old(f)@, target@, preview@, runs@, home_dir@, windows),
        final(f)@.wf(),
{
    match &runs.root {
        Err(e) => {
            f.issues.push(concat4("ssh -G failed for `", target, "`: ", &e.text()));
        },
        Ok(actual) => {
            push_run_issue(f, &runs.managed, target, "managed-only");
            push_run_issue(f, &runs.matched, target, "managed+Match");
            let r = Resolutions {
                actual,
                managed: config_of_run(&runs.managed),
                matched: config_of_run(&runs.matched),
                home: home_dir,
                windows,
            };
            compare_resolved_target(
                f,
                target,
                &preview.merged_entry,
                &preview.ignored_scalar_overrides,
                &r,
            );
        },
    }
}

// ---------------------------------------------------------------------------
// The report
// ---------------------------------------------------------------------------

pub open spec fn external_start(version: Option<Seq<char>>, error: Option<Seq<char>>) -> ExternalView {
    ExternalView {
        ssh_available: error is None && version is Some,
        ssh_version: version,
        ssh_error: error,
        checked: 0,
        skipped_patterns: 0,
        skipped_invalid: 0,
        compared_fields: compared_fields(),
        root_match_influenced: 0,
        root_influenced: 0,
        managed_semantic: 0,
        unclassified: 0,
    }
}

pub open spec fn unavailable_issue(error: Option<Seq<char>>) -> Seq<char> {
    "ssh -G checks requested but OpenSSH ssh is unavailable: "@ + (match error {
        Some(e) => e,
        None => "no version information returned"@,
    })
}

/// The report and its issues. Without a client nothing is checked; without a root config or
/// an entry for one host there is nothing to check.
pub open spec fn external_report(
    es: Seq<ManagedView>,
    version: Option<Seq<char>>,
    error: Option<Seq<char>>,
    root_exists: bool,
    setup_issues: Seq<Seq<char>>,
    outcomes: Seq<(Seq<char>, OutcomeView)>,
    home: Seq<char>,
    windows: bool,
) -> (ExternalView, Seq<Seq<char>>) {
    let start = external_start(version, error);
    let counted = ExternalView {
        skipped_patterns: es.len() - exact_targets(es).len(),
        ..start
    };
    if !start.ssh_available {
        (start, seq![unavailable_issue(error)])
    } else if exact_targets(es).len() == 0 || !root_exists {
        (counted, Seq::empty())
    } else {
        let c = outcomes_step(
            CheckView { findings: nothing_found(setup_issues), checked: 0, invalid: 0 },
            outcomes,
            home,
            windows,
        );
        (
            ExternalView {
                checked: c.checked,
                skipped_invalid: c.invalid,
                root_match_influenced: c.findings.root_match_influenced,
                root_influenced: c.findings.root_influenced,
                managed_semantic: c.findings.managed_semantic,
                unclassified: c.findings.unclassified,
                ..counted
            },
            c.findings.issues,
        )
    }
}

/// Whether there is anything to ask the client for.
pub fn wants_targets(probe: &OpenSshProbe, entries: &[ManagedEntry], root_exists: bool) -> (r: bool)
    ensures
        r == (probe.error is None && probe.version is Some && exact_targets(
            views(entries@),
        ).len() > 0 && root_exists),
{
    let targets: Vec<String> = exact_target_names(entries);
    assert(strs(targets@).len() == targets@.len());
    probe.available() && targets.len() > 0 && root_exists
}

/// The issues of the preparations: the root config could not be read, or the config of the
/// managed entries alone, or of them and the `Match` blocks, could not be written.
pub open spec fn preparation_issues(
    read: Option<Seq<char>>,
    managed: Option<Seq<char>>,
    matched: Option<Seq<char>>,
) -> Seq<Seq<char>> {
    (match read {
        Some(e) => seq![
            "failed to read root config while extracting Match blocks for ssh -G attribution: "@
                + e,
        ],
        None => Seq::empty(),
    }) + (match managed {
        Some(e) => seq![
            "failed to prepare synthetic managed-only config for ssh -G attribution: "@ + e,
        ],
        None => Seq::empty(),
    }) + (match matched {
        Some(e) => seq![
            "failed to prepare synthetic managed+Match config for ssh -G attribution: "@ + e,
        ],
        None => Seq::empty(),
    })
}

pub fn setup_issues(
    read: &Option<String>,
    managed: &Option<String>,
    matched: &Option<String>,
) -> (r: Vec<String>)
    ensures
        strs(r@) == preparation_issues(opt(*read), opt(*managed), opt(*matched)),
{
    let mut r: Vec<String> = Vec::new();
    match read {
        Some(e) => {
            r.push(
                concat2(
                    "failed to read root config while extracting Match blocks for ssh -G attribution: ",
                    e,
                ),
            );
        },
        None => {},
    }
    match managed {
        Some(e) => {
            r.push(
                concat2(
                    "failed to prepare synthetic managed-only config for ssh -G attribution: ",
                    e,
                ),
            );
        },
        None => {},
    }
    match matched {
        Some(e) => {
            r.push(
                concat2(
                    "failed to prepare synthetic managed+Match config for ssh -G attribution: ",
                    e,
                ),
            );
        },
        None => {},
    }
    assert(strs(r@) =~= preparation_issues(opt(*read), opt(*managed), opt(*matched)));
    r
}

fn start_report(probe: &OpenSshProbe) -> (r: ExternalSshReport)
    ensures
        r@ == external_start(opt(probe.version), opt(probe.error)),
{
    ExternalSshReport {
        ssh_available: probe.available(),
        ssh_version: copy_opt(&probe.version),
        ssh_error: copy_opt(&probe.error),
        checked_target_count: 0,
        skipped_pattern_count: 0,
        skipped_invalid_target_count: 0,
        compared_fields: compared_field_labels(),
        root_match_influenced_mismatch_count: 0,
        root_influenced_mismatch_count: 0,
        managed_semantic_mismatch_count: 0,
        unclassified_mismatch_count: 0,
    }
}

/// Puts the report on the client together from what became of each target.
pub fn collect_external_ssh_report(
    entries: &[ManagedEntry],
    probe: &OpenSshProbe,
    root_exists: bool,
    setup_issues: Vec<String>,
    outcomes: &Vec<(String, TargetOutcome)>,
    home_dir: &str,
    windows: bool,
) -> (r: (ExternalSshReport, Vec<String>))
    ensures
        (r.0@, strs(r.1@)) == external_report(
            views(entries@),
            opt(probe.version),
            opt(probe.error),
            root_exists,
            strs(setup_issues@),
            outcome_views(outcomes@),
            home_dir@,
            windows,
        ),
{
    let mut report: ExternalSshReport = start_report(probe);
    if !report.ssh_available {
        let reason: String = match &probe.error {
            Some(e) => e.clone(),
            None => "no version information returned".to_string(),
        };
        let mut issues: Vec<String> = Vec::new();
        issues.push(
            concat2("ssh -G checks requested but OpenSSH ssh is unavailable: ", &reason),
        );
        assert(strs(issues@) =~= seq![unavailable_issue(opt(probe.error))]);
        return (report, issues);
    }
    let targets: Vec<String> = exact_target_names(entries);
    assert(strs(targets@).len() == targets@.len());
    assert(views(entries@).len() == entries@.len());
    report.skipped_pattern_count = entries.len() - targets.len();
    if targets.len() == 0 || !root_exists {
        return (report, Vec::new());
    }
    let mut f = SshFindings {
        issues: setup_issues,
        root_match_influenced: 0,
        root_influenced: 0,
        managed_semantic: 0,
        unclassified: 0,
    };
    let ghost start = CheckView { findings: f@, checked: 0, invalid: 0 };
    let ghost all = outcome_views(outcomes@);
    let mut checked: usize = 0;
    let mut invalid: usize = 0;
    let mut i: usize = 0;
    while i < outcomes.len()
        invariant
            i <= outcomes.len(),
            all == outcome_views(outcomes@),
            f@.wf(),
            checked <= i,
            invalid <= i,
            outcomes_step(start, all.take(i as int), home_dir@, windows) == (CheckView {
                findings: f@,
                checked: checked as int,
                invalid: invalid as int,
            }),
        decreases outcomes.len() - i,
    {
        assert(all.take(i + 1).drop_last() =~= all.take(i as int));
        let o: &(String, TargetOutcome) = &outcomes[i];
        assert(all.take(i + 1).last() == (o.0@, o.1@));
        match &o.1 {
            TargetOutcome::Unresolved(e) => {
                f.issues.push(e.clone());
            },
            TargetOutcome::Invalid => {
                invalid += 1;
            },
            TargetOutcome::Checked(preview, runs) => {
                checked += 1;
                judge_runs(&mut f, &o.0, preview, runs, home_dir, windows);
            },
        }
        i += 1;
    }
    assert(all.take(all.len() as int) =~= all);
    report.checked_target_count = checked;
    report.skipped_invalid_target_count = invalid;
    report.root_match_influenced_mismatch_count = f.root_match_influenced;
    report.root_influenced_mismatch_count = f.root_influenced;
    report.managed_semantic_mismatch_count = f.managed_semantic;
    report.unclassified_mismatch_count = f.unclassified;
    (report, f.issues)
}

} // verus!
