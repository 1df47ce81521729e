//! What the check against the client tells of the targets.

use vstd::prelude::*;

use crate::commands::compare::{
    FindingsView, ResolutionsView, compared_target, law_findings_only_grow, with_issue,
};
use crate::commands::ssh_check::{
    CheckView, OutcomeView, PlanView, RunsView, blocks_text, check_options, entries_text,
    exact_targets, external_report, nothing_found, outcome_step, outcomes_step, plan_of, run_config,
    run_issue, synthetic_config, unavailable_issue,
};
use crate::config::entry_laws::{law_kind_of_an_entry, stands_for_one_host};
use crate::config::match_header::BlockView;
use crate::config::model::{ManagedView, ResolvedView};
use crate::config::render::{directives_of, render_directives};
use crate::config::validate::issues_of;
use crate::text::starts_with;

verus! {

/// The issues of the one are the first of the other.
pub open spec fn goes_on(f: FindingsView, g: FindingsView) -> bool {
    f.issues.is_prefix_of(g.issues)
}

proof fn lemma_goes_on(f: FindingsView, g: FindingsView, h: FindingsView)
    requires
        goes_on(f, g),
        goes_on(g, h),
    ensures
        goes_on(f, h),
{
    assert(h.issues.take(f.issues.len() as int) =~= g.issues.take(f.issues.len() as int));
    assert(f.issues =~= h.issues.take(f.issues.len() as int));
}

proof fn lemma_stays(f: FindingsView)
    ensures
        goes_on(f, f),
{
    assert(f.issues =~= f.issues.take(f.issues.len() as int));
}

proof fn lemma_one_more(f: FindingsView, issue: Seq<char>)
    ensures
        goes_on(f, with_issue(f, issue)),
        with_issue(f, issue).issues.contains(issue),
{
    let g = with_issue(f, issue);
    assert(f.issues =~= g.issues.take(f.issues.len() as int));
    assert(g.issues[f.issues.len() as int] == issue);
}

/// What the client resolved in the three ways in which it was asked; where it failed there is
/// nothing.
pub open spec fn answers_of(
    actual: Seq<(Seq<char>, Seq<char>)>,
    runs: RunsView,
    home: Seq<char>,
    windows: bool,
) -> ResolutionsView {
    ResolutionsView {
        actual,
        managed: if runs.managed is Some && runs.managed->0 is Ok {
            Some(runs.managed->0->Ok_0)
        } else {
            None
        },
        matched: if runs.matched is Some && runs.matched->0 is Ok {
            Some(runs.matched->0->Ok_0)
        } else {
            None
        },
        home,
        windows,
    }
}

/// `g` tells what became of the target: why there is no preview; that the client failed, with what
/// it said; or the comparison of the preview with what the client resolved.
pub open spec fn tells(
    g: FindingsView,
    target: Seq<char>,
    outcome: OutcomeView,
    home: Seq<char>,
    windows: bool,
) -> bool {
    match outcome {
        OutcomeView::Unresolved(e) => g.issues.contains(e),
        OutcomeView::Invalid => true,
        OutcomeView::Checked(r, runs) => match runs.root {
            Err(e) => g.issues.contains("ssh -G failed for `"@ + target + "`: "@ + e),
            Ok(actual) => exists|f: FindingsView|
                goes_on(
                    #[trigger] compared_target(
                        f,
                        target,
                        r.merged_entry,
                        r.ignored_scalar_overrides,
                        answers_of(actual, runs, home, windows),
                    ),
                    g,
                ),
        },
    }
}

proof fn lemma_run_issue(
    f: FindingsView,
    run: Option<Result<Seq<(Seq<char>, Seq<char>)>, Seq<char>>>,
    target: Seq<char>,
    what: Seq<char>,
)
    ensures
        goes_on(f, run_issue(f, run, target, what)),
{
    lemma_stays(f);
    match run {
        Some(Err(e)) => {
            lemma_one_more(
                f,
                "ssh -G failed for `"@ + target + "` with synthetic "@ + what + " config: "@ + e,
            );
        },
        _ => {},
    }
}

#[verifier::rlimit(30)]
proof fn lemma_outcome(
    c: CheckView,
    target: Seq<char>,
    outcome: OutcomeView,
    home: Seq<char>,
    windows: bool,
)
    ensures
        goes_on(c.findings, outcome_step(c, target, outcome, home, windows).findings),
        tells(outcome_step(c, target, outcome, home, windows).findings, target, outcome, home, windows),
{
    let f = c.findings;
    let g = outcome_step(c, target, outcome, home, windows).findings;
    lemma_stays(f);
    lemma_stays(g);
    match outcome {
        OutcomeView::Unresolved(e) => {
            lemma_one_more(f, e);
        },
        OutcomeView::Invalid => {},
        OutcomeView::Checked(r, runs) => {
            match runs.root {
                Err(e) => {
                    lemma_one_more(f, "ssh -G failed for `"@ + target + "`: "@ + e);
                },
                Ok(actual) => {
                    let a = run_issue(f, runs.managed, target, "managed-only"@);
                    let b = run_issue(a, runs.matched, target, "managed+Match"@);
                    lemma_run_issue(f, runs.managed, target, "managed-only"@);
                    lemma_run_issue(a, runs.matched, target, "managed+Match"@);
                    let rs = ResolutionsView {
                        actual,
                        managed: run_config(runs.managed),
                        matched: run_config(runs.matched),
                        home,
                        windows,
                    };
                    let os = r.ignored_scalar_overrides;
                    law_findings_only_grow(b, target, r.merged_entry, os, rs);
                    lemma_goes_on(f, a, b);
                    lemma_goes_on(f, b, g);
                    assert(rs == answers_of(actual, runs, home, windows));
                    assert(g == compared_target(b, target, r.merged_entry, os, rs));
                },
            }
        },
    }
}

proof fn lemma_still_told(
    f: FindingsView,
    g: FindingsView,
    target: Seq<char>,
    outcome: OutcomeView,
    home: Seq<char>,
    windows: bool,
)
    requires
        goes_on(f, g),
        tells(f, target, outcome, home, windows),
    ensures
        tells(g, target, outcome, home, windows),
{
    assert forall|x: Seq<char>| #[trigger] f.issues.contains(x) implies g.issues.contains(x) by {
        let k = choose|k: int| 0 <= k < f.issues.len() && f.issues[k] == x;
        assert(g.issues.take(f.issues.len() as int)[k] == x);
        assert(g.issues[k] == x);
    }
    if let OutcomeView::Checked(r, runs) = outcome {
        if let Ok(actual) = runs.root {
            let rs = answers_of(actual, runs, home, windows);
            let os = r.ignored_scalar_overrides;
            let h = choose|h: FindingsView|
                goes_on(#[trigger] compared_target(h, target, r.merged_entry, os, rs), f);
            lemma_goes_on(compared_target(h, target, r.merged_entry, os, rs), f, g);
        }
    }
}

pub open spec fn is_checked() -> spec_fn((Seq<char>, OutcomeView)) -> bool {
    |o: (Seq<char>, OutcomeView)| o.1 is Checked
}

pub open spec fn is_invalid() -> spec_fn((Seq<char>, OutcomeView)) -> bool {
    |o: (Seq<char>, OutcomeView)| o.1 is Invalid
}

/// What became of each target is told, whatever stands before and behind it, and the targets that
/// were checked and that were passed over are counted.
pub proof fn law_each_target_is_told(
    c: CheckView,
    outcomes: Seq<(Seq<char>, OutcomeView)>,
    home: Seq<char>,
    windows: bool,
)
    ensures
        ({
            let g = outcomes_step(c, outcomes, home, windows);
            &&& goes_on(c.findings, g.findings)
            &&& forall|i: int|
                0 <= i < outcomes.len() ==> tells(
                    g.findings,
                    (#[trigger] outcomes[i]).0,
                    outcomes[i].1,
                    home,
                    windows,
                )
            &&& g.checked == c.checked + outcomes.filter(is_checked()).len()
            &&& g.invalid == c.invalid + outcomes.filter(is_invalid()).len()
        }),
    decreases outcomes.len(),
{
    reveal(Seq::filter);
    if outcomes.len() == 0 {
        lemma_stays(c.findings);
    } else {
        let head = outcomes.drop_last();
        let (target, outcome) = outcomes.last();
        law_each_target_is_told(c, head, home, windows);
        let m = outcomes_step(c, head, home, windows);
        let g = outcomes_step(c, outcomes, home, windows);
        lemma_outcome(m, target, outcome, home, windows);
        lemma_goes_on(c.findings, m.findings, g.findings);
        assert forall|i: int| 0 <= i < outcomes.len() implies tells(
            g.findings,
            (#[trigger] outcomes[i]).0,
            outcomes[i].1,
            home,
            windows,
        ) by {
            if i < head.len() {
                assert(head[i] == outcomes[i]);
                lemma_still_told(m.findings, g.findings, head[i].0, head[i].1, home, windows);
            }
        }
    }
}

/// The report on the check tells each target where the client can be asked, there is a root
/// configuration, and there is an entry for one host; the entries for many hosts are passed over.
pub proof fn law_report_tells_each_target(
    es: Seq<ManagedView>,
    version: Seq<char>,
    setup_issues: Seq<Seq<char>>,
    outcomes: Seq<(Seq<char>, OutcomeView)>,
    home: Seq<char>,
    windows: bool,
)
    requires
        es.filter(is_for_one_host()).len() > 0,
    ensures
        ({
            let (view, issues) = external_report(
                es,
                Some(version),
                None,
                true,
                setup_issues,
                outcomes,
                home,
                windows,
            );
            &&& setup_issues.is_prefix_of(issues)
            &&& exists|g: FindingsView|
                g.issues == issues && forall|i: int|
                    0 <= i < outcomes.len() ==> #[trigger] tells(
                        g,
                        outcomes[i].0,
                        outcomes[i].1,
                        home,
                        windows,
                    )
            &&& view.ssh_available
            &&& view.checked == outcomes.filter(is_checked()).len()
            &&& view.skipped_invalid == outcomes.filter(is_invalid()).len()
            &&& view.skipped_patterns == es.len() - es.filter(is_for_one_host()).len()
        }),
{
    law_targets_are_the_single_hosts(es);
    let c = CheckView { findings: nothing_found(setup_issues), checked: 0, invalid: 0 };
    law_each_target_is_told(c, outcomes, home, windows);
    let g = outcomes_step(c, outcomes, home, windows).findings;
    assert(forall|i: int|
        0 <= i < outcomes.len() ==> #[trigger] tells(
            g,
            outcomes[i].0,
            outcomes[i].1,
            home,
            windows,
        ));
}

/// The test for the entries that are for one host.
pub open spec fn is_for_one_host() -> spec_fn(ManagedView) -> bool {
    |e: ManagedView| stands_for_one_host(e.entry)
}

/// The first pattern of an entry.
pub open spec fn name_of() -> spec_fn(ManagedView) -> Seq<char> {
    |e: ManagedView|
        if e.entry.host_patterns.len() > 0 {
            e.entry.host_patterns[0]
        } else {
            Seq::empty()
        }
}

/// The client is asked for the names of the entries for one host, in their order.
pub proof fn law_targets_are_the_single_hosts(es: Seq<ManagedView>)
    ensures
        exact_targets(es) == es.filter(is_for_one_host()).map_values(name_of()),
        exact_targets(es).len() == es.filter(is_for_one_host()).len(),
    decreases es.len(),
{
    reveal(Seq::filter);
    if es.len() > 0 {
        let head = es.drop_last();
        law_targets_are_the_single_hosts(head);
        law_kind_of_an_entry(es.last().entry);
        let kept = head.filter(is_for_one_host());
        assert(kept.push(es.last()).map_values(name_of()) =~= kept.map_values(name_of()).push(
            name_of()(es.last()),
        ));
    } else {
        assert(es.filter(is_for_one_host()).map_values(name_of()) =~= Seq::<Seq<char>>::empty());
    }
}

/// The text, with a line end behind it where it has none.
pub open spec fn with_line_end(raw: Seq<char>, newline: Seq<char>) -> Seq<char> {
    if raw.len() > 0 && (raw[raw.len() - 1] == '\n' || raw[raw.len() - 1] == '\r') {
        raw
    } else {
        raw + newline
    }
}

pub open spec fn stands_before(before: bool) -> spec_fn(BlockView) -> bool {
    |b: BlockView| b.before_anchor == before
}

proof fn lemma_blocks_text(bs: Seq<BlockView>, before: bool, newline: Seq<char>)
    ensures
        blocks_text(bs, before, newline) == bs.filter(stands_before(before)).map_values(
            |b: BlockView| with_line_end(b.raw, newline),
        ).flatten_alt(),
    decreases bs.len(),
{
    reveal(Seq::filter);
    let text = |b: BlockView| with_line_end(b.raw, newline);
    if bs.len() > 0 {
        let head = bs.drop_last();
        lemma_blocks_text(head, before, newline);
        let kept = head.filter(stands_before(before));
        let all = kept.push(bs.last()).map_values(text);
        assert(all.drop_last() =~= kept.map_values(text));
        assert(all.last() == text(bs.last()));
    } else {
        assert(bs.filter(stands_before(before)).map_values(text) =~= Seq::<Seq<char>>::empty());
    }
}

proof fn lemma_entries_text(es: Seq<ManagedView>, newline: Seq<char>)
    ensures
        entries_text(es, newline) == es.map_values(
            |e: ManagedView| render_directives(directives_of(e.entry), newline) + newline,
        ).flatten_alt(),
    decreases es.len(),
{
    let text = |e: ManagedView| render_directives(directives_of(e.entry), newline) + newline;
    let all = es.map_values(text);
    if es.len() > 0 {
        let head = es.drop_last();
        lemma_entries_text(head, newline);
        assert(all.drop_last() =~= head.map_values(text));
        let one = render_directives(directives_of(es.last().entry), newline);
        assert(all.last() == one + newline);
        assert(entries_text(es, newline) =~= entries_text(head, newline) + (one + newline));
    }
}

/// The configuration that the client is asked with has the blocks that stand before the managed
/// entries, then each entry as it is written, then the blocks behind them; none is left out.
pub proof fn law_client_is_given_all(es: Seq<ManagedView>, bs: Seq<BlockView>, newline: Seq<char>)
    ensures
        synthetic_config(es, bs, newline) == bs.filter(stands_before(true)).map_values(
            |b: BlockView| with_line_end(b.raw, newline),
        ).flatten_alt() + es.map_values(
            |e: ManagedView| render_directives(directives_of(e.entry), newline) + newline,
        ).flatten_alt() + bs.filter(stands_before(false)).map_values(
            |b: BlockView| with_line_end(b.raw, newline),
        ).flatten_alt(),
{
    lemma_blocks_text(bs, true, newline);
    lemma_blocks_text(bs, false, newline);
    lemma_entries_text(es, newline);
}

/// The client is asked for a target where its preview is there and valid; a preview that is not
/// valid is passed over, and why there is none is told.
pub proof fn law_valid_previews_are_checked(
    resolution: Result<ResolvedView, Seq<char>>,
    target: Seq<char>,
)
    ensures
        plan_of(resolution, target) is Unresolved <==> resolution is Err,
        resolution matches Ok(r) ==> {
            &&& issues_of(r.merged_entry).len() == 0 ==> plan_of(resolution, target)
                == PlanView::Check(r)
            &&& issues_of(r.merged_entry).len() > 0 ==> plan_of(resolution, target)
                == PlanView::Invalid
        },
{
}

/// Previews are made for a shell without a command, on the last pass, for the user and the networks
/// of the machine.
pub proof fn law_checks_are_for_a_shell(
    local_user: Seq<char>,
    local_networks: Seq<Seq<char>>,
    ssh_version: Option<Seq<char>>,
)
    ensures
        ({
            let o = check_options(local_user, local_networks, ssh_version);
            &&& local_user.len() > 0 ==> o.local_user == Some(local_user)
            &&& local_user.len() == 0 ==> o.local_user is None
            &&& o.current_user is None && o.initial_tag is None
            &&& o.ssh_version == ssh_version && o.local_networks == local_networks
            &&& o.session_type == Some("shell"@) && o.command == Some(Seq::<char>::empty())
            &&& !o.is_canonical && o.is_final
        }),
{
}

/// Where the client cannot be asked, that is the one issue; without a root configuration, or an
/// entry for one host, there is none.
pub proof fn law_missing_client_is_told(
    es: Seq<ManagedView>,
    version: Option<Seq<char>>,
    error: Option<Seq<char>>,
    root_exists: bool,
    setup_issues: Seq<Seq<char>>,
    outcomes: Seq<(Seq<char>, OutcomeView)>,
    home: Seq<char>,
    windows: bool,
)
    ensures
        ({
            let (view, issues) = external_report(
                es,
                version,
                error,
                root_exists,
                setup_issues,
                outcomes,
                home,
                windows,
            );
            let available = error is None && version is Some;
            &&& view.ssh_available == available
            &&& view.ssh_version == version && view.ssh_error == error
            &&& !available ==> issues.len() == 1 && starts_with(
                issues[0],
                "ssh -G checks requested but OpenSSH ssh is unavailable: "@,
            ) && view.checked == 0
            &&& available && (!root_exists || es.filter(is_for_one_host()).len() == 0)
                ==> issues.len() == 0 && view.checked == 0
        }),
{
    law_targets_are_the_single_hosts(es);
    let p = "ssh -G checks requested but OpenSSH ssh is unavailable: "@;
    let s = unavailable_issue(error);
    assert(s.take(p.len() as int) =~= p);
}

} // verus!
