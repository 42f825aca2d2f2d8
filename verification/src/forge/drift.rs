//! Drift between ADRs and their linked issues and pull requests: the forge
//! findings of `check --forge`, the reconcile plan, the dashboard counts and
//! the live forge data a listing shows.
use vstd::prelude::*;
use crate::adr::{status_name, Status};
use crate::query::health::{plain, problems_v, Problem, ProblemKind, ProblemV, Severity};
use crate::query::listing::AdrSummary;
use crate::text::{append_str, chars_of, string_of};
use super::{Forge, ForgeRefs, IssueState, PrState, Tracker, CiStatus};

verus! {

/// One ADR as the forge checks see it.
#[derive(Debug)]
pub struct ForgeEntry {
    /// The ADR's display reference (`ADR-0001`).
    pub reference: String,
    /// The ADR file's name.
    pub file: String,
    pub status: Status,
    /// The issue and pull request its `## References` link.
    pub refs: ForgeRefs,
}

/// What the forge answered for an entry: the pull request's state and the
/// issue's state, each where it was asked and read.
pub type Outcome = (Option<PrState>, Option<IssueState>);

/// An answer was only had for what the entry links.
pub open spec fn outcome_fits(e: ForgeEntry, o: Outcome) -> bool {
    (o.0 is Some ==> e.refs.pr is Some) && (o.1 is Some ==> e.refs.issue is Some)
}

pub open spec fn outcomes_fit(es: Seq<ForgeEntry>, os: Seq<Outcome>) -> bool {
    os.len() == es.len() && forall|i: int| 0 <= i < es.len() ==> outcome_fits(#[trigger] es[i], os[i])
}

pub open spec fn forge_problem(label: Seq<char>, summary: Seq<char>, url: Seq<char>) -> ProblemV {
    plain(Severity::Warning, ProblemKind::ForgeIntegration, label, summary, label + ": "@ + summary + " ("@ + url + ")"@)
}

/// The drift found for one ADR: an accepted ADR whose pull request is not
/// merged, or a proposed one whose pull request is; a proposed ADR whose
/// issue is closed.
pub open spec fn entry_findings(e: ForgeEntry, o: Outcome) -> Seq<ProblemV> {
    let pr_part = match (e.refs.pr, o.0) {
        (Some(p), Some(st)) => if e.status == Status::Accepted && !st.merged {
            seq![forge_problem(e.file@, "accepted ADR but its PR is not merged"@, p.1@)]
        } else if e.status == Status::Proposed && st.merged {
            seq![forge_problem(e.file@, "PR is merged but the ADR is still proposed"@, p.1@)]
        } else {
            Seq::empty()
        },
        _ => Seq::empty(),
    };
    let issue_part = match (e.refs.issue, o.1) {
        (Some(i), Some(st)) => if !st.open && e.status == Status::Proposed {
            seq![forge_problem(e.file@, "tracker issue is closed but the ADR is still proposed"@, i.1@)]
        } else {
            Seq::empty()
        },
        _ => Seq::empty(),
    };
    pr_part + issue_part
}

pub open spec fn findings_upto(es: Seq<ForgeEntry>, os: Seq<Outcome>, n: int) -> Seq<ProblemV>
    decreases n,
{
    if n <= 0 {
        Seq::empty()
    } else {
        findings_upto(es, os, n - 1) + entry_findings(es[n - 1], os[n - 1])
    }
}

fn problem_at(label: &str, summary: &str, url: &str) -> (p: Problem)
    ensures
        p@ == forge_problem(label@, summary@, url@),
{
    let mut message = chars_of(label);
    append_str(&mut message, ": ");
    append_str(&mut message, summary);
    append_str(&mut message, " (");
    append_str(&mut message, url);
    append_str(&mut message, ")");
    let p = Problem {
        severity: Severity::Warning,
        kind: ProblemKind::ForgeIntegration,
        label: string_of(&chars_of(label)),
        summary: string_of(&chars_of(summary)),
        paths: Vec::new(),
        message: string_of(&message),
    };
    assert(p@.paths =~= Seq::<(Seq<char>, usize, u64)>::empty());
    p
}

/// The drift found for one ADR, given what the forge answered.
pub fn entry_findings_v(e: &ForgeEntry, pr: &Option<PrState>, issue: &Option<IssueState>) -> (r: Vec<Problem>)
    ensures
        problems_v(r@) == entry_findings(*e, (*pr, *issue)),
{
    let mut out: Vec<Problem> = Vec::new();
    match (&e.refs.pr, pr) {
        (Some(p), Some(st)) => {
            if e.status == Status::Accepted && !st.merged {
                out.push(problem_at(e.file.as_str(), "accepted ADR but its PR is not merged", p.1.as_str()));
            } else if e.status == Status::Proposed && st.merged {
                out.push(problem_at(e.file.as_str(), "PR is merged but the ADR is still proposed", p.1.as_str()));
            }
        },
        _ => {},
    }
    let ghost mid = problems_v(out@);
    match (&e.refs.issue, issue) {
        (Some(i), Some(st)) => {
            if !st.open && e.status == Status::Proposed {
                out.push(problem_at(e.file.as_str(), "tracker issue is closed but the ADR is still proposed", i.1.as_str()));
            }
        },
        _ => {},
    }
    assert(problems_v(out@) =~= entry_findings(*e, (*pr, *issue)));
    out
}

/// What the forge checks found, and the warning given when the forge could
/// not be reached.
#[derive(Debug)]
pub struct ForgeCheck {
    pub problems: Vec<Problem>,
    pub warnings: Vec<String>,
}

/// `forge unreachable (<message>); <rest>`.
fn unreachable_note(e: &super::ForgeError, rest: &str) -> (r: String)
    ensures
        r@ == "forge unreachable ("@ + super::forge_message(*e) + "); "@ + rest@,
{
    let mut v = chars_of("forge unreachable (");
    append_str(&mut v, e.message().as_str());
    append_str(&mut v, "); ");
    append_str(&mut v, rest);
    string_of(&v)
}

/// Flag drift between each ADR and its linked issue and pull request. The
/// pull request's and the issue's state are read from the forge; what could
/// not be read (a connectivity failure warns once) adds nothing. The
/// findings are those of [`entry_findings`] over whatever was read.
pub fn check_repo<F: Forge, T: Tracker>(forge: &F, tracker: &T, entries: &Vec<ForgeEntry>) -> (r: ForgeCheck)
    ensures
        exists|os: Seq<Outcome>| outcomes_fit(entries@, os) && problems_v(r.problems@) == findings_upto(entries@, os, entries.len() as int),
        r.warnings.len() <= 1,
{
    let mut problems: Vec<Problem> = Vec::new();
    let mut warnings: Vec<String> = Vec::new();
    let ghost mut os: Seq<Outcome> = Seq::empty();
    let mut i: usize = 0;
    assert(problems_v(problems@) =~= Seq::<ProblemV>::empty());
    while i < entries.len()
        invariant
            i <= entries.len(),
            os.len() == i,
            forall|k: int| 0 <= k < i ==> outcome_fits(#[trigger] entries@[k], os[k]),
            problems_v(problems@) == findings_upto(entries@, os, i as int),
            warnings.len() <= 1,
        decreases entries.len() - i,
    {
        let e = &entries[i];
        let pr: Option<PrState> = match &e.refs.pr {
            Some(p) => match forge.pr_state(p.0.as_str()) {
                Ok(st) => Some(st),
                Err(err) => {
                    if err.is_offline() && warnings.len() == 0 {
                        warnings.push(unreachable_note(&err, "skipping forge checks"));
                    }
                    None
                },
            },
            None => None,
        };
        let issue: Option<IssueState> = match &e.refs.issue {
            Some(iss) => match tracker.issue_state(iss.0.as_str()) {
                Ok(st) => Some(st),
                Err(_) => None,
            },
            None => None,
        };
        let found = entry_findings_v(e, &pr, &issue);
        let ghost before = problems_v(problems@);
        let mut found = found;
        problems.append(&mut found);
        proof {
            let os2 = os.push((pr, issue));
            assert(os2.drop_last() =~= os);
            assert forall|n: int| 0 <= n <= i implies findings_upto(entries@, os2, n) == findings_upto(entries@, os, n) by {
                lemma_findings_prefix(entries@, os, os2, n);
            }
            assert(problems_v(problems@) =~= before + entry_findings(entries@[i as int], (pr, issue)));
            os = os2;
        }
        i = i + 1;
    }
    assert(outcomes_fit(entries@, os));
    ForgeCheck { problems, warnings }
}

/// The findings below `n` read only the first `n` outcomes.
proof fn lemma_findings_prefix(es: Seq<ForgeEntry>, a: Seq<Outcome>, b: Seq<Outcome>, n: int)
    requires
        0 <= n <= a.len(),
        n <= b.len(),
        forall|k: int| 0 <= k < n ==> a[k] == b[k],
    ensures
        findings_upto(es, a, n) == findings_upto(es, b, n),
    decreases n,
{
    if n > 0 {
        lemma_findings_prefix(es, a, b, n - 1);
    }
}

// ---------------------------------------------------------------------------
// Reconcile
// ---------------------------------------------------------------------------

/// What reconciling local statuses with the forge found: a line per drift
/// item, the entries whose fix (moving to accepted) is unambiguous, and the
/// warning given when the forge could not be reached.
#[derive(Debug)]
pub struct ReconcilePlan {
    pub lines: Vec<String>,
    pub fixes: Vec<usize>,
    pub warnings: Vec<String>,
}

/// For reconcile, an issue's state is only asked of a proposed ADR, and only
/// with a tracker.
pub open spec fn reconcile_fits(e: ForgeEntry, o: Outcome, has_tracker: bool) -> bool {
    (o.0 is Some ==> e.refs.pr is Some) && (o.1 is Some ==> (e.refs.issue is Some && has_tracker && e.status == Status::Proposed))
}

/// The drift of one ADR: its pull request is merged but it is not accepted
/// (fixable), else it is proposed and its issue is closed (reported only).
pub open spec fn entry_drift(e: ForgeEntry, o: Outcome) -> Option<(Seq<char>, bool)> {
    let merged_drift = match (e.refs.pr, o.0) {
        (Some(p), Some(st)) => if st.merged && e.status != Status::Accepted {
            Some((e.reference@ + ": PR "@ + p.1@ + " is merged but status is "@ + status_name(e.status) + " -> accepted"@, true))
        } else {
            None
        },
        _ => None,
    };
    match merged_drift {
        Some(d) => Some(d),
        None => match (e.refs.issue, o.1) {
            (Some(i), Some(st)) => if e.status == Status::Proposed && !st.open {
                Some(
                    (
                        e.reference@ + ": issue "@ + i.1@
                            + " is closed but status is still proposed (resolve: set-status accepted|rejected)"@,
                        false,
                    ),
                )
            } else {
                None
            },
            _ => None,
        },
    }
}

pub open spec fn drift_lines_upto(es: Seq<ForgeEntry>, os: Seq<Outcome>, n: int) -> Seq<Seq<char>>
    decreases n,
{
    if n <= 0 {
        Seq::empty()
    } else {
        drift_lines_upto(es, os, n - 1) + match entry_drift(es[n - 1], os[n - 1]) {
            Some(d) => seq![d.0],
            None => Seq::empty(),
        }
    }
}

pub open spec fn fixes_upto(es: Seq<ForgeEntry>, os: Seq<Outcome>, n: int) -> Seq<int>
    decreases n,
{
    if n <= 0 {
        Seq::empty()
    } else {
        fixes_upto(es, os, n - 1) + match entry_drift(es[n - 1], os[n - 1]) {
            Some(d) => if d.1 {
                seq![n - 1]
            } else {
                Seq::<int>::empty()
            },
            None => Seq::empty(),
        }
    }
}

proof fn lemma_drift_prefix(es: Seq<ForgeEntry>, a: Seq<Outcome>, b: Seq<Outcome>, n: int)
    requires
        0 <= n <= a.len(),
        n <= b.len(),
        forall|k: int| 0 <= k < n ==> a[k] == b[k],
    ensures
        drift_lines_upto(es, a, n) == drift_lines_upto(es, b, n),
        fixes_upto(es, a, n) == fixes_upto(es, b, n),
    decreases n,
{
    if n > 0 {
        lemma_drift_prefix(es, a, b, n - 1);
    }
}

fn entry_drift_v(e: &ForgeEntry, pr: &Option<PrState>, issue: &Option<IssueState>) -> (r: Option<(String, bool)>)
    ensures
        match r {
            Some(d) => entry_drift(*e, (*pr, *issue)) == Some((d.0@, d.1)),
            None => entry_drift(*e, (*pr, *issue)) is None,
        },
{
    match (&e.refs.pr, pr) {
        (Some(p), Some(st)) => {
            if st.merged && e.status != Status::Accepted {
                let mut v = chars_of(e.reference.as_str());
                append_str(&mut v, ": PR ");
                append_str(&mut v, p.1.as_str());
                append_str(&mut v, " is merged but status is ");
                crate::text::append_all(&mut v, &e.status.name_chars());
                append_str(&mut v, " -> accepted");
                return Some((string_of(&v), true));
            }
        },
        _ => {},
    }
    match (&e.refs.issue, issue) {
        (Some(i), Some(st)) => {
            if e.status == Status::Proposed && !st.open {
                let mut v = chars_of(e.reference.as_str());
                append_str(&mut v, ": issue ");
                append_str(&mut v, i.1.as_str());
                append_str(&mut v, " is closed but status is still proposed (resolve: set-status accepted|rejected)");
                return Some((string_of(&v), false));
            }
        },
        _ => {},
    }
    None
}

/// Compare each ADR's local status with its pull request and issue. A
/// merged pull request whose ADR is not accepted is drift that a fix moves
/// to accepted; a closed issue on a proposed ADR is drift that is only
/// reported (it could mean accepted or won't-fix). Nothing is changed on
/// the forge. The drift is that of [`entry_drift`] over whatever was read.
pub fn reconcile_plan<F: Forge, T: Tracker>(forge: &F, tracker: Option<&T>, entries: &Vec<ForgeEntry>) -> (r: ReconcilePlan)
    ensures
        exists|os: Seq<Outcome>| {
            &&& os.len() == entries.len()
            &&& forall|i: int| 0 <= i < entries.len() ==> reconcile_fits(#[trigger] entries@[i], os[i], tracker is Some)
            &&& r.lines@.map_values(|l: String| l@) == drift_lines_upto(entries@, os, entries.len() as int)
            &&& r.fixes@.map_values(|k: usize| k as int) == fixes_upto(entries@, os, entries.len() as int)
        },
        r.warnings.len() <= 1,
{
    let mut lines: Vec<String> = Vec::new();
    let mut fixes: Vec<usize> = Vec::new();
    let mut warnings: Vec<String> = Vec::new();
    let ghost mut os: Seq<Outcome> = Seq::empty();
    let mut i: usize = 0;
    assert(lines@.map_values(|l: String| l@) =~= Seq::<Seq<char>>::empty());
    assert(fixes@.map_values(|k: usize| k as int) =~= Seq::<int>::empty());
    while i < entries.len()
        invariant
            i <= entries.len(),
            os.len() == i,
            forall|k: int| 0 <= k < i ==> reconcile_fits(#[trigger] entries@[k], os[k], tracker is Some),
            lines@.map_values(|l: String| l@) == drift_lines_upto(entries@, os, i as int),
            fixes@.map_values(|k: usize| k as int) == fixes_upto(entries@, os, i as int),
            warnings.len() <= 1,
        decreases entries.len() - i,
    {
        let e = &entries[i];
        let pr: Option<PrState> = match &e.refs.pr {
            Some(p) => match forge.pr_state(p.0.as_str()) {
                Ok(st) => Some(st),
                Err(err) => {
                    if err.is_offline() && warnings.len() == 0 {
                        warnings.push(unreachable_note(&err, "skipping live checks."));
                    }
                    None
                },
            },
            None => None,
        };
        let merged_drift = match &pr {
            Some(st) => st.merged && e.status != Status::Accepted,
            None => false,
        };
        let issue: Option<IssueState> = if !merged_drift && e.status == Status::Proposed {
            match (&e.refs.issue, tracker) {
                (Some(iss), Some(t)) => match t.issue_state(iss.0.as_str()) {
                    Ok(st) => Some(st),
                    Err(_) => None,
                },
                _ => None,
            }
        } else {
            None
        };
        let d = entry_drift_v(e, &pr, &issue);
        let ghost l0 = lines@.map_values(|l: String| l@);
        let ghost f0 = fixes@.map_values(|k: usize| k as int);
        match d {
            Some((line, fix)) => {
                lines.push(line);
                if fix {
                    fixes.push(i);
                }
            },
            None => {},
        }
        proof {
            let os2 = os.push((pr, issue));
            lemma_drift_prefix(entries@, os, os2, i as int);
            assert(lines@.map_values(|l: String| l@) =~= drift_lines_upto(entries@, os2, i + 1));
            assert(fixes@.map_values(|k: usize| k as int) =~= fixes_upto(entries@, os2, i + 1));
            os = os2;
        }
        i = i + 1;
    }
    ReconcilePlan { lines, fixes, warnings }
}

/// The closing line of a reconcile run.
pub fn reconcile_summary(drift: u32, fixed: u32, apply: bool) -> (r: String)
    requires
        fixed <= drift,
    ensures
        drift == 0 ==> r@ == "Reconcile: no drift — local statuses match the forge."@,
        drift > 0 && apply ==> r@ == "\nReconcile: "@ + crate::text::dec(fixed as nat) + " fixed, "@
            + crate::text::dec((drift - fixed) as nat) + " reported."@,
        drift > 0 && !apply ==> r@ == "\nReconcile: "@ + crate::text::dec(drift as nat)
            + " drift item(s). Re-run with --yes to apply the fixable ones."@,
{
    if drift == 0 {
        return string_of(&chars_of("Reconcile: no drift — local statuses match the forge."));
    }
    let mut v = chars_of("\nReconcile: ");
    if apply {
        crate::text::append_all(&mut v, &crate::text::dec_v(fixed as u64));
        append_str(&mut v, " fixed, ");
        crate::text::append_all(&mut v, &crate::text::dec_v((drift - fixed) as u64));
        append_str(&mut v, " reported.");
    } else {
        crate::text::append_all(&mut v, &crate::text::dec_v(drift as u64));
        append_str(&mut v, " drift item(s). Re-run with --yes to apply the fixable ones.");
    }
    string_of(&v)
}

// ---------------------------------------------------------------------------
// Dashboard counts
// ---------------------------------------------------------------------------

/// The dashboard's forge tiles, and the warning given when the forge could
/// not be reached.
#[derive(Debug)]
pub struct DashboardCounts {
    /// Proposed ADRs with no pull request linked.
    pub proposed_without_pr: u32,
    /// Unmerged pull requests with at least the quorum of approvals.
    pub approved_unmerged: u32,
    pub warnings: Vec<String>,
}

pub open spec fn count_unlinked(es: Seq<ForgeEntry>, n: int) -> int
    decreases n,
{
    if n <= 0 {
        0
    } else {
        count_unlinked(es, n - 1) + if es[n - 1].status == Status::Proposed && es[n - 1].refs.pr is None {
            1int
        } else {
            0int
        }
    }
}

pub open spec fn count_ready(os: Seq<Outcome>, quorum: u32, n: int) -> int
    decreases n,
{
    if n <= 0 {
        0
    } else {
        count_ready(os, quorum, n - 1) + match os[n - 1].0 {
            Some(st) => if !st.merged && st.approvals >= quorum {
                1int
            } else {
                0int
            },
            None => 0int,
        }
    }
}

proof fn lemma_counts_bounded(es: Seq<ForgeEntry>, os: Seq<Outcome>, quorum: u32, n: int)
    requires
        0 <= n,
    ensures
        0 <= count_unlinked(es, n) <= n,
        0 <= count_ready(os, quorum, n) <= n,
    decreases n,
{
    if n > 0 {
        lemma_counts_bounded(es, os, quorum, n - 1);
    }
}

proof fn lemma_ready_prefix(a: Seq<Outcome>, b: Seq<Outcome>, quorum: u32, n: int)
    requires
        0 <= n <= a.len(),
        n <= b.len(),
        forall|k: int| 0 <= k < n ==> a[k] == b[k],
    ensures
        count_ready(a, quorum, n) == count_ready(b, quorum, n),
    decreases n,
{
    if n > 0 {
        lemma_ready_prefix(a, b, quorum, n - 1);
    }
}

/// Count proposed ADRs without a pull request, and unmerged pull requests
/// that have at least `quorum` approvals, over whatever the forge answered.
pub fn dashboard_counts<F: Forge>(forge: &F, entries: &Vec<ForgeEntry>, quorum: u32) -> (r: DashboardCounts)
    requires
        entries.len() <= u32::MAX,
    ensures
        r.proposed_without_pr == count_unlinked(entries@, entries.len() as int),
        exists|os: Seq<Outcome>| outcomes_fit(entries@, os) && r.approved_unmerged == count_ready(os, quorum, entries.len() as int),
        r.warnings.len() <= 1,
{
    let mut unlinked: u32 = 0;
    let mut ready: u32 = 0;
    let mut warnings: Vec<String> = Vec::new();
    let ghost mut os: Seq<Outcome> = Seq::empty();
    let mut i: usize = 0;
    while i < entries.len()
        invariant
            i <= entries.len(),
            entries.len() <= u32::MAX,
            os.len() == i,
            forall|k: int| 0 <= k < i ==> outcome_fits(#[trigger] entries@[k], os[k]),
            unlinked == count_unlinked(entries@, i as int),
            ready == count_ready(os, quorum, i as int),
            warnings.len() <= 1,
        decreases entries.len() - i,
    {
        let e = &entries[i];
        proof {
            lemma_counts_bounded(entries@, os, quorum, i as int);
        }
        if e.status == Status::Proposed && e.refs.pr.is_none() {
            unlinked = unlinked + 1;
        }
        let pr: Option<PrState> = match &e.refs.pr {
            Some(p) => match forge.pr_state(p.0.as_str()) {
                Ok(st) => Some(st),
                Err(err) => {
                    if err.is_offline() && warnings.len() == 0 {
                        warnings.push(unreachable_note(&err, "approval counts may be partial."));
                    }
                    None
                },
            },
            None => None,
        };
        match &pr {
            Some(st) => {
                if !st.merged && st.approvals >= quorum {
                    ready = ready + 1;
                }
            },
            None => {},
        }
        proof {
            let os2 = os.push((pr, None));
            lemma_ready_prefix(os, os2, quorum, i as int);
            os = os2;
        }
        i = i + 1;
    }
    assert(outcomes_fit(entries@, os));
    DashboardCounts { proposed_without_pr: unlinked, approved_unmerged: ready, warnings }
}

// ---------------------------------------------------------------------------
// Live forge data for a listing
// ---------------------------------------------------------------------------

/// An ADR's issue and pull request links, and its pull request's live state.
#[derive(Debug)]
pub struct ForgeData {
    pub issue_url: Option<String>,
    pub pr_url: Option<String>,
    pub pr_approvals: Option<u32>,
    /// `success`, `pending`, `failure` or `none`.
    pub pr_ci: Option<String>,
    pub pr_merged: Option<bool>,
}

pub struct ForgeDataV {
    pub issue_url: Option<Seq<char>>,
    pub pr_url: Option<Seq<char>>,
    pub pr_approvals: Option<u32>,
    pub pr_ci: Option<Seq<char>>,
    pub pr_merged: Option<bool>,
}

pub open spec fn url_of(p: Option<(String, String)>) -> Option<Seq<char>> {
    match p {
        Some(x) => Some(x.1@),
        None => None,
    }
}

pub open spec fn text_of(o: Option<String>) -> Option<Seq<char>> {
    match o {
        Some(s) => Some(s@),
        None => None,
    }
}

pub open spec fn data_v(d: ForgeData) -> ForgeDataV {
    ForgeDataV {
        issue_url: text_of(d.issue_url),
        pr_url: text_of(d.pr_url),
        pr_approvals: d.pr_approvals,
        pr_ci: text_of(d.pr_ci),
        pr_merged: d.pr_merged,
    }
}

pub open spec fn ci_name(ci: CiStatus) -> Seq<char> {
    match ci {
        CiStatus::Success => "success"@,
        CiStatus::Pending => "pending"@,
        CiStatus::Failure => "failure"@,
        CiStatus::NoChecks => "none"@,
    }
}

/// The forge data of an ADR with these links, given its pull request's
/// state where it was read; none for an ADR that links neither.
pub open spec fn forge_data_spec(refs: ForgeRefs, st: Option<PrState>) -> Option<ForgeDataV> {
    if refs.issue is None && refs.pr is None {
        None
    } else {
        Some(
            ForgeDataV {
                issue_url: url_of(refs.issue),
                pr_url: url_of(refs.pr),
                pr_approvals: match st {
                    Some(s) => Some(s.approvals),
                    None => None,
                },
                pr_ci: match st {
                    Some(s) => Some(ci_name(s.ci)),
                    None => None,
                },
                pr_merged: match st {
                    Some(s) => Some(s.merged),
                    None => None,
                },
            },
        )
    }
}

fn url_v(p: &Option<(String, String)>) -> (r: Option<String>)
    ensures
        text_of(r) == url_of(*p),
{
    match p {
        Some(x) => Some(string_of(&chars_of(x.1.as_str()))),
        None => None,
    }
}

/// The forge data of an ADR with these links and this pull request state.
pub fn forge_data_of(refs: &ForgeRefs, st: &Option<PrState>) -> (r: Option<ForgeData>)
    ensures
        match r {
            Some(d) => forge_data_spec(*refs, *st) == Some(data_v(d)),
            None => forge_data_spec(*refs, *st) is None,
        },
{
    if refs.issue.is_none() && refs.pr.is_none() {
        return None;
    }
    let ci: Option<String> = match st {
        Some(s) => Some(
            string_of(
                &chars_of(
                    match s.ci {
                        CiStatus::Success => "success",
                        CiStatus::Pending => "pending",
                        CiStatus::Failure => "failure",
                        CiStatus::NoChecks => "none",
                    },
                ),
            ),
        ),
        None => None,
    };
    Some(
        ForgeData {
            issue_url: url_v(&refs.issue),
            pr_url: url_v(&refs.pr),
            pr_approvals: match st {
                Some(s) => Some(s.approvals),
                None => None,
            },
            pr_ci: ci,
            pr_merged: match st {
                Some(s) => Some(s.merged),
                None => None,
            },
        },
    )
}

pub open spec fn opt_data_v(d: Option<ForgeData>) -> Option<ForgeDataV> {
    match d {
        Some(x) => Some(data_v(x)),
        None => None,
    }
}

/// Attach live forge data to each summary whose ADR was found (`refs[i]` is
/// `Some`) and links an issue or a pull request; other summaries keep what
/// they had. The pull request's state is read from the forge; a connectivity
/// failure warns once and leaves the links alone.
pub fn enrich_with<F: Forge>(forge: &F, summaries: &mut Vec<AdrSummary>, refs: &Vec<Option<ForgeRefs>>) -> (warnings: Vec<String>)
    requires
        old(summaries).len() == refs.len(),
    ensures
        final(summaries).len() == old(summaries).len(),
        forall|i: int| 0 <= i < refs.len() ==> (#[trigger] final(summaries)@[i])@ == old(summaries)@[i]@,
        exists|sts: Seq<Option<PrState>>| {
            &&& sts.len() == refs.len()
            &&& forall|i: int| 0 <= i < refs.len() ==> {
                let before = old(summaries)@[i].forge_data;
                let after = final(summaries)@[i].forge_data;
                match #[trigger] refs@[i] {
                    Some(r) => (sts[i] is Some ==> r.pr is Some) && match forge_data_spec(r, sts[i]) {
                        Some(d) => opt_data_v(after) == Some(d),
                        None => opt_data_v(after) == opt_data_v(before),
                    },
                    None => opt_data_v(after) == opt_data_v(before),
                }
            }
        },
        warnings.len() <= 1,
{
    let mut warnings: Vec<String> = Vec::new();
    let ghost mut sts: Seq<Option<PrState>> = Seq::empty();
    let ghost start = summaries@;
    let mut i: usize = 0;
    while i < refs.len()
        invariant
            i <= refs.len(),
            summaries.len() == refs.len(),
            start.len() == refs.len(),
            sts.len() == i,
            forall|k: int| 0 <= k < refs.len() ==> (#[trigger] summaries@[k])@ == start[k]@,
            forall|k: int| i <= k < refs.len() ==> opt_data_v((#[trigger] summaries@[k]).forge_data) == opt_data_v(start[k].forge_data),
            forall|k: int| 0 <= k < i ==> {
                let before = start[k].forge_data;
                let after = summaries@[k].forge_data;
                match #[trigger] refs@[k] {
                    Some(r) => (sts[k] is Some ==> r.pr is Some) && match forge_data_spec(r, sts[k]) {
                        Some(d) => opt_data_v(after) == Some(d),
                        None => opt_data_v(after) == opt_data_v(before),
                    },
                    None => opt_data_v(after) == opt_data_v(before),
                }
            },
            warnings.len() <= 1,
        decreases refs.len() - i,
    {
        let mut st: Option<PrState> = None;
        match &refs[i] {
            Some(r) => {
                match &r.pr {
                    Some(p) => match forge.pr_state(p.0.as_str()) {
                        Ok(s) => {
                            st = Some(s);
                        },
                        Err(err) => {
                            if err.is_offline() && warnings.len() == 0 {
                                warnings.push(unreachable_note(&err, "showing links only"));
                            }
                        },
                    },
                    None => {},
                }
                match forge_data_of(r, &st) {
                    Some(d) => {
                        summaries[i].forge_data = Some(d);
                    },
                    None => {},
                }
            },
            None => {},
        }
        proof {
            sts = sts.push(st);
        }
        i = i + 1;
    }
    warnings
}

} // verus!
