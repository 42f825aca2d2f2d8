use std::cell::Cell;

use adroit::adr::Status;
use adroit::forge::drift::{
    check_repo, dashboard_counts, enrich_with, entry_findings_v, forge_data_of, reconcile_plan, reconcile_summary,
    ForgeEntry,
};
use adroit::forge::{
    CiStatus, Forge, ForgeError, ForgeRefs, IssueRef, IssueState, PrDraft, PrRef, PrState, Tracker, Transition,
};
use adroit::forge::hooks::{comment, on_supersede, pr_sync_body, sync_pr};
use adroit::naming::NamingScheme;
use adroit::query::{summary_of, ProblemKind, Severity};
use adroit::template::CalDate;

/// A forge answering every pull request with one state, counting reads.
struct StateForge {
    state: Result<PrState, ForgeError>,
    reads: Cell<u32>,
}

impl Forge for StateForge {
    fn open_pr(&self, d: &PrDraft) -> Result<PrRef, ForgeError> {
        Ok(PrRef { id: "1".into(), url: "u".into(), branch: d.branch.clone() })
    }
    fn pr_state(&self, _: &str) -> Result<PrState, ForgeError> {
        self.reads.set(self.reads.get() + 1);
        self.state.clone()
    }
    fn merge_pr(&self, _: &str) -> Result<(), ForgeError> {
        unreachable!("drift checks never merge")
    }
    fn close_pr(&self, _: &str) -> Result<(), ForgeError> {
        unreachable!("drift checks never close")
    }
    fn comment_pr(&self, _: &str, _: &str) -> Result<(), ForgeError> {
        Ok(())
    }
    fn set_pr_body(&self, _: &str, _: &str) -> Result<(), ForgeError> {
        Ok(())
    }
    fn describe(&self) -> String {
        "state".into()
    }
}

/// A tracker whose issues are all open or all closed.
struct IssueTracker {
    open: bool,
}

impl Tracker for IssueTracker {
    fn create_issue(&self, title: &str, _: &str) -> Result<IssueRef, ForgeError> {
        Ok(IssueRef { id: "0".into(), url: "x".into(), title: title.into() })
    }
    fn transition(&self, _: &str, _: Transition) -> Result<(), ForgeError> {
        Ok(())
    }
    fn close_issue(&self, _: &str) -> Result<(), ForgeError> {
        Ok(())
    }
    fn comment_issue(&self, _: &str, _: &str) -> Result<(), ForgeError> {
        Ok(())
    }
    fn issue_state(&self, _: &str) -> Result<IssueState, ForgeError> {
        Ok(IssueState { open: self.open, url: "x".into() })
    }
    fn describe(&self) -> String {
        "issues".into()
    }
}

fn merged(m: bool, approvals: u32) -> Result<PrState, ForgeError> {
    Ok(PrState { approvals, ci: CiStatus::NoChecks, merged: m, draft: false })
}

fn entry(n: u32, status: Status, issue: bool, pr: bool) -> ForgeEntry {
    ForgeEntry {
        reference: format!("ADR-{n:04}"),
        file: format!("{n:04}-x.md"),
        status,
        refs: ForgeRefs {
            issue: if issue { Some(("7".into(), "https://f/issues/7".into())) } else { None },
            pr: if pr { Some(("42".into(), "https://f/pull/42".into())) } else { None },
        },
    }
}

#[test]
fn check_repo_flags_status_drift_against_pr_and_issue() {
    let forge = StateForge { state: merged(false, 0), reads: Cell::new(0) };
    let entries = vec![entry(1, Status::Accepted, false, true), entry(2, Status::Proposed, true, false)];
    let out = check_repo(&forge, &IssueTracker { open: false }, &entries);
    assert!(out.warnings.is_empty());
    let msgs: Vec<_> = out.problems.iter().map(|p| p.message.as_str()).collect();
    assert_eq!(
        msgs,
        vec![
            "0001-x.md: accepted ADR but its PR is not merged (https://f/pull/42)",
            "0002-x.md: tracker issue is closed but the ADR is still proposed (https://f/issues/7)",
        ]
    );
    assert!(out.problems.iter().all(|p| p.severity == Severity::Warning && p.kind == ProblemKind::ForgeIntegration));
}

#[test]
fn check_repo_flags_merged_pr_of_proposed_adr_and_warns_once_offline() {
    let forge = StateForge { state: merged(true, 2), reads: Cell::new(0) };
    let found = check_repo(&forge, &IssueTracker { open: true }, &vec![entry(3, Status::Proposed, false, true)]);
    assert_eq!(found.problems.len(), 1);
    assert_eq!(found.problems[0].summary, "PR is merged but the ADR is still proposed");

    let offline = StateForge { state: Err(ForgeError::Offline("timeout".into())), reads: Cell::new(0) };
    let entries = vec![entry(1, Status::Accepted, false, true), entry(2, Status::Accepted, false, true)];
    let out = check_repo(&offline, &IssueTracker { open: true }, &entries);
    assert!(out.problems.is_empty());
    assert_eq!(out.warnings, vec!["forge unreachable (forge unreachable: timeout); skipping forge checks".to_string()]);
    assert_eq!(offline.reads.get(), 2);
}

#[test]
fn entry_findings_are_silent_without_links_or_answers() {
    let e = entry(4, Status::Accepted, false, false);
    assert!(entry_findings_v(&e, &None, &None).is_empty());
    let linked = entry(5, Status::Accepted, true, true);
    assert!(entry_findings_v(&linked, &None, &None).is_empty());
}

#[test]
fn run_reconcile_accepts_a_merged_pr_locally() {
    let forge = StateForge { state: merged(true, 0), reads: Cell::new(0) };
    let entries = vec![entry(1, Status::Proposed, false, true)];
    let plan = reconcile_plan::<StateForge, IssueTracker>(&forge, None, &entries);
    assert_eq!(plan.fixes, vec![0]);
    assert_eq!(plan.lines, vec!["ADR-0001: PR https://f/pull/42 is merged but status is Proposed -> accepted".to_string()]);
}

#[test]
fn reconcile_reports_closed_issue_without_fixing_and_summarizes() {
    let forge = StateForge { state: merged(false, 0), reads: Cell::new(0) };
    let tracker = IssueTracker { open: false };
    let entries = vec![entry(2, Status::Proposed, true, true), entry(3, Status::Accepted, true, false)];
    let plan = reconcile_plan(&forge, Some(&tracker), &entries);
    assert!(plan.fixes.is_empty());
    assert_eq!(
        plan.lines,
        vec![
            "ADR-0002: issue https://f/issues/7 is closed but status is still proposed (resolve: set-status accepted|rejected)"
                .to_string()
        ]
    );
    assert_eq!(reconcile_summary(0, 0, true), "Reconcile: no drift — local statuses match the forge.");
    assert_eq!(reconcile_summary(3, 1, true), "\nReconcile: 1 fixed, 2 reported.");
    assert_eq!(
        reconcile_summary(2, 0, false),
        "\nReconcile: 2 drift item(s). Re-run with --yes to apply the fixable ones."
    );
}

#[test]
fn dashboard_counts_unlinked_proposals_and_approved_unmerged_prs() {
    let forge = StateForge { state: merged(false, 2), reads: Cell::new(0) };
    let entries = vec![
        entry(1, Status::Proposed, false, false),
        entry(2, Status::Proposed, false, true),
        entry(3, Status::Accepted, false, false),
    ];
    let c = dashboard_counts(&forge, &entries, 2);
    assert_eq!(c.proposed_without_pr, 1);
    assert_eq!(c.approved_unmerged, 1);
    assert_eq!(dashboard_counts(&forge, &entries, 3).approved_unmerged, 0);
}

#[test]
fn enrich_attaches_links_and_live_pr_state() {
    let adr = adroit::adr::Adr::new("X").unwrap();
    let today = CalDate { year: 2026, month: 6, day: 1 };
    let mut rows = vec![
        summary_of(&adr, &None, today, today, None, NamingScheme::Sequential),
        summary_of(&adr, &None, today, today, None, NamingScheme::Sequential),
        summary_of(&adr, &None, today, today, None, NamingScheme::Sequential),
    ];
    let forge = StateForge { state: merged(false, 1), reads: Cell::new(0) };
    let refs = vec![Some(entry(1, Status::Proposed, true, true).refs), None, Some(entry(2, Status::Proposed, false, false).refs)];
    let warnings = enrich_with(&forge, &mut rows, &refs);
    assert!(warnings.is_empty());
    let d = rows[0].forge_data.as_ref().unwrap();
    assert_eq!(d.issue_url.as_deref(), Some("https://f/issues/7"));
    assert_eq!(d.pr_url.as_deref(), Some("https://f/pull/42"));
    assert_eq!(d.pr_approvals, Some(1));
    assert_eq!(d.pr_ci.as_deref(), Some("none"));
    assert_eq!(d.pr_merged, Some(false));
    assert!(rows[1].forge_data.is_none());
    assert!(rows[2].forge_data.is_none());
    let only_issue = ForgeRefs { issue: Some(("7".into(), "i".into())), pr: None };
    let d = forge_data_of(&only_issue, &None).unwrap();
    assert_eq!((d.pr_url, d.pr_approvals, d.pr_ci), (None, None, None));
}

/// A forge that records what it was asked to do.
struct RecordingForge {
    calls: std::cell::RefCell<Vec<String>>,
    fail_with: Option<ForgeError>,
}

impl Forge for RecordingForge {
    fn open_pr(&self, d: &PrDraft) -> Result<PrRef, ForgeError> {
        Ok(PrRef { id: "1".into(), url: "u".into(), branch: d.branch.clone() })
    }
    fn pr_state(&self, _: &str) -> Result<PrState, ForgeError> {
        merged(false, 0)
    }
    fn merge_pr(&self, _: &str) -> Result<(), ForgeError> {
        Ok(())
    }
    fn close_pr(&self, pr: &str) -> Result<(), ForgeError> {
        self.calls.borrow_mut().push(format!("close {pr}"));
        Ok(())
    }
    fn comment_pr(&self, pr: &str, body: &str) -> Result<(), ForgeError> {
        self.calls.borrow_mut().push(format!("comment {pr}: {body}"));
        match &self.fail_with {
            Some(e) => Err(e.clone()),
            None => Ok(()),
        }
    }
    fn set_pr_body(&self, pr: &str, body: &str) -> Result<(), ForgeError> {
        self.calls.borrow_mut().push(format!("body {pr}: {body}"));
        match &self.fail_with {
            Some(e) => Err(e.clone()),
            None => Ok(()),
        }
    }
    fn describe(&self) -> String {
        "rec".into()
    }
}

fn recording(fail_with: Option<ForgeError>) -> RecordingForge {
    RecordingForge { calls: std::cell::RefCell::new(Vec::new()), fail_with }
}

#[test]
fn on_supersede_previews_then_comments_and_closes() {
    let forge = recording(None);
    let refs = entry(1, Status::Accepted, true, true).refs;
    let preview = on_supersede(&forge, &IssueTracker { open: true }, &refs, "ADR-0009", false, false);
    assert_eq!(preview.proceed, Ok(false));
    assert_eq!(
        preview.plan,
        vec![
            "Forge plan (supersede):".to_string(),
            "  - comment + close PR https://f/pull/42".to_string(),
            "  - comment + close issue https://f/issues/7".to_string(),
            String::new(),
            "Preview — re-run with --yes to apply.".to_string(),
        ]
    );
    assert!(forge.calls.borrow().is_empty());
    let applied = on_supersede(&forge, &IssueTracker { open: true }, &refs, "ADR-0009", false, true);
    assert_eq!(applied.proceed, Ok(true));
    assert_eq!(*forge.calls.borrow(), vec!["comment 42: Superseded by ADR-0009.".to_string(), "close 42".to_string()]);
}

#[test]
fn comment_skips_unlinked_adrs_and_warns_on_failure() {
    let forge = recording(Some(ForgeError::Api { status: 500, message: "boom".into() }));
    let none = entry(1, Status::Proposed, false, false).refs;
    let r = comment(&forge, &IssueTracker { open: true }, &none, "hi", "kickoff", false, true);
    assert!(r.plan.is_empty() && r.warnings.is_empty());
    let refs = entry(1, Status::Proposed, false, true).refs;
    let r = comment(&forge, &IssueTracker { open: true }, &refs, "hi", "kickoff", false, true);
    assert_eq!(r.warnings, vec!["couldn't comment on PR (forge API error 500: boom)".to_string()]);
    let preview = comment(&forge, &IssueTracker { open: true }, &refs, "hi", "kickoff", true, true);
    assert_eq!(preview.plan[0], "Forge plan (kickoff):");
    assert_eq!(preview.plan[1], "  - comment on PR https://f/pull/42");
}

#[test]
fn sync_pr_writes_a_marked_description_and_degrades_offline() {
    let refs = entry(1, Status::Proposed, true, true).refs;
    assert_eq!(pr_sync_body(&refs, "0001-x.md", "# ADR\n"), "Closes #7\n\n<!-- adroit:adr=0001-x.md -->\n# ADR\n");
    let forge = recording(None);
    let r = sync_pr(&forge, &refs, "0001-x.md", "# ADR\n", false, true);
    assert_eq!(r.proceed, Ok(true));
    assert_eq!(r.plan, vec!["Forge: synced PR https://f/pull/42".to_string()]);
    let preview = sync_pr(&forge, &refs, "0001-x.md", "# ADR\n", false, false);
    assert_eq!(preview.proceed, Ok(false));
    assert_eq!(preview.plan[0], "Forge plan (sync): refresh PR https://f/pull/42 description from `0001-x.md`");
    let offline = recording(Some(ForgeError::Offline("down".into())));
    let r = sync_pr(&offline, &refs, "0001-x.md", "x", false, true);
    assert_eq!(r.proceed, Ok(true));
    assert_eq!(r.warnings, vec!["forge unreachable (forge unreachable: down); PR left unchanged.".to_string()]);
    let auth = recording(Some(ForgeError::Auth("no".into())));
    assert!(sync_pr(&auth, &refs, "0001-x.md", "x", false, true).proceed.is_err());
    let no_pr = entry(1, Status::Proposed, true, false).refs;
    assert_eq!(sync_pr(&forge, &no_pr, "f", "x", false, true).proceed, Ok(true));
}
