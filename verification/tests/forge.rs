use std::sync::{Arc, Mutex};

use adroit::config::{ForgeConfig, Provider, TrackerProvider};
use adroit::forge::github::{classify_check_runs, count_approvals, Github};
use adroit::forge::gitlab::Gitlab;
use adroit::forge::jira::{base64, pick_transition, Jira};
use adroit::adr::Status;
use adroit::forge::{
    accept_step, AcceptStep, forge_refs, message_of, open, render_forge_template, response_outcome, run_status_change, CiStatus, Forge,
    ForgeError, ForgeRefs, HttpResponse, HttpTransport, IssueRef, IssueState, PrDraft, PrRef, PrState, Tracker,
    TrackerTarget, Transition,
};
use std::cell::Cell;

/// A transport that records requests and replays canned responses keyed by
/// `"METHOD /path-substring"`, never touching the network.
struct FakeTransport {
    routes: Vec<(String, u16, String)>,
    seen: Mutex<Vec<String>>,
    fallback: &'static str,
}

impl FakeTransport {
    fn new(routes: &[(&str, u16, &str)], fallback: &'static str) -> Self {
        Self {
            routes: routes.iter().map(|(m, s, b)| (m.to_string(), *s, b.to_string())).collect(),
            seen: Mutex::new(Vec::new()),
            fallback,
        }
    }
}

impl HttpTransport for FakeTransport {
    fn request(
        &self,
        method: &str,
        url: &str,
        _headers: &[(&str, &str)],
        _body: Option<&[u8]>,
    ) -> Result<HttpResponse, ForgeError> {
        self.seen.lock().unwrap().push(format!("{method} {url}"));
        for (needle, status, body) in &self.routes {
            let (m, frag) = needle.split_once(' ').unwrap();
            if method == m && url.contains(frag) {
                return Ok(HttpResponse { status: *status, body: body.clone().into_bytes() });
            }
        }
        Ok(HttpResponse { status: 404, body: self.fallback.as_bytes().to_vec() })
    }
}

fn github(routes: &[(&str, u16, &str)]) -> Github<FakeTransport> {
    Github::with_transport("owner/repo", Arc::new(FakeTransport::new(routes, r#"{"message":"no fake route"}"#)))
}

fn gitlab(routes: &[(&str, u16, &str)]) -> Gitlab<FakeTransport> {
    Gitlab::with_transport("grp/proj", Arc::new(FakeTransport::new(routes, r#"{"message":"no fake route"}"#)))
}

fn jira(routes: &[(&str, u16, &str)]) -> Jira<FakeTransport> {
    Jira::with_transport(
        "site.atlassian.net",
        "OPS",
        Arc::new(FakeTransport::new(routes, r#"{"errorMessages":["no route"]}"#)),
    )
}

fn draft(title: &str, body: &str) -> PrDraft {
    PrDraft { branch: "adr/0007-pg".into(), base: "main".into(), title: title.into(), body: body.into() }
}

// ----- factory and templates -----

#[test]
fn open_disabled_provider_yields_no_adapters() {
    let (f, t) = open(&ForgeConfig::default());
    assert!(f.is_none() && t.is_none());
}

#[test]
fn open_needs_token_and_repo_and_shares_the_native_tracker() {
    let mut cfg = ForgeConfig::default();
    cfg.provider = Provider::Github;
    cfg.token = Some("tok".into());
    assert!(open(&cfg).0.is_none());
    cfg.repo = Some("owner/repo".into());
    let (f, t) = open(&cfg);
    let f = f.unwrap();
    assert_eq!(f.repo, "owner/repo");
    assert_eq!(f.token, "tok");
    assert!(matches!(t, Some(TrackerTarget::Native(ref n)) if n.repo == "owner/repo"));
}

#[test]
fn open_jira_tracker_needs_host_and_project() {
    let mut cfg = ForgeConfig::default();
    cfg.tracker = TrackerProvider::Jira;
    assert!(open(&cfg).1.is_none());
    cfg.tracker_host = Some("site.atlassian.net".into());
    cfg.tracker_project = Some("OPS".into());
    match open(&cfg).1 {
        Some(TrackerTarget::Jira { host, project }) => {
            assert_eq!(host, "site.atlassian.net");
            assert_eq!(project, "OPS");
        }
        other => panic!("unexpected {other:?}"),
    }
}

#[test]
fn forge_template_substitutes_placeholders() {
    let out = render_forge_template(
        "Issue for {{title}} ({{file}}) — see #{{issue}}",
        "Adopt PG",
        "0007-pg.md",
        "42",
    );
    assert_eq!(out, "Issue for Adopt PG (0007-pg.md) — see #42");
}

// ----- response classification -----

#[test]
fn response_outcome_maps_statuses() {
    let ok = response_outcome(HttpResponse { status: 200, body: b"{}".to_vec() }, "GitHub", String::new());
    assert_eq!(ok.unwrap(), b"{}".to_vec());
    let empty = response_outcome(HttpResponse { status: 204, body: Vec::new() }, "GitHub", String::new());
    assert!(empty.unwrap().is_empty());
    let bad = response_outcome(HttpResponse { status: 200, body: b"not json".to_vec() }, "GitHub", String::new());
    match bad {
        Err(ForgeError::Api { status, message }) => {
            assert_eq!(status, 200);
            assert!(message.starts_with("invalid JSON from GitHub: "), "{message}");
        }
        other => panic!("unexpected {other:?}"),
    }
    let auth = response_outcome(HttpResponse { status: 403, body: Vec::new() }, "GitHub", "nope".into());
    assert_eq!(auth, Err(ForgeError::Auth("nope".into())));
    let api = response_outcome(HttpResponse { status: 500, body: Vec::new() }, "GitHub", "boom".into());
    assert_eq!(api, Err(ForgeError::Api { status: 500, message: "boom".into() }));
}

#[test]
fn message_of_prefers_pointers_then_trimmed_text() {
    assert_eq!(message_of(br#"{"message":"Bad credentials"}"#, &["/message"]), "Bad credentials");
    assert_eq!(message_of(br#"{"error":"nope"}"#, &["/message", "/error"]), "nope");
    assert_eq!(message_of(b"  plain text \n", &["/message"]), "plain text");
    assert_eq!(message_of(br#"{"errorMessages":["first","second"]}"#, &["/errorMessages/0"]), "first");
}

#[test]
fn forge_error_messages() {
    assert!(ForgeError::Offline("dns".into()).is_offline());
    assert!(!ForgeError::Auth("x".into()).is_offline());
    assert_eq!(ForgeError::Api { status: 404, message: "gone".into() }.message(), "forge API error 404: gone");
    assert_eq!(ForgeError::Offline("dns".into()).message(), "forge unreachable: dns");
}

// ----- GitHub -----

#[test]
fn create_issue_parses_number_and_url() {
    let gh = github(&[("POST /issues", 201, r#"{"number":7,"html_url":"https://github.com/owner/repo/issues/7"}"#)]);
    let issue = gh.create_issue("Adopt PG", "body").unwrap();
    assert_eq!(issue.id, "7");
    assert_eq!(issue.url, "https://github.com/owner/repo/issues/7");
    assert_eq!(issue.title, "Adopt PG");
}

#[test]
fn create_issue_without_number_is_an_api_error() {
    let gh = github(&[("POST /issues", 201, r#"{"html_url":"u"}"#)]);
    assert_eq!(
        gh.create_issue("x", "y").unwrap_err(),
        ForgeError::Api { status: 0, message: "GitHub response missing numeric `number`".into() }
    );
}

#[test]
fn open_pr_sends_draft_and_parses_ref() {
    let gh = github(&[("POST /pulls", 201, r#"{"number":42,"html_url":"https://github.com/owner/repo/pull/42"}"#)]);
    let pr = gh.open_pr(&draft("ADR-0007", "Closes #7")).unwrap();
    assert_eq!(pr.id, "42");
    assert_eq!(pr.branch, "adr/0007-pg");
}

#[test]
fn github_requests_are_shaped_as_the_api_wants() {
    let gh = github(&[]);
    let c = gh.create_issue_call("T", "B");
    assert_eq!(c.method, "POST");
    assert_eq!(c.path, "repos/owner/repo/issues");
    assert_eq!(c.body.as_deref(), Some(r#"{"body":"B","title":"T"}"#));
    let t = gh.transition_call("7", Transition::WontFix);
    assert_eq!(t.method, "PATCH");
    assert_eq!(t.path, "repos/owner/repo/issues/7");
    assert_eq!(t.body.as_deref(), Some(r#"{"state":"closed","state_reason":"not_planned"}"#));
    let p = gh.open_pr_call(&draft("ADR-0007", "Closes #7"));
    assert_eq!(
        p.body.as_deref(),
        Some(r#"{"base":"main","body":"Closes #7","draft":true,"head":"adr/0007-pg","title":"ADR-0007"}"#)
    );
    assert_eq!(gh.comment_call("9", "hi").path, "repos/owner/repo/issues/9/comments");
    assert_eq!(Tracker::describe(&gh), "github:owner/repo");
}

#[test]
fn auth_failure_maps_to_auth_error() {
    let gh = github(&[("POST /issues", 401, r#"{"message":"Bad credentials"}"#)]);
    let err = gh.create_issue("x", "y").unwrap_err();
    assert!(matches!(err, ForgeError::Auth(_)));
    assert_eq!(err, ForgeError::Auth("Bad credentials".into()));
}

#[test]
fn pr_state_counts_approvals_and_ci() {
    let gh = github(&[
        ("GET /pulls/42/reviews", 200, r#"[{"state":"APPROVED"},{"state":"COMMENTED"},{"state":"APPROVED"}]"#),
        ("GET /commits/abc/status", 200, r#"{"state":"success","total_count":1}"#),
        ("GET /pulls/42", 200, r#"{"merged":false,"draft":true,"head":{"sha":"abc"}}"#),
    ]);
    let st = gh.pr_state("42").unwrap();
    assert_eq!(st.approvals, 2);
    assert_eq!(st.ci, CiStatus::Success);
    assert!(!st.merged && st.draft);
}

#[test]
fn pr_state_maps_no_checks_to_none_not_pending() {
    let gh = github(&[
        ("GET /pulls/9/reviews", 200, r#"[]"#),
        ("GET /commits/def/status", 200, r#"{"state":"pending","total_count":0}"#),
        ("GET /commits/def/check-runs", 200, r#"{"total_count":0,"check_runs":[]}"#),
        ("GET /pulls/9", 200, r#"{"merged":false,"draft":true,"head":{"sha":"def"}}"#),
    ]);
    assert_eq!(gh.pr_state("9").unwrap().ci, CiStatus::NoChecks);
}

#[test]
fn pr_state_reads_ci_from_check_runs_when_no_commit_status() {
    let gh = github(&[
        ("GET /pulls/9/reviews", 200, r#"[]"#),
        ("GET /commits/def/status", 200, r#"{"state":"pending","total_count":0}"#),
        (
            "GET /commits/def/check-runs",
            200,
            r#"{"total_count":1,"check_runs":[{"status":"completed","conclusion":"success"}]}"#,
        ),
        ("GET /pulls/9", 200, r#"{"merged":false,"draft":false,"head":{"sha":"def"}}"#),
    ]);
    assert_eq!(gh.pr_state("9").unwrap().ci, CiStatus::Success);
}

#[test]
fn classify_check_runs_rolls_up_states() {
    assert_eq!(classify_check_runs(br#"{"total_count":0,"check_runs":[]}"#), CiStatus::NoChecks);
    let pending = br#"{"check_runs":[
        {"status":"completed","conclusion":"success"},
        {"status":"in_progress","conclusion":null}
    ]}"#;
    assert_eq!(classify_check_runs(pending), CiStatus::Pending);
    let failing = br#"{"check_runs":[
        {"status":"completed","conclusion":"success"},
        {"status":"completed","conclusion":"failure"}
    ]}"#;
    assert_eq!(classify_check_runs(failing), CiStatus::Failure);
    let success = br#"{"check_runs":[
        {"status":"completed","conclusion":"success"},
        {"status":"completed","conclusion":"skipped"}
    ]}"#;
    assert_eq!(classify_check_runs(success), CiStatus::Success);
    assert_eq!(classify_check_runs(b"not json"), CiStatus::NoChecks);
}

#[test]
fn count_approvals_counts_only_approved_reviews() {
    assert_eq!(count_approvals(br#"[{"state":"APPROVED"},{"state":"CHANGES_REQUESTED"}]"#), 1);
    assert_eq!(count_approvals(br#"{"state":"APPROVED"}"#), 0);
}

// ----- GitLab -----

#[test]
fn create_issue_uses_iid_and_encodes_project() {
    let gl = gitlab(&[(
        "POST /projects/grp%2Fproj/issues",
        201,
        r#"{"iid":7,"web_url":"https://gitlab.com/grp/proj/-/issues/7"}"#,
    )]);
    let issue = gl.create_issue("Adopt PG", "desc").unwrap();
    assert_eq!(issue.id, "7");
    assert!(issue.url.contains("/issues/7"));
}

#[test]
fn open_mr_prefixes_draft_and_parses_iid() {
    let gl = gitlab(&[(
        "POST /merge_requests",
        201,
        r#"{"iid":42,"web_url":"https://gitlab.com/grp/proj/-/merge_requests/42"}"#,
    )]);
    let pr = gl.open_pr(&draft("ADR-0007", "body")).unwrap();
    assert_eq!(pr.id, "42");
    let body = Gitlab::<FakeTransport>::merge_request_body(&draft("ADR-0007", "body"));
    assert_eq!(
        body,
        r#"{"description":"body","source_branch":"adr/0007-pg","target_branch":"main","title":"Draft: ADR-0007"}"#
    );
}

#[test]
fn pr_state_reads_approvals_and_pipeline() {
    let gl = gitlab(&[
        ("GET /merge_requests/42/approvals", 200, r#"{"approved_by":[{"user":{}},{"user":{}}]}"#),
        ("GET /merge_requests/42", 200, r#"{"state":"opened","draft":true,"head_pipeline":{"status":"success"}}"#),
    ]);
    let st = gl.pr_state("42").unwrap();
    assert_eq!(st.approvals, 2);
    assert_eq!(st.ci, CiStatus::Success);
    assert!(!st.merged && st.draft);
}

#[test]
fn gitlab_approvals_failure_counts_as_zero() {
    let gl = gitlab(&[
        ("GET /merge_requests/5/approvals", 500, r#"{"message":"down"}"#),
        ("GET /merge_requests/5", 200, r#"{"state":"merged","head_pipeline":{"status":"running"}}"#),
    ]);
    let st = gl.pr_state("5").unwrap();
    assert_eq!(st.approvals, 0);
    assert_eq!(st.ci, CiStatus::Pending);
    assert!(st.merged && !st.draft);
}

#[test]
fn gitlab_project_is_percent_encoded() {
    let gl = gitlab(&[]);
    assert_eq!(gl.proj(), "grp%2Fproj");
    assert_eq!(gl.project_call("GET", "/issues/3", None).path, "projects/grp%2Fproj/issues/3");
    assert_eq!(Forge::describe(&gl), "gitlab:grp/proj");
}

// ----- Jira -----

#[test]
fn base64_matches_known_vectors() {
    assert_eq!(base64(b"foo:bar"), "Zm9vOmJhcg==");
    assert_eq!(base64(b"a@b.com:tok"), "YUBiLmNvbTp0b2s=");
}

#[test]
fn base64_pads_each_group_length() {
    assert_eq!(base64(b""), "");
    assert_eq!(base64(b"f"), "Zg==");
    assert_eq!(base64(b"fo"), "Zm8=");
    assert_eq!(base64(b"foo"), "Zm9v");
    assert_eq!(base64(&[0xff, 0xfe, 0xfd]), "//79");
}

#[test]
fn create_issue_returns_key_and_browse_url() {
    let j = jira(&[("POST /issue", 201, r#"{"key":"OPS-123"}"#)]);
    let issue = j.create_issue("Adopt PG", "desc").unwrap();
    assert_eq!(issue.id, "OPS-123");
    assert_eq!(issue.url, "https://site.atlassian.net/browse/OPS-123");
}

#[test]
fn jira_issue_body_nests_fields() {
    let j = jira(&[]);
    let c = j.create_issue_call("Adopt PG", "desc");
    assert_eq!(c.path, "issue");
    assert_eq!(
        c.body.as_deref(),
        Some(r#"{"fields":{"description":"desc","issuetype":{"name":"Task"},"project":{"key":"OPS"},"summary":"Adopt PG"}}"#)
    );
}

#[test]
fn issue_state_maps_status_category() {
    let j = jira(&[("GET /issue/OPS-1", 200, r#"{"fields":{"status":{"statusCategory":{"key":"done"}}}}"#)]);
    assert!(!j.issue_state("OPS-1").unwrap().open);
}

#[test]
fn pick_transition_takes_the_first_fitting_name() {
    let list = br#"{"transitions":[
        {"id":"11","name":"In Progress"},
        {"id":"21","name":"Resolve Issue"},
        {"id":"31","name":"Done"}
    ]}"#;
    assert_eq!(pick_transition(list, Transition::Done).as_deref(), Some("21"));
    assert_eq!(pick_transition(list, Transition::WontFix), None);
    assert_eq!(pick_transition(b"{}", Transition::Reopen), None);
}

#[test]
fn jira_error_message_comes_from_error_messages() {
    let j = jira(&[("POST /issue", 400, r#"{"errorMessages":["project is required"]}"#)]);
    assert_eq!(
        j.create_issue("x", "y").unwrap_err(),
        ForgeError::Api { status: 400, message: "project is required".into() }
    );
}

// ----- status changes -----

/// A forge whose PR state is configurable and that records a merge.
struct MockForge {
    state: PrState,
    merged: Cell<bool>,
}

impl Forge for MockForge {
    fn open_pr(&self, d: &PrDraft) -> Result<PrRef, ForgeError> {
        Ok(PrRef { id: "1".into(), url: "u".into(), branch: d.branch.clone() })
    }
    fn pr_state(&self, _: &str) -> Result<PrState, ForgeError> {
        Ok(self.state.clone())
    }
    fn merge_pr(&self, _: &str) -> Result<(), ForgeError> {
        self.merged.set(true);
        Ok(())
    }
    fn close_pr(&self, _: &str) -> Result<(), ForgeError> {
        Ok(())
    }
    fn comment_pr(&self, _: &str, _: &str) -> Result<(), ForgeError> {
        Ok(())
    }
    fn set_pr_body(&self, _: &str, _: &str) -> Result<(), ForgeError> {
        Ok(())
    }
    fn describe(&self) -> String {
        "mock".into()
    }
}

/// A forge whose PR read fails with an auth error.
struct AuthFailForge;

impl Forge for AuthFailForge {
    fn open_pr(&self, _: &PrDraft) -> Result<PrRef, ForgeError> {
        unreachable!()
    }
    fn pr_state(&self, _: &str) -> Result<PrState, ForgeError> {
        Err(ForgeError::Auth("Bad credentials".into()))
    }
    fn merge_pr(&self, _: &str) -> Result<(), ForgeError> {
        unreachable!("apply must abort before merging on an auth failure")
    }
    fn close_pr(&self, _: &str) -> Result<(), ForgeError> {
        unreachable!()
    }
    fn comment_pr(&self, _: &str, _: &str) -> Result<(), ForgeError> {
        unreachable!()
    }
    fn set_pr_body(&self, _: &str, _: &str) -> Result<(), ForgeError> {
        unreachable!()
    }
    fn describe(&self) -> String {
        "authfail".into()
    }
}

/// A tracker that accepts everything and does nothing.
struct QuietTracker;

impl Tracker for QuietTracker {
    fn create_issue(&self, title: &str, _: &str) -> Result<IssueRef, ForgeError> {
        Ok(IssueRef { id: "0".into(), url: "(dry-run)".into(), title: title.into() })
    }
    fn transition(&self, _: &str, _: Transition) -> Result<(), ForgeError> {
        Ok(())
    }
    fn close_issue(&self, _: &str) -> Result<(), ForgeError> {
        Ok(())
    }
    fn comment_issue(&self, _: &str, _: &str) -> Result<(), ForgeError> {
        Ok(())
    }
    fn issue_state(&self, _: &str) -> Result<IssueState, ForgeError> {
        Ok(IssueState { open: true, url: "(dry-run)".into() })
    }
    fn describe(&self) -> String {
        "quiet".into()
    }
}

fn refs_with_pr() -> ForgeRefs {
    ForgeRefs { issue: Some(("7".into(), "issue-url".into())), pr: Some(("42".into(), "pr-url".into())) }
}

fn pr_state(approvals: u32, ci: CiStatus) -> PrState {
    PrState { approvals, ci, merged: false, draft: true }
}

#[test]
fn accept_refuses_below_quorum() {
    let forge = MockForge { state: pr_state(1, CiStatus::Success), merged: false.into() };
    let report = run_status_change(&forge, &QuietTracker, &refs_with_pr(), Status::Accepted, 3, false, true);
    let err = report.proceed.unwrap_err();
    assert!(err.message().contains("refusing to accept"));
    assert_eq!(err.message(), "refusing to accept: PR pr-url has 1/3 approvals, CI Success");
    assert!(!forge.merged.get());
}

#[test]
fn accept_merges_when_approved_and_green() {
    let forge = MockForge { state: pr_state(3, CiStatus::Success), merged: false.into() };
    let report = run_status_change(&forge, &QuietTracker, &refs_with_pr(), Status::Accepted, 3, false, true);
    assert!(report.proceed.unwrap());
    assert!(forge.merged.get());
}

#[test]
fn accept_without_yes_previews_and_does_not_merge() {
    let forge = MockForge { state: pr_state(3, CiStatus::Success), merged: false.into() };
    let report = run_status_change(&forge, &QuietTracker, &refs_with_pr(), Status::Accepted, 3, false, false);
    assert!(!report.proceed.unwrap());
    assert!(!forge.merged.get());
    assert_eq!(report.plan[1], "  - PR pr-url: 3/3 approvals, CI Success");
    assert_eq!(report.plan[2], "  - close issue issue-url");
}

#[test]
fn accept_dry_run_preview_is_credential_free() {
    let report = run_status_change(&AuthFailForge, &QuietTracker, &refs_with_pr(), Status::Accepted, 3, true, false);
    assert!(!report.proceed.unwrap());
    assert!(report.plan.iter().any(|l| l.contains("live PR state unavailable")));
}

#[test]
fn accept_apply_surfaces_auth_error() {
    let report = run_status_change(&AuthFailForge, &QuietTracker, &refs_with_pr(), Status::Accepted, 3, false, true);
    let err = report.proceed.unwrap_err();
    assert!(err.message().contains("auth"));
}

#[test]
fn reject_previews_then_closes() {
    let forge = MockForge { state: pr_state(0, CiStatus::NoChecks), merged: false.into() };
    let preview = run_status_change(&forge, &QuietTracker, &refs_with_pr(), Status::Rejected, 3, false, false);
    assert!(!preview.proceed.unwrap());
    assert_eq!(preview.plan[0], "Forge plan (rejected):");
    assert_eq!(preview.plan[2], "  - mark issue issue-url won't-fix");
    let applied = run_status_change(&forge, &QuietTracker, &refs_with_pr(), Status::Rejected, 3, false, true);
    assert!(applied.proceed.unwrap());
    let other = run_status_change(&forge, &QuietTracker, &refs_with_pr(), Status::Proposed, 3, false, true);
    assert!(other.proceed.unwrap());
}

#[test]
fn forge_refs_reads_issue_and_pull_request_numbers() {
    let refs = vec![
        ("issue".to_string(), "https://github.com/o/r/issues/7".to_string()),
        ("Pull Request".to_string(), "https://github.com/o/r/pull/42".to_string()),
    ];
    let r = forge_refs(&refs);
    assert_eq!(r.issue, Some(("7".to_string(), "https://github.com/o/r/issues/7".to_string())));
    assert_eq!(r.pr, Some(("42".to_string(), "https://github.com/o/r/pull/42".to_string())));
    assert_eq!(forge_refs(&Vec::new()).pr, None);
}

#[test]
fn accept_step_merges_only_an_approved_green_pr() {
    assert_eq!(accept_step(&pr_state(3, CiStatus::Success), 3), AcceptStep::Merge);
    assert_eq!(accept_step(&pr_state(3, CiStatus::NoChecks), 3), AcceptStep::Merge);
    assert_eq!(accept_step(&pr_state(2, CiStatus::Success), 3), AcceptStep::Refuse);
    assert_eq!(accept_step(&pr_state(5, CiStatus::Failure), 3), AcceptStep::Refuse);
    assert_eq!(accept_step(&pr_state(5, CiStatus::Pending), 3), AcceptStep::Refuse);
    let mut merged = pr_state(0, CiStatus::Failure);
    merged.merged = true;
    assert_eq!(accept_step(&merged, 3), AcceptStep::AlreadyMerged);
}

#[test]
fn accept_refuses_short_of_quorum_without_merging() {
    let forge = MockForge { state: pr_state(2, CiStatus::Success), merged: false.into() };
    let report = run_status_change(&forge, &QuietTracker, &refs_with_pr(), Status::Accepted, 3, false, true);
    let err = report.proceed.unwrap_err();
    assert!(err.message().contains("2/3 approvals"));
    assert!(!forge.merged.get());
}
