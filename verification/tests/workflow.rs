use adroit::config::ForgeConfig;
use adroit::format::upsert_reference;
use adroit::forge::workflow::{new_job, new_step, GitOp, NewAction, NewEvent, NewState};
use adroit::forge::{ForgeError, IssueRef, PrRef};

/// Run the state machine over an in-memory document, answering each action
/// with the given outcomes; the log records every action taken.
fn run(
    dry_run: bool,
    issue: Result<IssueRef, ForgeError>,
    git: Vec<Result<(), String>>,
    pr: Result<PrRef, ForgeError>,
    doc: &mut String,
) -> Vec<String> {
    let job = new_job("/w/0001-x.md", "X", &ForgeConfig::default(), "noop", None, None);
    let mut log = Vec::new();
    let mut state = NewState::Start;
    let mut event = NewEvent::Begin;
    let mut issue = Some(issue);
    let mut pr = Some(pr);
    let mut git = git.into_iter();
    loop {
        let (next, action) = new_step(&job, dry_run, state, event);
        state = next;
        event = match action {
            NewAction::Plan(lines) => {
                log.extend(lines);
                break;
            }
            NewAction::CreateIssue { title, .. } => {
                log.push(format!("create issue {title}"));
                NewEvent::Issue(issue.take().unwrap())
            }
            NewAction::Record { label, url } => {
                *doc = upsert_reference(doc, &label, &url);
                NewEvent::Recorded(Ok(()))
            }
            NewAction::Git(ops) => {
                for op in &ops {
                    log.push(match op {
                        GitOp::CreateBranch(b) => format!("branch {b}"),
                        GitOp::Add(p) => format!("add {p}"),
                        GitOp::Commit(m) => format!("commit {m}"),
                        GitOp::Push(b) => format!("push {b}"),
                    });
                }
                NewEvent::Git(git.next().unwrap())
            }
            NewAction::OpenPr(d) => {
                log.push(format!("open pr {} <- {}: {}", d.base, d.branch, d.body.replace('\n', "|")));
                NewEvent::Pr(pr.take().unwrap())
            }
            NewAction::Stop(m) | NewAction::Finish(m) | NewAction::FailWrite(m) => {
                log.push(m);
                break;
            }
            NewAction::Fail(e) => {
                log.push(format!("fail: {}", e.message()));
                break;
            }
        };
    }
    log
}

fn noop_issue() -> Result<IssueRef, ForgeError> {
    Ok(IssueRef { id: "0".into(), url: "(dry-run)".into(), title: "X".into() })
}

#[test]
fn run_new_dry_run_touches_nothing() {
    let original = "# ADR-0001: X\n\n## Status\n\nProposed\n";
    let mut doc = original.to_string();
    let log = run(true, noop_issue(), vec![], Ok(PrRef { id: "1".into(), url: "u".into(), branch: "b".into() }), &mut doc);
    assert_eq!(doc, original);
    assert_eq!(log[0], "Forge plan (noop):");
    assert_eq!(log[1], "  - create issue: \"X\"");
    assert_eq!(log.last().unwrap(), "Dry run - re-run without --dry-run to apply.");
}

#[test]
fn run_new_records_issue_reference_and_survives_a_remoteless_repo() {
    let mut doc = "# ADR-0001: X\n\n## Status\n\nProposed\n".to_string();
    let log = run(
        false,
        noop_issue(),
        vec![Err("no remote `origin`".into())],
        Ok(PrRef { id: "1".into(), url: "u".into(), branch: "b".into() }),
        &mut doc,
    );
    assert!(doc.contains("## References"), "got:\n{doc}");
    assert!(doc.contains("- Issue: (dry-run)"), "got:\n{doc}");
    assert_eq!(
        log.last().unwrap(),
        "git step failed (no remote `origin`); created issue (dry-run) but skipped the PR."
    );
}

#[test]
fn run_new_opens_a_draft_pr_closing_the_issue_and_records_it() {
    let mut doc = "# ADR-0001: X\n\n## Status\n\nProposed\n".to_string();
    let issue = Ok(IssueRef { id: "7".into(), url: "https://f/issues/7".into(), title: "X".into() });
    let pr = Ok(PrRef { id: "9".into(), url: "https://f/pull/9".into(), branch: "adr/0001-x".into() });
    let log = run(false, issue, vec![Ok(()), Ok(())], pr, &mut doc);
    let cfg = ForgeConfig::default();
    let branch = format!("{}0001-x", cfg.branch_prefix);
    assert_eq!(log[0], "create issue X");
    assert_eq!(log[1], format!("branch {branch}"));
    assert_eq!(log[2], "add /w/0001-x.md");
    assert_eq!(log[3], "commit ADR: X");
    assert_eq!(log[5], format!("open pr {} <- {branch}: ADR: X||Closes #7.", cfg.base_branch));
    assert_eq!(log[7], "commit ADR: link PR for X");
    assert_eq!(log.last().unwrap(), "Forge: issue https://f/issues/7 - PR https://f/pull/9");
    assert!(doc.contains("- Issue: https://f/issues/7"));
    assert!(doc.contains("- Pull Request: https://f/pull/9"));
}

#[test]
fn run_new_stops_quietly_offline_and_fails_on_auth() {
    let mut doc = String::new();
    let pr = Ok(PrRef { id: "1".into(), url: "u".into(), branch: "b".into() });
    let log = run(false, Err(ForgeError::Offline("timeout".into())), vec![], pr.clone(), &mut doc);
    assert_eq!(log.last().unwrap(), "forge unreachable (forge unreachable: timeout); wrote the ADR locally only.");
    let log = run(false, Err(ForgeError::Auth("bad".into())), vec![], pr, &mut doc);
    assert_eq!(log.last().unwrap(), "fail: forge auth failed (check your *_TOKEN env var): bad");
    let log = run(false, noop_issue(), vec![Ok(())], Err(ForgeError::Offline("t".into())), &mut doc);
    let cfg = ForgeConfig::default();
    assert_eq!(
        log.last().unwrap(),
        &format!("forge unreachable opening PR (forge unreachable: t); branch {}0001-x pushed, issue (dry-run) created.", cfg.branch_prefix)
    );
}

#[test]
fn new_job_uses_templates_when_given() {
    let job = new_job("/w/0002-y.md", "Y", &ForgeConfig::default(), "gh", Some("Issue for {{title}} ({{file}})"), Some("PR {{issue}}"));
    assert_eq!(job.issue_body, "Issue for Y (0002-y.md)");
    assert_eq!(job.file, "0002-y.md");
    assert_eq!(job.dir, "/w");
    let plain = new_job("/w/0002-y.md", "Y", &ForgeConfig::default(), "gh", None, None);
    assert_eq!(plain.issue_body, "Tracking issue for ADR \u{201c}Y\u{201d} (`0002-y.md`), managed by adroit.");
}
