//! The forge side of `adroit new`, as a state machine the application runs:
//! create the tracker issue, record it, branch + commit + push, open a draft
//! pull request, record it and push again. Each step says what to do next;
//! the application does it and reports back.
use vstd::prelude::*;
use crate::config::{ostr, ForgeConfig};
use crate::paths::{file_name, stem};
use crate::text::{append_str, chars_of, string_of};
use super::{forge_message, forge_template_spec, ForgeError, IssueRef, PrDraft, PrRef};

verus! {

/// What `format!("{:?}", s)` gives for a string: it quoted, with escapes.
pub uninterp spec fn debug_text(s: Seq<char>) -> Seq<char>;

/// `format!("{:?}", s)`, named by [`debug_text`].
#[verifier::external_body]
fn debug_quoted(s: &str) -> (r: String)
    ensures
        r@ == debug_text(s@),
{
    format!("{s:?}")
}

/// The fixed facts of one `adroit new --forge` run.
#[derive(Debug)]
pub struct NewJob {
    /// The new ADR's file.
    pub path: String,
    /// The directory git runs in.
    pub dir: String,
    /// The ADR's file name.
    pub file: String,
    pub title: String,
    /// `<branch_prefix><file stem>`.
    pub branch: String,
    pub base: String,
    /// The forge's short description, for the plan.
    pub describe: String,
    pub issue_body: String,
    pub pr_template: Option<String>,
}

pub open spec fn stem_or_adr(path: Seq<char>) -> Seq<char> {
    match stem(path) {
        Some(s) => s,
        None => "adr"@,
    }
}

pub open spec fn default_issue_body(title: Seq<char>, file: Seq<char>) -> Seq<char> {
    "Tracking issue for ADR \u{201c}"@ + title + "\u{201d} (`"@ + file + "`), managed by adroit."@
}

/// Set up a run for the ADR at `path` titled `title`: the branch is the
/// configured prefix and the file's stem (`adr` without one); the issue body
/// is the `issue` template, else a default naming the ADR.
pub fn new_job(
    path: &str,
    title: &str,
    fcfg: &ForgeConfig,
    describe: &str,
    issue_template: Option<&str>,
    pr_template: Option<&str>,
) -> (j: NewJob)
    ensures
        j.path@ == path@,
        j.dir@ == (if path@.len() == 0 { "."@ } else { crate::store::dir_of(path@) }),
        j.file@ == (match file_name(path@) {
            Some(f) => f,
            None => stem_or_adr(path@),
        }),
        j.title@ == title@,
        j.branch@ == fcfg.branch_prefix@ + stem_or_adr(path@),
        j.base@ == fcfg.base_branch@,
        j.describe@ == describe@,
        j.issue_body@ == (match issue_template {
            Some(t) => forge_template_spec(t@, title@, j.file@, Seq::empty()),
            None => default_issue_body(title@, j.file@),
        }),
        ostr(j.pr_template) == (match pr_template {
            Some(t) => Some(t@),
            None => None::<Seq<char>>,
        }),
{
    let pv = chars_of(path);
    let stem = match crate::paths::stem_v(&pv) {
        Some(s) => s,
        None => chars_of("adr"),
    };
    let mut branch = chars_of(fcfg.branch_prefix.as_str());
    crate::text::append_all(&mut branch, &stem);
    let file = match crate::paths::file_name_v(&pv) {
        Some(f) => f,
        None => stem.clone(),
    };
    let file_s = string_of(&file);
    let dir = if pv.len() == 0 {
        chars_of(".")
    } else {
        crate::store::dir_of_v(&pv)
    };
    let issue_body = match issue_template {
        Some(t) => {
            proof {
                reveal_strlit("");
                assert(""@ =~= Seq::<char>::empty());
            }
            let b = super::render_forge_template(t, title, file_s.as_str(), "");
            assert(b@ == forge_template_spec(t@, title@, file@, Seq::empty()));
            b
        },
        None => {
            let mut v = chars_of("Tracking issue for ADR \u{201c}");
            append_str(&mut v, title);
            append_str(&mut v, "\u{201d} (`");
            crate::text::append_all(&mut v, &file);
            append_str(&mut v, "`), managed by adroit.");
            assert(v@ == default_issue_body(title@, file@));
            string_of(&v)
        },
    };
    NewJob {
        path: string_of(&pv),
        dir: string_of(&dir),
        file: file_s,
        title: string_of(&chars_of(title)),
        branch: string_of(&branch),
        base: string_of(&chars_of(fcfg.base_branch.as_str())),
        describe: string_of(&chars_of(describe)),
        issue_body,
        pr_template: match pr_template {
            Some(t) => Some(string_of(&chars_of(t))),
            None => None,
        },
    }
}

/// A git step, run in the job's directory.
#[derive(Debug)]
pub enum GitOp {
    CreateBranch(String),
    Add(String),
    Commit(String),
    Push(String),
}

/// What to do next.
#[derive(Debug)]
pub enum NewAction {
    /// Print the plan of a dry run; nothing else happens.
    Plan(Vec<String>),
    /// Create the tracker issue.
    CreateIssue { title: String, body: String },
    /// Record a labelled URL under the ADR's `## References`.
    Record { label: String, url: String },
    /// Run these git steps in order, stopping at the first failure.
    Git(Vec<GitOp>),
    /// Open this draft pull request.
    OpenPr(PrDraft),
    /// Stop with this warning; the ADR stays as written locally.
    Stop(String),
    /// Stop with this forge error.
    Fail(ForgeError),
    /// Stop: recording a reference failed with this message.
    FailWrite(String),
    /// Done; print this line.
    Finish(String),
}

/// What came of the last action.
#[derive(Debug)]
pub enum NewEvent {
    Begin,
    Issue(Result<IssueRef, ForgeError>),
    Recorded(Result<(), String>),
    Git(Result<(), String>),
    Pr(Result<PrRef, ForgeError>),
}

/// Where a run stands.
#[derive(Debug)]
pub enum NewState {
    Start,
    AwaitIssue,
    RecordingIssue(IssueRef),
    Pushing(IssueRef),
    AwaitPr(IssueRef),
    RecordingPr(IssueRef, PrRef),
    FinalPush(IssueRef, PrRef),
    Done,
}

pub open spec fn plan_lines(job: NewJob) -> Seq<Seq<char>> {
    seq![
        "Forge plan ("@ + job.describe@ + "):"@,
        "  - create issue: "@ + debug_text(job.title@),
        "  - branch "@ + job.branch@ + " off "@ + job.base@ + " + commit "@ + job.file@ + " + push"@,
        "  - open draft PR (Closes the issue)"@,
        "  - write issue + PR URLs into ## References"@,
        Seq::empty(),
        "Dry run - re-run without --dry-run to apply."@,
    ]
}

pub open spec fn pr_body(job: NewJob, issue_id: Seq<char>) -> Seq<char> {
    match job.pr_template {
        Some(t) => forge_template_spec(t@, job.title@, job.file@, issue_id),
        None => "ADR: "@ + job.title@ + "\n\nCloses #"@ + issue_id + "."@,
    }
}

pub open spec fn git_v(g: GitOp) -> (int, Seq<char>) {
    match g {
        GitOp::CreateBranch(b) => (0, b@),
        GitOp::Add(p) => (1, p@),
        GitOp::Commit(m) => (2, m@),
        GitOp::Push(b) => (3, b@),
    }
}

pub open spec fn ops_v(ops: Seq<GitOp>) -> Seq<(int, Seq<char>)> {
    ops.map_values(|g: GitOp| git_v(g))
}

fn lines(v: Vec<Vec<char>>) -> (r: Vec<String>)
    ensures
        r@.map_values(|s: String| s@) == crate::text::views(v@),
{
    let mut out: Vec<String> = Vec::new();
    let mut i: usize = 0;
    while i < v.len()
        invariant
            i <= v.len(),
            out@.map_values(|s: String| s@) == crate::text::views(v@).take(i as int),
        decreases v.len() - i,
    {
        let ghost before = out@.map_values(|s: String| s@);
        out.push(string_of(&v[i]));
        assert(out@.map_values(|s: String| s@) =~= before.push(v@[i as int]@));
        assert(crate::text::views(v@).take(i + 1) =~= crate::text::views(v@).take(i as int).push(v@[i as int]@));
        i = i + 1;
    }
    assert(crate::text::views(v@).take(i as int) =~= crate::text::views(v@));
    out
}

fn cat(a: &str, b: &str) -> (r: Vec<char>)
    ensures
        r@ == a@ + b@,
{
    let mut v = chars_of(a);
    append_str(&mut v, b);
    v
}

/// One step of the run. A dry run prints the plan. Otherwise: create the
/// issue (offline: stop with a warning; another error: fail); record it;
/// branch, commit and push (a git failure stops with a warning, keeping the
/// issue link); open the draft PR closing the issue (offline: stop with a
/// warning; another error: fail); record it; commit and push again, whatever
/// that gives; finish. An event out of order ends the run.
pub fn new_step(job: &NewJob, dry_run: bool, state: NewState, event: NewEvent) -> (r: (NewState, NewAction))
    ensures
        state is Start && event is Begin && dry_run ==> (r.0 is Done
            && (r.1 matches NewAction::Plan(ls) && ls@.map_values(|s: String| s@) == plan_lines(*job))),
        state is Start && event is Begin && !dry_run ==> (r.0 is AwaitIssue
            && (r.1 matches NewAction::CreateIssue { title, body } && title@ == job.title@ && body@ == job.issue_body@)),
        state is AwaitIssue && event is Issue && event->Issue_0 is Ok ==> (
            (r.0 matches NewState::RecordingIssue(j) && j == event->Issue_0->Ok_0)
            && (r.1 matches NewAction::Record { label, url } && label@ == "Issue"@ && url@ == event->Issue_0->Ok_0.url@)),
        state is AwaitIssue && event is Issue && event->Issue_0 is Err ==> (r.0 is Done && if event->Issue_0->Err_0 is Offline {
            r.1 matches NewAction::Stop(m) && m@ == "forge unreachable ("@ + forge_message(event->Issue_0->Err_0)
                + "); wrote the ADR locally only."@
        } else {
            r.1 == NewAction::Fail(event->Issue_0->Err_0)
        }),
        state matches NewState::RecordingIssue(i) ==> (event is Recorded && event->Recorded_0 is Ok ==> (
            (r.0 matches NewState::Pushing(j) && j == i)
            && (r.1 matches NewAction::Git(ops) && ops_v(ops@) == seq![
                (0int, job.branch@),
                (1int, job.path@),
                (2int, "ADR: "@ + job.title@),
                (3int, job.branch@),
            ]))),
        state matches NewState::Pushing(i) ==> (event is Git && event->Git_0 is Ok ==> (
            (r.0 matches NewState::AwaitPr(j) && j == i)
            && (r.1 matches NewAction::OpenPr(d) && d.branch@ == job.branch@ && d.base@ == job.base@
            && d.title@ == "ADR: "@ + job.title@ && d.body@ == pr_body(*job, i.id@)))),
        state matches NewState::Pushing(i) ==> (event is Git && event->Git_0 is Err ==> (r.0 is Done
            && (r.1 matches NewAction::Stop(m) && m@ == "git step failed ("@ + event->Git_0->Err_0@ + "); created issue "@
            + i.url@ + " but skipped the PR."@))),
        state matches NewState::AwaitPr(i) ==> (event is Pr && event->Pr_0 is Ok ==> (
            (r.0 matches NewState::RecordingPr(j, q) && j == i && q == event->Pr_0->Ok_0)
            && (r.1 matches NewAction::Record { label, url } && label@ == "Pull Request"@ && url@ == event->Pr_0->Ok_0.url@))),
        state matches NewState::AwaitPr(i) ==> (event is Pr && event->Pr_0 is Err ==> (r.0 is Done && if event->Pr_0->Err_0 is Offline {
            r.1 matches NewAction::Stop(m) && m@ == "forge unreachable opening PR ("@ + forge_message(event->Pr_0->Err_0)
                + "); branch "@ + job.branch@ + " pushed, issue "@ + i.url@ + " created."@
        } else {
            r.1 == NewAction::Fail(event->Pr_0->Err_0)
        })),
        state matches NewState::RecordingPr(i, p) ==> (event is Recorded && event->Recorded_0 is Ok ==> (
            (r.0 matches NewState::FinalPush(j, q) && j == i && q == p)
            && (r.1 matches NewAction::Git(ops) && ops_v(ops@) == seq![
                (1int, job.path@),
                (2int, "ADR: link PR for "@ + job.title@),
                (3int, job.branch@),
            ]))),
        (state is RecordingIssue || state is RecordingPr) && event is Recorded && event->Recorded_0 is Err ==> (r.0 is Done
            && (r.1 matches NewAction::FailWrite(w) && w == event->Recorded_0->Err_0)),
        state matches NewState::FinalPush(i, p) ==> (event is Git ==> (r.0 is Done
            && (r.1 matches NewAction::Finish(m) && m@ == "Forge: issue "@ + i.url@ + " - PR "@ + p.url@))),
{
    match (state, event) {
        (NewState::Start, NewEvent::Begin) => {
            if dry_run {
                let mut ls: Vec<Vec<char>> = Vec::new();
                let mut l0 = cat("Forge plan (", job.describe.as_str());
                append_str(&mut l0, "):");
                ls.push(l0);
                let mut l1 = chars_of("  - create issue: ");
                append_str(&mut l1, debug_quoted(job.title.as_str()).as_str());
                ls.push(l1);
                let mut l2 = cat("  - branch ", job.branch.as_str());
                append_str(&mut l2, " off ");
                append_str(&mut l2, job.base.as_str());
                append_str(&mut l2, " + commit ");
                append_str(&mut l2, job.file.as_str());
                append_str(&mut l2, " + push");
                ls.push(l2);
                ls.push(chars_of("  - open draft PR (Closes the issue)"));
                ls.push(chars_of("  - write issue + PR URLs into ## References"));
                ls.push(Vec::new());
                ls.push(chars_of("Dry run - re-run without --dry-run to apply."));
                let ghost lv = crate::text::views(ls@);
                assert(lv =~= plan_lines(*job));
                (NewState::Done, NewAction::Plan(lines(ls)))
            } else {
                (
                    NewState::AwaitIssue,
                    NewAction::CreateIssue {
                        title: string_of(&chars_of(job.title.as_str())),
                        body: string_of(&chars_of(job.issue_body.as_str())),
                    },
                )
            }
        },
        (NewState::AwaitIssue, NewEvent::Issue(Ok(i))) => {
            let url = string_of(&chars_of(i.url.as_str()));
            (NewState::RecordingIssue(i), NewAction::Record { label: string_of(&chars_of("Issue")), url })
        },
        (NewState::AwaitIssue, NewEvent::Issue(Err(e))) => {
            if e.is_offline() {
                let mut m = cat("forge unreachable (", e.message().as_str());
                append_str(&mut m, "); wrote the ADR locally only.");
                (NewState::Done, NewAction::Stop(string_of(&m)))
            } else {
                (NewState::Done, NewAction::Fail(e))
            }
        },
        (NewState::RecordingIssue(i), NewEvent::Recorded(Ok(()))) => {
            let mut ops: Vec<GitOp> = Vec::new();
            ops.push(GitOp::CreateBranch(string_of(&chars_of(job.branch.as_str()))));
            ops.push(GitOp::Add(string_of(&chars_of(job.path.as_str()))));
            ops.push(GitOp::Commit(string_of(&cat("ADR: ", job.title.as_str()))));
            ops.push(GitOp::Push(string_of(&chars_of(job.branch.as_str()))));
            let ghost ov = ops_v(ops@);
            assert(ov =~= seq![(0int, job.branch@), (1int, job.path@), (2int, "ADR: "@ + job.title@), (3int, job.branch@)]);
            (NewState::Pushing(i), NewAction::Git(ops))
        },
        (NewState::Pushing(i), NewEvent::Git(Ok(()))) => {
            let body = match &job.pr_template {
                Some(t) => super::render_forge_template(t.as_str(), job.title.as_str(), job.file.as_str(), i.id.as_str()),
                None => {
                    let mut b = cat("ADR: ", job.title.as_str());
                    append_str(&mut b, "\n\nCloses #");
                    append_str(&mut b, i.id.as_str());
                    append_str(&mut b, ".");
                    string_of(&b)
                },
            };
            let draft = PrDraft {
                branch: string_of(&chars_of(job.branch.as_str())),
                base: string_of(&chars_of(job.base.as_str())),
                title: string_of(&cat("ADR: ", job.title.as_str())),
                body,
            };
            (NewState::AwaitPr(i), NewAction::OpenPr(draft))
        },
        (NewState::Pushing(i), NewEvent::Git(Err(e))) => {
            let mut m = cat("git step failed (", e.as_str());
            append_str(&mut m, "); created issue ");
            append_str(&mut m, i.url.as_str());
            append_str(&mut m, " but skipped the PR.");
            (NewState::Done, NewAction::Stop(string_of(&m)))
        },
        (NewState::AwaitPr(i), NewEvent::Pr(Ok(p))) => {
            let url = string_of(&chars_of(p.url.as_str()));
            (NewState::RecordingPr(i, p), NewAction::Record { label: string_of(&chars_of("Pull Request")), url })
        },
        (NewState::AwaitPr(i), NewEvent::Pr(Err(e))) => {
            if e.is_offline() {
                let mut m = cat("forge unreachable opening PR (", e.message().as_str());
                append_str(&mut m, "); branch ");
                append_str(&mut m, job.branch.as_str());
                append_str(&mut m, " pushed, issue ");
                append_str(&mut m, i.url.as_str());
                append_str(&mut m, " created.");
                (NewState::Done, NewAction::Stop(string_of(&m)))
            } else {
                (NewState::Done, NewAction::Fail(e))
            }
        },
        (NewState::RecordingPr(i, p), NewEvent::Recorded(Ok(()))) => {
            let mut ops: Vec<GitOp> = Vec::new();
            ops.push(GitOp::Add(string_of(&chars_of(job.path.as_str()))));
            ops.push(GitOp::Commit(string_of(&cat("ADR: link PR for ", job.title.as_str()))));
            ops.push(GitOp::Push(string_of(&chars_of(job.branch.as_str()))));
            let ghost ov = ops_v(ops@);
            assert(ov =~= seq![(1int, job.path@), (2int, "ADR: link PR for "@ + job.title@), (3int, job.branch@)]);
            (NewState::FinalPush(i, p), NewAction::Git(ops))
        },
        (NewState::RecordingIssue(_), NewEvent::Recorded(Err(m))) => (NewState::Done, NewAction::FailWrite(m)),
        (NewState::RecordingPr(_, _), NewEvent::Recorded(Err(m))) => (NewState::Done, NewAction::FailWrite(m)),
        (NewState::FinalPush(i, p), NewEvent::Git(_)) => {
            let mut m = cat("Forge: issue ", i.url.as_str());
            append_str(&mut m, " - PR ");
            append_str(&mut m, p.url.as_str());
            (NewState::Done, NewAction::Finish(string_of(&m)))
        },
        _ => (NewState::Done, NewAction::Stop(string_of(&chars_of("forge steps ran out of order; stopping.")))),
    }
}

} // verus!
