//! GitHub adapter: pull requests for the [`Forge`] role and issues for the
//! [`Tracker`] role, over one token and one [`HttpTransport`].
use std::sync::Arc;
use vstd::prelude::*;
use crate::config::ostr;
use crate::text::{chars_of, dec, string_of};
use super::{
    members_view, api_call, api_url_v, call_is, cat2, cat3, cat5, elem_ptr, elem_ptr_v, id_and_url, json_len, json_len_at,
    json_object, json_object_str, json_quote, json_quote_of, json_str, json_str_at, json_u64, json_u64_at,
    json_bool, message_of, response_outcome, str_is, want_str, ApiCall, CiStatus, Forge, ForgeError,
    HttpTransport, IssueRef, IssueState, PrDraft, PrRef, PrState, Tracker, Transition,
    api_url, bytes_result, err_is, headers_view, issue_ref_fits, pr_ref_fits, reply_outcome, unit_fits,
    utf8_opt, want_spec, json_bool_at, ForgeErrorV, HttpResponse,
};

verus! {

/// A GitHub REST client scoped to one `owner/repo`.
pub struct Github<T: HttpTransport> {
    /// API host (`api.github.com`, or `<host>/api/v3` for GitHub Enterprise).
    host: String,
    /// `owner/repo`.
    repo: String,
    token: String,
    transport: Arc<T>,
}

/// The API host a client talks to when none is configured.
pub open spec fn github_default_host() -> Seq<char> {
    "api.github.com"@
}

/// `repos/<repo><rest>`.
pub open spec fn repo_path(repo: Seq<char>, rest: Seq<char>) -> Seq<char> {
    "repos/"@ + repo + rest
}

/// The headers every GitHub request carries.
pub open spec fn github_headers(token: Seq<char>) -> Seq<(Seq<char>, Seq<char>)> {
    seq![
        ("Authorization"@, "Bearer "@ + token),
        ("Accept"@, "application/vnd.github+json"@),
        ("User-Agent"@, "adroit"@),
        ("X-GitHub-Api-Version"@, "2022-11-28"@),
    ]
}

/// What a GitHub call makes of a reply; errors carry GitHub's `message`.
pub open spec fn github_outcome(reply: Result<HttpResponse, ForgeError>) -> Result<Seq<u8>, ForgeErrorV> {
    reply_outcome(reply, "GitHub"@, seq!["/message"@])
}

/// A JSON object of one member.
pub open spec fn obj1(k: Seq<char>, v: Seq<char>) -> Seq<char> {
    json_object(seq![(k, v)])
}

/// A JSON object of two members.
pub open spec fn obj2(k1: Seq<char>, v1: Seq<char>, k2: Seq<char>, v2: Seq<char>) -> Seq<char> {
    json_object(seq![(k1, v1), (k2, v2)])
}

/// The body a tracker transition sends.
pub open spec fn transition_json(to: Transition) -> Seq<char> {
    match to {
        Transition::Done => obj2("state"@, json_quote_of("closed"@), "state_reason"@, json_quote_of("completed"@)),
        Transition::WontFix => obj2("state"@, json_quote_of("closed"@), "state_reason"@, json_quote_of("not_planned"@)),
        Transition::Reopen => obj1("state"@, json_quote_of("open"@)),
    }
}

/// The body that opens a draft pull request.
pub open spec fn open_pr_json(d: PrDraft) -> Seq<char> {
    json_object(
        seq![
            ("base"@, json_quote_of(d.base@)),
            ("body"@, json_quote_of(d.body@)),
            ("draft"@, "true"@),
            ("head"@, json_quote_of(d.branch@)),
            ("title"@, json_quote_of(d.title@)),
        ],
    )
}

/// The number of reviews, among the first `n` of the array at the root of
/// `body`, whose `state` is `APPROVED`.
pub open spec fn approved_count(body: Seq<u8>, n: int) -> nat
    decreases n,
{
    if n <= 0 {
        0
    } else {
        approved_count(body, n - 1) + if json_str_at(body, elem_ptr(""@, n - 1, "state"@)) == Some("APPROVED"@) {
            1nat
        } else {
            0nat
        }
    }
}

/// The approvals a reviews listing counts: 0 when it is not an array.
pub open spec fn approvals_of(body: Seq<u8>) -> nat {
    match json_len_at(body, ""@) {
        Some(n) => approved_count(body, n as int),
        None => 0,
    }
}

/// The combined commit status's verdict, or `None` when nothing reported a
/// status (so the Checks API is to be consulted).
pub open spec fn commit_status_ci(body: Seq<u8>) -> Option<CiStatus> {
    match json_u64_at(body, "/total_count"@) {
        Some(n) if n > 0 => Some(
            match json_str_at(body, "/state"@) {
                Some(s) => if s == "success"@ {
                    CiStatus::Success
                } else if s == "pending"@ {
                    CiStatus::Pending
                } else if s == "failure"@ || s == "error"@ {
                    CiStatus::Failure
                } else {
                    CiStatus::NoChecks
                },
                None => CiStatus::NoChecks,
            },
        ),
        _ => None,
    }
}

pub open spec fn run_status(body: Seq<u8>, i: int) -> Option<Seq<char>> {
    json_str_at(body, elem_ptr("/check_runs"@, i, "status"@))
}

pub open spec fn run_conclusion(body: Seq<u8>, i: int) -> Option<Seq<char>> {
    json_str_at(body, elem_ptr("/check_runs"@, i, "conclusion"@))
}

/// A completed run whose conclusion is definitive and not a pass.
pub open spec fn run_fails(body: Seq<u8>, i: int) -> bool {
    &&& run_status(body, i) == Some("completed"@)
    &&& run_conclusion(body, i) matches Some(c)
    &&& c != "success"@ && c != "neutral"@ && c != "skipped"@
}

/// A run not completed yet, or completed without a conclusion.
pub open spec fn run_pending(body: Seq<u8>, i: int) -> bool {
    run_status(body, i) != Some("completed"@) || run_conclusion(body, i) is None
}

/// The rollup of a `check_runs` listing: no runs is `NoChecks`; any failing
/// run is `Failure`; else any unfinished run is `Pending`; else `Success`.
pub open spec fn check_runs_ci(body: Seq<u8>) -> CiStatus {
    match json_len_at(body, "/check_runs"@) {
        Some(n) if n > 0 => if exists|i: int| 0 <= i < n && #[trigger] run_fails(body, i) {
            CiStatus::Failure
        } else if exists|i: int| 0 <= i < n && #[trigger] run_pending(body, i) {
            CiStatus::Pending
        } else {
            CiStatus::Success
        },
        _ => CiStatus::NoChecks,
    }
}

/// Roll up a Checks API `check_runs` listing into one [`CiStatus`].
pub fn classify_check_runs(body: &[u8]) -> (r: CiStatus)
    ensures
        r == check_runs_ci(body@),
{
    let n = match json_len(body, "/check_runs") {
        Some(n) if n > 0 => n,
        _ => {
            return CiStatus::NoChecks;
        },
    };
    let mut any_pending = false;
    let mut i: usize = 0;
    while i < n
        invariant
            i <= n,
            json_len_at(body@, "/check_runs"@) == Some(n),
            n > 0,
            forall|j: int| 0 <= j < i ==> !#[trigger] run_fails(body@, j),
            any_pending <==> exists|j: int| 0 <= j < i && #[trigger] run_pending(body@, j),
        decreases n - i,
    {
        let status = json_str(body, elem_ptr_v("/check_runs", i, "status").as_str());
        let conclusion = json_str(body, elem_ptr_v("/check_runs", i, "conclusion").as_str());
        if !str_is(&status, "completed") {
            assert(run_pending(body@, i as int));
            any_pending = true;
        } else {
            match &conclusion {
                Some(c) => {
                    let ok = str_is(&conclusion, "success") || str_is(&conclusion, "neutral") || str_is(
                        &conclusion,
                        "skipped",
                    );
                    if !ok {
                        assert(run_fails(body@, i as int));
                        return CiStatus::Failure;
                    }
                },
                None => {
                    assert(run_pending(body@, i as int));
                    any_pending = true;
                },
            }
        }
        assert(run_pending(body@, i as int) ==> any_pending);
        i = i + 1;
    }
    if any_pending {
        CiStatus::Pending
    } else {
        CiStatus::Success
    }
}

/// The verdict of a combined commit status, `None` when nothing reported one.
pub fn commit_status(body: &[u8]) -> (r: Option<CiStatus>)
    ensures
        r == commit_status_ci(body@),
{
    let total = match json_u64(body, "/total_count") {
        Some(n) => n,
        None => 0,
    };
    if total == 0 {
        return None;
    }
    let state = json_str(body, "/state");
    Some(
        if str_is(&state, "success") {
            CiStatus::Success
        } else if str_is(&state, "pending") {
            CiStatus::Pending
        } else if str_is(&state, "failure") || str_is(&state, "error") {
            CiStatus::Failure
        } else {
            CiStatus::NoChecks
        },
    )
}

/// How many reviews in a listing approve.
pub fn count_approvals(body: &[u8]) -> (r: u32)
    ensures
        r == approvals_of(body@) as u32,
{
    let n = match json_len(body, "") {
        Some(n) => n,
        None => {
            return 0;
        },
    };
    let mut count: usize = 0;
    let mut i: usize = 0;
    while i < n
        invariant
            i <= n,
            count == approved_count(body@, i as int),
            count <= i,
        decreases n - i,
    {
        let state = json_str(body, elem_ptr_v("", i, "state").as_str());
        if str_is(&state, "APPROVED") {
            count = count + 1;
        }
        i = i + 1;
    }
    count as u32
}

impl<T: HttpTransport> Github<T> {
    pub closed spec fn host_view(&self) -> Seq<char> {
        self.host@
    }

    pub closed spec fn repo_view(&self) -> Seq<char> {
        self.repo@
    }

    pub closed spec fn token_view(&self) -> Seq<char> {
        self.token@
    }

    /// Whether `reply` is one this client's transport may give to a request
    /// of `method` on `path` with `body`, sent to `https://<host>/<path>`
    /// with GitHub's headers and the body's UTF-8 bytes.
    pub closed spec fn sends(&self, method: Seq<char>, path: Seq<char>, body: Option<Seq<char>>, reply: Result<HttpResponse, ForgeError>) -> bool {
        (*self.transport).replies(method, api_url(self.host@, "/"@, path), github_headers(self.token@), utf8_opt(body), reply)
    }

    /// A client over a transport; the host defaults to `api.github.com`.
    pub fn new(host: Option<String>, repo: String, token: String, transport: Arc<T>) -> (g: Self)
        ensures
            g.host_view() == (match ostr(host) {
                Some(h) => h,
                None => github_default_host(),
            }),
            g.repo_view() == repo@,
            g.token_view() == token@,
    {
        let host = match host {
            Some(h) => h,
            None => string_of(&chars_of("api.github.com")),
        };
        Github { host, repo, token, transport }
    }

    /// A client on `api.github.com` with a placeholder token, for a given
    /// transport.
    pub fn with_transport(repo: &str, transport: Arc<T>) -> (g: Self)
        ensures
            g.host_view() == github_default_host(),
            g.repo_view() == repo@,
            g.token_view() == "test-token"@,
    {
        Github {
            host: string_of(&chars_of("api.github.com")),
            repo: string_of(&chars_of(repo)),
            token: string_of(&chars_of("test-token")),
            transport,
        }
    }

    /// The request that creates an issue.
    pub fn create_issue_call(&self, title: &str, body: &str) -> (c: ApiCall)
        ensures
            call_is(
                c,
                "POST"@,
                repo_path(self.repo_view(), "/issues"@),
                Some(obj2("body"@, json_quote_of(body@), "title"@, json_quote_of(title@))),
            ),
    {
        let members = vec![("body", json_quote(body)), ("title", json_quote(title))];
        assert(members_view(members@) =~= seq![("body"@, json_quote_of(body@)), ("title"@, json_quote_of(title@))]);
        api_call("POST", cat3("repos/", self.repo.as_str(), "/issues"), Some(json_object_str(&members)))
    }

    /// The request that moves an issue to `to`.
    pub fn transition_call(&self, issue: &str, to: Transition) -> (c: ApiCall)
        ensures
            call_is(c, "PATCH"@, repo_path(self.repo_view(), "/issues/"@ + issue@), Some(transition_json(to))),
    {
        let members = match to {
            Transition::Done => vec![("state", json_quote("closed")), ("state_reason", json_quote("completed"))],
            Transition::WontFix => vec![("state", json_quote("closed")), ("state_reason", json_quote("not_planned"))],
            Transition::Reopen => vec![("state", json_quote("open"))],
        };
        assert(members_view(members@) =~= match to {
            Transition::Done => seq![("state"@, json_quote_of("closed"@)), ("state_reason"@, json_quote_of("completed"@))],
            Transition::WontFix => seq![("state"@, json_quote_of("closed"@)), ("state_reason"@, json_quote_of("not_planned"@))],
            Transition::Reopen => seq![("state"@, json_quote_of("open"@))],
        });
        let path = cat3("repos/", self.repo.as_str(), "/issues/");
        let path = cat2(path.as_str(), issue);
        assert(path@ =~= repo_path(self.repo_view(), "/issues/"@ + issue@));
        api_call("PATCH", path, Some(json_object_str(&members)))
    }

    /// The request that comments on an issue or pull request (both are
    /// issues in GitHub's model).
    pub fn comment_call(&self, number: &str, body: &str) -> (c: ApiCall)
        ensures
            call_is(
                c,
                "POST"@,
                repo_path(self.repo_view(), "/issues/"@ + number@ + "/comments"@),
                Some(obj1("body"@, json_quote_of(body@))),
            ),
    {
        let members = vec![("body", json_quote(body))];
        assert(members_view(members@) =~= seq![("body"@, json_quote_of(body@))]);
        let path = cat5("repos/", self.repo.as_str(), "/issues/", number, "/comments");
        assert(path@ =~= repo_path(self.repo_view(), "/issues/"@ + number@ + "/comments"@));
        api_call("POST", path, Some(json_object_str(&members)))
    }

    /// A `GET` of `repos/<repo><rest>`.
    pub fn get_call(&self, rest: &str) -> (c: ApiCall)
        ensures
            call_is(c, "GET"@, repo_path(self.repo_view(), rest@), None),
    {
        api_call("GET", cat3("repos/", self.repo.as_str(), rest), None)
    }

    /// The request that opens a draft pull request.
    pub fn open_pr_call(&self, draft: &PrDraft) -> (c: ApiCall)
        ensures
            call_is(c, "POST"@, repo_path(self.repo_view(), "/pulls"@), Some(open_pr_json(*draft))),
    {
        let members = vec![
            ("base", json_quote(draft.base.as_str())),
            ("body", json_quote(draft.body.as_str())),
            ("draft", string_of(&chars_of("true"))),
            ("head", json_quote(draft.branch.as_str())),
            ("title", json_quote(draft.title.as_str())),
        ];
        assert(members_view(members@) =~= seq![
            ("base"@, json_quote_of(draft.base@)),
            ("body"@, json_quote_of(draft.body@)),
            ("draft"@, "true"@),
            ("head"@, json_quote_of(draft.branch@)),
            ("title"@, json_quote_of(draft.title@)),
        ]);
        api_call("POST", cat3("repos/", self.repo.as_str(), "/pulls"), Some(json_object_str(&members)))
    }

    /// A request on one pull request: `repos/<repo>/pulls/<pr><rest>`.
    pub fn pull_call(&self, method: &str, pr: &str, rest: &str, body: Option<String>) -> (c: ApiCall)
        ensures
            call_is(c, method@, repo_path(self.repo_view(), "/pulls/"@ + pr@ + rest@), ostr(body)),
    {
        let path = cat5("repos/", self.repo.as_str(), "/pulls/", pr, rest);
        assert(path@ =~= repo_path(self.repo_view(), "/pulls/"@ + pr@ + rest@));
        api_call(method, path, body)
    }

    /// Send one call and classify the reply: 2xx gives the body, 401/403 an
    /// auth error, anything else an API error carrying GitHub's `message`.
    fn call(&self, c: &ApiCall) -> (r: Result<Vec<u8>, ForgeError>)
        ensures
            exists|reply: Result<HttpResponse, ForgeError>|
                #![trigger self.sends(c.method@, c.path@, ostr(c.body), reply)]
                self.sends(c.method@, c.path@, ostr(c.body), reply) && bytes_result(r) == github_outcome(reply),
    {
        let url = api_url_v(self.host.as_str(), "/", c.path.as_str());
        let auth = cat2("Bearer ", self.token.as_str());
        let headers: [(&str, &str); 4] = [
            ("Authorization", auth.as_str()),
            ("Accept", "application/vnd.github+json"),
            ("User-Agent", "adroit"),
            ("X-GitHub-Api-Version", "2022-11-28"),
        ];
        let hs: &[(&str, &str)] = &headers;
        assert(headers_view(hs@) =~= github_headers(self.token@));
        let sent = match &c.body {
            Some(b) => self.transport.request(c.method.as_str(), url.as_str(), hs, Some(b.as_str().as_bytes())),
            None => self.transport.request(c.method.as_str(), url.as_str(), hs, None),
        };
        assert(self.sends(c.method@, c.path@, ostr(c.body), sent));
        let resp = match sent {
            Ok(x) => x,
            Err(e) => {
                return Err(e);
            },
        };
        let pointers: [&str; 1] = ["/message"];
        assert(pointers@.map_values(|p: &str| p@) =~= seq!["/message"@]);
        let msg = message_of(resp.body.as_slice(), &pointers);
        response_outcome(resp, "GitHub", msg)
    }

    /// `github:<repo>`, the label both roles describe themselves by.
    pub fn label(&self) -> (s: String)
        ensures
            s@ == "github:"@ + self.repo_view(),
    {
        cat2("github:", self.repo.as_str())
    }
}

impl<T: HttpTransport> Github<T> {
    /// A pull request snapshot fits the replies to the calls it makes: the
    /// pull request, its reviews, then (when the head commit is known) the
    /// commit's combined status and, when that reports nothing, its check
    /// runs. A missing `merged` or `draft` reads as `false`.
    pub open spec fn pr_state_fits(
        &self,
        pr: Seq<char>,
        r1: Result<HttpResponse, ForgeError>,
        r2: Result<HttpResponse, ForgeError>,
        r3: Result<HttpResponse, ForgeError>,
        r4: Result<HttpResponse, ForgeError>,
        r: Result<PrState, ForgeError>,
    ) -> bool {
        &&& self.sends("GET"@, repo_path(self.repo_view(), "/pulls/"@ + pr), None, r1)
        &&& match github_outcome(r1) {
            Err(e) => err_is(r, e),
            Ok(b1) => {
                let merged = match json_bool_at(b1, "/merged"@) {
                    Some(x) => x,
                    None => false,
                };
                let draft = match json_bool_at(b1, "/draft"@) {
                    Some(x) => x,
                    None => false,
                };
                let sha = match json_str_at(b1, "/head/sha"@) {
                    Some(x) => x,
                    None => Seq::empty(),
                };
                &&& self.sends("GET"@, repo_path(self.repo_view(), "/pulls/"@ + pr + "/reviews"@), None, r2)
                &&& match github_outcome(r2) {
                    Err(e) => err_is(r, e),
                    Ok(b2) => {
                        let approvals = approvals_of(b2) as u32;
                        if sha.len() == 0 {
                            r == Ok::<PrState, ForgeError>(PrState { approvals, ci: CiStatus::NoChecks, merged, draft })
                        } else {
                            &&& self.sends("GET"@, repo_path(self.repo_view(), "/commits/"@ + sha + "/status"@), None, r3)
                            &&& match github_outcome(r3) {
                                Err(e) => err_is(r, e),
                                Ok(b3) => match commit_status_ci(b3) {
                                    Some(ci) => r == Ok::<PrState, ForgeError>(PrState { approvals, ci, merged, draft }),
                                    None => {
                                        &&& self.sends(
                                            "GET"@,
                                            repo_path(self.repo_view(), "/commits/"@ + sha + "/check-runs"@),
                                            None,
                                            r4,
                                        )
                                        &&& match github_outcome(r4) {
                                            Err(e) => err_is(r, e),
                                            Ok(b4) => r == Ok::<PrState, ForgeError>(
                                                PrState { approvals, ci: check_runs_ci(b4), merged, draft },
                                            ),
                                        }
                                    },
                                },
                            }
                        }
                    },
                }
            },
        }
    }
}

impl<T: HttpTransport> Tracker for Github<T> {
    fn create_issue(&self, title: &str, body: &str) -> (r: Result<IssueRef, ForgeError>)
        ensures
            r matches Ok(i) ==> i.title@ == title@,
            exists|reply: Result<HttpResponse, ForgeError>|
                #![trigger self.sends("POST"@, repo_path(self.repo_view(), "/issues"@), Some(obj2("body"@, json_quote_of(body@), "title"@, json_quote_of(title@))), reply)]
                self.sends("POST"@, repo_path(self.repo_view(), "/issues"@), Some(obj2("body"@, json_quote_of(body@), "title"@, json_quote_of(title@))), reply)
                    && issue_ref_fits(r, github_outcome(reply), "number"@, "GitHub response missing numeric `number`"@, "html_url"@, "GitHub"@, title@),
    {
        let c = self.create_issue_call(title, body);
        let o = self.call(&c);
        let ghost reply = choose|x: Result<HttpResponse, ForgeError>| self.sends(c.method@, c.path@, ostr(c.body), x) && bytes_result(o) == github_outcome(x);
        let b = match o {
            Ok(b) => b,
            Err(e) => {
                return Err(e);
            },
        };
        let (id, url) = match id_and_url(b.as_slice(), "number", "GitHub response missing numeric `number`", "html_url", "GitHub") {
            Ok(p) => p,
            Err(e) => {
                return Err(e);
            },
        };
        Ok(IssueRef { id, url, title: string_of(&chars_of(title)) })
    }

    fn transition(&self, issue: &str, to: Transition) -> (r: Result<(), ForgeError>)
        ensures
            exists|reply: Result<HttpResponse, ForgeError>|
                #![trigger self.sends("PATCH"@, repo_path(self.repo_view(), "/issues/"@ + issue@), Some(transition_json(to)), reply)]
                self.sends("PATCH"@, repo_path(self.repo_view(), "/issues/"@ + issue@), Some(transition_json(to)), reply)
                    && unit_fits(r, github_outcome(reply)),
    {
        let c = self.transition_call(issue, to);
        let o = self.call(&c);
        let ghost reply = choose|x: Result<HttpResponse, ForgeError>| self.sends(c.method@, c.path@, ostr(c.body), x) && bytes_result(o) == github_outcome(x);
        match o {
            Ok(_) => Ok(()),
            Err(e) => Err(e),
        }
    }

    fn close_issue(&self, issue: &str) -> (r: Result<(), ForgeError>) {
        self.transition(issue, Transition::Done)
    }

    fn comment_issue(&self, issue: &str, body: &str) -> (r: Result<(), ForgeError>)
        ensures
            exists|reply: Result<HttpResponse, ForgeError>|
                #![trigger self.sends("POST"@, repo_path(self.repo_view(), "/issues/"@ + issue@ + "/comments"@), Some(obj1("body"@, json_quote_of(body@))), reply)]
                self.sends("POST"@, repo_path(self.repo_view(), "/issues/"@ + issue@ + "/comments"@), Some(obj1("body"@, json_quote_of(body@))), reply)
                    && unit_fits(r, github_outcome(reply)),
    {
        let c = self.comment_call(issue, body);
        let o = self.call(&c);
        let ghost reply = choose|x: Result<HttpResponse, ForgeError>| self.sends(c.method@, c.path@, ostr(c.body), x) && bytes_result(o) == github_outcome(x);
        match o {
            Ok(_) => Ok(()),
            Err(e) => Err(e),
        }
    }

    fn issue_state(&self, issue: &str) -> (r: Result<IssueState, ForgeError>)
        ensures
            exists|reply: Result<HttpResponse, ForgeError>|
                #![trigger self.sends("GET"@, repo_path(self.repo_view(), "/issues/"@ + issue@), None, reply)]
                self.sends("GET"@, repo_path(self.repo_view(), "/issues/"@ + issue@), None, reply) && match github_outcome(reply) {
                    Err(e) => err_is(r, e),
                    Ok(b) => match want_spec(b, "html_url"@, "GitHub"@) {
                        Err(e) => err_is(r, e),
                        Ok(u) => r matches Ok(st) && st.open == (json_str_at(b, "/state"@) == Some("open"@)) && st.url@ == u,
                    },
                },
    {
        let c = self.get_call(cat2("/issues/", issue).as_str());
        let o = self.call(&c);
        let ghost reply = choose|x: Result<HttpResponse, ForgeError>| self.sends(c.method@, c.path@, ostr(c.body), x) && bytes_result(o) == github_outcome(x);
        let b = match o {
            Ok(b) => b,
            Err(e) => {
                return Err(e);
            },
        };
        let open = str_is(&json_str(b.as_slice(), "/state"), "open");
        let url = match want_str(b.as_slice(), "html_url", "GitHub") {
            Ok(u) => u,
            Err(e) => {
                return Err(e);
            },
        };
        Ok(IssueState { open, url })
    }

    fn describe(&self) -> String {
        self.label()
    }
}

impl<T: HttpTransport> Forge for Github<T> {
    fn open_pr(&self, draft: &PrDraft) -> (r: Result<PrRef, ForgeError>)
        ensures
            r matches Ok(p) ==> p.branch@ == draft.branch@,
            exists|reply: Result<HttpResponse, ForgeError>|
                #![trigger self.sends("POST"@, repo_path(self.repo_view(), "/pulls"@), Some(open_pr_json(*draft)), reply)]
                self.sends("POST"@, repo_path(self.repo_view(), "/pulls"@), Some(open_pr_json(*draft)), reply)
                    && pr_ref_fits(r, github_outcome(reply), "number"@, "GitHub response missing numeric `number`"@, "html_url"@, "GitHub"@, draft.branch@),
    {
        let c = self.open_pr_call(draft);
        let o = self.call(&c);
        let ghost reply = choose|x: Result<HttpResponse, ForgeError>| self.sends(c.method@, c.path@, ostr(c.body), x) && bytes_result(o) == github_outcome(x);
        let b = match o {
            Ok(b) => b,
            Err(e) => {
                return Err(e);
            },
        };
        let (id, url) = match id_and_url(b.as_slice(), "number", "GitHub response missing numeric `number`", "html_url", "GitHub") {
            Ok(p) => p,
            Err(e) => {
                return Err(e);
            },
        };
        Ok(PrRef { id, url, branch: string_of(&chars_of(draft.branch.as_str())) })
    }

    fn pr_state(&self, pr: &str) -> (r: Result<PrState, ForgeError>)
        ensures
            exists|r1: Result<HttpResponse, ForgeError>, r2: Result<HttpResponse, ForgeError>, r3: Result<HttpResponse, ForgeError>, r4: Result<HttpResponse, ForgeError>|
                #![trigger self.pr_state_fits(pr@, r1, r2, r3, r4, r)]
                self.pr_state_fits(pr@, r1, r2, r3, r4, r),
    {
        proof {
            reveal_strlit("");
        }
        let c1 = self.pull_call("GET", pr, "", None);
        assert(c1.path@ =~= repo_path(self.repo_view(), "/pulls/"@ + pr@));
        let o1 = self.call(&c1);
        let ghost r1 = choose|x: Result<HttpResponse, ForgeError>| self.sends(c1.method@, c1.path@, ostr(c1.body), x) && bytes_result(o1) == github_outcome(x);
        let pull = match o1 {
            Ok(b) => b,
            Err(e) => {
                assert(self.pr_state_fits(pr@, r1, r1, r1, r1, Err::<PrState, ForgeError>(e)));
                return Err(e);
            },
        };
        let merged = match json_bool(pull.as_slice(), "/merged") {
            Some(b) => b,
            None => false,
        };
        let draft = match json_bool(pull.as_slice(), "/draft") {
            Some(b) => b,
            None => false,
        };
        let sha = match json_str(pull.as_slice(), "/head/sha") {
            Some(s) => s,
            None => string_of(&Vec::new()),
        };
        let c2 = self.pull_call("GET", pr, "/reviews", None);
        let o2 = self.call(&c2);
        let ghost r2 = choose|x: Result<HttpResponse, ForgeError>| self.sends(c2.method@, c2.path@, ostr(c2.body), x) && bytes_result(o2) == github_outcome(x);
        let reviews = match o2 {
            Ok(b) => b,
            Err(e) => {
                assert(self.pr_state_fits(pr@, r1, r2, r1, r1, Err::<PrState, ForgeError>(e)));
                return Err(e);
            },
        };
        let approvals = count_approvals(reviews.as_slice());
        if chars_of(sha.as_str()).len() == 0 {
            let r = Ok(PrState { approvals, ci: CiStatus::NoChecks, merged, draft });
            assert(self.pr_state_fits(pr@, r1, r2, r1, r1, r));
            return r;
        }
        let c3 = self.get_call(cat3("/commits/", sha.as_str(), "/status").as_str());
        let o3 = self.call(&c3);
        let ghost r3 = choose|x: Result<HttpResponse, ForgeError>| self.sends(c3.method@, c3.path@, ostr(c3.body), x) && bytes_result(o3) == github_outcome(x);
        let st = match o3 {
            Ok(b) => b,
            Err(e) => {
                assert(self.pr_state_fits(pr@, r1, r2, r3, r1, Err::<PrState, ForgeError>(e)));
                return Err(e);
            },
        };
        match commit_status(st.as_slice()) {
            Some(ci) => {
                let r = Ok(PrState { approvals, ci, merged, draft });
                assert(self.pr_state_fits(pr@, r1, r2, r3, r1, r));
                r
            },
            None => {
                let c4 = self.get_call(cat3("/commits/", sha.as_str(), "/check-runs").as_str());
                let o4 = self.call(&c4);
                let ghost r4 = choose|x: Result<HttpResponse, ForgeError>| self.sends(c4.method@, c4.path@, ostr(c4.body), x) && bytes_result(o4) == github_outcome(x);
                let checks = match o4 {
                    Ok(b) => b,
                    Err(e) => {
                        assert(self.pr_state_fits(pr@, r1, r2, r3, r4, Err::<PrState, ForgeError>(e)));
                        return Err(e);
                    },
                };
                let r = Ok(PrState { approvals, ci: classify_check_runs(checks.as_slice()), merged, draft });
                assert(self.pr_state_fits(pr@, r1, r2, r3, r4, r));
                r
            },
        }
    }

    fn merge_pr(&self, pr: &str) -> (r: Result<(), ForgeError>)
        ensures
            exists|reply: Result<HttpResponse, ForgeError>|
                #![trigger self.sends("PUT"@, repo_path(self.repo_view(), "/pulls/"@ + pr@ + "/merge"@), Some(obj1("merge_method"@, json_quote_of("squash"@))), reply)]
                self.sends("PUT"@, repo_path(self.repo_view(), "/pulls/"@ + pr@ + "/merge"@), Some(obj1("merge_method"@, json_quote_of("squash"@))), reply)
                    && unit_fits(r, github_outcome(reply)),
    {
        let members = vec![("merge_method", json_quote("squash"))];
        assert(members_view(members@) =~= seq![("merge_method"@, json_quote_of("squash"@))]);
        let c = self.pull_call("PUT", pr, "/merge", Some(json_object_str(&members)));
        let o = self.call(&c);
        let ghost reply = choose|x: Result<HttpResponse, ForgeError>| self.sends(c.method@, c.path@, ostr(c.body), x) && bytes_result(o) == github_outcome(x);
        assert(ostr(c.body) =~~= Some(obj1("merge_method"@, json_quote_of("squash"@))));
        assert(self.sends("PUT"@, repo_path(self.repo_view(), "/pulls/"@ + pr@ + "/merge"@), Some(obj1("merge_method"@, json_quote_of("squash"@))), reply));
        match o {
            Ok(_) => Ok(()),
            Err(e) => Err(e),
        }
    }

    fn close_pr(&self, pr: &str) -> (r: Result<(), ForgeError>)
        ensures
            exists|reply: Result<HttpResponse, ForgeError>|
                #![trigger self.sends("PATCH"@, repo_path(self.repo_view(), "/pulls/"@ + pr@), Some(obj1("state"@, json_quote_of("closed"@))), reply)]
                self.sends("PATCH"@, repo_path(self.repo_view(), "/pulls/"@ + pr@), Some(obj1("state"@, json_quote_of("closed"@))), reply)
                    && unit_fits(r, github_outcome(reply)),
    {
        proof {
            reveal_strlit("");
        }
        let members = vec![("state", json_quote("closed"))];
        assert(members_view(members@) =~= seq![("state"@, json_quote_of("closed"@))]);
        let c = self.pull_call("PATCH", pr, "", Some(json_object_str(&members)));
        assert(c.path@ =~= repo_path(self.repo_view(), "/pulls/"@ + pr@));
        let o = self.call(&c);
        let ghost reply = choose|x: Result<HttpResponse, ForgeError>| self.sends(c.method@, c.path@, ostr(c.body), x) && bytes_result(o) == github_outcome(x);
        assert(ostr(c.body) =~~= Some(obj1("state"@, json_quote_of("closed"@))));
        assert(self.sends("PATCH"@, repo_path(self.repo_view(), "/pulls/"@ + pr@), Some(obj1("state"@, json_quote_of("closed"@))), reply));
        match o {
            Ok(_) => Ok(()),
            Err(e) => Err(e),
        }
    }

    fn comment_pr(&self, pr: &str, body: &str) -> (r: Result<(), ForgeError>)
        ensures
            exists|reply: Result<HttpResponse, ForgeError>|
                #![trigger self.sends("POST"@, repo_path(self.repo_view(), "/issues/"@ + pr@ + "/comments"@), Some(obj1("body"@, json_quote_of(body@))), reply)]
                self.sends("POST"@, repo_path(self.repo_view(), "/issues/"@ + pr@ + "/comments"@), Some(obj1("body"@, json_quote_of(body@))), reply)
                    && unit_fits(r, github_outcome(reply)),
    {
        let c = self.comment_call(pr, body);
        let o = self.call(&c);
        let ghost reply = choose|x: Result<HttpResponse, ForgeError>| self.sends(c.method@, c.path@, ostr(c.body), x) && bytes_result(o) == github_outcome(x);
        match o {
            Ok(_) => Ok(()),
            Err(e) => Err(e),
        }
    }

    fn set_pr_body(&self, pr: &str, body: &str) -> (r: Result<(), ForgeError>)
        ensures
            exists|reply: Result<HttpResponse, ForgeError>|
                #![trigger self.sends("PATCH"@, repo_path(self.repo_view(), "/pulls/"@ + pr@), Some(obj1("body"@, json_quote_of(body@))), reply)]
                self.sends("PATCH"@, repo_path(self.repo_view(), "/pulls/"@ + pr@), Some(obj1("body"@, json_quote_of(body@))), reply)
                    && unit_fits(r, github_outcome(reply)),
    {
        proof {
            reveal_strlit("");
        }
        let members = vec![("body", json_quote(body))];
        assert(members_view(members@) =~= seq![("body"@, json_quote_of(body@))]);
        let c = self.pull_call("PATCH", pr, "", Some(json_object_str(&members)));
        assert(c.path@ =~= repo_path(self.repo_view(), "/pulls/"@ + pr@));
        let o = self.call(&c);
        let ghost reply = choose|x: Result<HttpResponse, ForgeError>| self.sends(c.method@, c.path@, ostr(c.body), x) && bytes_result(o) == github_outcome(x);
        assert(ostr(c.body) =~~= Some(obj1("body"@, json_quote_of(body@))));
        assert(self.sends("PATCH"@, repo_path(self.repo_view(), "/pulls/"@ + pr@), Some(obj1("body"@, json_quote_of(body@))), reply));
        match o {
            Ok(_) => Ok(()),
            Err(e) => Err(e),
        }
    }

    fn describe(&self) -> String {
        self.label()
    }
}

} // verus!
