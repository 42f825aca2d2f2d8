//! GitLab adapter: merge requests for the [`Forge`] role and issues for the
//! [`Tracker`] role, over one token and one [`HttpTransport`]. Issues and merge
//! requests are addressed by their project-scoped `iid`.
use std::sync::Arc;
use vstd::prelude::*;
use crate::config::ostr;
use crate::text::{chars_of, replace, replace_str, string_of};
use super::{
    api_call, api_url_v, call_is, cat2, cat3, id_and_url, json_bool, json_len, json_len_at, json_object,
    json_object_str, json_quote, json_quote_of, json_str, json_str_at, members_view, message_of,
    response_outcome, str_is, want_str, ApiCall, CiStatus, Forge, ForgeError, HttpTransport, IssueRef,
    IssueState, PrDraft, PrRef, PrState, Tracker, Transition,
    api_url, bytes_result, err_is, headers_view, issue_ref_fits, pr_ref_fits, reply_outcome, unit_fits,
    utf8_opt, want_spec, json_bool_at, ForgeErrorV, HttpResponse,
};

verus! {

/// A GitLab REST v4 client scoped to one project.
pub struct Gitlab<T: HttpTransport> {
    /// API host (`gitlab.com`, or a self-managed host).
    host: String,
    /// `group/project` slug or numeric id.
    project: String,
    token: String,
    transport: Arc<T>,
}

/// The API host a client talks to when none is configured.
pub open spec fn gitlab_default_host() -> Seq<char> {
    "gitlab.com"@
}

/// The project as a path segment: `group/project` becomes `group%2Fproject`.
pub open spec fn encoded_project(project: Seq<char>) -> Seq<char> {
    replace(project, "/"@, "%2F"@)
}

/// `projects/<encoded project><rest>`.
pub open spec fn project_path(project: Seq<char>, rest: Seq<char>) -> Seq<char> {
    "projects/"@ + encoded_project(project) + rest
}

/// The body that creates an issue.
pub open spec fn issue_json(title: Seq<char>, body: Seq<char>) -> Seq<char> {
    json_object(seq![("description"@, json_quote_of(body)), ("title"@, json_quote_of(title))])
}

/// The body that opens a merge request, drafted by its `Draft: ` title.
pub open spec fn merge_request_json(d: PrDraft) -> Seq<char> {
    json_object(
        seq![
            ("description"@, json_quote_of(d.body@)),
            ("source_branch"@, json_quote_of(d.branch@)),
            ("target_branch"@, json_quote_of(d.base@)),
            ("title"@, json_quote_of("Draft: "@ + d.title@)),
        ],
    )
}

/// The `state_event` a tracker transition sends.
pub open spec fn state_event(to: Transition) -> Seq<char> {
    match to {
        Transition::Done | Transition::WontFix => "close"@,
        Transition::Reopen => "reopen"@,
    }
}

/// A merge request's CI from its head pipeline's status.
pub open spec fn pipeline_ci(status: Option<Seq<char>>) -> CiStatus {
    match status {
        Some(s) => if s == "success"@ {
            CiStatus::Success
        } else if s == "running"@ || s == "pending"@ || s == "created"@ {
            CiStatus::Pending
        } else if s == "failed"@ || s == "canceled"@ {
            CiStatus::Failure
        } else {
            CiStatus::NoChecks
        },
        None => CiStatus::NoChecks,
    }
}

/// The CI of a merge request body.
pub fn pipeline_status(body: &[u8]) -> (r: CiStatus)
    ensures
        r == pipeline_ci(json_str_at(body@, "/head_pipeline/status"@)),
{
    let s = json_str(body, "/head_pipeline/status");
    if str_is(&s, "success") {
        CiStatus::Success
    } else if str_is(&s, "running") || str_is(&s, "pending") || str_is(&s, "created") {
        CiStatus::Pending
    } else if str_is(&s, "failed") || str_is(&s, "canceled") {
        CiStatus::Failure
    } else {
        CiStatus::NoChecks
    }
}

/// The headers every GitLab request carries.
pub open spec fn gitlab_headers(token: Seq<char>) -> Seq<(Seq<char>, Seq<char>)> {
    seq![("PRIVATE-TOKEN"@, token), ("Content-Type"@, "application/json"@), ("User-Agent"@, "adroit"@)]
}

/// What a GitLab call makes of a reply; errors carry GitLab's `message`, else
/// its `error`.
pub open spec fn gitlab_outcome(reply: Result<HttpResponse, ForgeError>) -> Result<Seq<u8>, ForgeErrorV> {
    reply_outcome(reply, "GitLab"@, seq!["/message"@, "/error"@])
}

/// A one-member body `{"<key>": "<value>"}`.
pub open spec fn one_json(key: Seq<char>, value: Seq<char>) -> Seq<char> {
    json_object(seq![(key, json_quote_of(value))])
}

/// The approvals an approvals reply lists in `approved_by`, 0 when absent.
pub fn approved_by_count(body: &[u8]) -> (r: u32)
    ensures
        r == (match json_len_at(body@, "/approved_by"@) {
            Some(n) => n as u32,
            None => 0,
        }),
{
    match json_len(body, "/approved_by") {
        Some(n) => n as u32,
        None => 0,
    }
}

impl<T: HttpTransport> Gitlab<T> {
    pub closed spec fn host_view(&self) -> Seq<char> {
        self.host@
    }

    pub closed spec fn project_view(&self) -> Seq<char> {
        self.project@
    }

    pub closed spec fn token_view(&self) -> Seq<char> {
        self.token@
    }

    /// Whether `reply` is one this client's transport may give to a request
    /// of `method` on `path` with `body`, sent to
    /// `https://<host>/api/v4/<path>` with GitLab's headers and the body's
    /// UTF-8 bytes.
    pub closed spec fn sends(&self, method: Seq<char>, path: Seq<char>, body: Option<Seq<char>>, reply: Result<HttpResponse, ForgeError>) -> bool {
        (*self.transport).replies(method, api_url(self.host@, "/api/v4/"@, path), gitlab_headers(self.token@), utf8_opt(body), reply)
    }

    /// A client over a transport; the host defaults to `gitlab.com`.
    pub fn new(host: Option<String>, project: String, token: String, transport: Arc<T>) -> (g: Self)
        ensures
            g.host_view() == (match ostr(host) {
                Some(h) => h,
                None => gitlab_default_host(),
            }),
            g.project_view() == project@,
            g.token_view() == token@,
    {
        let host = match host {
            Some(h) => h,
            None => string_of(&chars_of("gitlab.com")),
        };
        Gitlab { host, project, token, transport }
    }

    /// A client on `gitlab.com` with a placeholder token, for a given
    /// transport.
    pub fn with_transport(project: &str, transport: Arc<T>) -> (g: Self)
        ensures
            g.host_view() == gitlab_default_host(),
            g.project_view() == project@,
            g.token_view() == "test-token"@,
    {
        Gitlab {
            host: string_of(&chars_of("gitlab.com")),
            project: string_of(&chars_of(project)),
            token: string_of(&chars_of("test-token")),
            transport,
        }
    }

    /// The project as a path segment.
    pub fn proj(&self) -> (r: String)
        ensures
            r@ == encoded_project(self.project_view()),
    {
        proof {
            reveal_strlit("/");
        }
        string_of(&replace_str(&chars_of(self.project.as_str()), "/", &chars_of("%2F")))
    }

    /// A request on `projects/<project><rest>`.
    pub fn project_call(&self, method: &str, rest: &str, body: Option<String>) -> (c: ApiCall)
        ensures
            call_is(c, method@, project_path(self.project_view(), rest@), ostr(body)),
    {
        api_call(method, cat3("projects/", self.proj().as_str(), rest), body)
    }

    /// The body that creates an issue.
    pub fn issue_body(title: &str, body: &str) -> (r: String)
        ensures
            r@ == issue_json(title@, body@),
    {
        let members = vec![("description", json_quote(body)), ("title", json_quote(title))];
        assert(members_view(members@) =~= seq![("description"@, json_quote_of(body@)), ("title"@, json_quote_of(title@))]);
        json_object_str(&members)
    }

    /// The body that opens a draft merge request.
    pub fn merge_request_body(draft: &PrDraft) -> (r: String)
        ensures
            r@ == merge_request_json(*draft),
    {
        let title = cat2("Draft: ", draft.title.as_str());
        let members = vec![
            ("description", json_quote(draft.body.as_str())),
            ("source_branch", json_quote(draft.branch.as_str())),
            ("target_branch", json_quote(draft.base.as_str())),
            ("title", json_quote(title.as_str())),
        ];
        assert(members_view(members@) =~= seq![
            ("description"@, json_quote_of(draft.body@)),
            ("source_branch"@, json_quote_of(draft.branch@)),
            ("target_branch"@, json_quote_of(draft.base@)),
            ("title"@, json_quote_of("Draft: "@ + draft.title@)),
        ]);
        json_object_str(&members)
    }

    /// A one-member body `{"<key>": "<value>"}`.
    fn one(key: &str, value: &str) -> (r: String)
        ensures
            r@ == json_object(seq![(key@, json_quote_of(value@))]),
    {
        let members = vec![(key, json_quote(value))];
        assert(members_view(members@) =~= seq![(key@, json_quote_of(value@))]);
        json_object_str(&members)
    }

    /// Send one call and classify the reply: 2xx gives the body, 401/403 an
    /// auth error, anything else an API error carrying GitLab's `message` or
    /// `error`.
    fn call(&self, c: &ApiCall) -> (r: Result<Vec<u8>, ForgeError>)
        ensures
            exists|reply: Result<HttpResponse, ForgeError>|
                #![trigger self.sends(c.method@, c.path@, ostr(c.body), reply)]
                self.sends(c.method@, c.path@, ostr(c.body), reply) && bytes_result(r) == gitlab_outcome(reply),
    {
        let url = api_url_v(self.host.as_str(), "/api/v4/", c.path.as_str());
        let headers: [(&str, &str); 3] = [
            ("PRIVATE-TOKEN", self.token.as_str()),
            ("Content-Type", "application/json"),
            ("User-Agent", "adroit"),
        ];
        let hs: &[(&str, &str)] = &headers;
        assert(headers_view(hs@) =~= gitlab_headers(self.token@));
        let sent = match &c.body {
            Some(b) => self.transport.request(c.method.as_str(), url.as_str(), hs, Some(b.as_str().as_bytes())),
            None => self.transport.request(c.method.as_str(), url.as_str(), hs, None),
        };
        assert(self.sends(c.method@, c.path@, ostr(c.body), sent));
        let resp = match sent {
            Ok(x) => x,
            Err(e) => {
                return Err(e);
            },
        };
        let pointers: [&str; 2] = ["/message", "/error"];
        assert(pointers@.map_values(|p: &str| p@) =~= seq!["/message"@, "/error"@]);
        let msg = message_of(resp.body.as_slice(), &pointers);
        response_outcome(resp, "GitLab", msg)
    }

    /// `gitlab:<project>`, the label both roles describe themselves by.
    pub fn label(&self) -> (s: String)
        ensures
            s@ == "gitlab:"@ + self.project_view(),
    {
        cat2("gitlab:", self.project.as_str())
    }
}

impl<T: HttpTransport> Gitlab<T> {
    /// A merge request snapshot fits the replies to the calls it makes: the
    /// merge request (state, draft flag, head pipeline), then its approvals,
    /// whose failure counts as none. A missing `draft` reads as `false`.
    pub open spec fn pr_state_fits(
        &self,
        pr: Seq<char>,
        r1: Result<HttpResponse, ForgeError>,
        r2: Result<HttpResponse, ForgeError>,
        r: Result<PrState, ForgeError>,
    ) -> bool {
        &&& self.sends("GET"@, project_path(self.project_view(), "/merge_requests/"@ + pr), None, r1)
        &&& match gitlab_outcome(r1) {
            Err(e) => err_is(r, e),
            Ok(b1) => {
                let merged = json_str_at(b1, "/state"@) == Some("merged"@);
                let draft = match json_bool_at(b1, "/draft"@) {
                    Some(x) => x,
                    None => false,
                };
                let ci = pipeline_ci(json_str_at(b1, "/head_pipeline/status"@));
                &&& self.sends("GET"@, project_path(self.project_view(), "/merge_requests/"@ + pr + "/approvals"@), None, r2)
                &&& r == Ok::<PrState, ForgeError>(PrState {
                    approvals: match gitlab_outcome(r2) {
                        Ok(b2) => match json_len_at(b2, "/approved_by"@) {
                            Some(n) => n as u32,
                            None => 0,
                        },
                        Err(_) => 0,
                    },
                    ci,
                    merged,
                    draft,
                })
            },
        }
    }
}

impl<T: HttpTransport> Tracker for Gitlab<T> {
    fn create_issue(&self, title: &str, body: &str) -> (r: Result<IssueRef, ForgeError>)
        ensures
            r matches Ok(i) ==> i.title@ == title@,
            exists|reply: Result<HttpResponse, ForgeError>|
                #![trigger self.sends("POST"@, project_path(self.project_view(), "/issues"@), Some(issue_json(title@, body@)), reply)]
                self.sends("POST"@, project_path(self.project_view(), "/issues"@), Some(issue_json(title@, body@)), reply)
                    && issue_ref_fits(r, gitlab_outcome(reply), "iid"@, "GitLab response missing `iid`"@, "web_url"@, "GitLab"@, title@),
    {
        let c = self.project_call("POST", "/issues", Some(Self::issue_body(title, body)));
        let o = self.call(&c);
        let ghost reply = choose|x: Result<HttpResponse, ForgeError>| self.sends(c.method@, c.path@, ostr(c.body), x) && bytes_result(o) == gitlab_outcome(x);
        let b = match o {
            Ok(b) => b,
            Err(e) => {
                return Err(e);
            },
        };
        let (id, url) = match id_and_url(b.as_slice(), "iid", "GitLab response missing `iid`", "web_url", "GitLab") {
            Ok(p) => p,
            Err(e) => {
                return Err(e);
            },
        };
        Ok(IssueRef { id, url, title: string_of(&chars_of(title)) })
    }

    fn transition(&self, issue: &str, to: Transition) -> (r: Result<(), ForgeError>)
        ensures
            exists|reply: Result<HttpResponse, ForgeError>|
                #![trigger self.sends("PUT"@, project_path(self.project_view(), "/issues/"@ + issue@), Some(one_json("state_event"@, state_event(to))), reply)]
                self.sends("PUT"@, project_path(self.project_view(), "/issues/"@ + issue@), Some(one_json("state_event"@, state_event(to))), reply)
                    && unit_fits(r, gitlab_outcome(reply)),
    {
        let event = match to {
            Transition::Done | Transition::WontFix => "close",
            Transition::Reopen => "reopen",
        };
        assert(event@ == state_event(to));
        let c = self.project_call("PUT", cat2("/issues/", issue).as_str(), Some(Self::one("state_event", event)));
        let o = self.call(&c);
        let ghost reply = choose|x: Result<HttpResponse, ForgeError>| self.sends(c.method@, c.path@, ostr(c.body), x) && bytes_result(o) == gitlab_outcome(x);
        assert(ostr(c.body) =~~= Some(one_json("state_event"@, state_event(to))));
        assert(c.path@ =~= project_path(self.project_view(), "/issues/"@ + issue@));
        assert(self.sends("PUT"@, project_path(self.project_view(), "/issues/"@ + issue@), Some(one_json("state_event"@, state_event(to))), reply));
        match o {
            Ok(_) => Ok(()),
            Err(e) => Err(e),
        }
    }

    fn close_issue(&self, issue: &str) -> (r: Result<(), ForgeError>) {
        self.transition(issue, Transition::Done)
    }

    fn comment_issue(&self, issue: &str, body: &str) -> (r: Result<(), ForgeError>)
        ensures
            exists|reply: Result<HttpResponse, ForgeError>|
                #![trigger self.sends("POST"@, project_path(self.project_view(), "/issues/"@ + issue@ + "/notes"@), Some(one_json("body"@, body@)), reply)]
                self.sends("POST"@, project_path(self.project_view(), "/issues/"@ + issue@ + "/notes"@), Some(one_json("body"@, body@)), reply)
                    && unit_fits(r, gitlab_outcome(reply)),
    {
        let c = self.project_call("POST", cat3("/issues/", issue, "/notes").as_str(), Some(Self::one("body", body)));
        let o = self.call(&c);
        let ghost reply = choose|x: Result<HttpResponse, ForgeError>| self.sends(c.method@, c.path@, ostr(c.body), x) && bytes_result(o) == gitlab_outcome(x);
        assert(ostr(c.body) =~~= Some(one_json("body"@, body@)));
        assert(c.path@ =~= project_path(self.project_view(), "/issues/"@ + issue@ + "/notes"@));
        assert(self.sends("POST"@, project_path(self.project_view(), "/issues/"@ + issue@ + "/notes"@), Some(one_json("body"@, body@)), reply));
        match o {
            Ok(_) => Ok(()),
            Err(e) => Err(e),
        }
    }

    fn issue_state(&self, issue: &str) -> (r: Result<IssueState, ForgeError>)
        ensures
            exists|reply: Result<HttpResponse, ForgeError>|
                #![trigger self.sends("GET"@, project_path(self.project_view(), "/issues/"@ + issue@), None, reply)]
                self.sends("GET"@, project_path(self.project_view(), "/issues/"@ + issue@), None, reply) && match gitlab_outcome(reply) {
                    Err(e) => err_is(r, e),
                    Ok(b) => match want_spec(b, "web_url"@, "GitLab"@) {
                        Err(e) => err_is(r, e),
                        Ok(u) => r matches Ok(st) && st.open == (json_str_at(b, "/state"@) == Some("opened"@)) && st.url@ == u,
                    },
                },
    {
        let c = self.project_call("GET", cat2("/issues/", issue).as_str(), None);
        let o = self.call(&c);
        let ghost reply = choose|x: Result<HttpResponse, ForgeError>| self.sends(c.method@, c.path@, ostr(c.body), x) && bytes_result(o) == gitlab_outcome(x);
        let b = match o {
            Ok(b) => b,
            Err(e) => {
                return Err(e);
            },
        };
        let open = str_is(&json_str(b.as_slice(), "/state"), "opened");
        let url = match want_str(b.as_slice(), "web_url", "GitLab") {
            Ok(u) => u,
            Err(e) => {
                return Err(e);
            },
        };
        Ok(IssueState { open, url })
    }

    fn describe(&self) -> String {
        self.label()
    }
}

impl<T: HttpTransport> Forge for Gitlab<T> {
    fn open_pr(&self, draft: &PrDraft) -> (r: Result<PrRef, ForgeError>)
        ensures
            r matches Ok(p) ==> p.branch@ == draft.branch@,
            exists|reply: Result<HttpResponse, ForgeError>|
                #![trigger self.sends("POST"@, project_path(self.project_view(), "/merge_requests"@), Some(merge_request_json(*draft)), reply)]
                self.sends("POST"@, project_path(self.project_view(), "/merge_requests"@), Some(merge_request_json(*draft)), reply)
                    && pr_ref_fits(r, gitlab_outcome(reply), "iid"@, "GitLab response missing `iid`"@, "web_url"@, "GitLab"@, draft.branch@),
    {
        let c = self.project_call("POST", "/merge_requests", Some(Self::merge_request_body(draft)));
        let o = self.call(&c);
        let ghost reply = choose|x: Result<HttpResponse, ForgeError>| self.sends(c.method@, c.path@, ostr(c.body), x) && bytes_result(o) == gitlab_outcome(x);
        let b = match o {
            Ok(b) => b,
            Err(e) => {
                return Err(e);
            },
        };
        let (id, url) = match id_and_url(b.as_slice(), "iid", "GitLab response missing `iid`", "web_url", "GitLab") {
            Ok(p) => p,
            Err(e) => {
                return Err(e);
            },
        };
        Ok(PrRef { id, url, branch: string_of(&chars_of(draft.branch.as_str())) })
    }

    fn pr_state(&self, pr: &str) -> (r: Result<PrState, ForgeError>)
        ensures
            exists|r1: Result<HttpResponse, ForgeError>, r2: Result<HttpResponse, ForgeError>|
                #![trigger self.pr_state_fits(pr@, r1, r2, r)]
                self.pr_state_fits(pr@, r1, r2, r),
    {
        let c1 = self.project_call("GET", cat2("/merge_requests/", pr).as_str(), None);
        let o1 = self.call(&c1);
        let ghost r1 = choose|x: Result<HttpResponse, ForgeError>| self.sends(c1.method@, c1.path@, ostr(c1.body), x) && bytes_result(o1) == gitlab_outcome(x);
        let mr = match o1 {
            Ok(b) => b,
            Err(e) => {
                assert(self.pr_state_fits(pr@, r1, r1, Err::<PrState, ForgeError>(e)));
                return Err(e);
            },
        };
        let merged = str_is(&json_str(mr.as_slice(), "/state"), "merged");
        let draft = match json_bool(mr.as_slice(), "/draft") {
            Some(b) => b,
            None => false,
        };
        let ci = pipeline_status(mr.as_slice());
        let c2 = self.project_call("GET", cat3("/merge_requests/", pr, "/approvals").as_str(), None);
        let o2 = self.call(&c2);
        let ghost r2 = choose|x: Result<HttpResponse, ForgeError>| self.sends(c2.method@, c2.path@, ostr(c2.body), x) && bytes_result(o2) == gitlab_outcome(x);
        let approvals = match o2 {
            Ok(a) => approved_by_count(a.as_slice()),
            Err(_) => 0,
        };
        let r = Ok(PrState { approvals, ci, merged, draft });
        assert(self.pr_state_fits(pr@, r1, r2, r));
        r
    }

    fn merge_pr(&self, pr: &str) -> (r: Result<(), ForgeError>)
        ensures
            exists|reply: Result<HttpResponse, ForgeError>|
                #![trigger self.sends("PUT"@, project_path(self.project_view(), "/merge_requests/"@ + pr@ + "/merge"@), Some(json_object(Seq::empty())), reply)]
                self.sends("PUT"@, project_path(self.project_view(), "/merge_requests/"@ + pr@ + "/merge"@), Some(json_object(Seq::empty())), reply)
                    && unit_fits(r, gitlab_outcome(reply)),
    {
        let empty: Vec<(&str, String)> = Vec::new();
        assert(members_view(empty@) =~= Seq::empty());
        let c = self.project_call("PUT", cat3("/merge_requests/", pr, "/merge").as_str(), Some(json_object_str(&empty)));
        let o = self.call(&c);
        let ghost reply = choose|x: Result<HttpResponse, ForgeError>| self.sends(c.method@, c.path@, ostr(c.body), x) && bytes_result(o) == gitlab_outcome(x);
        assert(ostr(c.body) =~~= Some(json_object(Seq::empty())));
        assert(c.path@ =~= project_path(self.project_view(), "/merge_requests/"@ + pr@ + "/merge"@));
        assert(self.sends("PUT"@, project_path(self.project_view(), "/merge_requests/"@ + pr@ + "/merge"@), Some(json_object(Seq::empty())), reply));
        match o {
            Ok(_) => Ok(()),
            Err(e) => Err(e),
        }
    }

    fn close_pr(&self, pr: &str) -> (r: Result<(), ForgeError>)
        ensures
            exists|reply: Result<HttpResponse, ForgeError>|
                #![trigger self.sends("PUT"@, project_path(self.project_view(), "/merge_requests/"@ + pr@), Some(one_json("state_event"@, "close"@)), reply)]
                self.sends("PUT"@, project_path(self.project_view(), "/merge_requests/"@ + pr@), Some(one_json("state_event"@, "close"@)), reply)
                    && unit_fits(r, gitlab_outcome(reply)),
    {
        let c = self.project_call("PUT", cat2("/merge_requests/", pr).as_str(), Some(Self::one("state_event", "close")));
        let o = self.call(&c);
        let ghost reply = choose|x: Result<HttpResponse, ForgeError>| self.sends(c.method@, c.path@, ostr(c.body), x) && bytes_result(o) == gitlab_outcome(x);
        assert(ostr(c.body) =~~= Some(one_json("state_event"@, "close"@)));
        assert(c.path@ =~= project_path(self.project_view(), "/merge_requests/"@ + pr@));
        assert(self.sends("PUT"@, project_path(self.project_view(), "/merge_requests/"@ + pr@), Some(one_json("state_event"@, "close"@)), reply));
        match o {
            Ok(_) => Ok(()),
            Err(e) => Err(e),
        }
    }

    fn comment_pr(&self, pr: &str, body: &str) -> (r: Result<(), ForgeError>)
        ensures
            exists|reply: Result<HttpResponse, ForgeError>|
                #![trigger self.sends("POST"@, project_path(self.project_view(), "/merge_requests/"@ + pr@ + "/notes"@), Some(one_json("body"@, body@)), reply)]
                self.sends("POST"@, project_path(self.project_view(), "/merge_requests/"@ + pr@ + "/notes"@), Some(one_json("body"@, body@)), reply)
                    && unit_fits(r, gitlab_outcome(reply)),
    {
        let c = self.project_call("POST", cat3("/merge_requests/", pr, "/notes").as_str(), Some(Self::one("body", body)));
        let o = self.call(&c);
        let ghost reply = choose|x: Result<HttpResponse, ForgeError>| self.sends(c.method@, c.path@, ostr(c.body), x) && bytes_result(o) == gitlab_outcome(x);
        assert(ostr(c.body) =~~= Some(one_json("body"@, body@)));
        assert(c.path@ =~= project_path(self.project_view(), "/merge_requests/"@ + pr@ + "/notes"@));
        assert(self.sends("POST"@, project_path(self.project_view(), "/merge_requests/"@ + pr@ + "/notes"@), Some(one_json("body"@, body@)), reply));
        match o {
            Ok(_) => Ok(()),
            Err(e) => Err(e),
        }
    }

    fn set_pr_body(&self, pr: &str, body: &str) -> (r: Result<(), ForgeError>)
        ensures
            exists|reply: Result<HttpResponse, ForgeError>|
                #![trigger self.sends("PUT"@, project_path(self.project_view(), "/merge_requests/"@ + pr@), Some(one_json("description"@, body@)), reply)]
                self.sends("PUT"@, project_path(self.project_view(), "/merge_requests/"@ + pr@), Some(one_json("description"@, body@)), reply)
                    && unit_fits(r, gitlab_outcome(reply)),
    {
        let c = self.project_call("PUT", cat2("/merge_requests/", pr).as_str(), Some(Self::one("description", body)));
        let o = self.call(&c);
        let ghost reply = choose|x: Result<HttpResponse, ForgeError>| self.sends(c.method@, c.path@, ostr(c.body), x) && bytes_result(o) == gitlab_outcome(x);
        assert(ostr(c.body) =~~= Some(one_json("description"@, body@)));
        assert(c.path@ =~= project_path(self.project_view(), "/merge_requests/"@ + pr@));
        assert(self.sends("PUT"@, project_path(self.project_view(), "/merge_requests/"@ + pr@), Some(one_json("description"@, body@)), reply));
        match o {
            Ok(_) => Ok(()),
            Err(e) => Err(e),
        }
    }

    fn describe(&self) -> String {
        self.label()
    }
}

} // verus!
