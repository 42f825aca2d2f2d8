//! Jira adapter: a tracker only (Jira has no pull requests), paired with a
//! GitHub or GitLab forge when `forge.tracker = jira`. Jira Cloud REST v2 with
//! Basic auth (email and API token).
use std::sync::Arc;
use vstd::prelude::*;
use crate::text::{
    ascii_lower_seq, chars_of, contains, contains_str, lower_ascii_chars, string_of,
};
use super::{
    api_call, api_url_v, call_is, cat2, cat3, elem_ptr, elem_ptr_v, json_len, json_len_at, json_object,
    json_object_str, json_quote, json_quote_of, json_str, json_str_at, members_view, message_of,
    response_outcome, str_is, ApiCall, ForgeError, HttpTransport, IssueRef, IssueState, Tracker,
    Transition, api_url, bytes_result, err_is, headers_view, reply_outcome, unit_fits, utf8_opt,
    ForgeErrorV, HttpResponse,
};
use crate::config::ostr;

verus! {

/// A Jira Cloud REST client scoped to one project.
pub struct Jira<T: HttpTransport> {
    /// `site.atlassian.net`.
    host: String,
    /// The project key, e.g. `OPS`.
    project: String,
    /// The whole `Authorization` header value.
    auth: String,
    transport: Arc<T>,
}

// ---------------------------------------------------------------------------
// Base64 (RFC 4648, with padding)
// ---------------------------------------------------------------------------

/// The standard base64 alphabet.
pub open spec fn b64_alphabet() -> Seq<char> {
    "ABCDEFGHIJKLMNOPQRSTUVWXYZabcdefghijklmnopqrstuvwxyz0123456789+/"@
}

/// The four characters one group of up to three bytes encodes to; a short
/// group is padded with `=`.
pub open spec fn b64_group(g: Seq<u8>) -> Seq<char> {
    let a = b64_alphabet();
    let b0 = g[0] as int;
    let b1 = if g.len() > 1 { g[1] as int } else { 0 };
    let b2 = if g.len() > 2 { g[2] as int } else { 0 };
    seq![
        a[b0 / 4],
        a[(b0 % 4) * 16 + b1 / 16],
        if g.len() > 1 { a[(b1 % 16) * 4 + b2 / 64] } else { '=' },
        if g.len() > 2 { a[b2 % 64] } else { '=' },
    ]
}

/// Standard base64 of a byte string: each group of three bytes in turn.
pub open spec fn base64_spec(input: Seq<u8>) -> Seq<char>
    decreases input.len(),
{
    if input.len() == 0 {
        Seq::empty()
    } else if input.len() <= 3 {
        b64_group(input)
    } else {
        b64_group(input.take(3)) + base64_spec(input.skip(3))
    }
}

/// Standard base64 (RFC 4648), as the Basic-auth header wants it.
pub fn base64(input: &[u8]) -> (r: String)
    ensures
        r@ == base64_spec(input@),
{
    proof {
        reveal_strlit("ABCDEFGHIJKLMNOPQRSTUVWXYZabcdefghijklmnopqrstuvwxyz0123456789+/");
    }
    let alpha = chars_of("ABCDEFGHIJKLMNOPQRSTUVWXYZabcdefghijklmnopqrstuvwxyz0123456789+/");
    let mut out: Vec<char> = Vec::new();
    let mut i: usize = 0;
    let n = input.len();
    assert(input@.skip(0) =~= input@);
    assert(Seq::<char>::empty() + base64_spec(input@) =~= base64_spec(input@));
    while i < n
        invariant
            i <= n,
            n == input@.len(),
            alpha@ == b64_alphabet(),
            alpha@.len() == 64,
            out@ + base64_spec(input@.skip(i as int)) == base64_spec(input@),
        decreases n - i,
    {
        let rest = n - i;
        let b0 = input[i] as usize;
        let b1: usize = if rest > 1 { input[i + 1] as usize } else { 0 };
        let b2: usize = if rest > 2 { input[i + 2] as usize } else { 0 };
        let ghost g = if rest >= 3 { input@.skip(i as int).take(3) } else { input@.skip(i as int) };
        let ghost before = out@;
        out.push(alpha[b0 / 4]);
        out.push(alpha[(b0 % 4) * 16 + b1 / 16]);
        if rest > 1 {
            out.push(alpha[(b1 % 16) * 4 + b2 / 64]);
        } else {
            out.push('=');
        }
        if rest > 2 {
            out.push(alpha[b2 % 64]);
        } else {
            out.push('=');
        }
        proof {
            let s = input@.skip(i as int);
            assert(out@ =~= before + b64_group(g));
            if rest > 3 {
                assert(s.skip(3) =~= input@.skip(i + 3));
                assert(base64_spec(s) == b64_group(s.take(3)) + base64_spec(s.skip(3)));
                assert(before + base64_spec(s) =~= out@ + base64_spec(input@.skip(i + 3)));
            } else {
                assert(g =~= s);
                assert(input@.skip(i + rest) =~= Seq::<u8>::empty());
                assert(before + base64_spec(s) =~= out@ + base64_spec(input@.skip(i + rest)));
            }
        }
        i = if rest > 3 { i + 3 } else { n };
    }
    assert(input@.skip(n as int) =~= Seq::<u8>::empty());
    assert(out@ + Seq::<char>::empty() =~= out@);
    string_of(&out)
}

// ---------------------------------------------------------------------------
// Requests and replies
// ---------------------------------------------------------------------------

/// The transition names (lowercased substrings) that reach each target.
pub open spec fn wanted_names(to: Transition) -> Seq<Seq<char>> {
    match to {
        Transition::Done => seq!["done"@, "close"@, "resolve"@, "complete"@],
        Transition::WontFix => seq!["won't do"@, "wont do"@, "won't fix"@, "reject"@, "decline"@],
        Transition::Reopen => seq!["reopen"@, "to do"@, "open"@],
    }
}

/// A transition name, lowercased, contains one of the wanted names.
pub open spec fn name_wanted(name: Seq<char>, to: Transition) -> bool {
    exists|k: int| 0 <= k < wanted_names(to).len() && contains(ascii_lower_seq(name), #[trigger] wanted_names(to)[k])
}

/// Transition `i` of a listing has a wanted name and a string id.
pub open spec fn usable_transition(body: Seq<u8>, i: int, to: Transition) -> bool {
    &&& json_str_at(body, elem_ptr("/transitions"@, i, "name"@)) matches Some(name)
    &&& name_wanted(name, to)
    &&& json_str_at(body, elem_ptr("/transitions"@, i, "id"@)) is Some
}

/// Whether a transition name, lowercased, contains one of the wanted names.
pub fn is_wanted(name: &str, to: Transition) -> (r: bool)
    ensures
        r == name_wanted(name@, to),
{
    let lower = lower_ascii_chars(&chars_of(name));
    let wanted: Vec<&str> = match to {
        Transition::Done => vec!["done", "close", "resolve", "complete"],
        Transition::WontFix => vec!["won't do", "wont do", "won't fix", "reject", "decline"],
        Transition::Reopen => vec!["reopen", "to do", "open"],
    };
    let ghost ws = wanted_names(to);
    assert(wanted@.map_values(|w: &str| w@) =~= ws);
    let mut k: usize = 0;
    while k < wanted.len()
        invariant
            k <= wanted.len(),
            wanted@.map_values(|w: &str| w@) == ws,
            ws == wanted_names(to),
            lower@ == ascii_lower_seq(name@),
            forall|j: int| 0 <= j < k ==> !contains(ascii_lower_seq(name@), #[trigger] ws[j]),
        decreases wanted.len() - k,
    {
        assert(ws[k as int] == wanted@[k as int]@);
        if contains_str(&lower, wanted[k]) {
            return true;
        }
        k = k + 1;
    }
    false
}

/// The id of the first transition in a listing whose name is wanted and
/// whose id is a string; `None` when there is none.
/// The id of the first usable transition at or after `i` of `n`.
pub open spec fn picked_from(body: Seq<u8>, to: Transition, i: int, n: int) -> Option<Seq<char>>
    decreases n - i,
{
    if i >= n {
        None
    } else if usable_transition(body, i, to) {
        json_str_at(body, elem_ptr("/transitions"@, i, "id"@))
    } else {
        picked_from(body, to, i + 1, n)
    }
}

/// The id of the first usable transition the reply lists, if any.
pub open spec fn picked_transition(body: Seq<u8>, to: Transition) -> Option<Seq<char>> {
    match json_len_at(body, "/transitions"@) {
        None => None,
        Some(n) => picked_from(body, to, 0, n as int),
    }
}

pub fn pick_transition(body: &[u8], to: Transition) -> (r: Option<String>)
    ensures
        ostr(r) == picked_transition(body@, to),
        match json_len_at(body@, "/transitions"@) {
            None => r is None,
            Some(n) => match r {
                Some(id) => exists|i: int|
                    0 <= i < n && #[trigger] usable_transition(body@, i, to)
                        && (forall|j: int| 0 <= j < i ==> !usable_transition(body@, j, to))
                        && json_str_at(body@, elem_ptr("/transitions"@, i, "id"@)) == Some(id@),
                None => forall|i: int| 0 <= i < n ==> !#[trigger] usable_transition(body@, i, to),
            },
        },
{
    let n = match json_len(body, "/transitions") {
        Some(n) => n,
        None => {
            return None;
        },
    };
    let mut i: usize = 0;
    while i < n
        invariant
            i <= n,
            json_len_at(body@, "/transitions"@) == Some(n),
            forall|j: int| 0 <= j < i ==> !#[trigger] usable_transition(body@, j, to),
            picked_from(body@, to, 0, n as int) == picked_from(body@, to, i as int, n as int),
        decreases n - i,
    {
        let name = json_str(body, elem_ptr_v("/transitions", i, "name").as_str());
        let id = json_str(body, elem_ptr_v("/transitions", i, "id").as_str());
        match name {
            Some(nm) => {
                if is_wanted(nm.as_str(), to) {
                    match id {
                        Some(x) => {
                            assert(usable_transition(body@, i as int, to));
                            return Some(x);
                        },
                        None => {},
                    }
                }
            },
            None => {},
        }
        assert(!usable_transition(body@, i as int, to));
        i = i + 1;
    }
    None
}

/// The headers every Jira request carries.
pub open spec fn jira_headers(auth: Seq<char>) -> Seq<(Seq<char>, Seq<char>)> {
    seq![
        ("Authorization"@, auth),
        ("Content-Type"@, "application/json"@),
        ("Accept"@, "application/json"@),
        ("User-Agent"@, "adroit"@),
    ]
}

/// What a Jira call makes of a reply; errors carry Jira's first
/// `errorMessages` entry, else its `message`.
pub open spec fn jira_outcome(reply: Result<HttpResponse, ForgeError>) -> Result<Seq<u8>, ForgeErrorV> {
    reply_outcome(reply, "Jira"@, seq!["/errorMessages/0"@, "/message"@])
}

/// The body that moves an issue along the transition `id`.
pub open spec fn transition_json(id: Seq<char>) -> Seq<char> {
    json_object(seq![("transition"@, json_object(seq![("id"@, json_quote_of(id))]))])
}

/// The body that creates a Jira task.
pub open spec fn issue_json(project: Seq<char>, title: Seq<char>, body: Seq<char>) -> Seq<char> {
    json_object(
        seq![
            (
                "fields"@,
                json_object(
                    seq![
                        ("description"@, json_quote_of(body)),
                        ("issuetype"@, json_object(seq![("name"@, json_quote_of("Task"@))])),
                        ("project"@, json_object(seq![("key"@, json_quote_of(project))])),
                        ("summary"@, json_quote_of(title)),
                    ],
                ),
            ),
        ],
    )
}

/// The header value Basic auth sends for an email and API token.
pub open spec fn basic_auth(email: Seq<char>, token: Seq<char>) -> Seq<char> {
    "Basic "@ + base64_spec(vstd::utf8::encode_utf8(email + ":"@ + token))
}

/// A one-member object `{"<key>": <value>}`, the value already JSON.
fn one_raw(key: &str, value: String) -> (r: String)
    ensures
        r@ == json_object(seq![(key@, value@)]),
{
    let members = vec![(key, value)];
    assert(members_view(members@) =~= seq![(key@, members@[0].1@)]);
    json_object_str(&members)
}

impl<T: HttpTransport> Jira<T> {
    pub closed spec fn host_view(&self) -> Seq<char> {
        self.host@
    }

    pub closed spec fn project_view(&self) -> Seq<char> {
        self.project@
    }

    pub closed spec fn auth_view(&self) -> Seq<char> {
        self.auth@
    }

    /// Whether `reply` is one this client's transport may give to a request
    /// of `method` on `path` with `body`, sent to
    /// `https://<host>/rest/api/2/<path>` with Jira's headers and the body's
    /// UTF-8 bytes.
    pub closed spec fn sends(&self, method: Seq<char>, path: Seq<char>, body: Option<Seq<char>>, reply: Result<HttpResponse, ForgeError>) -> bool {
        (*self.transport).replies(method, api_url(self.host@, "/rest/api/2/"@, path), jira_headers(self.auth@), utf8_opt(body), reply)
    }

    /// A client authenticating with an email and API token.
    pub fn new(host: String, project: String, email: &str, token: &str, transport: Arc<T>) -> (j: Self)
        ensures
            j.host_view() == host@,
            j.project_view() == project@,
            j.auth_view() == basic_auth(email@, token@),
    {
        let cred = cat3(email, ":", token);
        let auth = cat2("Basic ", base64(cred.as_str().as_bytes()).as_str());
        Jira { host, project, auth, transport }
    }

    /// A client with a placeholder credential, for a given transport.
    pub fn with_transport(host: &str, project: &str, transport: Arc<T>) -> (j: Self)
        ensures
            j.host_view() == host@,
            j.project_view() == project@,
            j.auth_view() == "Basic test"@,
    {
        Jira {
            host: string_of(&chars_of(host)),
            project: string_of(&chars_of(project)),
            auth: string_of(&chars_of("Basic test")),
            transport,
        }
    }

    /// The browser URL of an issue.
    pub fn browse_url(&self, key: &str) -> (r: String)
        ensures
            r@ == "https://"@ + self.host_view() + "/browse/"@ + key@,
    {
        let mut v = chars_of("https://");
        crate::text::append_str(&mut v, self.host.as_str());
        crate::text::append_str(&mut v, "/browse/");
        crate::text::append_str(&mut v, key);
        string_of(&v)
    }

    /// The request that creates a task.
    pub fn create_issue_call(&self, title: &str, body: &str) -> (c: ApiCall)
        ensures
            call_is(c, "POST"@, "issue"@, Some(issue_json(self.project_view(), title@, body@))),
    {
        let fields = vec![
            ("description", json_quote(body)),
            ("issuetype", one_raw("name", json_quote("Task"))),
            ("project", one_raw("key", json_quote(self.project.as_str()))),
            ("summary", json_quote(title)),
        ];
        assert(members_view(fields@) =~= seq![
            ("description"@, json_quote_of(body@)),
            ("issuetype"@, json_object(seq![("name"@, json_quote_of("Task"@))])),
            ("project"@, json_object(seq![("key"@, json_quote_of(self.project_view()))])),
            ("summary"@, json_quote_of(title@)),
        ]);
        let payload = one_raw("fields", json_object_str(&fields));
        api_call("POST", string_of(&chars_of("issue")), Some(payload))
    }

    /// Send one call and classify the reply: 2xx gives the body, 401/403 an
    /// auth error, anything else an API error carrying Jira's first
    /// `errorMessages` entry or `message`.
    fn call(&self, c: &ApiCall) -> (r: Result<Vec<u8>, ForgeError>)
        ensures
            exists|reply: Result<HttpResponse, ForgeError>|
                #![trigger self.sends(c.method@, c.path@, ostr(c.body), reply)]
                self.sends(c.method@, c.path@, ostr(c.body), reply) && bytes_result(r) == jira_outcome(reply),
    {
        let url = api_url_v(self.host.as_str(), "/rest/api/2/", c.path.as_str());
        let headers: [(&str, &str); 4] = [
            ("Authorization", self.auth.as_str()),
            ("Content-Type", "application/json"),
            ("Accept", "application/json"),
            ("User-Agent", "adroit"),
        ];
        let hs: &[(&str, &str)] = &headers;
        assert(headers_view(hs@) =~= jira_headers(self.auth@));
        let sent = match &c.body {
            Some(b) => self.transport.request(c.method.as_str(), url.as_str(), hs, Some(b.as_str().as_bytes())),
            None => self.transport.request(c.method.as_str(), url.as_str(), hs, None),
        };
        assert(self.sends(c.method@, c.path@, ostr(c.body), sent));
        let resp = match sent {
            Ok(x) => x,
            Err(e) => {
                return Err(e);
            },
        };
        let pointers: [&str; 2] = ["/errorMessages/0", "/message"];
        assert(pointers@.map_values(|p: &str| p@) =~= seq!["/errorMessages/0"@, "/message"@]);
        let msg = message_of(resp.body.as_slice(), &pointers);
        response_outcome(resp, "Jira", msg)
    }
}

impl<T: HttpTransport> Jira<T> {
    /// A transition fits the replies to the calls it makes: the issue's
    /// transitions, then, when one fits, the move along it; when none fits
    /// the issue is left as it is and the call succeeds.
    pub open spec fn transition_fits(
        &self,
        issue: Seq<char>,
        to: Transition,
        r1: Result<HttpResponse, ForgeError>,
        r2: Result<HttpResponse, ForgeError>,
        r: Result<(), ForgeError>,
    ) -> bool {
        &&& self.sends("GET"@, "issue/"@ + issue + "/transitions"@, None, r1)
        &&& match jira_outcome(r1) {
            Err(e) => err_is(r, e),
            Ok(b1) => match picked_transition(b1, to) {
                None => r is Ok,
                Some(id) => {
                    &&& self.sends("POST"@, "issue/"@ + issue + "/transitions"@, Some(transition_json(id)), r2)
                    &&& unit_fits(r, jira_outcome(r2))
                },
            },
        }
    }
}

impl<T: HttpTransport> Tracker for Jira<T> {
    fn create_issue(&self, title: &str, body: &str) -> (r: Result<IssueRef, ForgeError>)
        ensures
            r matches Ok(i) ==> i.title@ == title@ && i.url@ == "https://"@ + self.host_view() + "/browse/"@ + i.id@,
            exists|reply: Result<HttpResponse, ForgeError>|
                #![trigger self.sends("POST"@, "issue"@, Some(issue_json(self.project_view(), title@, body@)), reply)]
                self.sends("POST"@, "issue"@, Some(issue_json(self.project_view(), title@, body@)), reply) && match jira_outcome(reply) {
                    Err(e) => err_is(r, e),
                    Ok(b) => match json_str_at(b, "/key"@) {
                        None => err_is(r, ForgeErrorV::Api { status: 0, message: "Jira response missing `key`"@ }),
                        Some(k) => r matches Ok(i) && i.id@ == k && i.title@ == title@
                            && i.url@ == "https://"@ + self.host_view() + "/browse/"@ + k,
                    },
                },
    {
        let c = self.create_issue_call(title, body);
        let o = self.call(&c);
        let ghost reply = choose|x: Result<HttpResponse, ForgeError>| self.sends(c.method@, c.path@, ostr(c.body), x) && bytes_result(o) == jira_outcome(x);
        let b = match o {
            Ok(b) => b,
            Err(e) => {
                return Err(e);
            },
        };
        let key = match json_str(b.as_slice(), "/key") {
            Some(k) => k,
            None => {
                return Err(ForgeError::Api { status: 0, message: string_of(&chars_of("Jira response missing `key`")) });
            },
        };
        let url = self.browse_url(key.as_str());
        Ok(IssueRef { id: key, url, title: string_of(&chars_of(title)) })
    }

    /// Jira transitions are workflow-specific: the first one whose name fits
    /// is taken; when none fits the issue is left as it is.
    fn transition(&self, issue: &str, to: Transition) -> (r: Result<(), ForgeError>)
        ensures
            exists|r1: Result<HttpResponse, ForgeError>, r2: Result<HttpResponse, ForgeError>|
                #![trigger self.transition_fits(issue@, to, r1, r2, r)]
                self.transition_fits(issue@, to, r1, r2, r),
    {
        let path = cat3("issue/", issue, "/transitions");
        let c1 = api_call("GET", cat3("issue/", issue, "/transitions"), None);
        let o1 = self.call(&c1);
        let ghost r1 = choose|x: Result<HttpResponse, ForgeError>| self.sends(c1.method@, c1.path@, ostr(c1.body), x) && bytes_result(o1) == jira_outcome(x);
        let list = match o1 {
            Ok(b) => b,
            Err(e) => {
                assert(self.transition_fits(issue@, to, r1, r1, Err::<(), ForgeError>(e)));
                return Err(e);
            },
        };
        match pick_transition(list.as_slice(), to) {
            Some(id) => {
                let payload = one_raw("transition", one_raw("id", json_quote(id.as_str())));
                let c2 = api_call("POST", path, Some(payload));
                let o2 = self.call(&c2);
                let ghost r2 = choose|x: Result<HttpResponse, ForgeError>| self.sends(c2.method@, c2.path@, ostr(c2.body), x) && bytes_result(o2) == jira_outcome(x);
                let r = match o2 {
                    Ok(_) => Ok(()),
                    Err(e) => Err(e),
                };
                assert(self.transition_fits(issue@, to, r1, r2, r));
                r
            },
            None => {
                assert(self.transition_fits(issue@, to, r1, r1, Ok::<(), ForgeError>(())));
                Ok(())
            },
        }
    }

    fn close_issue(&self, issue: &str) -> (r: Result<(), ForgeError>) {
        self.transition(issue, Transition::Done)
    }

    fn comment_issue(&self, issue: &str, body: &str) -> (r: Result<(), ForgeError>)
        ensures
            exists|reply: Result<HttpResponse, ForgeError>|
                #![trigger self.sends("POST"@, "issue/"@ + issue@ + "/comment"@, Some(json_object(seq![("body"@, json_quote_of(body@))])), reply)]
                self.sends("POST"@, "issue/"@ + issue@ + "/comment"@, Some(json_object(seq![("body"@, json_quote_of(body@))])), reply)
                    && unit_fits(r, jira_outcome(reply)),
    {
        let payload = one_raw("body", json_quote(body));
        let c = api_call("POST", cat3("issue/", issue, "/comment"), Some(payload));
        let o = self.call(&c);
        let ghost reply = choose|x: Result<HttpResponse, ForgeError>| self.sends(c.method@, c.path@, ostr(c.body), x) && bytes_result(o) == jira_outcome(x);
        assert(ostr(c.body) =~~= Some(json_object(seq![("body"@, json_quote_of(body@))])));
        match o {
            Ok(_) => Ok(()),
            Err(e) => Err(e),
        }
    }

    fn issue_state(&self, issue: &str) -> (r: Result<IssueState, ForgeError>)
        ensures
            r matches Ok(s) ==> s.url@ == "https://"@ + self.host_view() + "/browse/"@ + issue@,
            exists|reply: Result<HttpResponse, ForgeError>|
                #![trigger self.sends("GET"@, "issue/"@ + issue@ + "?fields=status"@, None, reply)]
                self.sends("GET"@, "issue/"@ + issue@ + "?fields=status"@, None, reply) && match jira_outcome(reply) {
                    Err(e) => err_is(r, e),
                    Ok(b) => r matches Ok(st) && st.url@ == "https://"@ + self.host_view() + "/browse/"@ + issue@
                        && st.open == (json_str_at(b, "/fields/status/statusCategory/key"@) != Some("done"@)),
                },
    {
        let c = api_call("GET", cat3("issue/", issue, "?fields=status"), None);
        let o = self.call(&c);
        let ghost reply = choose|x: Result<HttpResponse, ForgeError>| self.sends(c.method@, c.path@, ostr(c.body), x) && bytes_result(o) == jira_outcome(x);
        let v = match o {
            Ok(b) => b,
            Err(e) => {
                return Err(e);
            },
        };
        let done = str_is(&json_str(v.as_slice(), "/fields/status/statusCategory/key"), "done");
        Ok(IssueState { open: !done, url: self.browse_url(issue) })
    }

    fn describe(&self) -> String {
        cat2("jira:", self.project.as_str())
    }
}

} // verus!
