//! Opt-in forge / tracker integration: the values exchanged with a code-review
//! host and an issue tracker, the two roles as traits, the HTTP seam the
//! adapters talk through, and the JSON reads their replies are made of.
use vstd::prelude::*;
use crate::adr::Status;
use crate::config::{ostr, ForgeConfig, Provider, TrackerProvider};
use crate::text::{append_all, append_str, chars_of, replace, replace_str, string_of, trim, trim_v};

pub mod github;
pub mod gitlab;
pub mod jira;
pub mod drift;
pub mod workflow;
pub mod hooks;

verus! {

// ---------------------------------------------------------------------------
// Values
// ---------------------------------------------------------------------------

/// A created or known tracker issue.
#[derive(Debug, Clone, PartialEq, Eq)]
pub struct IssueRef {
    /// Forge-native id.
    pub id: String,
    /// Browser URL.
    pub url: String,
    pub title: String,
}

/// A created or known pull/merge request.
#[derive(Debug, Clone, PartialEq, Eq)]
pub struct PrRef {
    pub id: String,
    pub url: String,
    /// Head branch the request was opened from.
    pub branch: String,
}

/// Whether a tracker issue is open, plus its URL.
#[derive(Debug, Clone, PartialEq, Eq)]
pub struct IssueState {
    pub open: bool,
    pub url: String,
}

/// Rollup of a pull request's CI checks.
#[derive(Debug, Clone, Copy, PartialEq, Eq, Structural)]
pub enum CiStatus {
    Success,
    Pending,
    Failure,
    /// No checks configured or reported.
    NoChecks,
}

/// A pull request's review / CI / merge snapshot.
#[derive(Debug, Clone, PartialEq, Eq)]
pub struct PrState {
    /// Count of approving reviews.
    pub approvals: u32,
    pub ci: CiStatus,
    pub merged: bool,
    pub draft: bool,
}

/// Target state for a tracker transition.
#[derive(Debug, Clone, Copy, PartialEq, Eq, Structural)]
pub enum Transition {
    Done,
    WontFix,
    Reopen,
}

/// The inputs for opening a draft pull request over a pushed branch.
#[derive(Debug, Clone)]
pub struct PrDraft {
    pub branch: String,
    pub base: String,
    pub title: String,
    pub body: String,
}

/// What went wrong talking to a forge.
#[derive(Debug, Clone, PartialEq, Eq)]
pub enum ForgeError {
    /// Network / connectivity failure.
    Offline(String),
    /// Authentication failed.
    Auth(String),
    /// The API returned an error status.
    Api { status: u16, message: String },
    /// A local git step failed.
    Git(String),
}

/// The abstract value of a [`ForgeError`].
pub enum ForgeErrorV {
    Offline(Seq<char>),
    Auth(Seq<char>),
    Api { status: u16, message: Seq<char> },
    Git(Seq<char>),
}

impl View for ForgeError {
    type V = ForgeErrorV;

    open spec fn view(&self) -> ForgeErrorV {
        match self {
            ForgeError::Offline(m) => ForgeErrorV::Offline(m@),
            ForgeError::Auth(m) => ForgeErrorV::Auth(m@),
            ForgeError::Api { status, message } => ForgeErrorV::Api { status: *status, message: message@ },
            ForgeError::Git(m) => ForgeErrorV::Git(m@),
        }
    }
}

/// `r` failed with the error `e`.
pub open spec fn err_is<X>(r: Result<X, ForgeError>, e: ForgeErrorV) -> bool {
    r matches Err(x) && x@ == e
}

/// A call that only reports whether it worked fits the outcome `o`.
pub open spec fn unit_fits(r: Result<(), ForgeError>, o: Result<Seq<u8>, ForgeErrorV>) -> bool {
    match o {
        Ok(_) => r is Ok,
        Err(e) => err_is(r, e),
    }
}

/// A created issue fits the outcome `o` of its request: the outcome's error,
/// else the id and URL read from the reply, else the error naming what the
/// reply lacks.
pub open spec fn issue_ref_fits(
    r: Result<IssueRef, ForgeError>,
    o: Result<Seq<u8>, ForgeErrorV>,
    id_key: Seq<char>,
    id_missing: Seq<char>,
    url_key: Seq<char>,
    who: Seq<char>,
    title: Seq<char>,
) -> bool {
    match o {
        Err(e) => err_is(r, e),
        Ok(b) => match id_url_spec(b, id_key, id_missing, url_key, who) {
            Err(e) => err_is(r, e),
            Ok(p) => r matches Ok(i) && i.id@ == p.0 && i.url@ == p.1 && i.title@ == title,
        },
    }
}

/// An opened pull request fits the outcome `o` of its request, as
/// [`issue_ref_fits`] reads it, carrying the head branch.
pub open spec fn pr_ref_fits(
    r: Result<PrRef, ForgeError>,
    o: Result<Seq<u8>, ForgeErrorV>,
    id_key: Seq<char>,
    id_missing: Seq<char>,
    url_key: Seq<char>,
    who: Seq<char>,
    branch: Seq<char>,
) -> bool {
    match o {
        Err(e) => err_is(r, e),
        Ok(b) => match id_url_spec(b, id_key, id_missing, url_key, who) {
            Err(e) => err_is(r, e),
            Ok(p) => r matches Ok(x) && x.id@ == p.0 && x.url@ == p.1 && x.branch@ == branch,
        },
    }
}

/// What a forge error says.
pub open spec fn forge_message(e: ForgeError) -> Seq<char> {
    match e {
        ForgeError::Offline(m) => "forge unreachable: "@ + m@,
        ForgeError::Auth(m) => "forge auth failed (check your *_TOKEN env var): "@ + m@,
        ForgeError::Api { status, message } => "forge API error "@ + crate::text::dec(status as nat) + ": "@ + message@,
        ForgeError::Git(m) => m@,
    }
}

impl ForgeError {
    /// True for transient connectivity failures.
    pub fn is_offline(&self) -> (r: bool)
        ensures
            r == (*self is Offline),
    {
        match self {
            ForgeError::Offline(_) => true,
            _ => false,
        }
    }

    pub fn message(&self) -> (s: String)
        ensures
            s@ == forge_message(*self),
            self matches ForgeError::Offline(m) ==> s@ == "forge unreachable: "@ + m@,
            self matches ForgeError::Auth(m) ==> s@ == "forge auth failed (check your *_TOKEN env var): "@ + m@,
            self matches ForgeError::Api { status, message } ==> s@ == "forge API error "@ + crate::text::dec(status as nat) + ": "@ + message@,
            self matches ForgeError::Git(m) ==> s@ == m@,
    {
        match self {
            ForgeError::Offline(m) => {
                let mut v = chars_of("forge unreachable: ");
                append_str(&mut v, m.as_str());
                string_of(&v)
            },
            ForgeError::Auth(m) => {
                let mut v = chars_of("forge auth failed (check your *_TOKEN env var): ");
                append_str(&mut v, m.as_str());
                string_of(&v)
            },
            ForgeError::Api { status, message } => {
                let mut v = chars_of("forge API error ");
                append_all(&mut v, &crate::text::dec_v(*status as u64));
                append_str(&mut v, ": ");
                append_str(&mut v, message.as_str());
                string_of(&v)
            },
            ForgeError::Git(m) => string_of(&chars_of(m.as_str())),
        }
    }
}

// ---------------------------------------------------------------------------
// Roles and the HTTP seam
// ---------------------------------------------------------------------------

/// The code-review host (pull/merge requests).
pub trait Forge {
    /// Whether `r` is a snapshot this forge may report for pull request
    /// `pr`. What a forge reports rests on the forge, so by default any
    /// result may come; an implementation that knows more says so.
    open spec fn reports(&self, pr: Seq<char>, r: Result<PrState, ForgeError>) -> bool {
        true
    }

    /// Whether `r` is what this forge may answer to merging pull request
    /// `pr` (by default, anything).
    open spec fn merges(&self, pr: Seq<char>, r: Result<(), ForgeError>) -> bool {
        true
    }

    /// Whether `r` is what this forge may answer to closing pull request
    /// `pr` (by default, anything).
    open spec fn closes(&self, pr: Seq<char>, r: Result<(), ForgeError>) -> bool {
        true
    }

    /// Open a draft pull request for a pushed branch.
    fn open_pr(&self, draft: &PrDraft) -> Result<PrRef, ForgeError>;
    /// Current review / CI / merge snapshot.
    fn pr_state(&self, pr: &str) -> (r: Result<PrState, ForgeError>)
        ensures
            self.reports(pr@, r),
    ;
    /// Merge a pull request.
    fn merge_pr(&self, pr: &str) -> (r: Result<(), ForgeError>)
        ensures
            self.merges(pr@, r),
    ;
    /// Close a pull request without merging.
    fn close_pr(&self, pr: &str) -> (r: Result<(), ForgeError>)
        ensures
            self.closes(pr@, r),
    ;
    /// Comment on a pull request.
    fn comment_pr(&self, pr: &str, body: &str) -> Result<(), ForgeError>;
    /// Replace a pull request's description.
    fn set_pr_body(&self, pr: &str, body: &str) -> Result<(), ForgeError>;
    /// Short label for diagnostics.
    fn describe(&self) -> String;
}

/// The issue tracker.
pub trait Tracker {
    /// Whether `r` is what this tracker may answer to moving `issue` to `to`
    /// (by default, anything).
    open spec fn moves(&self, issue: Seq<char>, to: Transition, r: Result<(), ForgeError>) -> bool {
        true
    }

    /// Whether `r` is what this tracker may answer to closing `issue` (by
    /// default, anything).
    open spec fn closes_issue(&self, issue: Seq<char>, r: Result<(), ForgeError>) -> bool {
        true
    }

    fn create_issue(&self, title: &str, body: &str) -> Result<IssueRef, ForgeError>;
    fn transition(&self, issue: &str, to: Transition) -> (r: Result<(), ForgeError>)
        ensures
            self.moves(issue@, to, r),
    ;
    fn close_issue(&self, issue: &str) -> (r: Result<(), ForgeError>)
        ensures
            self.closes_issue(issue@, r),
    ;
    fn comment_issue(&self, issue: &str, body: &str) -> Result<(), ForgeError>;
    fn issue_state(&self, issue: &str) -> Result<IssueState, ForgeError>;
    fn describe(&self) -> String;
}

/// A minimal blocking HTTP response.
#[derive(Debug, Clone)]
pub struct HttpResponse {
    pub status: u16,
    pub body: Vec<u8>,
}

/// Blocking HTTP, abstracted so adapters run over any transport. A non-2xx
/// status comes back as a response; only a connection failure is an error.
pub trait HttpTransport {
    /// Whether `r` is a reply this transport may give to a request of the
    /// given method, URL, headers and body. What a server answers rests on
    /// the server, so by default any reply may come; an implementation that
    /// knows more says so.
    open spec fn replies(
        &self,
        method: Seq<char>,
        url: Seq<char>,
        headers: Seq<(Seq<char>, Seq<char>)>,
        body: Option<Seq<u8>>,
        r: Result<HttpResponse, ForgeError>,
    ) -> bool {
        true
    }

    fn request(
        &self,
        method: &str,
        url: &str,
        headers: &[(&str, &str)],
        body: Option<&[u8]>,
    ) -> (r: Result<HttpResponse, ForgeError>)
        ensures
            self.replies(method@, url@, headers_view(headers@), bytes_opt(body), r),
    ;
}

/// The headers of a request, as text.
pub open spec fn headers_view(h: Seq<(&str, &str)>) -> Seq<(Seq<char>, Seq<char>)> {
    h.map_values(|p: (&str, &str)| (p.0@, p.1@))
}

/// The bytes of an optional request body.
pub open spec fn bytes_opt(b: Option<&[u8]>) -> Option<Seq<u8>> {
    match b {
        Some(x) => Some(x@),
        None => None,
    }
}

/// The UTF-8 bytes of an optional text body.
pub open spec fn utf8_opt(b: Option<Seq<char>>) -> Option<Seq<u8>> {
    match b {
        Some(s) => Some(vstd::utf8::encode_utf8(s)),
        None => None,
    }
}

/// The body of a successful call, or its error.
pub open spec fn bytes_result(r: Result<Vec<u8>, ForgeError>) -> Result<Seq<u8>, ForgeErrorV> {
    match r {
        Ok(b) => Ok(b@),
        Err(e) => Err(e@),
    }
}

/// How a reply of status `status` and body `body` is classified: 2xx gives
/// the body (an error when it is not JSON), 401/403 an auth error carrying
/// `msg`, anything else an API error carrying `msg`.
pub open spec fn outcome_spec(status: u16, body: Seq<u8>, who: Seq<char>, msg: Seq<char>) -> Result<Seq<u8>, ForgeErrorV> {
    if 200 <= status <= 299 {
        if body.len() == 0 {
            Ok(body)
        } else {
            match json_error_of(body) {
                None => Ok(body),
                Some(e) => Err(ForgeErrorV::Api { status, message: "invalid JSON from "@ + who + ": "@ + e }),
            }
        }
    } else if status == 401 || status == 403 {
        Err(ForgeErrorV::Auth(msg))
    } else {
        Err(ForgeErrorV::Api { status, message: msg })
    }
}

/// What a call makes of the transport's reply: a connection failure as it
/// came, else the reply classified by [`outcome_spec`] with the error message
/// read at the first of `pointers` that holds one.
pub open spec fn reply_outcome(reply: Result<HttpResponse, ForgeError>, who: Seq<char>, pointers: Seq<Seq<char>>) -> Result<Seq<u8>, ForgeErrorV> {
    match reply {
        Err(e) => Err(e@),
        Ok(resp) => outcome_spec(resp.status, resp.body@, who, message_from(resp.body@, pointers)),
    }
}

// ---------------------------------------------------------------------------
// JSON reads
// ---------------------------------------------------------------------------

/// What `serde_json` finds as a string at a JSON pointer in a body.
pub uninterp spec fn json_str_at(body: Seq<u8>, pointer: Seq<char>) -> Option<Seq<char>>;

/// What `serde_json` finds as an unsigned integer at a JSON pointer.
pub uninterp spec fn json_u64_at(body: Seq<u8>, pointer: Seq<char>) -> Option<u64>;

/// What `serde_json` finds as a boolean at a JSON pointer.
pub uninterp spec fn json_bool_at(body: Seq<u8>, pointer: Seq<char>) -> Option<bool>;

/// The length of the array `serde_json` finds at a JSON pointer.
pub uninterp spec fn json_len_at(body: Seq<u8>, pointer: Seq<char>) -> Option<usize>;

/// The message of `serde_json`'s error on a body that is not JSON; `None`
/// for a body that is.
pub uninterp spec fn json_error_of(body: Seq<u8>) -> Option<Seq<char>>;

/// `String::from_utf8_lossy` of a body.
pub uninterp spec fn utf8_lossy(body: Seq<u8>) -> Seq<char>;

/// The JSON string literal `serde_json` writes for a string.
pub uninterp spec fn json_quote_of(s: Seq<char>) -> Seq<char>;

/// `serde_json::from_slice` then `Value::pointer` and `as_str`: the string at
/// a JSON pointer in a body, named by [`json_str_at`].
#[verifier::external_body]
pub(crate) fn json_str(body: &[u8], pointer: &str) -> (r: Option<String>)
    ensures
        ostr(r) == json_str_at(body@, pointer@),
{
    match serde_json::from_slice::<serde_json::Value>(body) {
        Ok(v) => match v.pointer(pointer) {
            Some(x) => x.as_str().map(String::from),
            None => None,
        },
        Err(_) => None,
    }
}

/// `serde_json::from_slice` then `Value::pointer` and `as_u64`, named by
/// [`json_u64_at`].
#[verifier::external_body]
pub(crate) fn json_u64(body: &[u8], pointer: &str) -> (r: Option<u64>)
    ensures
        r == json_u64_at(body@, pointer@),
{
    match serde_json::from_slice::<serde_json::Value>(body) {
        Ok(v) => match v.pointer(pointer) {
            Some(x) => x.as_u64(),
            None => None,
        },
        Err(_) => None,
    }
}

/// `serde_json::from_slice` then `Value::pointer` and `as_bool`, named by
/// [`json_bool_at`].
#[verifier::external_body]
pub(crate) fn json_bool(body: &[u8], pointer: &str) -> (r: Option<bool>)
    ensures
        r == json_bool_at(body@, pointer@),
{
    match serde_json::from_slice::<serde_json::Value>(body) {
        Ok(v) => match v.pointer(pointer) {
            Some(x) => x.as_bool(),
            None => None,
        },
        Err(_) => None,
    }
}

/// `serde_json::from_slice` then `Value::pointer` and `as_array`'s length,
/// named by [`json_len_at`].
#[verifier::external_body]
pub(crate) fn json_len(body: &[u8], pointer: &str) -> (r: Option<usize>)
    ensures
        r == json_len_at(body@, pointer@),
{
    match serde_json::from_slice::<serde_json::Value>(body) {
        Ok(v) => match v.pointer(pointer) {
            Some(x) => x.as_array().map(Vec::len),
            None => None,
        },
        Err(_) => None,
    }
}

/// `serde_json::from_slice`'s error message for a body, named by
/// [`json_error_of`].
#[verifier::external_body]
pub(crate) fn json_error(body: &[u8]) -> (r: Option<String>)
    ensures
        ostr(r) == json_error_of(body@),
{
    match serde_json::from_slice::<serde_json::Value>(body) {
        Ok(_) => None,
        Err(e) => Some(e.to_string()),
    }
}

/// `String::from_utf8_lossy`, named by [`utf8_lossy`].
#[verifier::external_body]
pub(crate) fn lossy(body: &[u8]) -> (r: String)
    ensures
        r@ == utf8_lossy(body@),
{
    String::from_utf8_lossy(body).into_owned()
}

/// `serde_json::to_string` of a string: its JSON literal, named by
/// [`json_quote_of`].
#[verifier::external_body]
pub(crate) fn json_quote(s: &str) -> (r: String)
    ensures
        r@ == json_quote_of(s@),
{
    match serde_json::to_string(s) {
        Ok(q) => q,
        Err(_) => String::new(),
    }
}

/// One `"key":value` member, the value already in JSON.
pub open spec fn json_member(m: (Seq<char>, Seq<char>)) -> Seq<char> {
    json_quote_of(m.0) + ":"@ + m.1
}

/// A JSON object of members whose values are already JSON, in the given
/// order (callers pass them sorted by key, as `serde_json` writes a map).
pub open spec fn json_object(members: Seq<(Seq<char>, Seq<char>)>) -> Seq<char> {
    "{"@ + crate::text::join(members.map_values(|m: (Seq<char>, Seq<char>)| json_member(m)), ","@) + "}"@
}

pub open spec fn members_view(v: Seq<(&str, String)>) -> Seq<(Seq<char>, Seq<char>)> {
    v.map_values(|p: (&str, String)| (p.0@, p.1@))
}

/// Serialize members (values already JSON) into a JSON object.
pub fn json_object_str(members: &Vec<(&str, String)>) -> (r: String)
    ensures
        r@ == json_object(members_view(members@)),
{
    let ghost mv = members_view(members@).map_values(|m: (Seq<char>, Seq<char>)| json_member(m));
    let mut items: Vec<Vec<char>> = Vec::new();
    let mut i: usize = 0;
    while i < members.len()
        invariant
            i <= members.len(),
            mv == members_view(members@).map_values(|m: (Seq<char>, Seq<char>)| json_member(m)),
            crate::text::views(items@) == mv.take(i as int),
        decreases members.len() - i,
    {
        let mut item = chars_of(json_quote(members[i].0).as_str());
        append_str(&mut item, ":");
        append_str(&mut item, members[i].1.as_str());
        let ghost before = items@;
        items.push(item);
        proof {
            assert(crate::text::views(items@) =~= crate::text::views(before).push(item@));
            assert(mv.take(i + 1) =~= mv.take(i as int).push(mv[i as int]));
        }
        i = i + 1;
    }
    assert(mv.take(members.len() as int) =~= mv);
    let mut out = chars_of("{");
    append_all(&mut out, &crate::text::join_str(&items, ","));
    append_str(&mut out, "}");
    string_of(&out)
}

/// `a` then `b`.
pub fn cat2(a: &str, b: &str) -> (r: String)
    ensures
        r@ == a@ + b@,
{
    let mut v = chars_of(a);
    append_str(&mut v, b);
    string_of(&v)
}

/// `a`, `b`, `c` in turn.
pub fn cat3(a: &str, b: &str, c: &str) -> (r: String)
    ensures
        r@ == a@ + b@ + c@,
{
    let mut v = chars_of(a);
    append_str(&mut v, b);
    append_str(&mut v, c);
    string_of(&v)
}

/// `a` to `e` in turn.
pub fn cat5(a: &str, b: &str, c: &str, d: &str, e: &str) -> (r: String)
    ensures
        r@ == a@ + b@ + c@ + d@ + e@,
{
    let mut v = chars_of(a);
    append_str(&mut v, b);
    append_str(&mut v, c);
    append_str(&mut v, d);
    append_str(&mut v, e);
    string_of(&v)
}

/// Whether an optional string is exactly `lit`.
pub fn str_is(o: &Option<String>, lit: &str) -> (r: bool)
    ensures
        r == (ostr(*o) == Some(lit@)),
{
    match o {
        Some(s) => crate::text::eq_chars(&chars_of(s.as_str()), &chars_of(lit)),
        None => false,
    }
}

/// The JSON pointer to `field` of element `i` of the array at `base`.
pub open spec fn elem_ptr(base: Seq<char>, i: int, field: Seq<char>) -> Seq<char> {
    base + "/"@ + crate::text::dec(i as nat) + "/"@ + field
}

pub fn elem_ptr_v(base: &str, i: usize, field: &str) -> (r: String)
    ensures
        r@ == elem_ptr(base@, i as int, field@),
{
    let mut v = chars_of(base);
    append_str(&mut v, "/");
    append_all(&mut v, &crate::text::dec_v(i as u64));
    append_str(&mut v, "/");
    append_str(&mut v, field);
    string_of(&v)
}

/// One REST call: method, path below the API root, and JSON body.
#[derive(Debug, Clone)]
pub struct ApiCall {
    pub method: String,
    pub path: String,
    pub body: Option<String>,
}

/// A call has the given method, path and body.
pub open spec fn call_is(c: ApiCall, method: Seq<char>, path: Seq<char>, body: Option<Seq<char>>) -> bool {
    c.method@ == method && c.path@ == path && ostr(c.body) == body
}

pub fn api_call(method: &str, path: String, body: Option<String>) -> (c: ApiCall)
    ensures
        call_is(c, method@, path@, ostr(body)),
{
    ApiCall { method: string_of(&chars_of(method)), path, body }
}

/// The id (a number, as decimal) and the browser URL of a created issue or
/// pull request, else an API error naming the first missing field.
/// A required string field of a reply, else an API error naming it.
pub open spec fn want_spec(body: Seq<u8>, key: Seq<char>, who: Seq<char>) -> Result<Seq<char>, ForgeErrorV> {
    match json_str_at(body, "/"@ + key) {
        Some(s) => Ok(s),
        None => Err(ForgeErrorV::Api { status: 0, message: who + " response missing `"@ + key + "`"@ }),
    }
}

/// The id (as decimal) and browser URL of a reply, else an API error naming
/// the first missing field.
pub open spec fn id_url_spec(body: Seq<u8>, id_key: Seq<char>, id_missing: Seq<char>, url_key: Seq<char>, who: Seq<char>) -> Result<(Seq<char>, Seq<char>), ForgeErrorV> {
    match json_u64_at(body, "/"@ + id_key) {
        None => Err(ForgeErrorV::Api { status: 0, message: id_missing }),
        Some(n) => match want_spec(body, url_key, who) {
            Err(e) => Err(e),
            Ok(u) => Ok((crate::text::dec(n as nat), u)),
        },
    }
}

pub fn id_and_url(body: &[u8], id_key: &str, id_missing: &str, url_key: &str, who: &str) -> (r: Result<(String, String), ForgeError>)
    ensures
        match r {
            Ok(p) => id_url_spec(body@, id_key@, id_missing@, url_key@, who@) == Ok::<(Seq<char>, Seq<char>), ForgeErrorV>((p.0@, p.1@)),
            Err(e) => id_url_spec(body@, id_key@, id_missing@, url_key@, who@) == Err::<(Seq<char>, Seq<char>), ForgeErrorV>(e@),
        },
        match json_u64_at(body@, "/"@ + id_key@) {
            None => (r matches Err(ForgeError::Api { status, message }) && status == 0 && message@ == id_missing@),
            Some(n) => match json_str_at(body@, "/"@ + url_key@) {
                None => (r matches Err(ForgeError::Api { status, message }) && status == 0
                    && message@ == who@ + " response missing `"@ + url_key@ + "`"@),
                Some(u) => (r matches Ok(p) && p.0@ == crate::text::dec(n as nat) && p.1@ == u),
            },
        },
{
    let id = want_num(body, id_key, id_missing)?;
    let url = want_str(body, url_key, who)?;
    Ok((id, url))
}

// ---------------------------------------------------------------------------
// Responses
// ---------------------------------------------------------------------------

/// The first present string among a body's JSON pointers, else the body's
/// text, trimmed.
pub open spec fn message_from(body: Seq<u8>, pointers: Seq<Seq<char>>) -> Seq<char>
    decreases pointers.len(),
{
    if pointers.len() == 0 {
        trim(utf8_lossy(body))
    } else {
        match json_str_at(body, pointers[0]) {
            Some(m) => m,
            None => message_from(body, pointers.drop_first()),
        }
    }
}

/// The error message of a response body: the first of the JSON pointers
/// that holds a string, else the body's text, trimmed.
pub fn message_of(body: &[u8], pointers: &[&str]) -> (r: String)
    ensures
        r@ == message_from(body@, pointers@.map_values(|p: &str| p@)),
{
    let ghost pv = pointers@.map_values(|p: &str| p@);
    let mut k: usize = 0;
    assert(pv.skip(0) =~= pv);
    while k < pointers.len()
        invariant
            k <= pointers.len(),
            pv == pointers@.map_values(|p: &str| p@),
            message_from(body@, pv.skip(k as int)) == message_from(body@, pv),
        decreases pointers.len() - k,
    {
        assert(pv.skip(k as int).drop_first() =~= pv.skip(k + 1));
        assert(pv.skip(k as int)[0] == pointers@[k as int]@);
        if let Some(m) = json_str(body, pointers[k]) {
            return m;
        }
        k = k + 1;
    }
    assert(pv.skip(k as int) =~= Seq::<Seq<char>>::empty());
    string_of(&trim_v(&chars_of(lossy(body).as_str())))
}

/// What a response comes to: a 2xx body (empty, or JSON), an auth error for
/// 401/403, an API error otherwise; `msg` is the body's error message and
/// `who` names the service in the invalid-JSON message.
pub fn response_outcome(resp: HttpResponse, who: &str, msg: String) -> (r: Result<Vec<u8>, ForgeError>)
    ensures
        200 <= resp.status <= 299 && resp.body@.len() == 0 ==> (r matches Ok(b) && b@ == resp.body@),
        200 <= resp.status <= 299 && resp.body@.len() > 0 && json_error_of(resp.body@) is None
            ==> (r matches Ok(b) && b@ == resp.body@),
        200 <= resp.status <= 299 && resp.body@.len() > 0 && json_error_of(resp.body@) is Some ==> (r matches Err(
            ForgeError::Api { status, message },
        ) && status == resp.status && message@ == "invalid JSON from "@ + who@ + ": "@ + json_error_of(resp.body@)->0),
        (resp.status == 401 || resp.status == 403) ==> (r matches Err(ForgeError::Auth(m)) && m@ == msg@),
        !(200 <= resp.status <= 299 || resp.status == 401 || resp.status == 403) ==> (r matches Err(
            ForgeError::Api { status, message },
        ) && status == resp.status && message@ == msg@),
        bytes_result(r) == outcome_spec(resp.status, resp.body@, who@, msg@),
{
    if 200 <= resp.status && resp.status <= 299 {
        if resp.body.len() == 0 {
            return Ok(resp.body);
        }
        match json_error(resp.body.as_slice()) {
            None => Ok(resp.body),
            Some(e) => {
                let mut m = chars_of("invalid JSON from ");
                append_str(&mut m, who);
                append_str(&mut m, ": ");
                append_str(&mut m, e.as_str());
                Err(ForgeError::Api { status: resp.status, message: string_of(&m) })
            },
        }
    } else if resp.status == 401 || resp.status == 403 {
        Err(ForgeError::Auth(msg))
    } else {
        Err(ForgeError::Api { status: resp.status, message: msg })
    }
}

/// A required string field of a reply, else an API error naming it.
pub fn want_str(body: &[u8], key: &str, who: &str) -> (r: Result<String, ForgeError>)
    ensures
        match r {
            Ok(x) => want_spec(body@, key@, who@) == Ok::<Seq<char>, ForgeErrorV>(x@),
            Err(e) => want_spec(body@, key@, who@) == Err::<Seq<char>, ForgeErrorV>(e@),
        },
        match json_str_at(body@, "/"@ + key@) {
            Some(s) => (r matches Ok(x) && x@ == s),
            None => (r matches Err(ForgeError::Api { status, message }) && status == 0
                && message@ == who@ + " response missing `"@ + key@ + "`"@),
        },
{
    let mut ptr = chars_of("/");
    append_str(&mut ptr, key);
    match json_str(body, string_of(&ptr).as_str()) {
        Some(s) => Ok(s),
        None => {
            let mut m = chars_of(who);
            append_str(&mut m, " response missing `");
            append_str(&mut m, key);
            append_str(&mut m, "`");
            Err(ForgeError::Api { status: 0, message: string_of(&m) })
        },
    }
}

/// A required numeric field of a reply, as its decimal string, else an API
/// error naming it.
pub fn want_num(body: &[u8], key: &str, missing: &str) -> (r: Result<String, ForgeError>)
    ensures
        match json_u64_at(body@, "/"@ + key@) {
            Some(n) => (r matches Ok(x) && x@ == crate::text::dec(n as nat)),
            None => (r matches Err(ForgeError::Api { status, message }) && status == 0 && message@ == missing@),
        },
{
    let mut ptr = chars_of("/");
    append_str(&mut ptr, key);
    match json_u64(body, string_of(&ptr).as_str()) {
        Some(n) => Ok(string_of(&crate::text::dec_v(n))),
        None => Err(ForgeError::Api { status: 0, message: string_of(&chars_of(missing)) }),
    }
}

/// `path` without its leading `/`s, after `https://<host><infix>`.
pub open spec fn api_url(host: Seq<char>, infix: Seq<char>, path: Seq<char>) -> Seq<char> {
    "https://"@ + host + infix + crate::text::trim_start_char(path, '/')
}

pub fn api_url_v(host: &str, infix: &str, path: &str) -> (r: String)
    ensures
        r@ == api_url(host@, infix@, path@),
{
    let mut u = chars_of("https://");
    append_str(&mut u, host);
    append_str(&mut u, infix);
    append_all(&mut u, &crate::text::trim_start_char_v(&chars_of(path), '/'));
    string_of(&u)
}

// ---------------------------------------------------------------------------
// Templates and the provider choice
// ---------------------------------------------------------------------------

/// A forge template with `{{title}}`, `{{file}}` and `{{issue}}` filled in.
pub open spec fn forge_template_spec(tmpl: Seq<char>, title: Seq<char>, file: Seq<char>, issue: Seq<char>) -> Seq<char> {
    replace(replace(replace(tmpl, "{{title}}"@, title), "{{file}}"@, file), "{{issue}}"@, issue)
}

/// Substitute `{{title}}` / `{{file}}` / `{{issue}}` in a forge template.
pub fn render_forge_template(tmpl: &str, title: &str, file: &str, issue: &str) -> (r: String)
    ensures
        r@ == forge_template_spec(tmpl@, title@, file@, issue@),
{
    proof {
        reveal_strlit("{{title}}");
        reveal_strlit("{{file}}");
        reveal_strlit("{{issue}}");
    }
    let a = replace_str(&chars_of(tmpl), "{{title}}", &chars_of(title));
    let b = replace_str(&a, "{{file}}", &chars_of(file));
    string_of(&replace_str(&b, "{{issue}}", &chars_of(issue)))
}

/// The code-review host to connect to: provider, API host, repository slug
/// and token.
#[derive(Debug, Clone, PartialEq, Eq)]
pub struct ForgeTarget {
    pub provider: Provider,
    pub host: Option<String>,
    pub repo: String,
    pub token: String,
}

/// Two targets name the same provider, host, repository and token.
pub open spec fn same_target(a: ForgeTarget, b: ForgeTarget) -> bool {
    a.provider == b.provider && ostr(a.host) == ostr(b.host) && a.repo@ == b.repo@ && a.token@ == b.token@
}

impl ForgeTarget {
    /// A field-by-field copy.
    pub fn copy(&self) -> (r: ForgeTarget)
        ensures
            same_target(r, *self),
    {
        ForgeTarget {
            provider: self.provider,
            host: match &self.host {
                Some(h) => Some(string_of(&chars_of(h.as_str()))),
                None => None,
            },
            repo: string_of(&chars_of(self.repo.as_str())),
            token: string_of(&chars_of(self.token.as_str())),
        }
    }
}

/// The issue tracker to connect to: the forge's own, or a Jira project
/// (whose credentials the caller supplies).
#[derive(Debug, Clone, PartialEq, Eq)]
pub enum TrackerTarget {
    Native(ForgeTarget),
    Jira { host: String, project: String },
}

/// The adapters the configuration selects: the forge when a provider is set
/// and both token and repository are; the tracker the forge's own unless a
/// Jira project is configured.
pub fn open(cfg: &ForgeConfig) -> (r: (Option<ForgeTarget>, Option<TrackerTarget>))
    ensures
        (r.0 is Some) <==> (cfg.provider != Provider::Off && cfg.token is Some && cfg.repo is Some),
        r.0 matches Some(t) ==> (t.provider == cfg.provider && ostr(t.host) == ostr(cfg.host)
            && t.repo@ == cfg.repo->0@ && t.token@ == cfg.token->0@),
        cfg.tracker == TrackerProvider::Jira ==> ((r.1 is Some) <==> (cfg.tracker_host is Some && cfg.tracker_project is Some)),
        cfg.tracker == TrackerProvider::Jira && r.1 is Some ==> (r.1 matches Some(TrackerTarget::Jira { host, project })
            && host@ == cfg.tracker_host->0@ && project@ == cfg.tracker_project->0@),
        cfg.tracker != TrackerProvider::Jira ==> ((r.1 is Some) <==> (r.0 is Some)),
        cfg.tracker != TrackerProvider::Jira && r.0 is Some ==> (r.1 matches Some(TrackerTarget::Native(t))
            && same_target(t, r.0->0)),
{
    let forge = match cfg.provider {
        Provider::Off => None,
        _ => match (&cfg.token, &cfg.repo) {
            (Some(token), Some(repo)) => Some(
                ForgeTarget {
                    provider: cfg.provider,
                    host: match &cfg.host {
                        Some(h) => Some(string_of(&chars_of(h.as_str()))),
                        None => None,
                    },
                    repo: string_of(&chars_of(repo.as_str())),
                    token: string_of(&chars_of(token.as_str())),
                },
            ),
            _ => None,
        },
    };
    let tracker = match cfg.tracker {
        TrackerProvider::Jira => match (&cfg.tracker_host, &cfg.tracker_project) {
            (Some(h), Some(p)) => Some(
                TrackerTarget::Jira { host: string_of(&chars_of(h.as_str())), project: string_of(&chars_of(p.as_str())) },
            ),
            _ => None,
        },
        _ => match &forge {
            Some(t) => Some(TrackerTarget::Native(t.copy())),
            None => None,
        },
    };
    (forge, tracker)
}


// ---------------------------------------------------------------------------
// Status changes on the forge
// ---------------------------------------------------------------------------

/// The linked issue and pull request of an ADR, each as `(number, url)`.
#[derive(Debug, Clone, PartialEq, Eq)]
pub struct ForgeRefs {
    pub issue: Option<(String, String)>,
    pub pr: Option<(String, String)>,
}

pub open spec fn pair_view(p: Option<(String, String)>) -> Option<(Seq<char>, Seq<char>)> {
    match p {
        Some(x) => Some((x.0@, x.1@)),
        None => None,
    }
}

/// The URL of the first reference whose label is `label`, ignoring case.
pub open spec fn labelled(refs: Seq<(Seq<char>, Seq<char>)>, label: Seq<char>) -> Option<Seq<char>>
    decreases refs.len(),
{
    if refs.len() == 0 {
        None
    } else if crate::text::eq_ignore_ascii_case(refs[0].0, label) {
        Some(refs[0].1)
    } else {
        labelled(refs.drop_first(), label)
    }
}

/// A reference URL with its number, the URL's last path segment.
pub open spec fn numbered(url: Option<Seq<char>>) -> Option<(Seq<char>, Seq<char>)> {
    match url {
        Some(u) => Some((crate::text::after_last(u, seq!['/']), u)),
        None => None,
    }
}

fn labelled_v(refs: &Vec<(String, String)>, label: &str) -> (r: Option<String>)
    ensures
        ostr(r) == labelled(crate::format::pair_views(refs@), label@),
{
    let ghost pv = crate::format::pair_views(refs@);
    let mut k: usize = 0;
    assert(pv.skip(0) =~= pv);
    while k < refs.len()
        invariant
            k <= refs.len(),
            pv == crate::format::pair_views(refs@),
            labelled(pv.skip(k as int), label@) == labelled(pv, label@),
        decreases refs.len() - k,
    {
        assert(pv.skip(k as int).drop_first() =~= pv.skip(k + 1));
        assert(pv.skip(k as int)[0] == (refs@[k as int].0@, refs@[k as int].1@));
        if crate::text::eq_ignore_case_chars(&chars_of(refs[k].0.as_str()), &chars_of(label)) {
            return Some(string_of(&chars_of(refs[k].1.as_str())));
        }
        k = k + 1;
    }
    assert(pv.skip(k as int) =~= Seq::<(Seq<char>, Seq<char>)>::empty());
    None
}

fn numbered_v(url: Option<String>) -> (r: Option<(String, String)>)
    ensures
        pair_view(r) == numbered(ostr(url)),
{
    proof {
        reveal_strlit("/");
    }
    assert("/"@ =~= seq!['/']);
    match url {
        Some(u) => {
            let n = crate::text::after_last_str(&chars_of(u.as_str()), "/");
            Some((string_of(&n), u))
        },
        None => None,
    }
}

/// The issue and pull request an ADR's `## References` name (labels `Issue`
/// and `Pull Request`, ignoring case); each number is its URL's last path
/// segment.
pub fn forge_refs(references: &Vec<(String, String)>) -> (r: ForgeRefs)
    ensures
        pair_view(r.issue) == numbered(labelled(crate::format::pair_views(references@), "Issue"@)),
        pair_view(r.pr) == numbered(labelled(crate::format::pair_views(references@), "Pull Request"@)),
{
    ForgeRefs { issue: numbered_v(labelled_v(references, "Issue")), pr: numbered_v(labelled_v(references, "Pull Request")) }
}

/// A pull request may be accepted: enough approvals, and CI green or absent.
pub open spec fn gate_open(st: PrState, quorum: u32) -> bool {
    st.approvals >= quorum && (st.ci == CiStatus::Success || st.ci == CiStatus::NoChecks)
}

pub fn accept_gate(st: &PrState, quorum: u32) -> (r: bool)
    ensures
        r == gate_open(*st, quorum),
{
    st.approvals >= quorum && (st.ci == CiStatus::Success || st.ci == CiStatus::NoChecks)
}

/// How a CI rollup is printed (`None` for no checks).
pub open spec fn ci_label(ci: CiStatus) -> Seq<char> {
    match ci {
        CiStatus::Success => "Success"@,
        CiStatus::Pending => "Pending"@,
        CiStatus::Failure => "Failure"@,
        CiStatus::NoChecks => "None"@,
    }
}

pub fn ci_label_v(ci: CiStatus) -> (r: &'static str)
    ensures
        r@ == ci_label(ci),
{
    match ci {
        CiStatus::Success => "Success",
        CiStatus::Pending => "Pending",
        CiStatus::Failure => "Failure",
        CiStatus::NoChecks => "None",
    }
}

/// Why a forge status change stopped.
#[derive(Debug, Clone, PartialEq, Eq)]
pub enum StatusChangeError {
    /// The forge refused or failed (not a connectivity failure).
    Forge(ForgeError),
    /// The pull request lacks approvals or green CI.
    Refused { pr_url: String, approvals: u32, quorum: u32, ci: CiStatus },
}

impl StatusChangeError {
    pub fn message(&self) -> (s: String)
        ensures
            self matches StatusChangeError::Refused { pr_url, approvals, quorum, ci } ==> s@ == "refusing to accept: PR "@
                + pr_url@ + " has "@ + crate::text::dec(approvals as nat) + "/"@ + crate::text::dec(quorum as nat)
                + " approvals, CI "@ + ci_label(*ci),
            self matches StatusChangeError::Forge(e) ==> s@ == forge_message(*e),
    {
        match self {
            StatusChangeError::Forge(e) => e.message(),
            StatusChangeError::Refused { pr_url, approvals, quorum, ci } => {
                let mut v = chars_of("refusing to accept: PR ");
                append_str(&mut v, pr_url.as_str());
                append_str(&mut v, " has ");
                append_all(&mut v, &crate::text::dec_v(*approvals as u64));
                append_str(&mut v, "/");
                append_all(&mut v, &crate::text::dec_v(*quorum as u64));
                append_str(&mut v, " approvals, CI ");
                append_str(&mut v, ci_label_v(*ci));
                string_of(&v)
            },
        }
    }
}

/// The abstract value of a [`StatusChangeError`].
pub enum ChangeErrV {
    Forge(ForgeErrorV),
    Refused { pr_url: Seq<char>, approvals: u32, quorum: u32, ci: CiStatus },
}

/// Whether a status change goes ahead, or why not, by value.
pub open spec fn proceed_view(p: Result<bool, StatusChangeError>) -> Result<bool, ChangeErrV> {
    match p {
        Ok(b) => Ok(b),
        Err(StatusChangeError::Forge(e)) => Err(ChangeErrV::Forge(e@)),
        Err(StatusChangeError::Refused { pr_url, approvals, quorum, ci }) => Err(
            ChangeErrV::Refused { pr_url: pr_url@, approvals, quorum, ci },
        ),
    }
}

/// What a forge failure makes of an applied status change: a connectivity
/// failure degrades to the local change alone, any other failure stops it.
pub open spec fn failed(e: ForgeError) -> Result<bool, ChangeErrV> {
    if e is Offline {
        Ok(true)
    } else {
        Err(ChangeErrV::Forge(e@))
    }
}

/// What accepting does with a pull request in a given state.
#[derive(Debug, Clone, Copy, PartialEq, Eq, Structural)]
pub enum AcceptStep {
    /// Already merged: nothing to merge.
    AlreadyMerged,
    /// Approved and green: merge it.
    Merge,
    /// Short of the quorum or not green: refuse.
    Refuse,
}

pub open spec fn accept_step_spec(st: PrState, quorum: u32) -> AcceptStep {
    if st.merged {
        AcceptStep::AlreadyMerged
    } else if gate_open(st, quorum) {
        AcceptStep::Merge
    } else {
        AcceptStep::Refuse
    }
}

/// Decide what accepting does with a pull request: nothing when it is
/// merged, merge it when it has `quorum` approvals and passing (or no) CI,
/// refuse otherwise.
pub fn accept_step(st: &PrState, quorum: u32) -> (r: AcceptStep)
    ensures
        r == accept_step_spec(*st, quorum),
{
    if st.merged {
        AcceptStep::AlreadyMerged
    } else if accept_gate(st, quorum) {
        AcceptStep::Merge
    } else {
        AcceptStep::Refuse
    }
}

/// The tracker closed `issue` when there is one.
pub open spec fn issue_closed<T: Tracker>(tracker: &T, issue: Option<Seq<char>>, c: Result<(), ForgeError>) -> bool {
    match issue {
        Some(i) => tracker.closes_issue(i, c),
        None => true,
    }
}

/// An applied acceptance fits what the forge and tracker answered: the pull
/// request's state is read (`s`); a read failure stops the change (or, when
/// offline, leaves the local change alone); a merged pull request has its
/// issue closed; an approved, green one is merged (`m`) and then has its
/// issue closed (`c`); any other is refused.
pub open spec fn accept_fits<F: Forge, T: Tracker>(
    forge: &F,
    tracker: &T,
    pr: Seq<char>,
    pr_url: Seq<char>,
    issue: Option<Seq<char>>,
    quorum: u32,
    s: Result<PrState, ForgeError>,
    m: Result<(), ForgeError>,
    c: Result<(), ForgeError>,
    p: Result<bool, StatusChangeError>,
) -> bool {
    &&& forge.reports(pr, s)
    &&& match s {
        Err(e) => proceed_view(p) == failed(e),
        Ok(st) => match accept_step_spec(st, quorum) {
            AcceptStep::Refuse => proceed_view(p) == Err::<bool, ChangeErrV>(
                ChangeErrV::Refused { pr_url, approvals: st.approvals, quorum, ci: st.ci },
            ),
            AcceptStep::AlreadyMerged => p == Ok::<bool, StatusChangeError>(true) && issue_closed(tracker, issue, c),
            AcceptStep::Merge => {
                &&& forge.merges(pr, m)
                &&& match m {
                    Err(e) => proceed_view(p) == failed(e),
                    Ok(_) => p == Ok::<bool, StatusChangeError>(true) && issue_closed(tracker, issue, c),
                }
            },
        },
    }
}

/// An applied rejection or deprecation fits what the forge and tracker
/// answered: the pull request, when there is one, is closed (`cl`), and a
/// failure there stops the change (or, offline, leaves the local change
/// alone); otherwise the issue, when there is one, is marked won't-fix
/// (`t`) and the local change goes ahead.
pub open spec fn retire_fits<F: Forge, T: Tracker>(
    forge: &F,
    tracker: &T,
    pr: Option<Seq<char>>,
    issue: Option<Seq<char>>,
    cl: Result<(), ForgeError>,
    t: Result<(), ForgeError>,
    p: Result<bool, StatusChangeError>,
) -> bool {
    let marked = match issue {
        Some(i) => tracker.moves(i, Transition::WontFix, t),
        None => true,
    };
    match pr {
        Some(x) => {
            &&& forge.closes(x, cl)
            &&& match cl {
                Err(e) => proceed_view(p) == failed(e),
                Ok(_) => p == Ok::<bool, StatusChangeError>(true) && marked,
            }
        },
        None => p == Ok::<bool, StatusChangeError>(true) && marked,
    }
}

/// The URL of a recorded pull request (empty when there is none).
pub open spec fn url_of(p: Option<(String, String)>) -> Seq<char> {
    match p {
        Some(x) => x.1@,
        None => Seq::empty(),
    }
}

/// The id of a recorded issue or pull request.
pub open spec fn id_of(p: Option<(String, String)>) -> Option<Seq<char>> {
    match p {
        Some(x) => Some(x.0@),
        None => None,
    }
}

/// What a forge status change did: whether the local move goes ahead (or
/// why not), the plan lines a preview prints, and the warnings.
#[derive(Debug)]
pub struct ChangeReport {
    pub proceed: Result<bool, StatusChangeError>,
    pub plan: Vec<String>,
    pub warnings: Vec<String>,
}

/// `<prefix><message>`.
fn note(prefix: &str, e: &ForgeError) -> (r: String) {
    cat2(prefix, e.message().as_str())
}

/// The forge side of a status change, run before the local move. Accepting
/// checks the pull request's approvals against `quorum` and its CI, merges
/// it and closes the issue; rejecting or deprecating closes the pull request
/// and marks the issue won't-fix. Without `yes`, or with `dry_run`, nothing
/// is applied and the plan is returned; a connectivity failure degrades to
/// the local change alone.
pub fn run_status_change<F: Forge, T: Tracker>(
    forge: &F,
    tracker: &T,
    refs: &ForgeRefs,
    new_status: Status,
    quorum: u32,
    dry_run: bool,
    yes: bool,
) -> (r: ChangeReport)
    ensures
        !(new_status == Status::Accepted || new_status == Status::Rejected || new_status == Status::Deprecated)
            ==> r.proceed == Ok::<bool, StatusChangeError>(true),
        new_status == Status::Accepted && refs.pr is None ==> r.proceed == Ok::<bool, StatusChangeError>(true),
        (new_status == Status::Rejected || new_status == Status::Deprecated) && !(yes && !dry_run)
            ==> r.proceed == Ok::<bool, StatusChangeError>(false),
        new_status == Status::Accepted && refs.pr is Some && !(yes && !dry_run) ==> r.proceed == Ok::<
            bool,
            StatusChangeError,
        >(false),
        r.proceed matches Err(StatusChangeError::Refused { approvals, quorum: q, ci, .. }) ==> (yes && !dry_run
            && new_status == Status::Accepted && q == quorum && !(approvals >= quorum && (ci == CiStatus::Success
            || ci == CiStatus::NoChecks))),
        r.proceed matches Err(StatusChangeError::Forge(e)) ==> (yes && !dry_run && !(e is Offline)),
        new_status == Status::Accepted && refs.pr is Some && !(yes && !dry_run) ==> exists|
            s: Result<PrState, ForgeError>,
        | #![trigger forge.reports(id_of(refs.pr)->0, s)] forge.reports(id_of(refs.pr)->0, s),
        new_status == Status::Accepted && refs.pr is Some && yes && !dry_run ==> exists|
            s: Result<PrState, ForgeError>,
            m: Result<(), ForgeError>,
            c: Result<(), ForgeError>,
        |
            #![trigger accept_fits(forge, tracker, id_of(refs.pr)->0, url_of(refs.pr), id_of(refs.issue), quorum, s, m, c, r.proceed)]
            accept_fits(forge, tracker, id_of(refs.pr)->0, url_of(refs.pr), id_of(refs.issue), quorum, s, m, c, r.proceed),
        (new_status == Status::Rejected || new_status == Status::Deprecated) && yes && !dry_run ==> exists|
            cl: Result<(), ForgeError>,
            t: Result<(), ForgeError>,
        |
            #![trigger retire_fits(forge, tracker, id_of(refs.pr), id_of(refs.issue), cl, t, r.proceed)]
            retire_fits(forge, tracker, id_of(refs.pr), id_of(refs.issue), cl, t, r.proceed),
{
    let apply = yes && !dry_run;
    let mut plan: Vec<String> = Vec::new();
    let mut warnings: Vec<String> = Vec::new();
    match new_status {
        Status::Accepted => {
            let (pr, pr_url) = match &refs.pr {
                Some(p) => (&p.0, &p.1),
                None => {
                    return ChangeReport { proceed: Ok(true), plan, warnings };
                },
            };
            assert(pr@ == id_of(refs.pr)->0 && pr_url@ == url_of(refs.pr));
            let read = forge.pr_state(pr.as_str());
            let ghost s_read = read;
            let ghost issue = id_of(refs.issue);
            let ghost any: Result<(), ForgeError> = Ok(());
            let state = match read {
                Ok(s) => Some(s),
                Err(e) => {
                    if e.is_offline() {
                        if apply {
                            warnings.push(note("forge unreachable; local status change only: ", &e));
                            let r = ChangeReport { proceed: Ok(true), plan, warnings };
                            assert(accept_fits(forge, tracker, pr@, pr_url@, issue, quorum, s_read, any, any, r.proceed));
                            return r;
                        }
                    } else {
                        if apply {
                            let r = ChangeReport { proceed: Err(StatusChangeError::Forge(e)), plan, warnings };
                            assert(accept_fits(forge, tracker, pr@, pr_url@, issue, quorum, s_read, any, any, r.proceed));
                            return r;
                        }
                        warnings.push(note("couldn't read live PR state for the preview: ", &e));
                    }
                    None
                },
            };
            if !apply {
                plan.push(string_of(&chars_of("Forge plan (accept):")));
                match &state {
                    Some(st) => {
                        let mut line = chars_of("  - PR ");
                        append_str(&mut line, pr_url.as_str());
                        append_str(&mut line, ": ");
                        append_all(&mut line, &crate::text::dec_v(st.approvals as u64));
                        append_str(&mut line, "/");
                        append_all(&mut line, &crate::text::dec_v(quorum as u64));
                        append_str(&mut line, " approvals, CI ");
                        append_str(&mut line, ci_label_v(st.ci));
                        if st.merged {
                            append_str(&mut line, " (already merged)");
                        }
                        plan.push(string_of(&line));
                        if let Some(iss) = &refs.issue {
                            plan.push(cat2("  - close issue ", iss.1.as_str()));
                        }
                        if !accept_gate(st, quorum) && !st.merged {
                            let mut b = chars_of("  (blocked: needs ");
                            append_all(&mut b, &crate::text::dec_v(quorum as u64));
                            append_str(&mut b, " approvals + passing CI)");
                            plan.push(string_of(&b));
                        }
                    },
                    None => {
                        let mut line = chars_of("  - verify PR ");
                        append_str(&mut line, pr_url.as_str());
                        append_str(&mut line, " has >= ");
                        append_all(&mut line, &crate::text::dec_v(quorum as u64));
                        append_str(&mut line, " approvals + passing CI, then merge");
                        plan.push(string_of(&line));
                        if let Some(iss) = &refs.issue {
                            plan.push(cat2("  - close issue ", iss.1.as_str()));
                        }
                        plan.push(
                            string_of(&chars_of("  (live PR state unavailable — set a valid token to see approvals/CI)")),
                        );
                    },
                }
                plan.push(string_of(&chars_of("Preview — re-run with --yes to apply.")));
                assert(forge.reports(id_of(refs.pr)->0, s_read));
                return ChangeReport { proceed: Ok(false), plan, warnings };
            }
            let st = match state {
                Some(s) => s,
                None => {
                    assert(false);
                    return ChangeReport { proceed: Ok(true), plan, warnings };
                },
            };
            assert(s_read == Ok::<PrState, ForgeError>(st));
            let step = accept_step(&st, quorum);
            let ghost mut m_res: Result<(), ForgeError> = Ok(());
            match step {
                AcceptStep::Refuse => {
                    let r = ChangeReport {
                        proceed: Err(
                            StatusChangeError::Refused {
                                pr_url: string_of(&chars_of(pr_url.as_str())),
                                approvals: st.approvals,
                                quorum,
                                ci: st.ci,
                            },
                        ),
                        plan,
                        warnings,
                    };
                    assert(accept_fits(forge, tracker, pr@, pr_url@, issue, quorum, s_read, any, any, r.proceed));
                    return r;
                },
                AcceptStep::Merge => {
                    let merged = forge.merge_pr(pr.as_str());
                    proof {
                        m_res = merged;
                    }
                    match merged {
                        Ok(()) => {},
                        Err(e) => {
                            if e.is_offline() {
                                warnings.push(note("forge unreachable merging PR; local change only: ", &e));
                                let r = ChangeReport { proceed: Ok(true), plan, warnings };
                                assert(accept_fits(forge, tracker, pr@, pr_url@, issue, quorum, s_read, m_res, any, r.proceed));
                                return r;
                            }
                            let r = ChangeReport { proceed: Err(StatusChangeError::Forge(e)), plan, warnings };
                            assert(accept_fits(forge, tracker, pr@, pr_url@, issue, quorum, s_read, m_res, any, r.proceed));
                            return r;
                        },
                    }
                },
                AcceptStep::AlreadyMerged => {},
            }
            let ghost mut c_res: Result<(), ForgeError> = Ok(());
            if let Some(iss) = &refs.issue {
                let closed = tracker.close_issue(iss.0.as_str());
                proof {
                    c_res = closed;
                }
                match closed {
                    Ok(()) => {},
                    Err(e) => {
                        warnings.push(note("couldn't close issue: ", &e));
                    },
                }
            }
            plan.push(cat2("Forge: merged PR ", pr_url.as_str()));
            let r = ChangeReport { proceed: Ok(true), plan, warnings };
            assert(accept_fits(forge, tracker, pr@, pr_url@, issue, quorum, s_read, m_res, c_res, r.proceed));
            r
        },
        Status::Rejected | Status::Deprecated => {
            let verb = if new_status == Status::Rejected {
                "rejected"
            } else {
                "deprecated"
            };
            if !apply {
                plan.push(cat3("Forge plan (", verb, "):"));
                if let Some(p) = &refs.pr {
                    plan.push(cat2("  - close PR ", p.1.as_str()));
                }
                if let Some(iss) = &refs.issue {
                    plan.push(cat3("  - mark issue ", iss.1.as_str(), " won't-fix"));
                }
                plan.push(string_of(&chars_of("Preview — re-run with --yes to apply.")));
                return ChangeReport { proceed: Ok(false), plan, warnings };
            }
            let ghost pr_id = id_of(refs.pr);
            let ghost issue = id_of(refs.issue);
            let ghost mut cl_res: Result<(), ForgeError> = Ok(());
            let ghost mut t_res: Result<(), ForgeError> = Ok(());
            if let Some(p) = &refs.pr {
                let _ = forge.comment_pr(p.0.as_str(), cat3("Closing: ADR ", verb, ".").as_str());
                let closed = forge.close_pr(p.0.as_str());
                proof {
                    cl_res = closed;
                }
                match closed {
                    Ok(()) => {},
                    Err(e) => {
                        if e.is_offline() {
                            warnings.push(note("forge unreachable; local change only: ", &e));
                            let r = ChangeReport { proceed: Ok(true), plan, warnings };
                            assert(retire_fits(forge, tracker, pr_id, issue, cl_res, t_res, r.proceed));
                            return r;
                        }
                        let r = ChangeReport { proceed: Err(StatusChangeError::Forge(e)), plan, warnings };
                        assert(retire_fits(forge, tracker, pr_id, issue, cl_res, t_res, r.proceed));
                        return r;
                    },
                }
            }
            if let Some(iss) = &refs.issue {
                let moved = tracker.transition(iss.0.as_str(), Transition::WontFix);
                proof {
                    t_res = moved;
                }
            }
            let r = ChangeReport { proceed: Ok(true), plan, warnings };
            assert(retire_fits(forge, tracker, pr_id, issue, cl_res, t_res, r.proceed));
            r
        },
        _ => ChangeReport { proceed: Ok(true), plan, warnings },
    }
}
} // verus!
