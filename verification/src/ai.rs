//! AI-assisted ADR authoring: the request a provider gets, and the draft
//! made of its reply. The model only ever produces prose; identity, dates,
//! status and supersession stay mechanical.
use vstd::prelude::*;
use crate::text::{append_all, append_str, chars_of, join, join_v, string_of, trim, trim_v};

verus! {

/// Marker prepended to every AI-suggested region.
pub const AI_MARKER: &'static str = "<!-- adroit:ai-suggested -->";

/// The instructions every request carries.
pub const SYSTEM_PROMPT: &'static str = "You are an experienced architect helping draft an Architecture \
        Decision Record (ADR). Match the house voice of the existing ADRs. Write \
        crisp, concrete prose with no filler, and be honest about negative \
        consequences. Output GitHub-flavored markdown for the ADR body only: the \
        sections `## Context and Problem Statement`, `## Decision Drivers`, \
        `## Considered Options`, and `## Decision Outcome` (with \
        `### Positive Consequences` and `### Negative Consequences`). Do NOT \
        write the title H1 or a `## Status` section — those are added mechanically.";

/// The fixed interview questions, in order.
pub const INTERVIEW_QUESTIONS: [&'static str; 4] = [
    "What problem or decision does this ADR address?",
    "What's driving this now — the forces, constraints, or deadlines?",
    "What options are you considering (including ones you'll reject)?",
    "What could go wrong — the risks and negative consequences?",
];

/// One completion request.
#[derive(Debug, Clone)]
pub struct CompletionRequest {
    /// System / preamble: house style and the drafting instructions.
    pub system: String,
    /// User content: the interview answers and corpus context.
    pub prompt: String,
    /// Upper bound on generated tokens.
    pub max_tokens: u32,
}

/// What can go wrong talking to a provider.
#[derive(Debug, Clone, PartialEq, Eq)]
pub enum AiError {
    /// No provider is available.
    NotConfigured(String),
    /// Network / connectivity failure.
    Offline(String),
    /// Authentication failed.
    Auth(String),
    /// The provider API returned an error.
    Api(String),
}

impl AiError {
    pub fn message(&self) -> (s: String)
        ensures
            self matches AiError::NotConfigured(m) ==> s@ == "AI not configured: "@ + m@,
            self matches AiError::Offline(m) ==> s@ == "AI provider unreachable: "@ + m@,
            self matches AiError::Auth(m) ==> s@ == "AI auth failed (check your key): "@ + m@,
            self matches AiError::Api(m) ==> s@ == "AI API error: "@ + m@,
    {
        let (mut v, m) = match self {
            AiError::NotConfigured(m) => (chars_of("AI not configured: "), m),
            AiError::Offline(m) => (chars_of("AI provider unreachable: "), m),
            AiError::Auth(m) => (chars_of("AI auth failed (check your key): "), m),
            AiError::Api(m) => (chars_of("AI API error: "), m),
        };
        append_str(&mut v, m.as_str());
        string_of(&v)
    }
}

/// A synchronous LLM completion provider.
pub trait AiProvider {
    /// Whether `r` is an answer this provider may give to a request of the
    /// given system text, prompt and token bound. A remote model's answer
    /// rests on the service, so by default any answer may come; an
    /// implementation that knows more says so.
    open spec fn answers(&self, system: Seq<char>, prompt: Seq<char>, max_tokens: u32, r: Result<String, AiError>) -> bool {
        true
    }

    /// Human-readable id for logs and messages.
    fn id(&self) -> String;

    /// Run one completion, returning the model's text.
    fn complete(&self, req: &CompletionRequest) -> (r: Result<String, AiError>)
        ensures
            self.answers(req.system@, req.prompt@, req.max_tokens, r),
    ;
}

/// The interview answers gathered for a new ADR.
#[derive(Debug, Clone)]
pub struct Interview {
    pub title: String,
    pub context: String,
    pub drivers: String,
    pub options: String,
    pub risks: String,
}

impl Default for Interview {
    fn default() -> (r: Self)
        ensures
            r.title@.len() == 0,
            r.context@.len() == 0,
            r.drivers@.len() == 0,
            r.options@.len() == 0,
            r.risks@.len() == 0,
    {
        Interview {
            title: String::new(),
            context: String::new(),
            drivers: String::new(),
            options: String::new(),
            risks: String::new(),
        }
    }
}

/// The corpus as the prompt shows it: one line per existing ADR, or a label
/// when there is none.
pub open spec fn corpus_block(corpus: Seq<Seq<char>>) -> Seq<char> {
    if corpus.len() == 0 {
        "(no existing ADRs yet)"@
    } else {
        join(corpus, "\n"@)
    }
}

/// The user prompt: the title, the corpus, and every interview answer.
pub open spec fn request_prompt(iv: Interview, corpus: Seq<Seq<char>>) -> Seq<char> {
    "Title: "@ + iv.title@ + "\n\nExisting ADRs (for voice + prior decisions):\n"@ + corpus_block(corpus)
        + "\n\nAuthor's notes from a short interview:\n- Problem / context: "@ + iv.context@
        + "\n- Drivers: "@ + iv.drivers@ + "\n- Options considered: "@ + iv.options@
        + "\n- Risks / negative consequences: "@ + iv.risks@ + "\n\nDraft the ADR body now."@
}

pub open spec fn strings_view(v: Seq<String>) -> Seq<Seq<char>> {
    v.map_values(|s: String| s@)
}

/// Build the completion request from the interview and a corpus summary.
pub fn build_request(iv: &Interview, corpus: &[String]) -> (r: CompletionRequest)
    ensures
        r.system@ == SYSTEM_PROMPT@,
        r.prompt@ == request_prompt(*iv, strings_view(corpus@)),
        r.max_tokens == 1500,
{
    let block = if corpus.len() == 0 {
        chars_of("(no existing ADRs yet)")
    } else {
        let mut ls: Vec<Vec<char>> = Vec::new();
        let mut i: usize = 0;
        while i < corpus.len()
            invariant
                i <= corpus.len(),
                crate::text::views(ls@) == strings_view(corpus@).take(i as int),
            decreases corpus.len() - i,
        {
            let ghost before = ls@;
            ls.push(chars_of(corpus[i].as_str()));
            proof {
                assert(crate::text::views(ls@) =~= crate::text::views(before).push(corpus@[i as int]@));
                assert(strings_view(corpus@).take(i + 1) =~= strings_view(corpus@).take(i as int).push(corpus@[i as int]@));
            }
            i = i + 1;
        }
        assert(strings_view(corpus@).take(corpus.len() as int) =~= strings_view(corpus@));
        proof {
            reveal_strlit("\n");
        }
        crate::text::join_str(&ls, "\n")
    };
    let mut p = chars_of("Title: ");
    append_str(&mut p, iv.title.as_str());
    append_str(&mut p, "\n\nExisting ADRs (for voice + prior decisions):\n");
    append_all(&mut p, &block);
    append_str(&mut p, "\n\nAuthor's notes from a short interview:\n- Problem / context: ");
    append_str(&mut p, iv.context.as_str());
    append_str(&mut p, "\n- Drivers: ");
    append_str(&mut p, iv.drivers.as_str());
    append_str(&mut p, "\n- Options considered: ");
    append_str(&mut p, iv.options.as_str());
    append_str(&mut p, "\n- Risks / negative consequences: ");
    append_str(&mut p, iv.risks.as_str());
    append_str(&mut p, "\n\nDraft the ADR body now.");
    CompletionRequest { system: string_of(&chars_of(SYSTEM_PROMPT)), prompt: string_of(&p), max_tokens: 1500 }
}

/// The draft made of a model reply: the marker, a blank line, the trimmed
/// reply and a final newline.
pub open spec fn draft_text(reply: Seq<char>) -> Seq<char> {
    AI_MARKER@ + "\n\n"@ + trim(reply) + "\n"@
}

/// Tag a model reply as AI-suggested.
pub fn wrap_draft(reply: &str) -> (r: String)
    ensures
        r@ == draft_text(reply@),
{
    let mut v = chars_of(AI_MARKER);
    append_str(&mut v, "\n\n");
    append_all(&mut v, &trim_v(&chars_of(reply)));
    append_str(&mut v, "\n");
    string_of(&v)
}

/// Draft the ADR body via the provider, tagged with [`AI_MARKER`]. The
/// provider gets the request that [`build_request`] makes; its error comes
/// back unchanged, its reply as [`wrap_draft`] shapes it.
pub fn draft_body<P: AiProvider>(provider: &P, iv: &Interview, corpus: &[String]) -> (r: Result<String, AiError>)
    ensures
        exists|a: Result<String, AiError>|
            #![trigger provider.answers(SYSTEM_PROMPT@, request_prompt(*iv, strings_view(corpus@)), 1500, a)]
            provider.answers(SYSTEM_PROMPT@, request_prompt(*iv, strings_view(corpus@)), 1500, a) && match a {
                Ok(reply) => r matches Ok(s) && s@ == draft_text(reply@),
                Err(e) => r == Err::<String, AiError>(e),
            },
{
    let req = build_request(iv, corpus);
    match provider.complete(&req) {
        Ok(body) => Ok(wrap_draft(body.as_str())),
        Err(e) => Err(e),
    }
}

/// An offline provider that answers every request with a canned reply.
pub struct FakeProvider {
    pub canned: String,
}

impl AiProvider for FakeProvider {
    /// The canned reply, whatever is asked.
    open spec fn answers(&self, system: Seq<char>, prompt: Seq<char>, max_tokens: u32, r: Result<String, AiError>) -> bool {
        r matches Ok(s) && s@ == self.canned@
    }

    fn id(&self) -> String {
        string_of(&chars_of("fake"))
    }

    fn complete(&self, req: &CompletionRequest) -> (r: Result<String, AiError>) {
        Ok(string_of(&chars_of(self.canned.as_str())))
    }
}

} // verus!
