use adroit::ai::{build_request, draft_body, wrap_draft, AiError, AiProvider, CompletionRequest, FakeProvider, Interview, AI_MARKER, INTERVIEW_QUESTIONS};

fn sample() -> Interview {
    Interview {
        title: "Adopt feature flags".into(),
        context: "we ship risky changes".into(),
        drivers: "decouple deploy from release".into(),
        options: "LaunchDarkly vs homegrown".into(),
        risks: "flag debt".into(),
    }
}

#[test]
fn request_includes_every_answer_and_the_corpus() {
    let req = build_request(&sample(), &["ADR-0001 — Use Postgres".to_string()]);
    for needle in [
        "Adopt feature flags",
        "we ship risky changes",
        "decouple deploy from release",
        "LaunchDarkly vs homegrown",
        "flag debt",
        "ADR-0001 — Use Postgres",
    ] {
        assert!(req.prompt.contains(needle), "prompt missing {needle:?}");
    }
    assert!(req.system.contains("Architecture Decision Record"));
    assert!(req.max_tokens > 0);
}

#[test]
fn empty_corpus_is_labeled_not_blank() {
    let req = build_request(&sample(), &[]);
    assert!(req.prompt.contains("(no existing ADRs yet)"));
}

#[test]
fn draft_body_wraps_provider_output_with_marker() {
    let fake = FakeProvider { canned: "## Context and Problem Statement\n\nBecause reasons.".into() };
    let body = draft_body(&fake, &sample(), &[]).unwrap();
    assert!(body.starts_with(AI_MARKER));
    assert!(body.contains("Because reasons."));
}

#[test]
fn wrap_draft_is_exact() {
    assert_eq!(wrap_draft("  text \n"), format!("{AI_MARKER}\n\ntext\n"));
}

#[test]
fn corpus_lines_are_joined_by_newlines() {
    let req = build_request(&Interview::default(), &["a".to_string(), "b".to_string()]);
    assert_eq!(
        req.prompt,
        "Title: \n\nExisting ADRs (for voice + prior decisions):\na\nb\n\nAuthor's notes from a short interview:\n- Problem / context: \n- Drivers: \n- Options considered: \n- Risks / negative consequences: \n\nDraft the ADR body now."
    );
    assert_eq!(INTERVIEW_QUESTIONS.len(), 4);
}

struct Failing;

impl AiProvider for Failing {
    fn id(&self) -> String {
        "failing".into()
    }
    fn complete(&self, _req: &CompletionRequest) -> Result<String, AiError> {
        Err(AiError::Offline("down".into()))
    }
}

#[test]
fn provider_errors_pass_through() {
    assert_eq!(draft_body(&Failing, &sample(), &[]), Err(AiError::Offline("down".into())));
    assert_eq!(AiError::Auth("k".into()).message(), "AI auth failed (check your key): k");
    assert_eq!(FakeProvider { canned: String::new() }.id(), "fake");
}
