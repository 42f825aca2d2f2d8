use adroit::adr::Status;
use adroit::lint::{is_prompt_line, lint, prompt_only, LintSource};
use adroit::naming::{AdrRef, NamingScheme};
use adroit::template::{render, MADR};

fn fresh_madr() -> String {
    render(MADR, NamingScheme::Sequential, &AdrRef::Number(1), "X", Status::Proposed, "2026-01-01")
}

const FINISHED: &str = "# ADR-0001: Adopt feature flags\n\n## Status\n\nProposed\n\n\
    ## Context and Problem Statement\n\nWe ship risky changes and want to decouple deploy from release.\n\n\
    ## Considered Options\n\n1. Feature flags\n2. Long-lived branches\n\n\
    ## Decision Outcome\n\nChosen option: feature flags, because they decouple deploy from release.\n\n\
    ### Negative Consequences\n\n- Flag debt accumulates and needs periodic cleanup.\n";

#[test]
fn fresh_template_is_flagged_unfinished() {
    let f = lint(&fresh_madr());
    assert!(!f.is_empty());
    assert!(f.iter().all(|x| x.source == LintSource::Mechanical));
    assert!(f.iter().any(|x| x.message.contains("still holds only its prompt")), "should flag sections left as their prompt, got: {f:?}");
    assert!(f.iter().any(|x| x.message.contains("Context and Problem Statement")), "context prompt should be flagged, got: {f:?}");
}

#[test]
fn prompt_only_detects_list_and_prose_prompts() {
    assert!(is_prompt_line("_a prose prompt_"));
    assert!(is_prompt_line("  - _a bulleted prompt_"));
    assert!(is_prompt_line("1. _a numbered prompt_"));
    assert!(!is_prompt_line("- a real bullet"));
    assert!(!is_prompt_line("real prose"));
    assert!(!is_prompt_line("_emphasis_ inside real prose"));
    assert!(prompt_only("\n_just the prompt_\n"));
    assert!(!prompt_only("\nreal content\n"));
    assert!(!prompt_only("\n"));
}

#[test]
fn finished_adr_is_clean() {
    assert_eq!(lint(FINISHED), Vec::new());
}

#[test]
fn missing_negative_consequences_is_flagged() {
    let body = "## Context and Problem Statement\n\nReal context.\n\n\
        ## Considered Options\n\n1. A real option\n2. Another real option\n\n\
        ## Decision Outcome\n\nWe picked the first one for cost reasons.\n";
    let f = lint(body);
    assert!(f.iter().any(|x| x.message.contains("Negative Consequences")));
}

#[test]
fn single_option_is_flagged() {
    let body = "## Considered Options\n\n1. The only option\n\n\
        ## Decision Outcome\n\nPicked it for the obvious reasons.\n\n\
        ### Negative Consequences\n\n- A real downside here.\n";
    let f = lint(body);
    assert!(f.iter().any(|x| x.message.contains("two options")));
}

#[test]
fn empty_negative_consequences_is_flagged_exactly() {
    let body = "## Considered Options\n\n- A\n- B\n\n### Negative Consequences\n\n\n## Next\n";
    let f = lint(body);
    assert_eq!(f.len(), 1);
    assert_eq!(f[0].message, "`### Negative Consequences` is empty — every decision has downsides; name them");
    assert_eq!(LintSource::Mechanical.to_string(), "mechanical");
}

#[test]
fn prompt_only_section_names_its_heading() {
    let f = lint("## Stakeholders\n\n_Who?_\n\n### Negative Consequences\n\n- real\n");
    assert_eq!(f[0].message, "`Stakeholders` still holds only its prompt — replace it with real content");
    assert_eq!(f.len(), 1);
}
