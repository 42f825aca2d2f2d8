use adroit::adr::{Adr, Number, ReviewBy, Status};
use adroit::format::{
    normalize_lone_cr, parse_heading, parse_markdown, serialize_markdown, FormatError, parse_markdown_section_status, parse_markdown_section_supersession,
    parse_references, parse_status_region, rewrite_review_by, rewrite_status, upsert_reference, Format,
};
use adroit::naming::{AdrRef, NamingScheme};
use std::borrow::Cow;

const SAMPLE: &str = "# ADR-0006: Adopt ADRs as Team Decision Process\n\
\n\
> State: Accepted\n\
\n\
## Status\n\
\n\
Accepted\n\
\n\
## Context and Problem Statement\n\
\n\
We need a consistent way to capture architectural decisions.\n";

#[test]
fn parse_heading_adr_dash() {
    let (n, t) = parse_heading("# ADR-0006: Adopt ADRs as Team Decision Process");
    assert_eq!(n, Some(Number::new(6)));
    assert_eq!(t, "Adopt ADRs as Team Decision Process");
}

#[test]
fn parse_heading_nygard_dot() {
    let (n, t) = parse_heading("# 0042. Use PostgreSQL");
    assert_eq!(n, Some(Number::new(42)));
    assert_eq!(t, "Use PostgreSQL");
}

#[test]
fn parse_heading_plain_title_has_no_number() {
    let (n, t) = parse_heading("# Adopt Crossplane");
    assert_eq!(n, None);
    assert_eq!(t, "Adopt Crossplane");
}

#[test]
fn parse_heading_adr_space_and_bare_prefix() {
    assert_eq!(parse_heading("## ADR 7: Seven"), (Some(Number::new(7)), "Seven".to_string()));
    assert_eq!(parse_heading("# ADR12 Twelve"), (Some(Number::new(12)), "Twelve".to_string()));
    assert_eq!(parse_heading("# 99999999999: Huge"), (None, "99999999999: Huge".to_string()));
}

#[test]
fn rewrite_status_is_minimal_diff() {
    let out = rewrite_status(SAMPLE, Status::Rejected, None);
    assert!(out.contains("> State: Rejected"));
    assert!(out.contains("\n## Status\n\nRejected\n"));
    assert!(out.contains("We need a consistent way to capture architectural decisions."));
    assert!(out.ends_with('\n'));
}

#[test]
fn rewrite_status_superseded_writes_link() {
    let out = rewrite_status(SAMPLE, Status::Superseded, Some(("ADR-0009", "../accepted/0009-thing.md")));
    assert!(out.contains("Superseded by [ADR-0009](../accepted/0009-thing.md)"));
    assert!(out.contains("> State: Superseded"));
}

#[test]
fn rewrite_then_reparse_round_trips_unchanged_status() {
    let out = rewrite_status(SAMPLE, Status::Accepted, None);
    assert_eq!(out, SAMPLE);
}

#[test]
fn rewrite_status_adds_missing_section_after_heading() {
    let doc = "# ADR-0001: X\n\nBody.\n";
    let out = rewrite_status(doc, Status::Accepted, None);
    assert_eq!(out, "# ADR-0001: X\n\n## Status\n\nAccepted\n\nBody.\n");
    let empty_section = "# ADR-0001: X\n\n## Status\n";
    assert_eq!(rewrite_status(empty_section, Status::Proposed, None), "# ADR-0001: X\n\n## Status\n\n\nProposed");
}

#[test]
fn rewrite_status_keeps_crlf() {
    let doc = "# ADR-0001: X\r\n\r\n## Status\r\n\r\nProposed\r\n";
    assert_eq!(rewrite_status(doc, Status::Accepted, None), "# ADR-0001: X\r\n\r\n## Status\r\n\r\nAccepted\r\n");
}

#[test]
fn rewrite_review_by_inserts_after_status_value() {
    let rb: ReviewBy = "2026-07-01".parse().unwrap();
    let out = rewrite_review_by(SAMPLE, Some(rb));
    assert!(out.contains("\n## Status\n\nAccepted\nReview by: 2026-07-01\n"));
    assert!(out.contains("We need a consistent way to capture architectural decisions."));
    assert!(out.ends_with('\n'));
    assert_eq!(parse_status_region(&out).review_by, Some(rb));
}

#[test]
fn rewrite_review_by_replaces_existing() {
    let rb1: ReviewBy = "2026-07-01".parse().unwrap();
    let rb2: ReviewBy = "2026-08-15".parse().unwrap();
    let with = rewrite_review_by(SAMPLE, Some(rb1));
    let updated = rewrite_review_by(&with, Some(rb2));
    assert!(updated.contains("Review by: 2026-08-15"));
    assert!(!updated.contains("2026-07-01"));
    assert_eq!(updated.matches("Review by:").count(), 1);
}

#[test]
fn rewrite_review_by_removes_when_none() {
    let rb: ReviewBy = "2026-07-01".parse().unwrap();
    let with = rewrite_review_by(SAMPLE, Some(rb));
    let removed = rewrite_review_by(&with, None);
    assert!(!removed.contains("Review by:"));
    assert_eq!(removed, SAMPLE);
}

#[test]
fn rewrite_review_by_none_on_clean_doc_is_byte_identical() {
    assert_eq!(rewrite_review_by(SAMPLE, None), SAMPLE);
}

#[test]
fn rewrite_review_by_without_status_section_appends() {
    let rb: ReviewBy = "2026-07-01".parse().unwrap();
    assert_eq!(rewrite_review_by("# X\n", Some(rb)), "# X\n\nReview by: 2026-07-01");
}

#[test]
fn status_region_tolerates_multibyte_chars_at_prefix_boundary() {
    let doc = "# ADR-0003: Sample\n\n## Status\n\nProposed — implementation evolving\n";
    let region = parse_status_region(doc);
    assert!(region.supersedes.is_none());
    assert!(region.superseded_by.is_none());
    assert!(region.review_by.is_none());
}

#[test]
fn status_region_reads_both_supersession_directions() {
    let doc = "# ADR-0006: Adopt ADRs\n\n## Status\n\n> Accepted\n\nSupersedes [ADR-0002](../superseded/0002-adopt-adrs.md)\nReview by: 2026-07-15\n\n## Context\n\nSuperseded by ADR-0009\n";
    let region = parse_status_region(doc);
    assert_eq!(region.status, Some(Status::Accepted));
    assert_eq!(region.supersedes.as_deref(), Some("[ADR-0002](../superseded/0002-adopt-adrs.md)"));
    assert_eq!(region.superseded_by, None);
    assert_eq!(region.review_by, Some("2026-07-15".parse().unwrap()));
    let (a, b) = parse_markdown_section_supersession(doc, NamingScheme::Sequential, None);
    assert_eq!(a, Some(AdrRef::Number(2)));
    assert_eq!(b, None);
    let old = "# ADR-0002: Adopt ADRs\n\n## Status\n\nSuperseded by [ADR-0006](../accepted/0006-adopt-adrs.md)\n";
    assert_eq!(parse_markdown_section_status(old), Some(Status::Superseded));
    let (a, b) = parse_markdown_section_supersession(old, NamingScheme::Sequential, None);
    assert_eq!(a, None);
    assert_eq!(b, Some(AdrRef::Number(6)));
}

#[test]
fn upsert_reference_creates_section_then_upserts_idempotently() {
    let base = "# ADR-0001: X\n\n## Status\n\nProposed\n";
    let a = upsert_reference(base, "Issue", "https://x/issues/7");
    assert!(a.contains("## References"));
    assert!(a.contains("- Issue: https://x/issues/7"));
    assert!(a.ends_with('\n'));
    assert_eq!(upsert_reference(&a, "Issue", "https://x/issues/7"), a);
    let b = upsert_reference(&a, "Pull Request", "https://x/pull/42");
    assert_eq!(b.matches("## References").count(), 1);
    assert!(b.contains("- Issue: https://x/issues/7"));
    assert!(b.contains("- Pull Request: https://x/pull/42"));
    let c = upsert_reference(&b, "Issue", "https://x/issues/9");
    assert!(c.contains("- Issue: https://x/issues/9"));
    assert!(!c.contains("issues/7"));
    assert_eq!(parse_references(&c).len(), 2);
    assert_eq!(parse_references(&c)[0], ("Issue".to_string(), "https://x/issues/9".to_string()));
}

#[test]
fn qualified_status_line_resolves_via_first_word() {
    let doc = "# ADR-0003: X\n\n## Status\n\nProposed — implementation approach evolving based on spike\n";
    assert_eq!(parse_markdown_section_status(doc), Some(Status::Proposed));
    let plain = "# ADR-0004: X\n\n## Status\n\nAccepted\n";
    assert_eq!(parse_markdown_section_status(plain), Some(Status::Accepted));
    let prose = "# ADR-0005: X\n\n## Status\n\nSee the discussion thread.\n";
    assert_eq!(parse_markdown_section_status(prose), None);
}

#[test]
fn normalize_lone_cr_preserves_crlf_and_lf() {
    assert!(matches!(normalize_lone_cr("a\nb"), Cow::Borrowed(_)));
    assert!(matches!(normalize_lone_cr("a\r\nb"), Cow::Borrowed(_)));
    assert_eq!(normalize_lone_cr("a\rb").as_ref(), "a\nb");
    assert_eq!(normalize_lone_cr("a\r\nb\rc").as_ref(), "a\r\nb\nc");
    assert_eq!(normalize_lone_cr("é\rx").as_ref(), "é\nx");
}

#[test]
fn rewriters_are_idempotent_on_lone_cr() {
    let doc = "# ADR-0001: X\r\r## Status\r\rProposed\r";

    let once = upsert_reference(doc, "Issue", "https://x/7");
    assert_eq!(upsert_reference(&once, "Issue", "https://x/7"), once, "upsert not idempotent on lone CR");
    assert_eq!(once.matches("## References").count(), 1, "no duplicate section");
    assert!(!once.contains('\r'), "lone CR normalized away");

    let s1 = rewrite_status(doc, Status::Accepted, None);
    assert_eq!(rewrite_status(&s1, Status::Accepted, None), s1);

    let r1 = rewrite_review_by(doc, None);
    assert_eq!(rewrite_review_by(&r1, None), r1);
}

#[test]
fn references_outside_the_section_are_ignored() {
    let doc = "# X\n\n- Stray: no\n\n## References\n\n- Issue: https://x/1\n- not a pair\n\n## Later\n\n- Other: https://y\n";
    assert_eq!(parse_references(doc), vec![("Issue".to_string(), "https://x/1".to_string())]);
    let up = upsert_reference(doc, "PR", "https://x/2");
    assert!(up.contains("- not a pair\n- PR: https://x/2\n\n## Later"));
}

#[test]
fn format_names_round_trip() {
    assert_eq!(Format::default(), Format::Markdown);
    assert_eq!(Format::Markdown.to_string(), "markdown");
    assert_eq!(Format::parse_str("FrontMatter"), Some(Format::Frontmatter));
    assert_eq!(Format::parse_str("yaml"), None);
}

fn pm(doc: &str, dir: Option<Status>) -> Adr {
    parse_markdown(doc, dir, NamingScheme::Sequential).unwrap()
}

#[test]
fn parse_markdown_uses_dir_status() {
    let adr = pm(SAMPLE, Some(Status::Accepted));
    assert_eq!(adr.number, Some(Number::new(6)));
    assert_eq!(adr.title, "Adopt ADRs as Team Decision Process");
    assert_eq!(adr.status, Status::Accepted);
}

#[test]
fn parse_markdown_falls_back_to_section_status() {
    let adr = pm(SAMPLE, None);
    assert_eq!(adr.status, Status::Accepted);
}

#[test]
fn parse_markdown_directory_wins_over_section() {
    let adr = pm(SAMPLE, Some(Status::Deprecated));
    assert_eq!(adr.status, Status::Deprecated);
    let bare = pm("# ADR-0001: X\n\nBody\n", None);
    assert_eq!(bare.status, Status::Proposed);
}

#[test]
fn parse_markdown_without_heading_errors() {
    assert_eq!(
        parse_markdown("no heading\n## Status\n", None, NamingScheme::Sequential).unwrap_err(),
        FormatError::MissingHeading
    );
}

#[test]
fn parse_markdown_body_drops_trailing_newlines() {
    let adr = pm("# ADR-0001: X\n\nBody\n\n\n", None);
    assert_eq!(adr.body, "# ADR-0001: X\n\nBody");
}

#[test]
fn parse_superseded_link() {
    let doc = "# ADR-0002: Adopt ADRs\n\n## Status\n\nSuperseded by [ADR-0006](../accepted/0006-adopt-adrs.md)\n";
    let adr = pm(doc, Some(Status::Superseded));
    assert_eq!(adr.status, Status::Superseded);
    assert_eq!(adr.superseded_by, Some(AdrRef::Number(6)));
}

#[test]
fn parse_supersedes_forward_note() {
    let doc = "# ADR-0006: Adopt ADRs\n\n## Status\n\nAccepted\n\nSupersedes [ADR-0002](../superseded/0002-adopt-adrs.md)\n\n## Context\n\nBody.\n";
    let adr = pm(doc, Some(Status::Accepted));
    assert_eq!(adr.status, Status::Accepted);
    assert_eq!(adr.supersedes, Some(AdrRef::Number(2)));
    assert_eq!(adr.superseded_by, None);
}

#[test]
fn parse_superseded_by_note() {
    let doc = "# ADR-0002: Adopt ADRs\n\n## Status\n\nSuperseded by [ADR-0006](../accepted/0006-adopt-adrs.md)\n";
    let adr = pm(doc, Some(Status::Superseded));
    assert_eq!(adr.superseded_by, Some(AdrRef::Number(6)));
    assert_eq!(adr.supersedes, None);
}

#[test]
fn parse_supersedes_bare_adr_reference() {
    let doc = "# ADR-0006: Adopt ADRs\n\n## Status\n\nAccepted\n\nSupersedes ADR-0002\n";
    let adr = pm(doc, Some(Status::Accepted));
    assert_eq!(adr.supersedes, Some(AdrRef::Number(2)));
}

#[test]
fn parse_superseded_link_date_scheme_slug() {
    let doc = "# New approach\n\n## Status\n\nSuperseded by [20260601-old](../accepted/20260601-old.md)\n";
    let adr = parse_markdown(doc, Some(Status::Superseded), NamingScheme::Date).unwrap();
    assert_eq!(adr.superseded_by, Some(AdrRef::Slug("20260601-old".into())));
}

#[test]
fn parse_review_by_line() {
    let doc = "# ADR-0003: Use Redis\n\n## Status\n\nProposed\n\nReview by: 2026-07-15\n";
    let adr = pm(doc, Some(Status::Proposed));
    assert_eq!(adr.review_by, Some("2026-07-15".parse::<ReviewBy>().unwrap()));
}

#[test]
fn markdown_supersession_round_trips_both_directions() {
    let doc = "# ADR-0006: Adopt ADRs\n\n## Status\n\nAccepted\n\nSupersedes [ADR-0002](../superseded/0002.md)\n";
    let adr = pm(doc, Some(Status::Accepted));
    let again = pm(&adr.body, Some(Status::Accepted));
    assert_eq!(again.supersedes, Some(AdrRef::Number(2)));
}

#[test]
fn serialize_markdown_guarantees_one_trailing_newline() {
    let mut adr = Adr::new("X").unwrap();
    assert_eq!(serialize_markdown(&adr).unwrap_err(), FormatError::EmptyBody);
    adr.body = "# ADR-0001: X".into();
    assert_eq!(serialize_markdown(&adr).unwrap(), "# ADR-0001: X\n");
    adr.body = "# ADR-0001: X\n".into();
    assert_eq!(serialize_markdown(&adr).unwrap(), "# ADR-0001: X\n");
}

#[test]
fn rewrite_status_adds_a_missing_value_line_before_the_next_heading() {
    let doc = "# ADR-0001: X\n\n## Status\n\n## Context\n\nBody.\n";
    assert_eq!(
        rewrite_status(doc, Status::Accepted, None),
        "# ADR-0001: X\n\n## Status\n\nAccepted\n## Context\n\nBody.\n"
    );
    let once = rewrite_status(doc, Status::Accepted, None);
    assert_eq!(rewrite_status(&once, Status::Accepted, None), once);
    assert_eq!(parse_markdown_section_status(&once), Some(Status::Accepted));
}

#[test]
fn rewrite_review_by_keeps_to_the_status_region() {
    let doc = "# ADR-0001: X\n\n## Status\n\nProposed\n\n## Context\n\nReview by the security team first.\n";
    assert_eq!(rewrite_review_by(doc, None), doc);
    let d: ReviewBy = "2026-07-01".parse().unwrap();
    assert_eq!(
        rewrite_review_by(doc, Some(d)),
        "# ADR-0001: X\n\n## Status\n\nProposed\nReview by: 2026-07-01\n\n## Context\n\nReview by the security team first.\n"
    );
    let no_value = "# ADR-0001: X\n\n## Status\n\n## Context\n\nx\n";
    assert_eq!(
        rewrite_review_by(no_value, Some(d)),
        "# ADR-0001: X\n\n## Status\n\nReview by: 2026-07-01\n## Context\n\nx\n"
    );
}
