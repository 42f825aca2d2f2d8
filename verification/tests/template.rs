use adroit::adr::{Number, Status};
use adroit::naming::{AdrRef, NamingScheme};
use adroit::template::{
    builtin, candidates, format_review_date, next_business_day, render, render_kickoff, resolve, review_window,
    CalDate, KickoffParams, TemplateError, TemplateSource, MADR, NYGARD, REVIEW_KICKOFF,
};

#[test]
fn render_fills_placeholders() {
    let out = render(MADR, NamingScheme::Sequential, &AdrRef::Number(7), "Use PostgreSQL", Status::Proposed, "2026-05-30");
    assert!(out.starts_with("# ADR-0007: Use PostgreSQL\n"));
    assert!(out.contains("> State: Proposed"));
    assert!(out.contains("\n## Status\n\nProposed\n"));
    assert!(out.ends_with('\n'));
}

#[test]
fn nygard_has_three_sections() {
    let out = render(NYGARD, NamingScheme::Sequential, &AdrRef::Number(1), "T", Status::Proposed, "2026-01-01");
    assert!(out.contains("## Context"));
    assert!(out.contains("## Decision"));
    assert!(out.contains("## Consequences"));
}

#[test]
fn render_date_scheme_uses_plain_heading() {
    let out = render(
        NYGARD,
        NamingScheme::Date,
        &AdrRef::Slug("20260530-use-postgresql".into()),
        "Use PostgreSQL",
        Status::Proposed,
        "2026-05-30",
    );
    assert!(out.starts_with("# Use PostgreSQL\n"));
    assert!(out.contains("## Status"));
}

#[test]
fn builtin_lookup() {
    assert!(builtin("madr").is_some());
    assert!(builtin("MADR").is_some());
    assert!(builtin("nygard").is_some());
    assert!(builtin("nope").is_none());
}

#[test]
fn render_adds_final_newline_and_fills_number_and_date() {
    let out = render("{{number}} {{date}} {{title}}", NamingScheme::Sequential, &AdrRef::Number(3), "X", Status::Accepted, "2026-01-02");
    assert_eq!(out, "0003 2026-01-02 X\n");
    let out = render("{{status}}\n", NamingScheme::Date, &AdrRef::Slug("s".into()), "X", Status::Rejected, "d");
    assert_eq!(out, "Rejected\n");
}

#[test]
fn resolve_follows_the_documented_order() {
    let files = vec!["custom.md".to_string(), "t/team.md".to_string(), "repo/adr-template.md".to_string()];
    assert_eq!(resolve("custom.md", None, "repo", &files), Ok(TemplateSource::File("custom.md".into())));
    assert_eq!(resolve("team", Some("t"), "repo", &files), Ok(TemplateSource::File("t/team.md".into())));
    assert_eq!(resolve("madr", Some("t"), "repo", &files), Ok(TemplateSource::Builtin(MADR)));
    assert_eq!(resolve("does-not-exist", None, "repo", &files), Ok(TemplateSource::File("repo/adr-template.md".into())));
    assert_eq!(resolve("does-not-exist", None, "elsewhere", &files), Err(TemplateError::NotFound("does-not-exist".into())));
    assert_eq!(candidates("team", Some("t"), "repo"), vec!["team".to_string(), "t/team.md".to_string(), "repo/adr-template.md".to_string()]);
}

// ---- review kickoff ----

fn date(year: i32, month: u8, day: u8) -> CalDate {
    CalDate { year, month, day }
}

#[test]
fn review_window_skips_weekends() {
    let w = review_window(date(2026, 5, 21), 3).unwrap();
    assert_eq!(w.start, date(2026, 5, 21));
    assert_eq!(w.end, date(2026, 5, 26));
    assert_eq!(w.decision, date(2026, 5, 27));
}

#[test]
fn review_window_five_days_thu_to_thu() {
    let w = review_window(date(2026, 5, 21), 5).unwrap();
    assert_eq!(w.end, date(2026, 5, 28));
    assert_eq!(w.decision, date(2026, 5, 29));
}

#[test]
fn review_window_zero_days() {
    let w = review_window(date(2026, 5, 21), 0).unwrap();
    assert_eq!(w.end, w.start);
    assert_eq!(w.decision, date(2026, 5, 22));
}

#[test]
fn review_window_friday_start_rolls_over_weekend() {
    let w = review_window(date(2026, 5, 22), 1).unwrap();
    assert_eq!(w.end, date(2026, 5, 25));
    assert_eq!(w.decision, date(2026, 5, 26));
}

#[test]
fn next_business_day_skips_saturday() {
    assert_eq!(next_business_day(date(2026, 5, 22)), Some(date(2026, 5, 25)));
}

#[test]
fn next_business_day_crosses_month_and_year_ends() {
    // Fri 2026-01-30 -> Mon 2026-02-02; Thu 2026-12-31 -> Fri 2027-01-01.
    assert_eq!(next_business_day(date(2026, 1, 30)), Some(date(2026, 2, 2)));
    assert_eq!(next_business_day(date(2026, 12, 31)), Some(date(2027, 1, 1)));
    // 2024 is a leap year: Wed 2024-02-28 -> Thu 2024-02-29.
    assert_eq!(next_business_day(date(2024, 2, 28)), Some(date(2024, 2, 29)));
}

#[test]
fn next_business_day_stops_at_the_end_of_the_calendar() {
    assert_eq!(next_business_day(date(9999, 12, 31)), None);
    assert!(review_window(date(9999, 12, 30), 5).is_none());
}

#[test]
fn format_review_date_matches_artifact() {
    assert_eq!(format_review_date(date(2026, 5, 21)), "Thu May 21");
    assert_eq!(format_review_date(date(2026, 5, 28)), "Thu May 28");
    assert_eq!(format_review_date(date(2026, 1, 5)), "Mon Jan 05");
}

#[test]
fn render_kickoff_fills_placeholders() {
    let window = review_window(date(2026, 5, 21), 3).unwrap();
    let params = KickoffParams {
        number: Number::new(15),
        title: "Cluster Templates",
        date: "2026-05-21",
        adr_path: "../proposed/0015-cluster-templates.md",
        window,
        quorum: 3,
    };
    let out = render_kickoff(REVIEW_KICKOFF, &params);
    assert!(out.starts_with("# 2026-05-21 — ADR-0015 Review Kickoff\n"));
    assert!(out.contains("ADR-0015 (Cluster Templates)"));
    assert!(out.contains("## What you're being asked to do"));
    assert!(out.contains("[TODO: one-paragraph decision summary]"));
    assert!(out.contains("[Read the ADR](../proposed/0015-cluster-templates.md)"));
    assert!(out.contains("[Read the README](../README.md)"));
    assert!(out.contains("[Read the guide](../../guides/adr-review-process.md)"));
    assert!(out.contains("**Review period:** Thu May 21 – Tue May 26"));
    assert!(out.contains("**Quorum:** 3 team members must approve"));
    assert!(out.contains("### What happens on Wed May 27"));
    assert!(out.contains("<summary>What the MR changes</summary>"));
    assert!(out.contains("[TODO: tracking issue]"));
    assert!(out.contains("[TODO: decider] decides"));
    assert!(out.ends_with('\n'));
}
