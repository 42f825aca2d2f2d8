use adroit::adr::{Adr, ReviewBy, Status};
use adroit::format::parse_markdown;
use adroit::naming::NamingScheme;
use adroit::history::HistoryEvent;
use adroit::naming::AdrRef;
use adroit::query::{same_title_positions, stats, detail_of, related_links, search, summaries, summary_of, timeline_event, Dated, EdgeKind, Filter, Sort};
use adroit::template::CalDate;

fn day(year: i32, month: u8, day: u8) -> CalDate {
    CalDate { year, month, day }
}

fn dated(doc: &str, dir: Status) -> Dated {
    Dated {
        adr: parse_markdown(doc, Some(dir), NamingScheme::Sequential).unwrap(),
        created: Some("2026-01-01T00:00:00Z".to_string()),
        created_date: day(2026, 1, 1),
        created_at: 1_767_225_600_000_000_000,
    }
}

fn seed() -> Vec<Dated> {
    vec![
        dated("# ADR-0001: Use Postgres\n\n## Status\n\nAccepted\n\n## Context\n\nWe need a database.\n", Status::Accepted),
        dated("# ADR-0002: Use Redis\n\n## Status\n\nProposed\n\n## Context\n\nWe need a cache for sessions.\n", Status::Proposed),
        dated(
            "# ADR-0003: Adopt GraphQL\n\n## Status\n\nProposed\n\n## Context\n\nSee [ADR-0001](../accepted/0001-use-postgres.md).\n",
            Status::Proposed,
        ),
    ]
}

const SEQ: NamingScheme = NamingScheme::Sequential;

fn today() -> CalDate {
    day(2026, 6, 1)
}

#[test]
fn summaries_returns_all_by_default() {
    let rows = summaries(&seed(), &Filter::default(), today(), None, SEQ);
    assert_eq!(rows.len(), 3);
    assert_eq!(rows[0].number, Some(1));
    assert_eq!(rows[2].number, Some(3));
    assert_eq!(rows[0].number_display, "0001");
}

#[test]
fn summaries_filters_by_status() {
    let filter = Filter { status: Some(Status::Proposed), ..Default::default() };
    let rows = summaries(&seed(), &filter, today(), None, SEQ);
    assert_eq!(rows.len(), 2);
    assert!(rows.iter().all(|r| r.status == Status::Proposed));
}

#[test]
fn summaries_sort_number_desc() {
    let filter = Filter { status: None, sort: Sort::NumberDesc };
    let rows = summaries(&seed(), &filter, today(), None, SEQ);
    assert_eq!(rows[0].number, Some(3));
    assert_eq!(rows[2].number, Some(1));
}

#[test]
fn summaries_sort_title_asc() {
    let filter = Filter { status: None, sort: Sort::TitleAsc };
    let rows = summaries(&seed(), &filter, today(), None, SEQ);
    assert_eq!(rows[0].title, "Adopt GraphQL");
    assert_eq!(rows[1].title, "Use Postgres");
    assert_eq!(rows[2].title, "Use Redis");
}

#[test]
fn summaries_sort_created_newest_first_with_undated_last() {
    let mut rows = seed();
    rows[0].created = Some("2026-03-01T00:00:00Z".to_string());
    rows[1].created = None;
    rows[2].created = Some("2026-05-01T00:00:00Z".to_string());
    let filter = Filter { status: None, sort: Sort::CreatedDesc };
    let out = summaries(&rows, &filter, today(), None, SEQ);
    let order: Vec<_> = out.iter().map(|r| r.number).collect();
    assert_eq!(order, vec![Some(3), Some(1), Some(2)]);
}

#[test]
fn search_is_case_insensitive_over_title_and_body() {
    let by_title = search(&seed(), "REDIS", today(), None, SEQ);
    assert_eq!(by_title.len(), 1);
    assert_eq!(by_title[0].title, "Use Redis");
    let by_body = search(&seed(), "database", today(), None, SEQ);
    assert_eq!(by_body.len(), 1);
    assert_eq!(by_body[0].number, Some(1));
    assert!(search(&seed(), "nonexistent-term", today(), None, SEQ).is_empty());
}

#[test]
fn summary_row_carries_identity_and_supersession() {
    let d = dated(
        "# ADR-0006: Adopt ADRs\n\n## Status\n\nAccepted\n\nSupersedes [ADR-0002](../superseded/0002-adopt-adrs.md)\n",
        Status::Accepted,
    );
    let s = summary_of(&d.adr, &d.created, d.created_date, today(), None, SEQ);
    assert_eq!(s.reference, "ADR-0006");
    assert_eq!(s.address, "6");
    assert_eq!(s.supersedes, vec!["ADR-0002".to_string()]);
    assert_eq!(s.superseded_by, None);
    assert_eq!(s.created.as_deref(), Some("2026-01-01T00:00:00Z"));
    let loose = Adr::new("No number").unwrap();
    assert_eq!(summary_of(&loose, &None, today(), today(), None, SEQ).number_display, "????");
}

#[test]
fn review_due_flags_stale_proposed_even_without_a_deadline() {
    let mut adr = Adr::new("Aging proposal").unwrap();
    adr.status = Status::Proposed;
    let old = day(2026, 4, 22);
    let recent = day(2026, 5, 28);
    assert!(summary_of(&adr, &None, old, today(), Some(30), SEQ).review_due);
    assert!(!summary_of(&adr, &None, old, today(), None, SEQ).review_due);
    assert!(!summary_of(&adr, &None, recent, today(), Some(30), SEQ).review_due);
    adr.status = Status::Accepted;
    assert!(!summary_of(&adr, &None, old, today(), Some(30), SEQ).review_due);
}

#[test]
fn review_due_counts_a_past_or_same_day_deadline() {
    let mut adr = Adr::new("Deadline").unwrap();
    adr.review_by = Some(ReviewBy { year: 2026, month: 6, day: 1 });
    assert!(summary_of(&adr, &None, today(), today(), None, SEQ).review_due);
    adr.review_by = Some(ReviewBy { year: 2026, month: 6, day: 2 });
    assert!(!summary_of(&adr, &None, today(), today(), None, SEQ).review_due);
    // Exactly the threshold in days is stale.
    assert!(summary_of(&adr, &None, day(2026, 5, 2), today(), Some(30), SEQ).review_due);
    assert!(!summary_of(&adr, &None, day(2026, 5, 3), today(), Some(30), SEQ).review_due);
}

#[test]
fn detail_includes_raw_body_and_related_links() {
    let rows = seed();
    let d = detail_of(&rows[2], &Vec::new(), None, today(), None, SEQ);
    assert_eq!(d.summary.number, Some(3));
    assert!(d.body.contains("See [ADR-0001]"));
    assert!(d.body_html.is_none());
    assert_eq!(d.related.len(), 1);
    assert_eq!(d.related[0].reference, "ADR-0001");
    assert_eq!(d.related[0].address, "1");
    assert_eq!(d.related[0].kind, EdgeKind::Related);
    assert!(d.history.is_empty());
    assert_eq!(d.last_modified, None);
}

#[test]
fn related_links_prefer_specific_kinds_and_skip_self() {
    let mut a = parse_markdown(
        "# ADR-0007: Seven\n\n## Status\n\nAccepted\n\nSupersedes [ADR-0002](0002-two.md)\n\nSee [two](0002-two.md), [me](0007-seven.md), [four](0004-four.md).\n",
        Some(Status::Accepted),
        SEQ,
    )
    .unwrap();
    a.depends_on = vec![AdrRef::Number(4), AdrRef::Number(4)];
    let links = related_links(&a, SEQ);
    let got: Vec<_> = links.iter().map(|l| (l.reference.as_str(), l.address.as_str(), l.kind)).collect();
    assert_eq!(got, vec![("ADR-0002", "2", EdgeKind::Supersedes), ("ADR-0004", "4", EdgeKind::DependsOn)]);
}

#[test]
fn timeline_event_formats_the_instant_as_rfc3339() {
    let e = HistoryEvent { date: 0, status: Status::Accepted, commit: "abc1234".into(), subject: "accept".into() };
    let t = timeline_event(&e);
    assert_eq!(t.date, "1970-01-01T00:00:00Z");
    assert_eq!(t.label, "Accepted");
    assert_eq!(t.commit, "abc1234");
    let later = HistoryEvent { date: 86_400_000_000_000, ..e };
    assert_eq!(timeline_event(&later).date, "1970-01-02T00:00:00Z");
}

#[test]
fn stats_counts_by_status_and_total() {
    let now = 1_767_225_600_000_000_000 + 10 * 86_400_000_000_000;
    let s = stats(&seed(), now, today(), None, SEQ);
    assert_eq!(s.total, 3);
    let count = |status: Status| s.by_status.iter().find(|c| c.status == status).map(|c| c.count).unwrap();
    assert_eq!(count(Status::Accepted), 1);
    assert_eq!(count(Status::Proposed), 2);
    assert_eq!(count(Status::Rejected), 0);
    assert_eq!(s.proposed_age.len(), 2);
    assert_eq!(s.proposed_age[0].age_days, Some(10));
    assert!(s.review_due.is_empty());
    assert_eq!(s.by_status.len(), 5);
    assert_eq!(s.by_status[0].status, Status::Proposed);
    assert_eq!(s.created_over_time.len(), 1);
    assert_eq!(s.created_over_time[0].month, "2026-01");
    assert_eq!(s.created_over_time[0].count, 3);
}

#[test]
fn stats_flags_past_due_proposed_and_excludes_accepted() {
    let rows = vec![
        dated("# ADR-0001: Past due\n\n## Status\n\nProposed\n\nReview by: 2000-01-01\n", Status::Proposed),
        dated("# ADR-0002: Accepted old\n\n## Status\n\nAccepted\n\nReview by: 2000-01-01\n", Status::Accepted),
        dated("# ADR-0003: Future\n\n## Status\n\nProposed\n\nReview by: 2036-05-29\n", Status::Proposed),
    ];
    let s = stats(&rows, 1_767_225_600_000_000_000, today(), None, SEQ);
    assert_eq!(s.review_due.len(), 1);
    assert_eq!(s.review_due[0].number, Some(1));
}

#[test]
fn stats_orders_proposals_oldest_first_and_months_ascending() {
    let mut rows = seed();
    rows[1].created_at = 0;
    rows[1].created_date = day(1970, 1, 1);
    rows[2].created_date = day(2025, 12, 31);
    let now = 1_767_225_600_000_000_000;
    let s = stats(&rows, now, today(), None, SEQ);
    let order: Vec<_> = s.proposed_age.iter().map(|p| p.number).collect();
    assert_eq!(order, vec![Some(2), Some(3)]);
    assert_eq!(s.proposed_age[0].age_days, Some(20454));
    let months: Vec<_> = s.created_over_time.iter().map(|b| (b.month.as_str(), b.count)).collect();
    assert_eq!(months, vec![("1970-01", 1), ("2025-12", 1), ("2026-01", 1)]);
}

#[test]
fn same_title_matches_trimmed_titles_ignoring_case() {
    let rows = summaries(&seed(), &Filter::default(), today(), None, SEQ);
    let title = rows[0].title.clone();
    let shouted = format!("  {}  ", title.to_uppercase());
    assert_eq!(same_title_positions(&rows, &shouted), vec![0]);
    assert!(same_title_positions(&rows, "A title nobody used").is_empty());
}
