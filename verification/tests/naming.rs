use adroit::naming::{AdrRef, NamingScheme, Scope};
use adroit::template::CalDate;

fn date(year: i32, month: u8, day: u8) -> CalDate {
    CalDate { year, month, day }
}

fn uuid() -> u128 {
    0x1234_5678_9abc_def0_1234_5678_9abc_def0
}

#[test]
fn scope_and_is_numeric() {
    assert_eq!(NamingScheme::Sequential.scope(), Scope::Global);
    assert_eq!(NamingScheme::Date.scope(), Scope::Global);
    assert_eq!(NamingScheme::PerCategory.scope(), Scope::PerDir);
    assert!(NamingScheme::Sequential.is_numeric());
    assert!(!NamingScheme::PerCategory.is_numeric());
    assert!(!NamingScheme::Date.is_numeric());
    assert!(!NamingScheme::Uuid.is_numeric());
}

#[test]
fn uuid_display_tolerates_multibyte_slug() {
    let s = NamingScheme::Uuid;
    assert_eq!(s.display(&AdrRef::Slug("123456789abcdef0".into())), "ADR-12345678");
    let _ = s.display(&AdrRef::Slug("a𐀀𐀀".into()));
    assert_eq!(s.display(&AdrRef::Slug("éè".into())), "ADR-éè");
}

#[test]
fn ref_in_note_resolves_link_and_bare_token() {
    let seq = NamingScheme::Sequential;
    assert_eq!(seq.ref_in_note(" [ADR-0006](../accepted/0006-adopt-adrs.md)"), Some(AdrRef::Number(6)));
    assert_eq!(seq.ref_in_note(" ADR-0006"), Some(AdrRef::Number(6)));

    let date = NamingScheme::Date;
    assert_eq!(date.ref_in_note(" [20260601-x](../accepted/20260601-x.md)"), Some(AdrRef::Slug("20260601-x".into())));
    assert_eq!(date.ref_in_note(" 20260601-x"), Some(AdrRef::Slug("20260601-x".into())));
}

#[test]
fn addr_round_trips_through_parse_ref() {
    let seq = NamingScheme::Sequential;
    let r = AdrRef::Number(9);
    assert_eq!(r.addr(), "9");
    assert_eq!(seq.parse_ref(&r.addr()), Some(r));

    let date = NamingScheme::Date;
    let r = AdrRef::Slug("20260601-x".into());
    assert_eq!(r.addr(), "20260601-x");
    assert_eq!(date.parse_ref(&r.addr()), Some(r));
}

#[test]
fn parse_ref_accepts_human_input() {
    let seq = NamingScheme::Sequential;
    assert_eq!(seq.parse_ref("9"), Some(AdrRef::Number(9)));
    assert_eq!(seq.parse_ref("0009"), Some(AdrRef::Number(9)));
    assert_eq!(seq.parse_ref("ADR-0009"), Some(AdrRef::Number(9)));
    assert_eq!(seq.parse_ref("  12 "), Some(AdrRef::Number(12)));
    assert_eq!(seq.parse_ref("nope"), None);

    let date = NamingScheme::Date;
    assert_eq!(date.parse_ref("20260601-adopt-x"), Some(AdrRef::Slug("20260601-adopt-x".into())));
    assert_eq!(date.parse_ref("20260601-adopt-x.md"), Some(AdrRef::Slug("20260601-adopt-x".into())));
}

#[test]
fn per_category_composite_identity() {
    let s = NamingScheme::PerCategory;
    assert_eq!(s.scope(), Scope::PerDir);
    assert!(!s.is_numeric());

    assert_eq!(s.assign_in_category("data", &[1, 2]), AdrRef::Slug("data/0003".into()));
    assert_eq!(s.assign_in_category("infra", &[]), AdrRef::Slug("infra/0001".into()));

    let r = AdrRef::Slug("data/0003".into());
    assert_eq!(s.filename(&r, "Use Kafka!"), "0003-use-kafka.md");
    assert_eq!(s.display(&r), "data/0003");
    assert_eq!(s.heading(&r, "Use Kafka"), "# ADR-0003: Use Kafka");
    assert_eq!(s.parse("repo/data/0003-use-kafka.md", "# ADR-0003: Use Kafka\n"), Some(AdrRef::Slug("data/0003".into())));
    assert_eq!(s.parse_ref("data/3"), Some(AdrRef::Slug("data/0003".into())));
    assert_eq!(s.ref_in_link("../infra/0001-use-terraform.md"), Some(AdrRef::Slug("infra/0001".into())));
}

#[test]
fn heading_is_identity_shaped() {
    assert_eq!(NamingScheme::Sequential.heading(&AdrRef::Number(9), "Adopt X"), "# ADR-0009: Adopt X");
    assert_eq!(NamingScheme::Date.heading(&AdrRef::Slug("20260601-adopt-x".into()), "Adopt X"), "# Adopt X");
}

#[test]
fn sequential_names_links_and_parses() {
    let s = NamingScheme::Sequential;
    let r = AdrRef::Number(9);
    assert_eq!(s.filename(&r, "Adopt Crossplane!"), "0009-adopt-crossplane.md");
    assert_eq!(s.display(&r), "ADR-0009");
    assert_eq!(s.link_label(&r), "ADR-0009");
    assert_eq!(s.ref_in_link("../accepted/0009-adopt-crossplane.md"), Some(AdrRef::Number(9)));
    assert_eq!(s.parse("proposed/0009-x.md", "# ADR-0009: X\n"), Some(AdrRef::Number(9)));
    assert_eq!(s.parse("0007-x.md", "# X\n"), Some(AdrRef::Number(7)));
}

#[test]
fn date_and_uuid_names_links_and_parses() {
    let s = NamingScheme::Date;
    let r = AdrRef::Slug("20260601-adopt-crossplane".into());
    assert_eq!(s.filename(&r, "ignored"), "20260601-adopt-crossplane.md");
    assert_eq!(s.display(&r), "20260601-adopt-crossplane");
    assert_eq!(s.ref_in_link("../accepted/20260601-adopt-crossplane.md"), Some(r.clone()));
    assert_eq!(s.parse("x/20260601-adopt-crossplane.md", ""), Some(r.clone()));

    let u = NamingScheme::Uuid;
    let r = AdrRef::Slug("123456789abcdef0123456789abcdef0".into());
    assert_eq!(u.filename(&r, "Adopt Crossplane"), "123456789abcdef0123456789abcdef0-adopt-crossplane.md");
    assert_eq!(u.display(&r), "ADR-12345678");
    assert_eq!(u.parse("x/123456789abcdef0123456789abcdef0-adopt-crossplane.md", ""), Some(r.clone()));
    assert!(u.ref_matches(&r, &AdrRef::Slug("12345678".into())));
    assert!(!u.ref_matches(&r, &AdrRef::Slug("ffff".into())));
}

#[test]
fn sequential_round_trip() {
    let s = NamingScheme::Sequential;
    let existing = [AdrRef::Number(1), AdrRef::Number(4)];
    assert_eq!(s.assign(&existing, "x", date(2026, 6, 1), uuid()), AdrRef::Number(5));
    let r = AdrRef::Number(9);
    assert_eq!(s.filename(&r, "Adopt Crossplane!"), "0009-adopt-crossplane.md");
    assert_eq!(s.display(&r), "ADR-0009");
    assert_eq!(s.link_label(&r), "ADR-0009");
    assert_eq!(s.ref_in_link("../accepted/0009-adopt-crossplane.md"), Some(AdrRef::Number(9)));
    assert_eq!(s.parse("proposed/0009-x.md", "# ADR-0009: X\n"), Some(AdrRef::Number(9)));
    // Falls back to the filename number when the heading lacks one.
    assert_eq!(s.parse("0007-x.md", "# X\n"), Some(AdrRef::Number(7)));
}

#[test]
fn date_scheme_is_collision_free_and_dedups() {
    let s = NamingScheme::Date;
    let r = s.assign(&[], "Adopt Crossplane", date(2026, 6, 1), uuid());
    assert_eq!(r, AdrRef::Slug("20260601-adopt-crossplane".into()));
    assert_eq!(s.filename(&r, "ignored"), "20260601-adopt-crossplane.md");
    assert_eq!(s.display(&r), "20260601-adopt-crossplane");
    assert_eq!(
        s.ref_in_link("../accepted/20260601-adopt-crossplane.md"),
        Some(AdrRef::Slug("20260601-adopt-crossplane".into()))
    );
    assert_eq!(
        s.parse("x/20260601-adopt-crossplane.md", ""),
        Some(AdrRef::Slug("20260601-adopt-crossplane".into()))
    );
    // Same day + title: suffixed, so it never collides.
    let dup = s.assign(&[r], "Adopt Crossplane", date(2026, 6, 1), uuid());
    assert_eq!(dup, AdrRef::Slug("20260601-adopt-crossplane-2".into()));
}

#[test]
fn date_scheme_takes_the_first_free_suffix() {
    let s = NamingScheme::Date;
    let taken = [
        AdrRef::Slug("20260601-x".into()),
        AdrRef::Slug("20260601-x-2".into()),
        AdrRef::Slug("20260601-x-4".into()),
        AdrRef::Number(3),
    ];
    assert_eq!(s.assign(&taken, "X", date(2026, 6, 1), uuid()), AdrRef::Slug("20260601-x-3".into()));
}

#[test]
fn uuid_scheme() {
    let s = NamingScheme::Uuid;
    let r = s.assign(&[], "Adopt Crossplane", date(2026, 6, 1), uuid());
    assert_eq!(r, AdrRef::Slug("123456789abcdef0123456789abcdef0".into()));
    assert_eq!(s.filename(&r, "Adopt Crossplane"), "123456789abcdef0123456789abcdef0-adopt-crossplane.md");
    assert_eq!(s.display(&r), "ADR-12345678");
    assert_eq!(s.parse("x/123456789abcdef0123456789abcdef0-adopt-crossplane.md", ""), Some(r.clone()));
    assert!(s.ref_matches(&r, &AdrRef::Slug("12345678".into())));
    assert!(!s.ref_matches(&r, &AdrRef::Slug("ffff".into())));
}
