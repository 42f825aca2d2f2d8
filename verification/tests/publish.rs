use adroit::forge_hook::ForgeFlags;
use adroit::publish::{index_markdown, IndexEntry, PublishReport};

#[test]
fn index_lists_each_published_adr() {
    let entries = vec![
        IndexEntry { reference: "ADR-0001".into(), title: "Use PG".into(), file: "0001-use-pg.md".into() },
        IndexEntry { reference: "ADR-0004".into(), title: "Cache".into(), file: "0004-cache.md".into() },
    ];
    assert_eq!(
        index_markdown(&entries),
        "# Decision log\n\nPublished accepted ADRs.\n\n- [ADR-0001: Use PG](0001-use-pg.md)\n- [ADR-0004: Cache](0004-cache.md)\n"
    );
    assert_eq!(index_markdown(&[]), "# Decision log\n\nPublished accepted ADRs.\n\n");
}

#[test]
fn report_counts_what_it_records() {
    let mut r = PublishReport::new("site".into());
    r.record("Use PG".into(), "0001-use-pg.md".into());
    assert_eq!(r.written, 1);
    assert_eq!(r.files, vec![("Use PG".to_string(), "0001-use-pg.md".to_string())]);
    assert_eq!(r.out, "site");
}

#[test]
fn forge_flags_default_off() {
    let f = ForgeFlags::default();
    assert!(!f.enabled && !f.dry_run && !f.yes);
}
