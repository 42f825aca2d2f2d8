use adroit::adr::{Number, Status};
use adroit::config::{Layout};
use adroit::format::Format;
use adroit::naming::{AdrRef, NamingScheme};
use adroit::template::CalDate;
use adroit::adr::Adr;
use adroit::store::{
    LinkKind,
    renumber_texts, detected_layout, filename, format_of_content, is_adr_file, number_from_filename, Detected, MigrateReport, Store,
    StoreError, StoreOptions,
};

#[test]
fn filename_format() {
    assert_eq!(filename(Number::new(1), "Use PostgreSQL for persistence"), "0001-use-postgresql-for-persistence.md");
}

#[test]
fn filename_zero_pads() {
    assert_eq!(filename(Number::new(42), "Test"), "0042-test.md");
}

#[test]
fn filename_strips_punctuation() {
    assert_eq!(filename(Number::new(3), "Hello, World! (v2)"), "0003-hello-world-v2.md");
}

#[test]
fn filename_without_words_is_bare_number() {
    assert_eq!(filename(Number::new(7), "!!!"), "0007.md");
}

#[test]
fn open_missing_directory_errors() {
    let result = Store::open("/tmp/adroit-does-not-exist");
    assert!(result.is_err());
    assert_eq!(result.unwrap_err(), StoreError::NotFound("/tmp/adroit-does-not-exist".into()));
}

#[test]
fn number_and_adr_file_recognition() {
    assert_eq!(number_from_filename("proposed/0006-foo.md"), Some(Number::new(6)));
    assert_eq!(number_from_filename("README.md"), None);
    assert!(is_adr_file("accepted/0001-x.md"));
    assert!(!is_adr_file("accepted/readme.MD"));
    assert!(!is_adr_file("adr-template.md"));
    assert!(!is_adr_file("notes.txt"));
    assert!(!is_adr_file(".md"));
}

#[test]
fn status_dirs_and_lookup() {
    let store = Store::at("/r", StoreOptions::default());
    assert_eq!(store.status_dir(Status::Accepted), "/r/accepted");
    assert_eq!(store.category_dir("data"), "/r/data");
    assert_eq!(store.dir_status("/r/Accepted/0001-x.md"), Some(Status::Accepted));
    assert_eq!(store.dir_status("/r/misc/0001-x.md"), None);
    let flat = Store::at("/r", StoreOptions::flat_frontmatter());
    assert_eq!(flat.status_dir(Status::Accepted), "/r");
    assert_eq!(flat.dir_status("/r/accepted/0001-x.md"), None);
    assert!(store.is_status_dir_name("SUPERSEDED"));
}

#[test]
fn find_and_next_number() {
    let store = Store::at("/r", StoreOptions::default());
    let files = vec!["/r/accepted/0001-a.md".to_string(), "/r/proposed/0004-b.md".to_string()];
    assert_eq!(store.find_path_by_number(Number::new(4), &files), Ok("/r/proposed/0004-b.md".to_string()));
    assert_eq!(store.find_path_by_number(Number::new(9), &files), Err(StoreError::NumberNotFound(Number::new(9))));
    assert_eq!(store.next_number(&files), Number::new(5));
    assert_eq!(store.next_number(&[]), Number::new(1));
    assert_eq!(store.find_path_by_ref(&AdrRef::Number(1), &files), Ok("/r/accepted/0001-a.md".to_string()));
    assert_eq!(
        store.find_path_by_ref(&AdrRef::Number(2), &files),
        Err(StoreError::Parse("no ADR found with id ADR-0002".into()))
    );
    let mut opts = StoreOptions::default();
    opts.naming = NamingScheme::PerCategory;
    let cat = Store::at("/r", opts);
    assert_eq!(cat.next_ref_in_category("data", &["/r/data/0002-x.md".to_string()]), AdrRef::Slug("data/0003".into()));
}

#[test]
fn profile_mismatch_explains_layout_and_format() {
    let store = Store::at("/r", StoreOptions::flat_frontmatter());
    let d = Detected { layout: Some(Layout::ByStatus), format: Some(Format::Markdown) };
    let m = store.profile_mismatch(&d).unwrap();
    assert!(m.starts_with("this ADR directory is laid out as `by_status` but configured for `flat`, and written as `markdown` but configured for `frontmatter`."));
    assert!(store.profile_mismatch(&Detected { layout: None, format: Some(Format::Frontmatter) }).is_none());
    assert_eq!(detected_layout(false, true, true), Some(Layout::ByCategory));
    assert_eq!(detected_layout(false, false, false), None);
    assert_eq!(format_of_content("\n---\ntitle: x\n"), Format::Frontmatter);
    assert_eq!(format_of_content("# ADR-0001: X\n"), Format::Markdown);
    let r = MigrateReport { layout_change: None, format_change: None, files: 0, moves: vec![], applied: false, links_rewritten: 0 };
    assert!(r.is_noop());
}

fn flat_at(root: &str) -> Store {
    let mut opts = StoreOptions::default();
    opts.layout = Layout::Flat;
    Store::at(root, opts)
}

#[test]
fn migrate_by_status_to_flat_moves_files_and_is_idempotent() {
    let flat = flat_at("/r");
    let detected = Detected { layout: Some(Layout::ByStatus), format: Some(Format::Markdown) };
    let entries = vec![
        ("/r/proposed/0001-one.md".to_string(), Status::Proposed),
        ("/r/accepted/0002-two.md".to_string(), Status::Accepted),
    ];
    let report = flat.plan_migration(&detected, &entries).unwrap();
    assert!(!report.applied);
    assert_eq!(report.layout_change, Some((Layout::ByStatus, Layout::Flat)));
    assert_eq!(report.files, 2);
    assert_eq!(
        report.moves,
        vec![
            ("proposed/0001-one.md".to_string(), "0001-one.md".to_string()),
            ("accepted/0002-two.md".to_string(), "0002-two.md".to_string()),
        ]
    );
    // Once the directory matches, a second plan is a no-op.
    let now = Detected { layout: Some(Layout::Flat), format: Some(Format::Markdown) };
    assert!(flat.plan_migration(&now, &[("/r/0001-one.md".to_string(), Status::Proposed)]).unwrap().is_noop());
}

#[test]
fn migrate_filename_collision_is_refused() {
    let flat = flat_at("/r");
    let detected = Detected { layout: Some(Layout::ByStatus), format: Some(Format::Markdown) };
    let entries = vec![
        ("/r/proposed/0009-dup.md".to_string(), Status::Proposed),
        ("/r/accepted/0009-dup.md".to_string(), Status::Accepted),
    ];
    match flat.plan_migration(&detected, &entries) {
        Err(StoreError::Parse(m)) => assert_eq!(
            m,
            "migration would collide: /r/proposed/0009-dup.md and /r/accepted/0009-dup.md both map to /r/0009-dup.md"
        ),
        other => panic!("unexpected {other:?}"),
    }
}

#[test]
fn migrate_to_or_from_by_category_is_refused() {
    let mut opts = StoreOptions::default();
    opts.layout = Layout::ByCategory;
    let by_cat = Store::at("/r", opts);
    let detected = Detected { layout: Some(Layout::ByStatus), format: None };
    assert!(matches!(by_cat.plan_migration(&detected, &[]), Err(StoreError::Parse(_))));
    let same = Detected { layout: Some(Layout::ByCategory), format: None };
    assert!(by_cat.plan_migration(&same, &[]).unwrap().is_noop());
}

fn files(list: &[&str]) -> Vec<String> {
    list.iter().map(|s| s.to_string()).collect()
}

#[test]
fn renumber_plan_renames_and_relabels() {
    let store = flat_at("/r");
    let fs = files(&["/r/0001-a.md", "/r/0003-b.md"]);
    let plan = store.plan_renumber(Number::new(3), Number::new(12), None, &fs).unwrap();
    assert_eq!(plan.old_path, "/r/0003-b.md");
    assert_eq!(plan.new_path, "/r/0012-b.md");
    assert_eq!(plan.old_label, "ADR-0003");
    assert_eq!(plan.new_label, "ADR-0012");
}

#[test]
fn renumber_plan_refusals() {
    let store = flat_at("/r");
    let fs = files(&["/r/0001-a.md", "/r/x/0001-dup.md", "/r/0002-b.md"]);
    match store.plan_renumber(Number::new(1), Number::new(9), None, &fs) {
        Err(StoreError::Parse(m)) => {
            assert_eq!(m, "ADR-0001 is ambiguous (2 files) — pass --file <path>: 0001-a.md, x/0001-dup.md")
        }
        other => panic!("unexpected {other:?}"),
    }
    let picked = store.plan_renumber(Number::new(1), Number::new(9), Some("/r/x/0001-dup.md"), &fs).unwrap();
    assert_eq!(picked.new_path, "/r/x/0009-dup.md");
    match store.plan_renumber(Number::new(1), Number::new(9), Some("/r/0002-b.md"), &fs) {
        Err(StoreError::Parse(m)) => assert_eq!(m, "/r/0002-b.md is not an ADR-0001 file"),
        other => panic!("unexpected {other:?}"),
    }
    match store.plan_renumber(Number::new(2), Number::new(1), None, &fs) {
        Err(StoreError::Parse(m)) => assert_eq!(m, "ADR-0001 already exists"),
        other => panic!("unexpected {other:?}"),
    }
    assert!(matches!(
        store.plan_renumber(Number::new(7), Number::new(8), None, &fs),
        Err(StoreError::NumberNotFound(_))
    ));
}

#[test]
fn set_status_moves_to_the_status_directory_and_rewrites_the_section() {
    let store = Store::at("/r", StoreOptions::default());
    let doc = "# ADR-0002: Use Redis\n\n## Status\n\nProposed\n\n## Context\n\nx.\n";
    let m = store.set_status("/r/proposed/0002-use-redis.md", doc, Status::Accepted);
    assert_eq!(m.path, "/r/accepted/0002-use-redis.md");
    assert_eq!(m.content, "# ADR-0002: Use Redis\n\n## Status\n\nAccepted\n\n## Context\n\nx.\n");
}

#[test]
fn set_status_stays_in_place_outside_the_by_status_layout() {
    let store = Store::at("/r", StoreOptions::flat_frontmatter());
    assert_eq!(store.status_target_dir("/r/0001-x.md", Status::Rejected), "/r");
    let m = store.set_status("/r/0001-x.md", "# ADR-0001: X\n\n## Status\n\nProposed\n", Status::Rejected);
    assert_eq!(m.path, "/r/0001-x.md");
}

#[test]
fn supersede_links_the_new_adr_from_the_superseded_directory() {
    let store = Store::at("/r", StoreOptions::default());
    let old = "# ADR-0001: Old\n\n## Status\n\nAccepted\n";
    let m = store.supersede(&AdrRef::Number(2), "/r/accepted/0002-new.md", "/r/accepted/0001-old.md", old);
    assert_eq!(m.path, "/r/superseded/0001-old.md");
    assert_eq!(
        m.content,
        "# ADR-0001: Old\n\n## Status\n\nSuperseded by [ADR-0002](../accepted/0002-new.md)\n"
    );
}

#[test]
fn set_links_ref_adds_once_removes_all_and_needs_frontmatter() {
    let fm = Store::at("/r", StoreOptions::flat_frontmatter());
    let mut adr = Adr::new("X").unwrap();
    fm.set_links_ref(&mut adr, LinkKind::DependsOn, &AdrRef::Number(1), false).unwrap();
    fm.set_links_ref(&mut adr, LinkKind::DependsOn, &AdrRef::Number(1), false).unwrap();
    fm.set_links_ref(&mut adr, LinkKind::DependsOn, &AdrRef::Number(3), false).unwrap();
    assert_eq!(adr.depends_on, vec![AdrRef::Number(1), AdrRef::Number(3)]);
    fm.set_links_ref(&mut adr, LinkKind::DependsOn, &AdrRef::Number(1), true).unwrap();
    assert_eq!(adr.depends_on, vec![AdrRef::Number(3)]);
    let md = Store::at("/r", StoreOptions::default());
    assert!(md.set_links_ref(&mut adr, LinkKind::RelatesTo, &AdrRef::Number(1), false).is_err());
    assert!(adr.relates_to.is_empty());
}

#[test]
fn next_ref_follows_the_naming_scheme() {
    let store = Store::at("/r", StoreOptions::default());
    let today = CalDate { year: 2026, month: 6, day: 1 };
    let existing = vec![AdrRef::Number(3), AdrRef::Number(7)];
    assert_eq!(store.next_ref(&existing, "Anything", today, 0), AdrRef::Number(8));
    assert_eq!(store.next_ref(&[], "Anything", today, 0), AdrRef::Number(1));
}

#[test]
fn set_status_reads_back_as_the_new_status() {
    let store = Store::at("/r", StoreOptions::default());
    let doc = "# ADR-0003: Z\n\n## Status\n\nProposed\n";
    for st in [Status::Accepted, Status::Rejected, Status::Deprecated, Status::Superseded, Status::Proposed] {
        let m = store.set_status("/r/proposed/0003-z.md", doc, st);
        assert_eq!(store.dir_status(&m.path), Some(st));
        let adr = adroit::format::parse_markdown(&m.content, store.dir_status(&m.path), NamingScheme::Sequential).unwrap();
        assert_eq!(adr.status, st);
    }
}

fn md_file(store: &Store, path: &str, content: &str) -> (String, Adr, String) {
    let adr = adroit::format::parse_markdown(content, store.dir_status(path), NamingScheme::Sequential).unwrap();
    (path.to_string(), adr, content.to_string())
}

#[test]
fn relink_dry_run_reports_without_writing() {
    let store = Store::at("/r", StoreOptions::default());
    let a = "# ADR-0001: A\n\n## Status\n\nProposed\n\nSee [ADR-0002](../proposed/0002-b.md).\n";
    let files = vec![
        md_file(&store, "/r/proposed/0001-a.md", a),
        md_file(&store, "/r/accepted/0002-b.md", "# ADR-0002: B\n\n## Status\n\nAccepted\n"),
    ];
    let (report, writes) = store.relink(&files);
    assert_eq!(report.files_changed, 1);
    assert_eq!(files[0].2, a, "planning must not touch the input");
    assert_eq!(writes.len(), 1);
    assert_eq!(writes[0].0, "/r/proposed/0001-a.md");
    assert!(writes[0].1.contains("../accepted/0002-b.md"));
}

#[test]
fn relink_reports_counts_and_is_idempotent() {
    let store = Store::at("/r", StoreOptions::default());
    let a = "# ADR-0001: A\n\n## Status\n\nProposed\n\n[b](../proposed/0002-b.md) and [b2](../proposed/0002-b.md#x)\n";
    let files = vec![
        md_file(&store, "/r/proposed/0001-a.md", a),
        md_file(&store, "/r/accepted/0002-b.md", "# ADR-0002: B\n\n## Status\n\nAccepted\n"),
    ];
    let (report, writes) = store.relink(&files);
    assert_eq!(report.files_changed, 1);
    assert_eq!(report.links_rewritten, 2);
    assert_eq!(report.changed_files, vec!["proposed/0001-a.md".to_string()]);
    assert_eq!(
        writes[0].1,
        "# ADR-0001: A\n\n## Status\n\nProposed\n\n[b](../accepted/0002-b.md) and [b2](../accepted/0002-b.md#x)\n"
    );
    let again = vec![md_file(&store, "/r/proposed/0001-a.md", &writes[0].1), files[1].clone()];
    let (second, w2) = store.relink(&again);
    assert_eq!(second.files_changed, 0);
    assert!(w2.is_empty());
}

#[test]
fn relink_leaves_links_to_a_shared_number_alone() {
    let store = Store::at("/r", StoreOptions::default());
    let a = "# ADR-0001: A\n\n## Status\n\nProposed\n\n[d](../proposed/0002-d.md)\n";
    let files = vec![
        md_file(&store, "/r/proposed/0001-a.md", a),
        md_file(&store, "/r/accepted/0002-d.md", "# ADR-0002: D\n\n## Status\n\nAccepted\n"),
        md_file(&store, "/r/rejected/0002-e.md", "# ADR-0002: E\n\n## Status\n\nRejected\n"),
    ];
    assert_eq!(Store::link_resolver_map(&files), vec![(1, "/r/proposed/0001-a.md".to_string())]);
    let (report, _) = store.relink(&files);
    assert_eq!(report.files_changed, 0);
    assert_eq!(store.relink_one(&files, "/r/proposed/0001-a.md", a), None);
}

#[test]
fn relink_one_rewrites_only_the_given_file() {
    let store = Store::at("/r", StoreOptions::default());
    let a = "# ADR-0001: A\n\n## Status\n\nAccepted\n\n[b](../proposed/0002-b.md)\n";
    let files = vec![
        md_file(&store, "/r/accepted/0001-a.md", a),
        md_file(&store, "/r/accepted/0002-b.md", "# ADR-0002: B\n\n## Status\n\nAccepted\n"),
    ];
    assert_eq!(
        Store::link_resolver_map(&files),
        vec![(1, "/r/accepted/0001-a.md".to_string()), (2, "/r/accepted/0002-b.md".to_string())]
    );
    assert_eq!(
        store.relink_one(&files, "/r/accepted/0001-a.md", a),
        Some("# ADR-0001: A\n\n## Status\n\nAccepted\n\n[b](./0002-b.md)\n".to_string())
    );
}

#[test]
fn renumber_texts_relabels_the_file_and_retargets_inbound_links() {
    let store = flat_at("/r");
    let fs = files(&["/r/0001-a.md", "/r/0003-b.md", "/r/0004-c.md"]);
    let plan = store.plan_renumber(Number::new(3), Number::new(12), None, &fs).unwrap();
    let texts = vec![
        ("/r/0001-a.md".to_string(), "# ADR-0001: A\n\nSee [ADR-0003](./0003-b.md).\n".to_string()),
        ("/r/0003-b.md".to_string(), "# ADR-0003: B\n".to_string()),
        ("/r/0004-c.md".to_string(), "# ADR-0004: C\n".to_string()),
    ];
    let out = renumber_texts(&plan, &texts);
    assert_eq!(
        out,
        vec![
            ("/r/0001-a.md".to_string(), "# ADR-0001: A\n\nSee [ADR-0012](./0012-b.md).\n".to_string()),
            ("/r/0012-b.md".to_string(), "# ADR-0012: B\n".to_string()),
        ]
    );
}
