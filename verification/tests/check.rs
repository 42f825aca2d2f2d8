use adroit::format::parse_markdown;
use adroit::links::relative_md_targets;
use adroit::naming::NamingScheme;
use adroit::query::{check, FileFacts, LinkFacts, ProblemKind, QueryError, Severity};
use adroit::store::{Store, StoreOptions};

/// Resolve `target` (no fragment) against the directory of `from`.
fn resolve(from: &str, target: &str) -> String {
    let path_part = target.split('#').next().unwrap_or(target);
    let mut parts: Vec<&str> = from.split('/').collect();
    parts.pop();
    for seg in path_part.split('/') {
        match seg {
            "" | "." => {},
            ".." => {
                parts.pop();
            },
            s => parts.push(s),
        }
    }
    parts.join("/")
}

/// What `check` would read of the in-memory files `(path, text)`.
fn read_all(store: &Store, files: &[(&str, &str)]) -> Vec<FileFacts> {
    files
        .iter()
        .map(|(path, text)| {
            let parsed = parse_markdown(text, store.dir_status(path), NamingScheme::Sequential).map_err(|e| e.message());
            let links = relative_md_targets(text)
                .into_iter()
                .map(|t| {
                    let resolved = resolve(path, t);
                    let exists = files.iter().any(|(p, _)| *p == resolved);
                    LinkFacts { target: t.to_string(), exists, canonical: if exists { Some(resolved) } else { None } }
                })
                .collect();
            FileFacts {
                path: path.to_string(),
                parsed,
                content: Some(text.to_string()),
                lines: text.lines().count(),
                bytes: text.len() as u64,
                canonical: Some(path.to_string()),
                links,
            }
        })
        .collect()
}

fn md_store() -> Store {
    Store::at("/r", StoreOptions::default())
}

fn seed() -> Vec<(&'static str, &'static str)> {
    vec![
        (
            "/r/accepted/0001-use-postgres.md",
            "# ADR-0001: Use Postgres\n\n## Status\n\nAccepted\n\n## Context\n\nWe need a database.\n",
        ),
        (
            "/r/proposed/0002-use-redis.md",
            "# ADR-0002: Use Redis\n\n## Status\n\nProposed\n\n## Context\n\nWe need a cache for sessions.\n",
        ),
        (
            "/r/proposed/0003-adopt-graphql.md",
            "# ADR-0003: Adopt GraphQL\n\n## Status\n\nProposed\n\n## Context\n\nSee [ADR-0001](../accepted/0001-use-postgres.md).\n",
        ),
    ]
}

#[test]
fn check_clean_repo_has_no_problems() {
    let store = md_store();
    let report = check(&store, &read_all(&store, &seed())).unwrap();
    assert_eq!(report.checked, 3);
    assert!(report.problems.is_empty());
}

#[test]
fn check_flags_duplicate_number_as_error() {
    let store = md_store();
    let files = vec![
        ("/r/proposed/0009-alpha.md", "# ADR-0009: Alpha\n\n## Status\n\nProposed\n\n## Context\n\nx.\n"),
        ("/r/accepted/0009-beta.md", "# ADR-0009: Beta\n\n## Status\n\nAccepted\n\n## Context\n\ny.\n"),
    ];
    let report = check(&store, &read_all(&store, &files)).unwrap();
    let dups: Vec<_> = report.problems.iter().filter(|p| p.kind == ProblemKind::DuplicateId).collect();
    assert_eq!(dups.len(), 1);
    assert_eq!(dups[0].severity, Severity::Error);
    assert_eq!(dups[0].label, "ADR-0009");
    assert_eq!(dups[0].summary, "duplicate number");
    assert_eq!(dups[0].paths.len(), 2);
    assert!(dups[0].paths.iter().all(|f| f.lines > 0 && f.bytes > 0));
    assert!(dups[0].message.contains("ADR-0009"));
    assert!(dups[0].message.contains("duplicate number used by"));
    assert_eq!(
        dups[0].message,
        "ADR-0009: duplicate number used by proposed/0009-alpha.md, accepted/0009-beta.md"
    );
}

#[test]
fn check_flags_status_directory_mismatch() {
    let store = md_store();
    let files = vec![("/r/accepted/0004-x.md", "# ADR-0004: X\n\n## Status\n\nProposed\n")];
    let report = check(&store, &read_all(&store, &files)).unwrap();
    assert_eq!(report.problems.len(), 1);
    let p = &report.problems[0];
    assert_eq!(p.kind, ProblemKind::StatusDirMismatch);
    assert_eq!(p.label, "ADR-0004");
    assert_eq!(p.summary, "directory says Accepted but ## Status says Proposed");
    assert_eq!(p.message, "ADR-0004 (accepted/0004-x.md): directory says Accepted but ## Status says Proposed");
    assert_eq!(p.paths.len(), 1);
}

#[test]
fn check_flags_unparseable_file() {
    let store = md_store();
    let files = vec![("/r/proposed/notes.md", "just some notes\n")];
    let report = check(&store, &read_all(&store, &files)).unwrap();
    assert_eq!(report.problems.len(), 1);
    assert_eq!(report.problems[0].kind, ProblemKind::Unparseable);
    assert_eq!(
        report.problems[0].message,
        "proposed/notes.md: failed to parse (missing H1 heading `# ADR-NNNN: Title`)"
    );
}

#[test]
fn check_flags_broken_supersession_and_broken_link() {
    let store = md_store();
    let files = vec![(
        "/r/superseded/0005-old.md",
        "# ADR-0005: Old\n\n## Status\n\nSuperseded by [ADR-0042](../accepted/0042-new.md)\n",
    )];
    let report = check(&store, &read_all(&store, &files)).unwrap();
    let kinds: Vec<_> = report.problems.iter().map(|p| p.kind).collect();
    assert_eq!(kinds, vec![ProblemKind::BrokenSupersession, ProblemKind::BrokenLink]);
    assert_eq!(
        report.problems[0].message,
        "superseded/0005-old.md: ## Status says Superseded by ADR-0042 but no such ADR exists"
    );
    assert_eq!(
        report.problems[1].message,
        "superseded/0005-old.md: broken link [../accepted/0042-new.md] — target file not found"
    );
}

#[test]
fn check_flags_moved_target_as_stale_warning() {
    let store = md_store();
    let files = vec![
        ("/r/accepted/0001-use-postgres.md", "# ADR-0001: Use Postgres\n\n## Status\n\nAccepted\n"),
        ("/r/proposed/0003-graphql.md", "# ADR-0003: GraphQL\n\n## Status\n\nProposed\n\nSee [x](0001-use-postgres.md).\n"),
    ];
    let report = check(&store, &read_all(&store, &files)).unwrap();
    assert_eq!(report.problems.len(), 1);
    let p = &report.problems[0];
    assert_eq!(p.severity, Severity::Warning);
    assert_eq!(p.kind, ProblemKind::StaleLink);
    assert_eq!(
        p.message,
        "proposed/0003-graphql.md: stale link [0001-use-postgres.md] — ADR-1 is now [../accepted/0001-use-postgres.md] (run `adroit relink`)"
    );
}

#[test]
fn check_orders_errors_before_warnings_and_flags_duplicate_titles() {
    let store = md_store();
    let files = vec![
        ("/r/proposed/0001-cache.md", "# ADR-0001: Cache\n\n## Status\n\nProposed\n"),
        ("/r/proposed/0002-cache.md", "# ADR-0002:  cache \n\n## Status\n\nProposed\n"),
        ("/r/proposed/0003-x.md", "# ADR-0003: X\n\n## Status\n\nAccepted\n"),
    ];
    let report = check(&store, &read_all(&store, &files)).unwrap();
    assert_eq!(report.problems.len(), 2);
    assert_eq!(report.problems[0].severity, Severity::Error);
    assert_eq!(report.problems[0].kind, ProblemKind::StatusDirMismatch);
    assert_eq!(report.problems[1].severity, Severity::Warning);
    assert_eq!(report.problems[1].kind, ProblemKind::DuplicateTitle);
    assert_eq!(report.problems[1].label, "Cache");
    assert_eq!(
        report.problems[1].message,
        "duplicate title \"Cache\" used by proposed/0001-cache.md, proposed/0002-cache.md"
    );
}

#[test]
fn check_fails_on_unreadable_markdown_file() {
    let store = md_store();
    let mut facts = read_all(&store, &seed());
    facts[1].content = None;
    match check(&store, &facts) {
        Err(QueryError::Io(p)) => assert_eq!(p, "/r/proposed/0002-use-redis.md"),
        other => panic!("unexpected {:?}", other.map(|r| r.checked)),
    }
}
