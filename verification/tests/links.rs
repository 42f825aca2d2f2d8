use adroit::links::{is_relative_md, number_in_target, rel_link, relative_md_targets, rewrite_links};

fn table() -> Vec<(u32, String)> {
    vec![(3, "/r/accepted/0003-thing.md".to_string()), (6, "/r/accepted/0006-other.md".to_string())]
}

fn rewrite(content: &str, dir: &str) -> (String, usize) {
    rewrite_links(content, dir, &table())
}

#[test]
fn rewrites_inbound_link_to_new_dir() {
    let (out, n) = rewrite("see [x](../proposed/0003-thing.md).", "/r/proposed");
    assert_eq!(n, 1);
    assert_eq!(out, "see [x](../accepted/0003-thing.md).");
}

#[test]
fn rewrites_same_dir_with_dot_slash() {
    let (out, n) = rewrite("see [x](0003-thing.md)", "/r/accepted");
    assert_eq!(n, 1);
    assert_eq!(out, "see [x](./0003-thing.md)");
}

#[test]
fn preserves_anchor() {
    let (out, n) = rewrite("[x](../proposed/0006-other.md#decision)", "/r/proposed");
    assert_eq!(n, 1);
    assert_eq!(out, "[x](../accepted/0006-other.md#decision)");
}

#[test]
fn skips_external_anchor_and_non_adr() {
    let doc = "[a](https://example.com/0003-x.md) [b](#section) \
               [c](../../guides/adr-review-process.md) [d](mailto:x@y.z)";
    let (out, n) = rewrite(doc, "/r/proposed");
    assert_eq!(n, 0);
    assert_eq!(out, doc);
}

#[test]
fn skips_unknown_or_duplicate_number() {
    let (out, n) = rewrite("[x](../proposed/0009-dup.md)", "/r/proposed");
    assert_eq!(n, 0);
    assert_eq!(out, "[x](../proposed/0009-dup.md)");
}

#[test]
fn idempotent_second_pass() {
    let once = rewrite("[x](../proposed/0003-thing.md)", "/r/proposed").0;
    let (twice, n) = rewrite(&once, "/r/proposed");
    assert_eq!(n, 0, "already-canonical link must not change");
    assert_eq!(twice, once);
}

#[test]
fn relative_md_targets_lists_only_relative_md() {
    let doc = "[a](../accepted/0003-x.md) [b](https://x/y.md) [c](#s) [d](0006-z.md)";
    assert_eq!(relative_md_targets(doc), vec!["../accepted/0003-x.md", "0006-z.md"]);
}

#[test]
fn rel_link_shapes() {
    assert_eq!(rel_link("/r/proposed", "/r/accepted/0003-x.md"), "../accepted/0003-x.md");
    assert_eq!(rel_link("/r/a/b", "/r/c.md"), "../../c.md");
    assert_eq!(rel_link("/r", "/r/c.md"), "./c.md");
}

#[test]
fn number_in_target_forms() {
    assert_eq!(number_in_target("ADR-0006"), Some(6));
    assert_eq!(number_in_target("../x/0012-foo.md#a"), Some(12));
    assert_eq!(number_in_target("adr-7.md"), Some(7));
    assert_eq!(number_in_target("foo.md"), None);
    assert_eq!(number_in_target("99999999999-x.md"), None);
}

#[test]
fn is_relative_md_cases() {
    assert!(is_relative_md("../a/0001-x.md#h"));
    assert!(!is_relative_md(""));
    assert!(!is_relative_md("#x"));
    assert!(!is_relative_md("/abs/0001-x.md"));
    assert!(!is_relative_md("http://h/0001-x.md"));
    assert!(!is_relative_md("mailto:a@b.md"));
    assert!(!is_relative_md("0001-x.txt"));
}
