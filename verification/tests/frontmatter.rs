use adroit::adr::{Adr, Number};
use adroit::frontmatter::{frame, remap_refs, split_frontmatter, FrontmatterError};
use adroit::naming::AdrRef;

#[test]
fn frame_delimits_yaml_and_appends_body() {
    assert_eq!(frame("id: x\n", ""), "---\nid: x\n---\n");
    assert_eq!(frame("id: x\n", "Body."), "---\nid: x\n---\n\nBody.\n");
}

#[test]
fn split_reads_back_what_frame_wrote() {
    let doc = frame("id: x\nnumber: 1\n", "## Context\n\nWe need a database.");
    let (yaml, body) = split_frontmatter(&doc).unwrap();
    assert_eq!(yaml, "id: x\nnumber: 1");
    assert_eq!(body.trim_end(), "## Context\n\nWe need a database.");
    let (_, empty) = split_frontmatter(&frame("id: x\n", "")).unwrap();
    assert!(empty.is_empty());
}

#[test]
fn split_requires_both_delimiters() {
    assert_eq!(split_frontmatter("no frontmatter here"), Err(FrontmatterError::MissingOpenDelimiter));
    assert_eq!(split_frontmatter("---\nid: bad\n"), Err(FrontmatterError::MissingCloseDelimiter));
    let (yaml, body) = split_frontmatter("  \n---\r\n\na: 1\n---\n\r\nrest").unwrap();
    assert_eq!(yaml, "a: 1");
    assert_eq!(body, "rest");
}

#[test]
fn frontmatter_error_messages() {
    assert_eq!(FrontmatterError::MissingNumber.message(), "ADR number must be assigned before serializing");
    assert_eq!(FrontmatterError::Yaml("bad".into()).message(), "invalid frontmatter YAML: bad");
}

#[test]
fn remap_refs_retargets_matching_and_leaves_others() {
    let mut adr = Adr::new("Use PostgreSQL").unwrap();
    adr.number = Some(Number::new(1));
    adr.superseded_by = Some(AdrRef::Number(2));
    adr.depends_on = vec![AdrRef::Number(2), AdrRef::Number(3)];
    adr.relates_to = vec![AdrRef::Slug("2".into())];
    assert!(remap_refs(&mut adr, 2, 9));
    assert_eq!(adr.superseded_by, Some(AdrRef::Number(9)));
    assert_eq!(adr.depends_on, vec![AdrRef::Number(9), AdrRef::Number(3)]);
    assert_eq!(adr.relates_to, vec![AdrRef::Slug("2".into())]);
    assert_eq!(adr.number, Some(Number::new(1)));
    assert!(!remap_refs(&mut adr, 7, 8));
}
