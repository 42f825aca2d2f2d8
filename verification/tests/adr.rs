use adroit::adr::{Adr, AdrId, Created, Number, ReviewBy, Status};

#[test]
fn status_display() {
    assert_eq!(Status::Proposed.to_string(), "Proposed");
    assert_eq!(Status::Superseded.to_string(), "Superseded");
}

#[test]
fn status_default_is_proposed() {
    assert_eq!(Status::default(), Status::Proposed);
}

#[test]
fn adr_id_uniqueness() {
    let a = AdrId::new();
    let b = AdrId::new();
    assert_ne!(a, b);
}

#[test]
fn adr_id_display() {
    let id = AdrId::new();
    let s = id.to_string();
    assert_eq!(s.len(), 36);
    assert_eq!(s.chars().filter(|c| *c == '-').count(), 4);
}

#[test]
fn number_display_zero_pads() {
    assert_eq!(Number::new(1).to_string(), "0001");
    assert_eq!(Number::new(42).to_string(), "0042");
    assert_eq!(Number::new(9999).to_string(), "9999");
}

#[test]
fn number_default() {
    assert_eq!(Number::default().get(), 1);
}

#[test]
fn status_parses_case_insensitive() {
    assert_eq!("accepted".parse::<Status>().unwrap(), Status::Accepted);
    assert_eq!("PROPOSED".parse::<Status>().unwrap(), Status::Proposed);
    assert_eq!("Deprecated".parse::<Status>().unwrap(), Status::Deprecated);
    assert_eq!("superseded".parse::<Status>().unwrap(), Status::Superseded);
}

#[test]
fn status_parse_invalid() {
    assert!("invalid".parse::<Status>().is_err());
}

#[test]
fn rejected_status_parses_and_displays() {
    assert_eq!("REJECTED".parse::<Status>().unwrap(), Status::Rejected);
    assert_eq!(Status::Rejected.to_string(), "Rejected");
}

#[test]
fn number_display_wider_than_four_digits() {
    assert_eq!(Number::new(12345).to_string(), "12345");
    assert_eq!(Number::new(0).to_string(), "0000");
}

#[test]
fn adr_id_is_version_four_hex() {
    let s = AdrId::new().to_string();
    assert_eq!(s.as_bytes()[14], b'4');
    assert!(s.chars().all(|c| c == '-' || c.is_ascii_hexdigit()));
    assert_eq!(AdrId(0x0123456789abcdef0123456789abcdef).to_string(), "01234567-89ab-cdef-0123-456789abcdef");
}

#[test]
fn review_by_round_trips() {
    let d: ReviewBy = "2026-07-15".parse().unwrap();
    assert_eq!(d.to_string(), "2026-07-15");
    assert!("2026-02-30".parse::<ReviewBy>().is_err());
    assert!("2024-02-29".parse::<ReviewBy>().is_ok());
    assert!("2023-02-29".parse::<ReviewBy>().is_err());
    assert!("26-07-15".parse::<ReviewBy>().is_err());
}

#[test]
fn new_adr_defaults() {
    let adr = Adr::new("Use PostgreSQL").unwrap();
    assert_eq!(adr.status, Status::Proposed);
    assert!(adr.number.is_none());
    assert!(adr.body.is_empty());
    assert!(adr.git_sha.is_none());
    assert_eq!(adr.title, "Use PostgreSQL");
}

#[test]
fn new_adr_empty_title_errors() {
    assert!(Adr::new("").is_err());
    assert!(Adr::new("   ").is_err());
}

#[test]
fn created_display_is_rfc3339() {
    let c = Created::now();
    let s = c.to_string();
    assert!(s.contains('T'));
    assert!(s.ends_with('Z'));
}
