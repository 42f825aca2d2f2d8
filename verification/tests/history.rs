use adroit::adr::Status;
use adroit::config::Layout;
use adroit::history::parse_log;
use adroit::store::{Store, StoreOptions};
use time::format_description::well_known::Rfc3339;
use time::OffsetDateTime;

const US: char = '\u{1f}';

fn by_status() -> Store {
    Store::at("repo", StoreOptions::default())
}

fn flat() -> Store {
    let mut opts = StoreOptions::default();
    opts.layout = Layout::Flat;
    Store::at("repo", opts)
}

fn nanos(s: &str) -> i128 {
    OffsetDateTime::parse(s, &Rfc3339).unwrap().unix_timestamp_nanos()
}

#[test]
fn parses_proposed_then_accepted_lifecycle() {
    let log = format!(
        "{US}cccc{US}2026-05-07T09:00:00-04:00{US}fix links\n\
         M\tsrc/adrs/accepted/0003-x.md\n\
         {US}bbbb{US}2026-04-20T15:31:58-04:00{US}accept it\n\
         R099\tsrc/adrs/proposed/0003-x.md\tsrc/adrs/accepted/0003-x.md\n\
         {US}aaaa{US}2026-04-10T14:10:45-04:00{US}propose it\n\
         A\tsrc/adrs/proposed/0003-x.md\n"
    );
    let h = parse_log(&log, &by_status()).unwrap();
    assert_eq!(h.created, nanos("2026-04-10T14:10:45-04:00"));
    assert_eq!(h.last_modified, nanos("2026-05-07T09:00:00-04:00"));
    assert_eq!(h.events.len(), 2);
    assert_eq!(h.events[0].status, Status::Proposed);
    assert_eq!(h.events[0].commit, "aaaa");
    assert_eq!(h.events[1].status, Status::Accepted);
    assert_eq!(h.events[1].subject, "accept it");
    assert!(h.events[0].date < h.events[1].date);
}

#[test]
fn collapses_within_status_rename() {
    let log = format!(
        "{US}cccc{US}2026-05-01T09:00:00Z{US}rename for clarity\n\
         R100\tsrc/adrs/accepted/0003-old.md\tsrc/adrs/accepted/0003-new.md\n\
         {US}bbbb{US}2026-04-20T09:00:00Z{US}accept\n\
         R099\tsrc/adrs/proposed/0003-old.md\tsrc/adrs/accepted/0003-old.md\n\
         {US}aaaa{US}2026-04-10T09:00:00Z{US}propose\n\
         A\tsrc/adrs/proposed/0003-old.md\n"
    );
    let h = parse_log(&log, &by_status()).unwrap();
    assert_eq!(h.events.len(), 2);
    assert_eq!(h.events[0].status, Status::Proposed);
    assert_eq!(h.events[1].status, Status::Accepted);
}

#[test]
fn flat_layout_has_dates_but_no_milestones() {
    let log = format!(
        "{US}bbbb{US}2026-04-20T09:00:00Z{US}edit\n\
         M\tdocs/0003-x.md\n\
         {US}aaaa{US}2026-04-10T09:00:00Z{US}add\n\
         A\tdocs/0003-x.md\n"
    );
    let h = parse_log(&log, &flat()).unwrap();
    assert!(h.events.is_empty());
    assert_eq!(h.created, nanos("2026-04-10T09:00:00Z"));
    assert_eq!(h.last_modified, nanos("2026-04-20T09:00:00Z"));
}

#[test]
fn empty_log_is_none() {
    assert!(parse_log("", &by_status()).is_none());
}

#[test]
fn unreadable_commit_date_is_none() {
    let log = format!("{US}aaaa{US}yesterday{US}add\nA\tproposed/0001-x.md\n");
    assert!(parse_log(&log, &by_status()).is_none());
}
