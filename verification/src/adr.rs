//! The core ADR vocabulary: identifiers, display numbers, lifecycle status,
//! and review deadlines.
use vstd::prelude::*;
use crate::text::{all_digits, append_all, chars_of, dec, dec_v, digits_val, eq_ignore_ascii_case, eq_ignore_case_chars, lemma_digits_bound, pad4_v, pad_zero, pad_zero_v, parse_u32_v, pow10, slice_of, string_of};



verus! {

// ---------------------------------------------------------------------------
// AdrId
// ---------------------------------------------------------------------------

/// A fresh random (version 4) UUID from the `uuid` crate, as its 128-bit value.
/// Nothing is claimed of the value but its version nibble.
#[verifier::external_body]
fn random_uuid_v4() -> (r: u128)
    ensures
        (r >> 76u128) & 0xfu128 == 4,
{
    uuid::Uuid::new_v4().as_u128()
}

/// Canonical unique identifier for an ADR (a UUID v4, held as its 128-bit value).
#[derive(Debug, Clone, Copy, PartialEq, Eq, Structural)]
pub struct AdrId(pub u128);

impl AdrId {
    /// A fresh random identifier.
    pub fn new() -> (r: Self)
        ensures
            (r.0 >> 76u128) & 0xfu128 == 4,
    {
        AdrId(random_uuid_v4())
    }

    /// The hyphenated lowercase spelling (`8-4-4-4-12` hex digits).
    pub fn to_string(&self) -> (s: String)
        ensures
            s@ == uuid_hyphenated(self.0 as nat),
    {
        let v = uuid_hyphenated_v(self.0);
        string_of(&v)
    }
}

impl Default for AdrId {
    fn default() -> (r: Self)
        ensures
            (r.0 >> 76u128) & 0xfu128 == 4,
    {
        AdrId::new()
    }
}

pub open spec fn hex_digit(d: nat) -> char {
    if d < 10 {
        (('0' as u32) + d) as char
    } else {
        (('a' as u32) + d - 10) as char
    }
}

/// The `n` lowest hex digits of `v`, most significant first.
pub open spec fn hex_digits(v: nat, n: nat) -> Seq<char>
    decreases n,
{
    if n == 0 {
        seq![]
    } else {
        hex_digits(v / 16, (n - 1) as nat).push(hex_digit(v % 16))
    }
}

/// A UUID's simple spelling: 32 lowercase hex digits.
pub open spec fn uuid_simple(v: nat) -> Seq<char> {
    hex_digits(v, 32)
}

/// A UUID's hyphenated spelling.
pub open spec fn uuid_hyphenated(v: nat) -> Seq<char> {
    let h = uuid_simple(v);
    h.subrange(0, 8) + seq!['-'] + h.subrange(8, 12) + seq!['-'] + h.subrange(12, 16) + seq!['-']
        + h.subrange(16, 20) + seq!['-'] + h.subrange(20, 32)
}

fn hex_digit_v(d: u128) -> (c: char)
    requires
        d < 16,
    ensures
        c == hex_digit(d as nat),
{
    if d < 10 {
        ((d as u8) + 48) as char
    } else {
        ((d as u8) + 87) as char
    }
}

/// The `n` lowest hex digits of `v`.
pub fn hex_digits_v(v: u128, n: usize) -> (r: Vec<char>)
    ensures
        r@ == hex_digits(v as nat, n as nat),
        r@.len() == n,
    decreases n,
{
    if n == 0 {
        Vec::new()
    } else {
        let mut r = hex_digits_v(v / 16, n - 1);
        r.push(hex_digit_v(v % 16));
        r
    }
}

/// `Uuid::simple().to_string()` of a 128-bit value.
pub fn uuid_simple_v(v: u128) -> (r: Vec<char>)
    ensures
        r@ == uuid_simple(v as nat),
        r@.len() == 32,
{
    hex_digits_v(v, 32)
}

pub fn uuid_hyphenated_v(v: u128) -> (r: Vec<char>)
    ensures
        r@ == uuid_hyphenated(v as nat),
{
    let h = uuid_simple_v(v);
    let mut r = slice_of(&h, 0, 8);
    r.push('-');
    append_all(&mut r, &slice_of(&h, 8, 12));
    r.push('-');
    append_all(&mut r, &slice_of(&h, 12, 16));
    r.push('-');
    append_all(&mut r, &slice_of(&h, 16, 20));
    r.push('-');
    append_all(&mut r, &slice_of(&h, 20, 32));
    assert(r@ =~= uuid_hyphenated(v as nat));
    r
}

// ---------------------------------------------------------------------------
// Number
// ---------------------------------------------------------------------------

/// Cosmetic sequential display number (e.g. 1, 2, 3).
#[derive(Debug, Clone, Copy, PartialEq, Eq, PartialOrd, Ord, Hash, Structural)]
pub struct Number(pub u32);

impl Number {
    pub fn new(n: u32) -> (r: Self)
        ensures
            r.0 == n,
    {
        Number(n)
    }

    pub fn get(self) -> (r: u32)
        ensures
            r == self.0,
    {
        self.0
    }

    /// The zero-padded four-digit spelling (`0001`, `0042`, `12345`).
    pub fn to_string(&self) -> (s: String)
        ensures
            s@ == pad_zero(dec(self.0 as nat), 4),
    {
        let v = pad4_v(self.0);
        string_of(&v)
    }
}

impl Default for Number {
    fn default() -> (r: Self)
        ensures
            r.0 == 1,
    {
        Number(1)
    }
}

// ---------------------------------------------------------------------------
// Status
// ---------------------------------------------------------------------------

/// The lifecycle status of an Architecture Decision Record.
#[derive(Debug, Clone, Copy, PartialEq, Eq, Hash, Structural)]
pub enum Status {
    Proposed,
    Accepted,
    Rejected,
    Deprecated,
    Superseded,
}

/// Every status, in lifecycle order.
pub open spec fn all_statuses() -> Seq<Status> {
    seq![Status::Proposed, Status::Accepted, Status::Rejected, Status::Deprecated, Status::Superseded]
}

/// The status's name as displayed (`Proposed`, `Accepted`, ...).
pub open spec fn status_name(s: Status) -> Seq<char> {
    match s {
        Status::Proposed => "Proposed"@,
        Status::Accepted => "Accepted"@,
        Status::Rejected => "Rejected"@,
        Status::Deprecated => "Deprecated"@,
        Status::Superseded => "Superseded"@,
    }
}

/// The status named by `s`, compared ASCII-case-insensitively.
pub open spec fn status_named(s: Seq<char>) -> Option<Status> {
    if eq_ignore_ascii_case(s, "proposed"@) {
        Some(Status::Proposed)
    } else if eq_ignore_ascii_case(s, "accepted"@) {
        Some(Status::Accepted)
    } else if eq_ignore_ascii_case(s, "rejected"@) {
        Some(Status::Rejected)
    } else if eq_ignore_ascii_case(s, "deprecated"@) {
        Some(Status::Deprecated)
    } else if eq_ignore_ascii_case(s, "superseded"@) {
        Some(Status::Superseded)
    } else {
        None
    }
}

/// The statuses in order (`Status::ALL`).
pub fn all_status_list() -> (r: Vec<Status>)
    ensures
        r@ == all_statuses(),
{
    let r = vec![Status::Proposed, Status::Accepted, Status::Rejected, Status::Deprecated, Status::Superseded];
    assert(r@ =~= all_statuses());
    r
}

impl Status {
    pub fn name_chars(&self) -> (r: Vec<char>)
        ensures
            r@ == status_name(*self),
    {
        match self {
            Status::Proposed => chars_of("Proposed"),
            Status::Accepted => chars_of("Accepted"),
            Status::Rejected => chars_of("Rejected"),
            Status::Deprecated => chars_of("Deprecated"),
            Status::Superseded => chars_of("Superseded"),
        }
    }

    /// The displayed name.
    pub fn to_string(&self) -> (s: String)
        ensures
            s@ == status_name(*self),
    {
        string_of(&self.name_chars())
    }

    /// Parse a status name, ignoring ASCII case.
    pub fn parse_name(s: &Vec<char>) -> (r: Option<Status>)
        ensures
            r == status_named(s@),
    {
        if eq_ignore_case_chars(s, &chars_of("proposed")) {
            Some(Status::Proposed)
        } else if eq_ignore_case_chars(s, &chars_of("accepted")) {
            Some(Status::Accepted)
        } else if eq_ignore_case_chars(s, &chars_of("rejected")) {
            Some(Status::Rejected)
        } else if eq_ignore_case_chars(s, &chars_of("deprecated")) {
            Some(Status::Deprecated)
        } else if eq_ignore_case_chars(s, &chars_of("superseded")) {
            Some(Status::Superseded)
        } else {
            None
        }
    }

    /// Parse a status name from a `str`, ignoring ASCII case.
    pub fn parse_str(s: &str) -> (r: Option<Status>)
        ensures
            r == status_named(s@),
    {
        Status::parse_name(&chars_of(s))
    }
}

impl Default for Status {
    fn default() -> (r: Self)
        ensures
            r == Status::Proposed,
    {
        Status::Proposed
    }
}

/// The error returned when a string names no status.
#[derive(Debug, Clone, PartialEq, Eq)]
pub struct ParseStatusError;

impl std::str::FromStr for Status {
    type Err = ParseStatusError;

    fn from_str(s: &str) -> (r: Result<Status, ParseStatusError>)
        ensures
            match status_named(s@) {
                Some(st) => r == Ok::<Status, ParseStatusError>(st),
                None => r == Err::<Status, ParseStatusError>(ParseStatusError),
            },
    {
        match Status::parse_str(s) {
            Some(st) => Ok(st),
            None => Err(ParseStatusError),
        }
    }
}

// ---------------------------------------------------------------------------
// AdrError
// ---------------------------------------------------------------------------

#[derive(Debug)]
pub enum AdrError {
    /// ADR title must not be empty.
    EmptyTitle,
}

impl AdrError {
    pub fn message(&self) -> (s: String)
        ensures
            s@ == "ADR title must not be empty"@,
    {
        string_of(&chars_of("ADR title must not be empty"))
    }
}

// ---------------------------------------------------------------------------
// ReviewBy
// ---------------------------------------------------------------------------

pub open spec fn is_leap(y: int) -> bool {
    (y % 4 == 0 && y % 100 != 0) || y % 400 == 0
}

pub open spec fn days_in_month(y: int, m: int) -> int {
    if m == 2 {
        if is_leap(y) {
            29
        } else {
            28
        }
    } else if m == 4 || m == 6 || m == 9 || m == 11 {
        30
    } else {
        31
    }
}

/// A calendar deadline (`YYYY-MM-DD`) by which a proposed ADR should be decided.
#[derive(Debug, Clone, Copy, PartialEq, Eq, Structural)]
pub struct ReviewBy {
    pub year: u16,
    pub month: u8,
    pub day: u8,
}

impl ReviewBy {
    /// A real calendar date with a four-digit year.
    pub open spec fn valid(self) -> bool {
        &&& self.year <= 9999
        &&& 1 <= self.month <= 12
        &&& 1 <= self.day <= days_in_month(self.year as int, self.month as int)
    }

    /// The ISO spelling `YYYY-MM-DD`.
    pub open spec fn iso(self) -> Seq<char> {
        pad_zero(dec(self.year as nat), 4) + seq!['-'] + pad_zero(dec(self.month as nat), 2)
            + seq!['-'] + pad_zero(dec(self.day as nat), 2)
    }

    /// The date that `s` spells as `YYYY-MM-DD`, if it is a real date.
    pub open spec fn parse_spec(s: Seq<char>) -> Option<ReviewBy> {
        if s.len() == 10 && s[4] == '-' && s[7] == '-' && all_digits(s.subrange(0, 4))
            && all_digits(s.subrange(5, 7)) && all_digits(s.subrange(8, 10)) {
            let d = ReviewBy {
                year: digits_val(s.subrange(0, 4)) as u16,
                month: digits_val(s.subrange(5, 7)) as u8,
                day: digits_val(s.subrange(8, 10)) as u8,
            };
            if d.valid() {
                Some(d)
            } else {
                None
            }
        } else {
            None
        }
    }

    pub fn to_chars(&self) -> (r: Vec<char>)
        ensures
            r@ == self.iso(),
    {
        let mut r = pad_zero_v(&dec_v(self.year as u64), 4);
        r.push('-');
        append_all(&mut r, &pad_zero_v(&dec_v(self.month as u64), 2));
        r.push('-');
        append_all(&mut r, &pad_zero_v(&dec_v(self.day as u64), 2));
        assert(r@ =~= self.iso());
        r
    }

    pub fn to_string(&self) -> (s: String)
        ensures
            s@ == self.iso(),
    {
        string_of(&self.to_chars())
    }

    pub fn parse_chars(s: &Vec<char>) -> (r: Option<ReviewBy>)
        ensures
            r == ReviewBy::parse_spec(s@),
    {
        if s.len() != 10 || s[4] != '-' || s[7] != '-' {
            return None;
        }
        let y = slice_of(s, 0, 4);
        let m = slice_of(s, 5, 7);
        let d = slice_of(s, 8, 10);
        let yv = parse_u32_v(&y);
        let mv = parse_u32_v(&m);
        let dv = parse_u32_v(&d);
        proof {
            lemma_small_digits(y@);
            lemma_small_digits(m@);
            lemma_small_digits(d@);
        }
        match (yv, mv, dv) {
            (Some(yy), Some(mm), Some(dd)) => {
                if y[0] == '+' || m[0] == '+' || d[0] == '+' {
                    return None;
                }
                assert(y@[0] != '+' && m@[0] != '+' && d@[0] != '+');
                assert(yy == digits_val(y@) && all_digits(y@));
                assert(mm == digits_val(m@) && all_digits(m@));
                assert(dd == digits_val(d@) && all_digits(d@));
                assert(yy < 10000 && mm < 100 && dd < 100);
                let r = ReviewBy { year: yy as u16, month: mm as u8, day: dd as u8 };
                let dim: u32 = if mm == 2 {
                    if (yy % 4 == 0 && yy % 100 != 0) || yy % 400 == 0 {
                        29
                    } else {
                        28
                    }
                } else if mm == 4 || mm == 6 || mm == 9 || mm == 11 {
                    30
                } else {
                    31
                };
                if 1 <= mm && mm <= 12 && 1 <= dd && dd <= dim {
                    Some(r)
                } else {
                    None
                }
            },
            _ => {
                proof {
                    if all_digits(y@) {
                        assert(y@[0] != '+');
                    }
                    if all_digits(m@) {
                        assert(m@[0] != '+');
                    }
                    if all_digits(d@) {
                        assert(d@[0] != '+');
                    }
                }
                None
            },
        }
    }

    pub fn parse_str(s: &str) -> (r: Option<ReviewBy>)
        ensures
            r == ReviewBy::parse_spec(s@),
    {
        ReviewBy::parse_chars(&chars_of(s))
    }
}

/// A short all-digit string has a small value.
proof fn lemma_small_digits(s: Seq<char>)
    requires
        s.len() <= 4,
    ensures
        all_digits(s) && s.len() == 4 ==> digits_val(s) < 10000,
        all_digits(s) && s.len() == 2 ==> digits_val(s) < 100,
{
    reveal_with_fuel(pow10, 5);
    if all_digits(s) {
        lemma_digits_bound(s);
        assert(pow10(2) == 100);
        assert(pow10(4) == 10000);
    }
}

/// The error returned when a string is not a `YYYY-MM-DD` date.
#[derive(Debug, Clone, PartialEq, Eq)]
pub struct ParseReviewByError;

impl std::str::FromStr for ReviewBy {
    type Err = ParseReviewByError;

    fn from_str(s: &str) -> (r: Result<ReviewBy, ParseReviewByError>)
        ensures
            match ReviewBy::parse_spec(s@) {
                Some(d) => r == Ok::<ReviewBy, ParseReviewByError>(d),
                None => r == Err::<ReviewBy, ParseReviewByError>(ParseReviewByError),
            },
    {
        match ReviewBy::parse_str(s) {
            Some(r) => Ok(r),
            None => Err(ParseReviewByError),
        }
    }
}


// ---------------------------------------------------------------------------
// Created and Adr
// ---------------------------------------------------------------------------

/// `time::OffsetDateTime::now_utc` formatted as RFC 3339; nothing is claimed
/// of the clock's reading.
#[verifier::external_body]
fn now_utc_rfc3339() -> (r: String) {
    match time::OffsetDateTime::now_utc().format(&time::format_description::well_known::Rfc3339) {
        Ok(s) => s,
        Err(_) => String::new(),
    }
}

/// When an ADR was first created, as an RFC 3339 UTC timestamp.
#[derive(Debug, Clone, PartialEq, Eq)]
pub struct Created(pub String);

impl Created {
    /// The current time.
    pub fn now() -> (r: Self) {
        Created(now_utc_rfc3339())
    }

    /// The RFC 3339 spelling.
    pub fn get(&self) -> (r: &str)
        ensures
            r@ == self.0@,
    {
        self.0.as_str()
    }

    pub fn to_string(&self) -> (r: String)
        ensures
            r@ == self.0@,
    {
        string_of(&chars_of(self.0.as_str()))
    }
}

/// A single Architecture Decision Record.
#[derive(Debug, Clone)]
pub struct Adr {
    /// Canonical unique identifier.
    pub id: AdrId,
    /// Sequential display number; `None` until the store assigns one.
    pub number: Option<Number>,
    /// The slug identity of the slug-based naming schemes.
    pub slug: Option<String>,
    /// The category directory of the per-category scheme.
    pub category: Option<String>,
    /// Short title describing the decision.
    pub title: String,
    pub status: Status,
    pub created: Created,
    /// The document body in markdown.
    pub body: String,
    /// The git commit this ADR was last seen at (filled at read time).
    pub git_sha: Option<String>,
    pub supersedes: Option<crate::naming::AdrRef>,
    pub superseded_by: Option<crate::naming::AdrRef>,
    pub relates_to: Vec<crate::naming::AdrRef>,
    pub depends_on: Vec<crate::naming::AdrRef>,
    pub refines: Vec<crate::naming::AdrRef>,
    /// Deadline for deciding a proposed ADR.
    pub review_by: Option<ReviewBy>,
}

impl Adr {
    /// A new proposed ADR with only a title; the title must not be blank.
    pub fn new(title: &str) -> (r: Result<Adr, AdrError>)
        ensures
            (r is Err) <==> crate::text::trim(title@).len() == 0,
            r matches Ok(a) ==> (a.title@ == title@ && a.number is None && a.slug is None && a.category is None
                && a.status == Status::Proposed && a.body@.len() == 0 && a.git_sha is None && a.supersedes is None
                && a.superseded_by is None && a.relates_to@.len() == 0 && a.depends_on@.len() == 0
                && a.refines@.len() == 0 && a.review_by is None),
    {
        if crate::text::trim_v(&chars_of(title)).len() == 0 {
            return Err(AdrError::EmptyTitle);
        }
        Ok(Adr {
            id: AdrId::new(),
            number: None,
            slug: None,
            category: None,
            title: string_of(&chars_of(title)),
            status: Status::Proposed,
            created: Created::now(),
            body: string_of(&Vec::new()),
            git_sha: None,
            supersedes: None,
            superseded_by: None,
            relates_to: Vec::new(),
            depends_on: Vec::new(),
            refines: Vec::new(),
            review_by: None,
        })
    }

    /// The identity the naming seam resolves this ADR by: its slug when it
    /// has one, else its number (0 while it has none).
    pub fn reference(&self) -> (r: crate::naming::AdrRef)
        ensures
            r@ == adr_ref(*self),
    {
        match &self.slug {
            Some(s) => crate::naming::AdrRef::Slug(string_of(&chars_of(s.as_str()))),
            None => crate::naming::AdrRef::Number(
                match self.number {
                    Some(n) => n.0,
                    None => 0,
                },
            ),
        }
    }
}

/// The abstract identity of an ADR: slug first, else number (0 without one).
pub open spec fn adr_ref(a: Adr) -> crate::naming::RefV {
    match a.slug {
        Some(s) => crate::naming::RefV::Slug(s@),
        None => crate::naming::RefV::Number(
            match a.number {
                Some(n) => n.0,
                None => 0,
            },
        ),
    }
}

} // verus!
