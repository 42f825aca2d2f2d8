//! Listing ADRs: the summary row of each, when a proposal is due for review,
//! the sort orders of a listing, and case-insensitive search.
use vstd::prelude::*;
use vstd::relations::sorted_by;
use crate::adr::{adr_ref, Adr, Status};
use crate::naming::{lowercase, ref_addr, scheme_display, str_to_lowercase, AdrRef, NamingScheme};
use crate::template::{valid_date, CalDate};
use crate::text::{append_all, append_str, chars_of, contains, dec, pad_zero, string_of};
use super::health::chars_lt;
use super::{linked_refs, linked_refs_spec, refs_of, EdgeKind, Filter, Sort};
use crate::history::HistoryEvent;
use crate::naming::RefV;

verus! {

/// An ADR with the creation timestamp a listing reports for it.
#[derive(Debug)]
pub struct Dated {
    pub adr: Adr,
    /// The creation timestamp, RFC 3339 formatted, when it formats.
    pub created: Option<String>,
    /// The calendar date of the creation timestamp, in its own offset.
    pub created_date: CalDate,
    /// The creation instant, as Unix nanoseconds.
    pub created_at: i128,
}

/// One row of an ADR listing.
#[derive(Debug)]
pub struct AdrSummary {
    pub number: Option<u32>,
    /// The zero-padded number, `????` for an ADR without one.
    pub number_display: String,
    /// The scheme's display form (`ADR-0001`).
    pub reference: String,
    /// The addressing token a user passes to reach the ADR.
    pub address: String,
    pub title: String,
    pub status: Status,
    pub created: Option<String>,
    /// The display form of the ADR this one supersedes, if any.
    pub supersedes: Vec<String>,
    pub superseded_by: Option<String>,
    /// Still proposed, and past its review deadline or aged past the
    /// configured threshold.
    pub review_due: bool,
    /// Live forge state, when a listing asked for it.
    pub forge_data: Option<crate::forge::drift::ForgeData>,
}

pub struct SummaryV {
    pub number: Option<u32>,
    pub number_display: Seq<char>,
    pub reference: Seq<char>,
    pub address: Seq<char>,
    pub title: Seq<char>,
    pub status: Status,
    pub created: Option<Seq<char>>,
    pub supersedes: Seq<Seq<char>>,
    pub superseded_by: Option<Seq<char>>,
    pub review_due: bool,
}

pub open spec fn opt_text(o: Option<String>) -> Option<Seq<char>> {
    match o {
        Some(s) => Some(s@),
        None => None,
    }
}

impl View for AdrSummary {
    type V = SummaryV;

    open spec fn view(&self) -> SummaryV {
        SummaryV {
            number: self.number,
            number_display: self.number_display@,
            reference: self.reference@,
            address: self.address@,
            title: self.title@,
            status: self.status,
            created: opt_text(self.created),
            supersedes: self.supersedes@.map_values(|s: String| s@),
            superseded_by: opt_text(self.superseded_by),
            review_due: self.review_due,
        }
    }
}

pub open spec fn summaries_v(s: Seq<AdrSummary>) -> Seq<SummaryV> {
    s.map_values(|r: AdrSummary| r@)
}

/// The whole days from the date `(ey, em, ed)` to the date `(ly, lm, ld)`,
/// as `time` computes `(later - earlier).whole_days()`.
pub uninterp spec fn days_between(ly: i32, lm: u8, ld: u8, ey: i32, em: u8, ed: u8) -> int;

/// `time::Date` subtraction, in whole days. Its result is named by
/// [`days_between`]; nothing more is claimed of it.
#[verifier::external_body]
fn time_days_between(later: &CalDate, earlier: &CalDate) -> (r: i64)
    requires
        valid_date(*later),
        valid_date(*earlier),
    ensures
        r == days_between(later.year, later.month, later.day, earlier.year, earlier.month, earlier.day),
{
    match (time::Month::try_from(later.month), time::Month::try_from(earlier.month)) {
        (Ok(lm), Ok(em)) => match (
            time::Date::from_calendar_date(later.year, lm, later.day),
            time::Date::from_calendar_date(earlier.year, em, earlier.day),
        ) {
            (Ok(a), Ok(b)) => (a - b).whole_days(),
            _ => 0,
        },
        _ => 0,
    }
}

/// `a` is on or before `b`.
pub open spec fn date_le(ay: int, am: int, ad: int, b: CalDate) -> bool {
    ay < b.year || (ay == b.year && (am < b.month || (am == b.month && ad <= b.day)))
}

/// Whether an ADR is due for review on `today`: it is still proposed, and
/// its `review_by` deadline is on or before `today`, or `overdue_days` is set
/// and it was created at least that many days before `today`.
pub open spec fn review_due_spec(a: Adr, created_date: CalDate, today: CalDate, overdue_days: Option<u32>) -> bool {
    let past_deadline = match a.review_by {
        Some(rb) => date_le(rb.year as int, rb.month as int, rb.day as int, today),
        None => false,
    };
    let stale = match overdue_days {
        Some(days) => days_between(today.year, today.month, today.day, created_date.year, created_date.month, created_date.day)
            >= days,
        None => false,
    };
    a.status == Status::Proposed && (past_deadline || stale)
}

/// The summary row of an ADR.
pub open spec fn summary_spec(
    a: Adr,
    created: Option<Seq<char>>,
    created_date: CalDate,
    today: CalDate,
    overdue_days: Option<u32>,
    scheme: NamingScheme,
) -> SummaryV {
    SummaryV {
        number: match a.number {
            Some(n) => Some(n.0),
            None => None,
        },
        number_display: match a.number {
            Some(n) => pad_zero(dec(n.0 as nat), 4),
            None => "????"@,
        },
        reference: scheme_display(scheme, adr_ref(a)),
        address: ref_addr(adr_ref(a)),
        title: a.title@,
        status: a.status,
        created,
        supersedes: match a.supersedes {
            Some(r) => seq![scheme_display(scheme, r@)],
            None => Seq::empty(),
        },
        superseded_by: match a.superseded_by {
            Some(r) => Some(scheme_display(scheme, r@)),
            None => None,
        },
        review_due: review_due_spec(a, created_date, today, overdue_days),
    }
}

/// Build the summary row of an ADR, evaluating review-due against `today`.
pub fn summary_of(
    a: &Adr,
    created: &Option<String>,
    created_date: CalDate,
    today: CalDate,
    overdue_days: Option<u32>,
    scheme: NamingScheme,
) -> (s: AdrSummary)
    requires
        valid_date(created_date),
        valid_date(today),
    ensures
        s@ == summary_spec(*a, opt_text(*created), created_date, today, overdue_days, scheme),
        s.forge_data is None,
{
    let proposed = a.status == Status::Proposed;
    let past_deadline = match &a.review_by {
        Some(rb) => {
            let y = rb.year as i32;
            y < today.year || (y == today.year && (rb.month < today.month || (rb.month == today.month
                && rb.day <= today.day)))
        },
        None => false,
    };
    let stale = match overdue_days {
        Some(days) => time_days_between(&today, &created_date) >= days as i64,
        None => false,
    };
    let r = a.reference();
    let number_display = match a.number {
        Some(n) => string_of(&crate::text::pad4_v(n.0)),
        None => string_of(&chars_of("????")),
    };
    let mut supersedes: Vec<String> = Vec::new();
    match &a.supersedes {
        Some(x) => supersedes.push(scheme.display(x)),
        None => {},
    }
    let s = AdrSummary {
        number: match a.number {
            Some(n) => Some(n.0),
            None => None,
        },
        number_display,
        reference: scheme.display(&r),
        address: r.addr(),
        title: string_of(&chars_of(a.title.as_str())),
        status: a.status,
        created: match created {
            Some(c) => Some(string_of(&chars_of(c.as_str()))),
            None => None,
        },
        supersedes,
        superseded_by: match &a.superseded_by {
            Some(x) => Some(scheme.display(x)),
            None => None,
        },
        review_due: proposed && (past_deadline || stale),
        forge_data: None,
    };
    proof {
        let want = summary_spec(*a, opt_text(*created), created_date, today, overdue_days, scheme);
        assert(s@.supersedes =~= want.supersedes);
    }
    s
}

// ---------------------------------------------------------------------------
// Sort orders
// ---------------------------------------------------------------------------

pub open spec fn num_le(a: Option<u32>, b: Option<u32>) -> bool {
    match (a, b) {
        (None, _) => true,
        (Some(_), None) => false,
        (Some(x), Some(y)) => x <= y,
    }
}

pub open spec fn text_le(a: Option<Seq<char>>, b: Option<Seq<char>>) -> bool {
    match (a, b) {
        (None, _) => true,
        (Some(_), None) => false,
        (Some(x), Some(y)) => !chars_lt(y, x),
    }
}

/// Whether row `a` may stay before row `b` under `sort`: by number (no
/// number first), by number descending, by creation timestamp newest first
/// (none last), or by lower-cased title.
pub open spec fn summary_leq(sort: Sort, a: SummaryV, b: SummaryV) -> bool {
    match sort {
        Sort::NumberAsc => num_le(a.number, b.number),
        Sort::NumberDesc => num_le(b.number, a.number),
        Sort::CreatedDesc => text_le(b.created, a.created),
        Sort::TitleAsc => !chars_lt(lowercase(b.title), lowercase(a.title)),
    }
}

pub open spec fn summary_order(sort: Sort) -> spec_fn(SummaryV, SummaryV) -> bool {
    |a: SummaryV, b: SummaryV| summary_leq(sort, a, b)
}

proof fn lemma_chars_le_total_transitive(a: Seq<char>, b: Seq<char>, c: Seq<char>)
    ensures
        !chars_lt(b, a) || !chars_lt(a, b),
        (!chars_lt(b, a) && !chars_lt(c, b)) ==> !chars_lt(c, a),
{
    super::health::lemma_chars_lt_total(a, b);
    if chars_lt(a, b) && chars_lt(b, a) {
        super::health::lemma_chars_lt_transitive(a, b, a);
        super::health::lemma_chars_lt_irreflexive(a);
    }
    if !chars_lt(b, a) && !chars_lt(c, b) && chars_lt(c, a) {
        super::health::lemma_chars_lt_total(a, b);
        super::health::lemma_chars_lt_total(b, c);
        if chars_lt(a, b) && chars_lt(b, c) {
            super::health::lemma_chars_lt_transitive(a, b, c);
            super::health::lemma_chars_lt_transitive(c, a, c);
            super::health::lemma_chars_lt_irreflexive(c);
        } else if chars_lt(a, b) {
            super::health::lemma_chars_lt_transitive(c, a, b);
        }
    }
}

proof fn lemma_summary_leq(sort: Sort, a: SummaryV, b: SummaryV, c: SummaryV)
    ensures
        summary_leq(sort, a, b) || summary_leq(sort, b, a),
        (summary_leq(sort, a, b) && summary_leq(sort, b, c)) ==> summary_leq(sort, a, c),
{
    match sort {
        Sort::CreatedDesc => {
            match (a.created, b.created) {
                (Some(x), Some(y)) => lemma_chars_le_total_transitive(x, y, x),
                _ => {},
            }
            match (a.created, b.created, c.created) {
                (Some(x), Some(y), Some(z)) => {
                    lemma_chars_le_total_transitive(z, y, x);
                    lemma_chars_le_total_transitive(y, x, z);
                },
                _ => {},
            }
        },
        Sort::TitleAsc => {
            lemma_chars_le_total_transitive(lowercase(a.title), lowercase(b.title), lowercase(c.title));
        },
        _ => {},
    }
}

fn num_le_v(a: Option<u32>, b: Option<u32>) -> (r: bool)
    ensures
        r == num_le(a, b),
{
    match (a, b) {
        (None, _) => true,
        (Some(_), None) => false,
        (Some(x), Some(y)) => x <= y,
    }
}

fn summary_precedes(sort: Sort, a: &AdrSummary, b: &AdrSummary) -> (r: bool)
    ensures
        r == summary_leq(sort, a@, b@),
{
    match sort {
        Sort::NumberAsc => num_le_v(a.number, b.number),
        Sort::NumberDesc => num_le_v(b.number, a.number),
        Sort::CreatedDesc => match (&b.created, &a.created) {
            (None, _) => true,
            (Some(_), None) => false,
            (Some(x), Some(y)) => !super::health::chars_less(&chars_of(y.as_str()), &chars_of(x.as_str())),
        },
        Sort::TitleAsc => {
            let la = chars_of(str_to_lowercase(a.title.as_str()).as_str());
            let lb = chars_of(str_to_lowercase(b.title.as_str()).as_str());
            !super::health::chars_less(&lb, &la)
        },
    }
}

/// `rows` in `sort` order; rows with equal keys keep their order.
pub fn sort_summaries(rows: Vec<AdrSummary>, sort: Sort) -> (r: Vec<AdrSummary>)
    ensures
        summaries_v(r@).to_multiset() == summaries_v(rows@).to_multiset(),
        sorted_by(summaries_v(r@), summary_order(sort)),
{
    let mut out: Vec<AdrSummary> = Vec::new();
    let mut rest = rows;
    let ghost all = summaries_v(rest@);
    let ghost n = rest.len();
    proof {
        assert(summaries_v(out@) =~= Seq::<SummaryV>::empty());
        assert(all.skip(n as int) =~= Seq::<SummaryV>::empty());
        assert(summaries_v(rest@) =~= all.take(n as int));
    }
    while rest.len() > 0
        invariant
            all.len() == n,
            rest.len() <= n,
            summaries_v(rest@) == all.take(rest.len() as int),
            summaries_v(out@).to_multiset() == all.skip(rest.len() as int).to_multiset(),
            sorted_by(summaries_v(out@), summary_order(sort)),
        decreases rest.len(),
    {
        let ghost prev = summaries_v(rest@);
        let x = rest.pop().unwrap();
        let ghost xv = x@;
        let ghost k0 = rest.len() as int;
        assert(all[k0] == xv) by {
            assert(prev.len() == k0 + 1);
            assert(prev[k0] == xv);
            assert(all.take(k0 + 1)[k0] == all[k0]);
        }
        let mut k: usize = 0;
        while k < out.len() && !summary_precedes(sort, &x, &out[k])
            invariant
                k <= out.len(),
                xv == x@,
                forall|j: int| 0 <= j < k ==> !summary_leq(sort, xv, #[trigger] summaries_v(out@)[j]),
            decreases out.len() - k,
        {
            k = k + 1;
        }
        let ghost before = summaries_v(out@);
        out.insert(k, x);
        proof {
            let after = summaries_v(out@);
            assert(after =~= before.insert(k as int, xv));
            assert forall|i: int, j: int| 0 <= i < j < after.len() implies #[trigger] summary_leq(sort, after[i], after[j]) by {
                if j < k {
                    assert(summary_order(sort)(before[i], before[j]));
                } else if j == k {
                    lemma_summary_leq(sort, xv, before[i], before[i]);
                } else if i < k {
                    assert(summary_order(sort)(before[i], before[j - 1]));
                } else if i == k {
                    assert(summary_leq(sort, xv, before[k as int]));
                    if j - 1 > k {
                        assert(summary_order(sort)(before[k as int], before[j - 1]));
                        lemma_summary_leq(sort, xv, before[k as int], before[j - 1]);
                    }
                } else {
                    assert(summary_order(sort)(before[i - 1], before[j - 1]));
                }
            }
            assert(0 <= k0 < all.len());
            assert(all.skip(k0) =~= all.skip(k0 + 1).insert(0, xv)) by {
                assert(all.skip(k0)[0] == all[k0]);
            }
            vstd::seq_lib::to_multiset_insert(before, k as int, xv);
            vstd::seq_lib::to_multiset_insert(all.skip(k0 + 1), 0, xv);
            assert(all.take(k0) =~= all.take(k0 + 1).drop_last());
        }
    }
    proof {
        assert(all.skip(0) =~= all);
    }
    out
}

// ---------------------------------------------------------------------------
// Listing and search
// ---------------------------------------------------------------------------

/// The summary rows of the ADRs `keep` admits, in listing order.
pub open spec fn rows_upto(
    rows: Seq<Dated>,
    n: int,
    keep: spec_fn(Dated) -> bool,
    today: CalDate,
    overdue_days: Option<u32>,
    scheme: NamingScheme,
) -> Seq<SummaryV>
    decreases n,
{
    if n <= 0 {
        Seq::empty()
    } else {
        let d = rows[n - 1];
        rows_upto(rows, n - 1, keep, today, overdue_days, scheme) + if keep(d) {
            seq![summary_spec(d.adr, opt_text(d.created), d.created_date, today, overdue_days, scheme)]
        } else {
            Seq::<SummaryV>::empty()
        }
    }
}

pub open spec fn filter_keeps(filter: Filter) -> spec_fn(Dated) -> bool {
    |d: Dated| match filter.status {
        Some(s) => d.adr.status == s,
        None => true,
    }
}

/// Whether the lower-cased `title body` of an ADR contains the lower-cased term.
pub open spec fn matches_term(term: Seq<char>) -> spec_fn(Dated) -> bool {
    |d: Dated| contains(lowercase(d.adr.title@ + " "@ + d.adr.body@), lowercase(term))
}

pub open spec fn dates_valid(rows: Seq<Dated>) -> bool {
    forall|i: int| 0 <= i < rows.len() ==> valid_date(#[trigger] rows[i].created_date)
}

/// The ADR summaries `filter` admits, in its sort order.
pub fn summaries(
    rows: &Vec<Dated>,
    filter: &Filter,
    today: CalDate,
    overdue_days: Option<u32>,
    scheme: NamingScheme,
) -> (r: Vec<AdrSummary>)
    requires
        dates_valid(rows@),
        valid_date(today),
    ensures
        summaries_v(r@).to_multiset()
            == rows_upto(rows@, rows.len() as int, filter_keeps(*filter), today, overdue_days, scheme).to_multiset(),
        sorted_by(summaries_v(r@), summary_order(filter.sort)),
{
    let mut out: Vec<AdrSummary> = Vec::new();
    let mut i: usize = 0;
    assert(summaries_v(out@) =~= Seq::<SummaryV>::empty());
    while i < rows.len()
        invariant
            i <= rows.len(),
            dates_valid(rows@),
            valid_date(today),
            summaries_v(out@) == rows_upto(rows@, i as int, filter_keeps(*filter), today, overdue_days, scheme),
        decreases rows.len() - i,
    {
        let d = &rows[i];
        let keep = filter.keeps(d.adr.status);
        assert(keep == filter_keeps(*filter)(*d));
        let ghost before = summaries_v(out@);
        if keep {
            assert(valid_date(rows@[i as int].created_date));
            let s = summary_of(&d.adr, &d.created, d.created_date, today, overdue_days, scheme);
            out.push(s);
            assert(summaries_v(out@) =~= before.push(s@));
        } else {
            assert(summaries_v(out@) =~= before);
        }
        i = i + 1;
    }
    sort_summaries(out, filter.sort)
}

/// The summaries of the ADRs whose title and body, lower-cased and joined
/// by a space, contain the lower-cased `term`, in listing order.
pub fn search(
    rows: &Vec<Dated>,
    term: &str,
    today: CalDate,
    overdue_days: Option<u32>,
    scheme: NamingScheme,
) -> (r: Vec<AdrSummary>)
    requires
        dates_valid(rows@),
        valid_date(today),
    ensures
        summaries_v(r@) == rows_upto(rows@, rows.len() as int, matches_term(term@), today, overdue_days, scheme),
{
    let needle = chars_of(str_to_lowercase(term).as_str());
    let mut out: Vec<AdrSummary> = Vec::new();
    let mut i: usize = 0;
    assert(summaries_v(out@) =~= Seq::<SummaryV>::empty());
    while i < rows.len()
        invariant
            i <= rows.len(),
            dates_valid(rows@),
            valid_date(today),
            needle@ == lowercase(term@),
            summaries_v(out@) == rows_upto(rows@, i as int, matches_term(term@), today, overdue_days, scheme),
        decreases rows.len() - i,
    {
        let d = &rows[i];
        let mut hay = chars_of(d.adr.title.as_str());
        append_str(&mut hay, " ");
        append_str(&mut hay, d.adr.body.as_str());
        let lower = chars_of(str_to_lowercase(string_of(&hay).as_str()).as_str());
        let keep = crate::text::find_v(&lower, &needle).is_some();
        assert(keep == matches_term(term@)(*d));
        let ghost before = summaries_v(out@);
        if keep {
            assert(valid_date(rows@[i as int].created_date));
            let s = summary_of(&d.adr, &d.created, d.created_date, today, overdue_days, scheme);
            out.push(s);
            assert(summaries_v(out@) =~= before.push(s@));
        } else {
            assert(summaries_v(out@) =~= before);
        }
        i = i + 1;
    }
    out
}

// ---------------------------------------------------------------------------
// Detail
// ---------------------------------------------------------------------------

/// A related ADR in the detail view.
#[derive(Debug)]
pub struct RelatedLink {
    pub reference: String,
    pub address: String,
    pub kind: EdgeKind,
}

/// One step of an ADR's lifecycle in the detail view.
#[derive(Debug)]
pub struct TimelineEvent {
    /// RFC 3339 (empty when the instant does not format).
    pub date: String,
    pub status: Status,
    /// The status's display name.
    pub label: String,
    pub commit: String,
    pub subject: String,
}

/// Everything the detail view shows of one ADR.
#[derive(Debug)]
pub struct AdrDetail {
    pub summary: AdrSummary,
    /// The raw markdown body.
    pub body: String,
    /// Rendered HTML; not produced yet.
    pub body_html: Option<String>,
    pub related: Vec<RelatedLink>,
    pub history: Vec<TimelineEvent>,
    pub last_modified: Option<String>,
}

/// The abstract value of a related link: `(reference, address, kind)`.
pub type RelatedT = (Seq<char>, Seq<char>, EdgeKind);

pub open spec fn related_v(s: Seq<RelatedLink>) -> Seq<RelatedT> {
    s.map_values(|l: RelatedLink| (l.reference@, l.address@, l.kind))
}

/// `acc` with a link of `kind` to `r`, unless one of that kind to the same
/// address is there.
pub open spec fn push_related_spec(acc: Seq<RelatedT>, scheme: NamingScheme, r: RefV, kind: EdgeKind) -> Seq<RelatedT> {
    if exists|k: int| 0 <= k < acc.len() && (#[trigger] acc[k]).1 == ref_addr(r) && acc[k].2 == kind {
        acc
    } else {
        acc.push((scheme_display(scheme, r), ref_addr(r), kind))
    }
}

pub open spec fn typed_related(acc: Seq<RelatedT>, scheme: NamingScheme, targets: Seq<RefV>, kind: EdgeKind) -> Seq<RelatedT>
    decreases targets.len(),
{
    if targets.len() == 0 {
        acc
    } else {
        typed_related(push_related_spec(acc, scheme, targets[0], kind), scheme, targets.drop_first(), kind)
    }
}

/// A `Related` link for each body link to another ADR that no more specific
/// link to the same address already covers.
pub open spec fn body_related(acc: Seq<RelatedT>, scheme: NamingScheme, me: RefV, refs: Seq<RefV>) -> Seq<RelatedT>
    decreases refs.len(),
{
    if refs.len() == 0 {
        acc
    } else {
        let r = refs[0];
        let covered = exists|k: int| 0 <= k < acc.len() && (#[trigger] acc[k]).1 == ref_addr(r) && acc[k].2 != EdgeKind::Related;
        let next = if r == me || covered {
            acc
        } else {
            push_related_spec(acc, scheme, r, EdgeKind::Related)
        };
        body_related(next, scheme, me, refs.drop_first())
    }
}

/// The related links of an ADR: its supersession fields, its typed links,
/// then its body links.
pub open spec fn related_spec(a: Adr, scheme: NamingScheme) -> Seq<RelatedT> {
    let s1 = match a.supersedes {
        Some(r) => push_related_spec(Seq::empty(), scheme, r@, EdgeKind::Supersedes),
        None => Seq::empty(),
    };
    let s2 = match a.superseded_by {
        Some(r) => push_related_spec(s1, scheme, r@, EdgeKind::Supersedes),
        None => s1,
    };
    let s3 = typed_related(s2, scheme, refs_of(a.depends_on@), EdgeKind::DependsOn);
    let s4 = typed_related(s3, scheme, refs_of(a.refines@), EdgeKind::Refines);
    let s5 = typed_related(s4, scheme, refs_of(a.relates_to@), EdgeKind::RelatesTo);
    body_related(s5, scheme, adr_ref(a), linked_refs_spec(a.body@, scheme))
}

/// Whether `out` holds a link to `addr` whose kind is `kind` (`same`) or is
/// not `kind` (`!same`).
fn has_related(out: &Vec<RelatedLink>, addr: &Vec<char>, kind: EdgeKind, same: bool) -> (b: bool)
    ensures
        b == exists|k: int| 0 <= k < out.len() && (#[trigger] related_v(out@)[k]).1 == addr@
            && (if same { related_v(out@)[k].2 == kind } else { related_v(out@)[k].2 != kind }),
{
    let ghost rv = related_v(out@);
    let mut k: usize = 0;
    while k < out.len()
        invariant
            k <= out.len(),
            rv == related_v(out@),
            forall|j: int| 0 <= j < k ==> !((#[trigger] rv[j]).1 == addr@ && (if same { rv[j].2 == kind } else { rv[j].2 != kind })),
        decreases out.len() - k,
    {
        let l = &out[k];
        assert(rv[k as int] == (l.reference@, l.address@, l.kind));
        let hit = if same { l.kind == kind } else { l.kind != kind };
        if hit && crate::text::eq_chars(&chars_of(l.address.as_str()), addr) {
            return true;
        }
        k = k + 1;
    }
    false
}

fn push_related(out: &mut Vec<RelatedLink>, scheme: NamingScheme, r: &AdrRef, kind: EdgeKind)
    ensures
        related_v(final(out)@) == push_related_spec(related_v(old(out)@), scheme, r@, kind),
{
    let addr = chars_of(r.addr().as_str());
    if !has_related(out, &addr, kind, true) {
        let ghost before = related_v(out@);
        out.push(RelatedLink { reference: scheme.display(r), address: string_of(&addr), kind });
        assert(related_v(out@) =~= before.push((scheme_display(scheme, r@), ref_addr(r@), kind)));
    }
}

fn push_typed_related(out: &mut Vec<RelatedLink>, scheme: NamingScheme, targets: &Vec<AdrRef>, kind: EdgeKind)
    ensures
        related_v(final(out)@) == typed_related(related_v(old(out)@), scheme, refs_of(targets@), kind),
{
    let mut i: usize = 0;
    assert(refs_of(targets@).skip(0) =~= refs_of(targets@));
    while i < targets.len()
        invariant
            i <= targets.len(),
            typed_related(related_v(out@), scheme, refs_of(targets@).skip(i as int), kind)
                == typed_related(related_v(old(out)@), scheme, refs_of(targets@), kind),
        decreases targets.len() - i,
    {
        proof {
            let rest = refs_of(targets@).skip(i as int);
            assert(rest[0] == targets@[i as int]@);
            assert(rest.drop_first() =~= refs_of(targets@).skip(i + 1));
        }
        push_related(out, scheme, &targets[i], kind);
        i = i + 1;
    }
    assert(refs_of(targets@).skip(i as int) =~= Seq::<RefV>::empty());
}

/// The related links of an ADR for its detail view.
pub fn related_links(a: &Adr, scheme: NamingScheme) -> (r: Vec<RelatedLink>)
    ensures
        related_v(r@) == related_spec(*a, scheme),
{
    let mut out: Vec<RelatedLink> = Vec::new();
    assert(related_v(out@) =~= Seq::<RelatedT>::empty());
    match &a.supersedes {
        Some(x) => push_related(&mut out, scheme, x, EdgeKind::Supersedes),
        None => {},
    }
    match &a.superseded_by {
        Some(x) => push_related(&mut out, scheme, x, EdgeKind::Supersedes),
        None => {},
    }
    push_typed_related(&mut out, scheme, &a.depends_on, EdgeKind::DependsOn);
    push_typed_related(&mut out, scheme, &a.refines, EdgeKind::Refines);
    push_typed_related(&mut out, scheme, &a.relates_to, EdgeKind::RelatesTo);
    let me = a.reference();
    let refs = linked_refs(a.body.as_str(), scheme);
    let ghost start = related_v(out@);
    let mut i: usize = 0;
    assert(refs_of(refs@).skip(0) =~= refs_of(refs@));
    while i < refs.len()
        invariant
            i <= refs.len(),
            me@ == adr_ref(*a),
            body_related(related_v(out@), scheme, me@, refs_of(refs@).skip(i as int))
                == body_related(start, scheme, me@, refs_of(refs@)),
        decreases refs.len() - i,
    {
        let r = &refs[i];
        proof {
            let rest = refs_of(refs@).skip(i as int);
            assert(rest[0] == r@);
            assert(rest.drop_first() =~= refs_of(refs@).skip(i + 1));
        }
        let addr = chars_of(r.addr().as_str());
        if !r.same(&me) && !has_related(&out, &addr, EdgeKind::Related, false) {
            push_related(&mut out, scheme, r, EdgeKind::Related);
        }
        i = i + 1;
    }
    assert(refs_of(refs@).skip(i as int) =~= Seq::<RefV>::empty());
    out
}

/// The RFC 3339 text `time` formats a Unix-nanosecond instant as; empty
/// when the instant is out of its range or does not format.
pub uninterp spec fn rfc3339_text(nanos: i128) -> Seq<char>;

/// `time::OffsetDateTime::from_unix_timestamp_nanos` then `format` with
/// RFC 3339 (empty on failure), named by [`rfc3339_text`].
#[verifier::external_body]
fn format_rfc3339(nanos: i128) -> (r: String)
    ensures
        r@ == rfc3339_text(nanos),
{
    match time::OffsetDateTime::from_unix_timestamp_nanos(nanos) {
        Ok(d) => d.format(&time::format_description::well_known::Rfc3339).unwrap_or_default(),
        Err(_) => String::new(),
    }
}

/// A history event as a timeline entry: its instant in RFC 3339, its status
/// and that status's name, its commit and subject.
pub fn timeline_event(e: &HistoryEvent) -> (t: TimelineEvent)
    ensures
        t.date@ == rfc3339_text(e.date),
        t.status == e.status,
        t.label@ == crate::adr::status_name(e.status),
        t.commit@ == e.commit@,
        t.subject@ == e.subject@,
{
    TimelineEvent {
        date: format_rfc3339(e.date),
        status: e.status,
        label: e.status.to_string(),
        commit: string_of(&chars_of(e.commit.as_str())),
        subject: string_of(&chars_of(e.subject.as_str())),
    }
}

/// The detail view of an ADR: its summary row, raw body, related links,
/// lifecycle timeline, and last-modified instant.
pub fn detail_of(
    d: &Dated,
    events: &Vec<HistoryEvent>,
    last_modified: Option<i128>,
    today: CalDate,
    overdue_days: Option<u32>,
    scheme: NamingScheme,
) -> (r: AdrDetail)
    requires
        valid_date(d.created_date),
        valid_date(today),
    ensures
        r.summary@ == summary_spec(d.adr, opt_text(d.created), d.created_date, today, overdue_days, scheme),
        r.body@ == d.adr.body@,
        r.body_html is None,
        related_v(r.related@) == related_spec(d.adr, scheme),
        r.history.len() == events.len(),
        forall|i: int| 0 <= i < events.len() ==> {
            let t = #[trigger] r.history@[i];
            let e = events@[i];
            t.date@ == rfc3339_text(e.date) && t.status == e.status && t.label@ == crate::adr::status_name(e.status)
                && t.commit@ == e.commit@ && t.subject@ == e.subject@
        },
        opt_text(r.last_modified) == match last_modified {
            Some(n) => Some(rfc3339_text(n)),
            None => None::<Seq<char>>,
        },
{
    let summary = summary_of(&d.adr, &d.created, d.created_date, today, overdue_days, scheme);
    let related = related_links(&d.adr, scheme);
    let mut history: Vec<TimelineEvent> = Vec::new();
    let mut i: usize = 0;
    while i < events.len()
        invariant
            i <= events.len(),
            history.len() == i,
            forall|j: int| 0 <= j < i ==> {
                let t = #[trigger] history@[j];
                let e = events@[j];
                t.date@ == rfc3339_text(e.date) && t.status == e.status && t.label@ == crate::adr::status_name(e.status)
                    && t.commit@ == e.commit@ && t.subject@ == e.subject@
            },
        decreases events.len() - i,
    {
        history.push(timeline_event(&events[i]));
        i = i + 1;
    }
    AdrDetail {
        summary,
        body: string_of(&chars_of(d.adr.body.as_str())),
        body_html: None,
        related,
        history,
        last_modified: match last_modified {
            Some(n) => Some(format_rfc3339(n)),
            None => None,
        },
    }
}


// ---------------------------------------------------------------------------
// The duplicate-title guard
// ---------------------------------------------------------------------------

/// Two titles are the same title: equal once trimmed, ignoring ASCII case.
pub open spec fn same_title(a: Seq<char>, b: Seq<char>) -> bool {
    crate::text::eq_ignore_ascii_case(crate::text::trim(a), crate::text::trim(b))
}

/// The positions, among the first `k` summaries, of those titled `title`.
pub open spec fn titled_upto(titles: Seq<Seq<char>>, title: Seq<char>, k: int) -> Seq<usize>
    decreases k,
{
    if k <= 0 {
        Seq::empty()
    } else if same_title(titles[k - 1], title) {
        titled_upto(titles, title, k - 1).push((k - 1) as usize)
    } else {
        titled_upto(titles, title, k - 1)
    }
}

pub open spec fn titles_of(v: Seq<AdrSummary>) -> Seq<Seq<char>> {
    v.map_values(|s: AdrSummary| s.title@)
}

/// The existing ADRs that already carry the title a new ADR is about to
/// get: the positions, in order, of the summaries whose title equals it
/// once both are trimmed, ignoring ASCII case.
pub fn same_title_positions(rows: &Vec<AdrSummary>, title: &str) -> (r: Vec<usize>)
    ensures
        r@ == titled_upto(titles_of(rows@), title@, rows@.len() as int),
{
    let ghost tv = titles_of(rows@);
    let want = crate::text::trim_v(&chars_of(title));
    let mut out: Vec<usize> = Vec::new();
    let mut k: usize = 0;
    while k < rows.len()
        invariant
            k <= rows.len(),
            tv == titles_of(rows@),
            want@ == crate::text::trim(title@),
            out@ == titled_upto(tv, title@, k as int),
        decreases rows.len() - k,
    {
        let t = crate::text::trim_v(&chars_of(rows[k].title.as_str()));
        if crate::text::eq_ignore_case_chars(&t, &want) {
            out.push(k);
        }
        k = k + 1;
    }
    out
}

} // verus!
