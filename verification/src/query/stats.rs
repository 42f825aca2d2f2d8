//! Aggregate statistics across all ADRs: counts by status, the age of each
//! open proposal, what is due for review, and creations per month.
use vstd::prelude::*;
use vstd::relations::sorted_by;
use crate::adr::{all_statuses, Status};
use crate::naming::NamingScheme;
use crate::template::{valid_date, CalDate};
use crate::text::{append_all, append_str, chars_of, dec, pad_zero, string_of};
use super::health::chars_lt;
use super::listing::{dates_valid, review_due_spec, rows_upto, summary_of, summary_spec, opt_text, summaries_v, AdrSummary, Dated, SummaryV};
use crate::adr::adr_ref;
use crate::naming::{ref_addr, scheme_display};

verus! {

/// How many ADRs have one status.
#[derive(Debug)]
pub struct StatusCount {
    pub status: Status,
    pub count: usize,
}

/// How long a still-proposed ADR has been open.
#[derive(Debug)]
pub struct ProposedAge {
    pub number: Option<u32>,
    pub reference: String,
    pub address: String,
    pub title: String,
    /// Whole days since it was created.
    pub age_days: Option<i64>,
    pub review_due: bool,
}

/// How many ADRs were created in one month (`YYYY-MM`).
#[derive(Debug)]
pub struct CreatedBucket {
    pub month: String,
    pub count: usize,
}

/// Aggregate statistics across all ADRs.
#[derive(Debug)]
pub struct Stats {
    pub total: usize,
    /// One count per status, in lifecycle order, zeroes included.
    pub by_status: Vec<StatusCount>,
    /// The still-proposed ADRs, oldest first.
    pub proposed_age: Vec<ProposedAge>,
    /// The summaries of the ADRs due for review, in listing order.
    pub review_due: Vec<AdrSummary>,
    /// Creations per month, oldest month first.
    pub created_over_time: Vec<CreatedBucket>,
}

/// `(later - earlier).whole_days()`: the nanosecond difference in whole
/// days, truncated toward zero.
pub open spec fn whole_days(later: i128, earlier: i128) -> int {
    let d = later as int - earlier as int;
    if d >= 0 {
        d / 86_400_000_000_000int
    } else {
        -((-d) / 86_400_000_000_000int)
    }
}

/// Instants in the range `time::OffsetDateTime` covers, with room to spare.
pub open spec fn instant_ok(n: i128) -> bool {
    -1_000_000_000_000_000_000_000_000_000int <= n <= 1_000_000_000_000_000_000_000_000_000int
}

fn whole_days_v(later: i128, earlier: i128) -> (r: i64)
    requires
        instant_ok(later),
        instant_ok(earlier),
    ensures
        r == whole_days(later, earlier),
{
    let d: i128 = later - earlier;
    let neg = d < 0;
    let mag: u128 = if neg {
        (-d) as u128
    } else {
        d as u128
    };
    let q: u128 = mag / 86_400_000_000_000u128;
    assert(q <= 100_000_000_000_000u128);
    if neg {
        -(q as i64)
    } else {
        q as i64
    }
}

/// The month key of a date: `format!("{:04}-{:02}", year, month)`.
pub open spec fn month_key(d: CalDate) -> Seq<char> {
    (if d.year >= 0 {
        pad_zero(dec(d.year as nat), 4)
    } else {
        "-"@ + pad_zero(dec((-d.year) as nat), 3)
    }) + "-"@ + pad_zero(dec(d.month as nat), 2)
}

fn month_key_v(d: CalDate) -> (r: Vec<char>)
    requires
        valid_date(d),
    ensures
        r@ == month_key(d),
{
    let mut v: Vec<char> = if d.year >= 0 {
        crate::text::pad_zero_v(&crate::text::dec_v(d.year as u64), 4)
    } else {
        let mut m = chars_of("-");
        append_all(&mut m, &crate::text::pad_zero_v(&crate::text::dec_v((-d.year) as u64), 3));
        m
    };
    append_str(&mut v, "-");
    append_all(&mut v, &crate::text::pad_zero_v(&crate::text::dec_v(d.month as u64), 2));
    v
}

// ---------------------------------------------------------------------------
// Counts by status
// ---------------------------------------------------------------------------

pub open spec fn count_status(rows: Seq<Dated>, st: Status, n: int) -> int
    decreases n,
{
    if n <= 0 {
        0
    } else {
        count_status(rows, st, n - 1) + if rows[n - 1].adr.status == st {
            1int
        } else {
            0int
        }
    }
}

proof fn lemma_count_status_bound(rows: Seq<Dated>, st: Status, n: int)
    requires
        0 <= n,
    ensures
        0 <= count_status(rows, st, n) <= n,
    decreases n,
{
    if n > 0 {
        lemma_count_status_bound(rows, st, n - 1);
    }
}

fn count_status_v(rows: &Vec<Dated>, st: Status) -> (c: usize)
    ensures
        c == count_status(rows@, st, rows.len() as int),
{
    let mut c: usize = 0;
    let mut i: usize = 0;
    while i < rows.len()
        invariant
            i <= rows.len(),
            c == count_status(rows@, st, i as int),
        decreases rows.len() - i,
    {
        proof {
            lemma_count_status_bound(rows@, st, i as int);
        }
        if rows[i].adr.status == st {
            c = c + 1;
        }
        i = i + 1;
    }
    c
}

// ---------------------------------------------------------------------------
// Ages of open proposals
// ---------------------------------------------------------------------------

pub struct AgeV {
    pub number: Option<u32>,
    pub reference: Seq<char>,
    pub address: Seq<char>,
    pub title: Seq<char>,
    pub age_days: Option<i64>,
    pub review_due: bool,
}

pub open spec fn age_v(p: ProposedAge) -> AgeV {
    AgeV {
        number: p.number,
        reference: p.reference@,
        address: p.address@,
        title: p.title@,
        age_days: p.age_days,
        review_due: p.review_due,
    }
}

pub open spec fn ages_v(s: Seq<ProposedAge>) -> Seq<AgeV> {
    s.map_values(|p: ProposedAge| age_v(p))
}

/// The age row of a proposed ADR at the instant `now`.
pub open spec fn age_spec(d: Dated, now: i128, today: CalDate, overdue_days: Option<u32>, scheme: NamingScheme) -> AgeV {
    AgeV {
        number: match d.adr.number {
            Some(n) => Some(n.0),
            None => None,
        },
        reference: scheme_display(scheme, adr_ref(d.adr)),
        address: ref_addr(adr_ref(d.adr)),
        title: d.adr.title@,
        age_days: Some(whole_days(now, d.created_at) as i64),
        review_due: review_due_spec(d.adr, d.created_date, today, overdue_days),
    }
}

pub open spec fn ages_upto(rows: Seq<Dated>, n: int, now: i128, today: CalDate, overdue_days: Option<u32>, scheme: NamingScheme) -> Seq<AgeV>
    decreases n,
{
    if n <= 0 {
        Seq::empty()
    } else {
        ages_upto(rows, n - 1, now, today, overdue_days, scheme) + if rows[n - 1].adr.status == Status::Proposed {
            seq![age_spec(rows[n - 1], now, today, overdue_days, scheme)]
        } else {
            Seq::<AgeV>::empty()
        }
    }
}

/// Oldest first: `a` may stay before `b` when it is at least as old.
pub open spec fn older_or_same(a: AgeV, b: AgeV) -> bool {
    match (a.age_days, b.age_days) {
        (_, None) => true,
        (None, Some(_)) => false,
        (Some(x), Some(y)) => x >= y,
    }
}

pub open spec fn age_order() -> spec_fn(AgeV, AgeV) -> bool {
    |a: AgeV, b: AgeV| older_or_same(a, b)
}

fn older_or_same_v(a: &ProposedAge, b: &ProposedAge) -> (r: bool)
    ensures
        r == older_or_same(age_v(*a), age_v(*b)),
{
    match (a.age_days, b.age_days) {
        (_, None) => true,
        (None, Some(_)) => false,
        (Some(x), Some(y)) => x >= y,
    }
}

pub open spec fn rows_ok(rows: Seq<Dated>) -> bool {
    dates_valid(rows) && forall|i: int| 0 <= i < rows.len() ==> instant_ok(#[trigger] rows[i].created_at)
}

fn proposed_ages(
    rows: &Vec<Dated>,
    now: i128,
    today: CalDate,
    overdue_days: Option<u32>,
    scheme: NamingScheme,
) -> (r: Vec<ProposedAge>)
    requires
        rows_ok(rows@),
        instant_ok(now),
        valid_date(today),
    ensures
        ages_v(r@).to_multiset() == ages_upto(rows@, rows.len() as int, now, today, overdue_days, scheme).to_multiset(),
        sorted_by(ages_v(r@), age_order()),
{
    let mut out: Vec<ProposedAge> = Vec::new();
    let mut i: usize = 0;
    assert(ages_v(out@) =~= Seq::<AgeV>::empty());
    while i < rows.len()
        invariant
            i <= rows.len(),
            rows_ok(rows@),
            instant_ok(now),
            valid_date(today),
            ages_v(out@).to_multiset() == ages_upto(rows@, i as int, now, today, overdue_days, scheme).to_multiset(),
            sorted_by(ages_v(out@), age_order()),
        decreases rows.len() - i,
    {
        let d = &rows[i];
        let ghost prefix = ages_upto(rows@, i as int, now, today, overdue_days, scheme);
        if d.adr.status == Status::Proposed {
            assert(valid_date(rows@[i as int].created_date) && instant_ok(rows@[i as int].created_at));
            let s = summary_of(&d.adr, &d.created, d.created_date, today, overdue_days, scheme);
            let r = d.adr.reference();
            let row = ProposedAge {
                number: match d.adr.number {
                    Some(n) => Some(n.0),
                    None => None,
                },
                reference: scheme.display(&r),
                address: r.addr(),
                title: string_of(&chars_of(d.adr.title.as_str())),
                age_days: Some(whole_days_v(now, d.created_at)),
                review_due: s.review_due,
            };
            let ghost rv = age_v(row);
            assert(rv == age_spec(*d, now, today, overdue_days, scheme));
            let mut k: usize = 0;
            while k < out.len() && older_or_same_v(&out[k], &row)
                invariant
                    k <= out.len(),
                    rv == age_v(row),
                    forall|j: int| 0 <= j < k ==> older_or_same(#[trigger] ages_v(out@)[j], rv),
                decreases out.len() - k,
            {
                k = k + 1;
            }
            let ghost before = ages_v(out@);
            out.insert(k, row);
            proof {
                let after = ages_v(out@);
                assert(after =~= before.insert(k as int, rv));
                assert forall|a: int, b: int| 0 <= a < b < after.len() implies #[trigger] older_or_same(after[a], after[b]) by {
                    if b < k {
                        assert(age_order()(before[a], before[b]));
                    } else if b == k {
                    } else if a < k {
                        assert(age_order()(before[a], before[b - 1]));
                    } else if a == k {
                        assert(!older_or_same(before[k as int], rv));
                        if b - 1 > k {
                            assert(age_order()(before[k as int], before[b - 1]));
                        }
                    } else {
                        assert(age_order()(before[a - 1], before[b - 1]));
                    }
                }
                vstd::seq_lib::to_multiset_insert(before, k as int, rv);
                vstd::seq_lib::to_multiset_build(prefix, rv);
                assert(ages_upto(rows@, i + 1, now, today, overdue_days, scheme) =~= prefix.push(rv));
            }
        } else {
            assert(ages_upto(rows@, i + 1, now, today, overdue_days, scheme) =~= prefix);
        }
        i = i + 1;
    }
    out
}

// ---------------------------------------------------------------------------
// Creations per month
// ---------------------------------------------------------------------------

/// How many of the first `n` ADRs were created in month `k`.
pub open spec fn month_count(rows: Seq<Dated>, k: Seq<char>, n: int) -> int
    decreases n,
{
    if n <= 0 {
        0
    } else {
        month_count(rows, k, n - 1) + if month_key(rows[n - 1].created_date) == k {
            1int
        } else {
            0int
        }
    }
}

proof fn lemma_month_count(rows: Seq<Dated>, k: Seq<char>, n: int)
    requires
        0 <= n,
    ensures
        0 <= month_count(rows, k, n) <= n,
        month_count(rows, k, n) > 0 ==> exists|r: int| 0 <= r < n && month_key(rows[r].created_date) == k,
    decreases n,
{
    if n > 0 {
        lemma_month_count(rows, k, n - 1);
        if month_key(rows[n - 1].created_date) == k {
            assert(month_key(rows[n - 1].created_date) == k);
        }
    }
}

pub open spec fn buckets_v(b: Seq<CreatedBucket>) -> Seq<(Seq<char>, usize)> {
    b.map_values(|x: CreatedBucket| (x.month@, x.count))
}

/// The buckets of the first `n` ADRs: month keys strictly increasing, each
/// with the number of ADRs created that month, and every ADR's month there.
pub open spec fn buckets_ok(rows: Seq<Dated>, b: Seq<(Seq<char>, usize)>, n: int) -> bool {
    &&& forall|x: int, y: int| 0 <= x < y < b.len() ==> chars_lt(b[x].0, b[y].0)
    &&& forall|x: int| 0 <= x < b.len() ==> (#[trigger] b[x]).1 == month_count(rows, b[x].0, n) && b[x].1 > 0
    &&& forall|r: int| 0 <= r < n ==> has_month(b, month_key((#[trigger] rows[r]).created_date))
}

pub open spec fn has_month(b: Seq<(Seq<char>, usize)>, k: Seq<char>) -> bool {
    exists|x: int| 0 <= x < b.len() && (#[trigger] b[x]).0 == k
}

fn month_buckets(rows: &Vec<Dated>) -> (r: Vec<CreatedBucket>)
    requires
        dates_valid(rows@),
    ensures
        buckets_ok(rows@, buckets_v(r@), rows.len() as int),
{
    let mut out: Vec<CreatedBucket> = Vec::new();
    let mut i: usize = 0;
    assert(buckets_v(out@) =~= Seq::<(Seq<char>, usize)>::empty());
    while i < rows.len()
        invariant
            i <= rows.len(),
            dates_valid(rows@),
            buckets_ok(rows@, buckets_v(out@), i as int),
        decreases rows.len() - i,
    {
        assert(valid_date(rows@[i as int].created_date));
        let key = month_key_v(rows[i].created_date);
        let ghost kv = key@;
        let ghost bv = buckets_v(out@);
        let mut j: usize = 0;
        while j < out.len() && super::health::chars_less(&chars_of(out[j].month.as_str()), &key)
            invariant
                j <= out.len(),
                bv == buckets_v(out@),
                kv == key@,
                forall|x: int| 0 <= x < j ==> chars_lt(#[trigger] bv[x].0, kv),
            decreases out.len() - j,
        {
            j = j + 1;
        }
        proof {
            lemma_month_count(rows@, kv, i as int);
            assert forall|x: int| 0 <= x < bv.len() implies (#[trigger] bv[x]).1 == month_count(rows@, bv[x].0, i + 1)
                - (if bv[x].0 == kv { 1int } else { 0int }) by {
                assert(month_count(rows@, bv[x].0, i + 1) == month_count(rows@, bv[x].0, i as int) + if month_key(
                    rows@[i as int].created_date,
                ) == bv[x].0 {
                    1int
                } else {
                    0int
                });
            }
        }
        let same = j < out.len() && crate::text::eq_chars(&chars_of(out[j].month.as_str()), &key);
        if same {
            let c = out[j].count;
            proof {
                lemma_month_count(rows@, kv, i + 1);
                assert(bv[j as int].1 == month_count(rows@, kv, i as int));
                assert(month_count(rows@, kv, i + 1) <= i + 1);
            }
            let m = string_of(&chars_of(out[j].month.as_str()));
            out.set(j, CreatedBucket { month: m, count: c + 1 });
            proof {
                let nb = buckets_v(out@);
                assert(nb =~= bv.update(j as int, (kv, (c + 1) as usize)));
                assert forall|r: int| 0 <= r < i + 1 implies has_month(nb, month_key((#[trigger] rows@[r]).created_date)) by {
                    if r < i {
                        let x = choose|x: int| 0 <= x < bv.len() && (#[trigger] bv[x]).0 == month_key(rows@[r].created_date);
                        assert(nb[x].0 == bv[x].0);
                    } else {
                        assert(nb[j as int].0 == kv);
                    }
                }
            }
        } else {
            proof {
                // `key` is new: below `j` every key is smaller, from `j` on every key is larger.
                assert forall|x: int| j <= x < bv.len() implies chars_lt(kv, #[trigger] bv[x].0) by {
                    super::health::lemma_chars_lt_total(kv, bv[j as int].0);
                    if x > j {
                        super::health::lemma_chars_lt_transitive(kv, bv[j as int].0, bv[x].0);
                    }
                }
                assert forall|x: int| 0 <= x < bv.len() implies (#[trigger] bv[x]).0 != kv by {
                    if x < j {
                        super::health::lemma_chars_lt_irreflexive(kv);
                    } else {
                        super::health::lemma_chars_lt_irreflexive(kv);
                    }
                }
                if month_count(rows@, kv, i as int) > 0 {
                    let r = choose|r: int| 0 <= r < i && month_key(rows@[r].created_date) == kv;
                    let x = choose|x: int| 0 <= x < bv.len() && (#[trigger] bv[x]).0 == month_key(rows@[r].created_date);
                    assert(bv[x].0 != kv);
                }
                assert(month_count(rows@, kv, i + 1) == 1);
            }
            out.insert(j, CreatedBucket { month: string_of(&key), count: 1 });
            proof {
                let nb = buckets_v(out@);
                assert(nb =~= bv.insert(j as int, (kv, 1usize)));
                assert forall|r: int| 0 <= r < i + 1 implies has_month(nb, month_key((#[trigger] rows@[r]).created_date)) by {
                    if r < i {
                        let x = choose|x: int| 0 <= x < bv.len() && (#[trigger] bv[x]).0 == month_key(rows@[r].created_date);
                        if x < j {
                            assert(nb[x].0 == bv[x].0);
                        } else {
                            assert(nb[x + 1].0 == bv[x].0);
                        }
                    } else {
                        assert(nb[j as int].0 == kv);
                    }
                }
            }
        }
        i = i + 1;
    }
    out
}

// ---------------------------------------------------------------------------
// All together
// ---------------------------------------------------------------------------

pub open spec fn due_filter(today: CalDate, overdue_days: Option<u32>) -> spec_fn(Dated) -> bool {
    |d: Dated| review_due_spec(d.adr, d.created_date, today, overdue_days)
}

/// Aggregate statistics across the ADRs `rows` at the instant `now` and the
/// date `today`: the total; one count per status in lifecycle order; the
/// still-proposed ADRs, oldest first; the summaries of those due for review;
/// and creations per month, oldest month first.
pub fn stats(
    rows: &Vec<Dated>,
    now: i128,
    today: CalDate,
    overdue_days: Option<u32>,
    scheme: NamingScheme,
) -> (r: Stats)
    requires
        rows_ok(rows@),
        instant_ok(now),
        valid_date(today),
    ensures
        r.total == rows.len(),
        r.by_status.len() == 5,
        forall|i: int| 0 <= i < 5 ==> (#[trigger] r.by_status@[i]).status == all_statuses()[i]
            && r.by_status@[i].count == count_status(rows@, all_statuses()[i], rows.len() as int),
        ages_v(r.proposed_age@).to_multiset() == ages_upto(rows@, rows.len() as int, now, today, overdue_days, scheme).to_multiset(),
        sorted_by(ages_v(r.proposed_age@), age_order()),
        summaries_v(r.review_due@) == rows_upto(rows@, rows.len() as int, due_filter(today, overdue_days), today, overdue_days, scheme),
        buckets_ok(rows@, buckets_v(r.created_over_time@), rows.len() as int),
{
    let statuses = crate::adr::all_status_list();
    let mut by_status: Vec<StatusCount> = Vec::new();
    let mut k: usize = 0;
    while k < statuses.len()
        invariant
            k <= statuses.len(),
            statuses@ == all_statuses(),
            by_status.len() == k,
            forall|i: int| 0 <= i < k ==> (#[trigger] by_status@[i]).status == all_statuses()[i]
                && by_status@[i].count == count_status(rows@, all_statuses()[i], rows.len() as int),
        decreases statuses.len() - k,
    {
        by_status.push(StatusCount { status: statuses[k], count: count_status_v(rows, statuses[k]) });
        k = k + 1;
    }
    let proposed_age = proposed_ages(rows, now, today, overdue_days, scheme);
    let mut review_due: Vec<AdrSummary> = Vec::new();
    let mut i: usize = 0;
    assert(summaries_v(review_due@) =~= Seq::<SummaryV>::empty());
    while i < rows.len()
        invariant
            i <= rows.len(),
            rows_ok(rows@),
            valid_date(today),
            summaries_v(review_due@) == rows_upto(rows@, i as int, due_filter(today, overdue_days), today, overdue_days, scheme),
        decreases rows.len() - i,
    {
        let d = &rows[i];
        assert(valid_date(rows@[i as int].created_date));
        let s = summary_of(&d.adr, &d.created, d.created_date, today, overdue_days, scheme);
        let ghost before = summaries_v(review_due@);
        assert(s.review_due == due_filter(today, overdue_days)(*d));
        if s.review_due {
            review_due.push(s);
            assert(summaries_v(review_due@) =~= before.push(summary_spec(d.adr, opt_text(d.created), d.created_date, today, overdue_days, scheme)));
        } else {
            assert(summaries_v(review_due@) =~= before);
        }
        i = i + 1;
    }
    let created_over_time = month_buckets(rows);
    Stats { total: rows.len(), by_status, proposed_age, review_due, created_over_time }
}

} // verus!
