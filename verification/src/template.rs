//! ADR scaffolding templates for the markdown profile: plain text with
//! `{{heading}}`, `{{number}}`, `{{title}}`, `{{date}}` and `{{status}}`
//! placeholders. Built-in templates are MADR and the classic Nygard layout;
//! custom ones come from an explicit file, `templates_dir/<name>.md`, or an
//! `adr-template.md` in the repository.
use vstd::prelude::*;
use crate::adr::{Number, Status, status_name};
use crate::naming::{lowercase, scheme_heading, str_to_lowercase, AdrRef, NamingScheme, RefV};
use crate::text::{
    append_all, append_str, chars_of, dec, dec_v, ends_with, ends_with_v, eq_chars, pad4_v, pad_zero,
    replace, replace_str, string_of,
};

verus! {

/// The built-in MADR template. Each author-filled section ships with an
/// italic prompt (`_…_`) saying what belongs there; a section left as just
/// its prompt is what the lint flags as unfinished.
pub const MADR: &'static str = "{{heading}}\n\
\n\
> State: {{status}}\n\
\n\
## Status\n\
\n\
{{status}}\n\
\n\
## Stakeholders\n\
\n\
_Who owns this decision, and who needs to sign off? List the roles or people involved._\n\
\n\
## Context and Problem Statement\n\
\n\
_What situation is forcing a decision? Describe the problem and the forces at play — \
technical constraints, business goals, team context — and why it has to be settled now._\n\
\n\
## Decision Drivers\n\
\n\
_What should drive the choice? List the requirements and constraints that matter — a \
quality attribute, a deadline, a cost ceiling, a compatibility need. One per line._\n\
\n\
## Considered Options\n\
\n\
_List the options you actually weighed — at least two, including the one(s) you \
rejected — so the trade-off is on the record._\n\
\n\
## Decision Outcome\n\
\n\
_Name the chosen option and the core reason in one line (\"Chosen: **X**, because …\"), \
then explain how it answers the drivers above._\n\
\n\
### Positive Consequences\n\
\n\
_What gets better, easier, or safer as a result?_\n\
\n\
### Negative Consequences\n\
\n\
_What gets worse, harder, or riskier? Every decision has trade-offs — name them \
honestly, including any new debt or follow-up this creates._\n\
\n\
## Implementation\n\
\n\
_How will the decision be carried out — rollout, migration, the follow-up tasks? \
Optional: draft it later with `adroit plan`, or delete this section if it doesn't apply._\n";

/// The built-in Nygard template.
pub const NYGARD: &'static str = "{{heading}}\n\
\n\
## Status\n\
\n\
{{status}}\n\
\n\
## Context\n\
\n\
What is the issue that we're seeing that is motivating this decision?\n\
\n\
## Decision\n\
\n\
What is the change that we're proposing and/or doing?\n\
\n\
## Consequences\n\
\n\
What becomes easier or more difficult to do because of this change?\n";

/// The built-in review-kickoff template, rendered with its own placeholders.
pub const REVIEW_KICKOFF: &'static str = "# {{date}} — ADR-{{number}} Review Kickoff\n\
\n\
ADR-{{number}} ({{title}}) is open for review. Tracking issue: [TODO: tracking issue].\n\
\n\
---\n\
\n\
## What you're being asked to do\n\
\n\
Read [ADR-{{number}} — {{title}}]({{adr_path}}), then **approve** this MR or \
**start a discussion** in the comments.\n\
\n\
[TODO: one-paragraph decision summary]\n\
\n\
### Key docs\n\
\n\
|  | Doc | Link |\n\
|--|-----|------|\n\
| **What** | ADR-{{number}} — the decision being reviewed | [Read the ADR]({{adr_path}}) |\n\
| **Why** | ADR README — why we use decision records | [Read the README](../README.md) |\n\
| **How** | Review Process Guide — how to participate | [Read the guide](../../guides/adr-review-process.md) |\n\
\n\
### Timeline and rules\n\
\n\
- **Review period:** {{review_start}} – {{review_end}}\n\
- **Quorum:** {{quorum}} team members must approve this MR\n\
- **All discussion happens in the MR** — not in chats, email, or meetings.\n\
\n\
### What happens on {{decision_date}}\n\
\n\
- **Quorum approves** — merge the MR and move the ADR to its target directory\n\
- **No quorum** — [TODO: decider] decides\n\
- **Team disagrees** — close this MR; the ADR stays in `proposed/` and we revisit\n\
\n\
---\n\
\n\
<details>\n\
<summary>What the MR changes</summary>\n\
\n\
- Moves the ADR from `proposed/` to its target directory\n\
- Updates the status\n\
- Updates `SUMMARY.md` to reflect the new location\n\
- Fixes cross-doc references that pointed at the old `proposed/` path\n\
\n\
**Tracking:** [TODO: tracking issue]\n\
\n\
</details>\n";

/// Errors raised while resolving or loading a template.
#[derive(Debug, Clone, PartialEq, Eq)]
pub enum TemplateError {
    NotFound(String),
    Read { path: String, reason: String },
}

impl TemplateError {
    pub fn message(&self) -> (s: String)
        ensures
            self matches TemplateError::NotFound(n) ==> s@ == "template not found: "@ + n@,
            self matches TemplateError::Read { path, reason } ==> s@ == "failed to read template "@ + path@ + ": "@ + reason@,
    {
        match self {
            TemplateError::NotFound(n) => {
                let mut v = chars_of("template not found: ");
                append_str(&mut v, n.as_str());
                string_of(&v)
            },
            TemplateError::Read { path, reason } => {
                let mut v = chars_of("failed to read template ");
                append_str(&mut v, path.as_str());
                append_str(&mut v, ": ");
                append_str(&mut v, reason.as_str());
                string_of(&v)
            },
        }
    }
}

/// The built-in template a name selects, compared after lower-casing.
pub open spec fn builtin_named(name: Seq<char>) -> Option<Seq<char>> {
    if lowercase(name) == "madr"@ {
        Some(MADR@)
    } else if lowercase(name) == "nygard"@ {
        Some(NYGARD@)
    } else {
        None
    }
}

/// Return the built-in template text for a known name, if any.
pub fn builtin(name: &str) -> (r: Option<&'static str>)
    ensures
        match r {
            Some(t) => builtin_named(name@) == Some(t@),
            None => builtin_named(name@) is None,
        },
{
    let l = chars_of(str_to_lowercase(name).as_str());
    if eq_chars(&l, &chars_of("madr")) {
        Some(MADR)
    } else if eq_chars(&l, &chars_of("nygard")) {
        Some(NYGARD)
    } else {
        None
    }
}

/// Where a template's text comes from.
#[derive(Debug, Clone, PartialEq, Eq)]
pub enum TemplateSource {
    /// Read the file at this path.
    File(String),
    /// Use this built-in text.
    Builtin(&'static str),
}

/// The file that `templates_dir` offers for a template name.
pub open spec fn dir_candidate(dir: Seq<char>, name: Seq<char>) -> Seq<char> {
    dir + "/"@ + name + ".md"@
}

/// The repository's own template file.
pub open spec fn repo_candidate(repo: Seq<char>) -> Seq<char> {
    repo + "/adr-template.md"@
}

/// Where a template comes from, in resolution order: an existing file at
/// `name_or_path`, then `templates_dir/<name>.md`, then a built-in, then
/// the repository's `adr-template.md`. `files` holds the paths that are
/// files. `Ok` is a path to read, `Err` a built-in text.
pub open spec fn resolve_spec(
    name_or_path: Seq<char>,
    templates_dir: Option<Seq<char>>,
    repo_dir: Seq<char>,
    files: Seq<Seq<char>>,
) -> Option<Result<Seq<char>, Seq<char>>> {
    let is_file = |p: Seq<char>| files.contains(p);
    if is_file(name_or_path) {
        Some(Ok(name_or_path))
    } else if templates_dir is Some && is_file(dir_candidate(templates_dir->0, name_or_path)) {
        Some(Ok(dir_candidate(templates_dir->0, name_or_path)))
    } else if builtin_named(name_or_path) is Some {
        Some(Err(builtin_named(name_or_path)->0))
    } else if is_file(repo_candidate(repo_dir)) {
        Some(Ok(repo_candidate(repo_dir)))
    } else {
        None
    }
}

pub open spec fn opt_view_str(o: Option<&str>) -> Option<Seq<char>> {
    match o {
        Some(s) => Some(s@),
        None => None,
    }
}

pub open spec fn strings_view(v: Seq<String>) -> Seq<Seq<char>> {
    v.map_values(|s: String| s@)
}

pub open spec fn source_view(r: Result<TemplateSource, TemplateError>) -> Option<Result<Seq<char>, Seq<char>>> {
    match r {
        Ok(TemplateSource::File(p)) => Some(Ok(p@)),
        Ok(TemplateSource::Builtin(t)) => Some(Err(t@)),
        Err(_) => None,
    }
}

/// The paths whose being a file decides the resolution, in order.
pub fn candidates(name_or_path: &str, templates_dir: Option<&str>, repo_dir: &str) -> (r: Vec<String>)
    ensures
        strings_view(r@) == (match templates_dir {
            Some(d) => seq![name_or_path@, dir_candidate(d@, name_or_path@), repo_candidate(repo_dir@)],
            None => seq![name_or_path@, repo_candidate(repo_dir@)],
        }),
{
    let mut r: Vec<String> = Vec::new();
    r.push(string_of(&chars_of(name_or_path)));
    if let Some(d) = templates_dir {
        r.push(string_of(&dir_path(d, name_or_path)));
    }
    r.push(string_of(&repo_path(repo_dir)));
    proof {
        assert(strings_view(r@) =~= (match templates_dir {
            Some(d) => seq![name_or_path@, dir_candidate(d@, name_or_path@), repo_candidate(repo_dir@)],
            None => seq![name_or_path@, repo_candidate(repo_dir@)],
        }));
    }
    r
}

fn dir_path(d: &str, name: &str) -> (r: Vec<char>)
    ensures
        r@ == dir_candidate(d@, name@),
{
    let mut v = chars_of(d);
    append_str(&mut v, "/");
    append_str(&mut v, name);
    append_str(&mut v, ".md");
    v
}

fn repo_path(repo: &str) -> (r: Vec<char>)
    ensures
        r@ == repo_candidate(repo@),
{
    let mut v = chars_of(repo);
    append_str(&mut v, "/adr-template.md");
    v
}

fn is_listed(files: &[String], p: &Vec<char>) -> (r: bool)
    ensures
        r == strings_view(files@).contains(p@),
{
    let mut k: usize = 0;
    while k < files.len()
        invariant
            k <= files.len(),
            forall|j: int| 0 <= j < k ==> strings_view(files@)[j] != p@,
        decreases files.len() - k,
    {
        if eq_chars(&chars_of(files[k].as_str()), p) {
            assert(strings_view(files@)[k as int] == p@);
            return true;
        }
        k = k + 1;
    }
    false
}

/// Resolve a template by name or path. `files` lists which of the
/// [`candidates`] are files; the caller reads a `File` source.
pub fn resolve(
    name_or_path: &str,
    templates_dir: Option<&str>,
    repo_dir: &str,
    files: &[String],
) -> (r: Result<TemplateSource, TemplateError>)
    ensures
        source_view(r) == resolve_spec(name_or_path@, opt_view_str(templates_dir), repo_dir@, strings_view(files@)),
        r matches Err(e) ==> e == TemplateError::NotFound(e->NotFound_0) && e->NotFound_0@ == name_or_path@,
{
    let nv = chars_of(name_or_path);
    if is_listed(files, &nv) {
        return Ok(TemplateSource::File(string_of(&nv)));
    }
    if let Some(d) = templates_dir {
        let c = dir_path(d, name_or_path);
        if is_listed(files, &c) {
            return Ok(TemplateSource::File(string_of(&c)));
        }
    }
    if let Some(t) = builtin(name_or_path) {
        return Ok(TemplateSource::Builtin(t));
    }
    let rc = repo_path(repo_dir);
    if is_listed(files, &rc) {
        return Ok(TemplateSource::File(string_of(&rc)));
    }
    Err(TemplateError::NotFound(string_of(&nv)))
}

// ---------------------------------------------------------------------------
// Rendering
// ---------------------------------------------------------------------------

/// The bare identifier: the zero-padded number, or the slug.
pub open spec fn bare_id(r: RefV) -> Seq<char> {
    match r {
        RefV::Number(n) => pad_zero(dec(n as nat), 4),
        RefV::Slug(s) => s,
    }
}

/// `s`, with a newline added unless it already ends with one.
pub open spec fn with_final_newline(s: Seq<char>) -> Seq<char> {
    if ends_with(s, "\n"@) {
        s
    } else {
        s + "\n"@
    }
}

/// A template with its placeholders filled, in the order
/// `{{heading}}`, `{{number}}`, `{{title}}`, `{{status}}`, `{{date}}`.
pub open spec fn render_spec(
    template: Seq<char>,
    scheme: NamingScheme,
    r: RefV,
    title: Seq<char>,
    status: Status,
    date: Seq<char>,
) -> Seq<char> {
    let a = replace(template, "{{heading}}"@, scheme_heading(scheme, r, title));
    let b = replace(a, "{{number}}"@, bare_id(r));
    let c = replace(b, "{{title}}"@, title);
    let d = replace(c, "{{status}}"@, status_name(status));
    with_final_newline(replace(d, "{{date}}"@, date))
}

fn final_newline(v: Vec<char>) -> (r: Vec<char>)
    ensures
        r@ == with_final_newline(v@),
{
    proof {
        reveal_strlit("\n");
    }
    let nl = chars_of("\n");
    if ends_with_v(&v, &nl) {
        v
    } else {
        let mut w = v;
        w.push('\n');
        assert(w@ =~= v@ + "\n"@);
        w
    }
}

/// Render a template into a concrete ADR document under naming `scheme`.
pub fn render(template: &str, scheme: NamingScheme, r: &AdrRef, title: &str, status: Status, date: &str) -> (out: String)
    ensures
        out@ == render_spec(template@, scheme, r@, title@, status, date@),
{
    proof {
        reveal_strlit("{{heading}}");
        reveal_strlit("{{number}}");
        reveal_strlit("{{title}}");
        reveal_strlit("{{status}}");
        reveal_strlit("{{date}}");
    }
    let bare = match r {
        AdrRef::Number(n) => pad4_v(*n),
        AdrRef::Slug(s) => chars_of(s.as_str()),
    };
    let a = replace_str(&chars_of(template), "{{heading}}", &scheme.heading_v(r, title));
    let b = replace_str(&a, "{{number}}", &bare);
    let c = replace_str(&b, "{{title}}", &chars_of(title));
    let d = replace_str(&c, "{{status}}", &status.name_chars());
    let e = replace_str(&d, "{{date}}", &chars_of(date));
    string_of(&final_newline(e))
}


// ---------------------------------------------------------------------------
// Review kickoff: dates and rendering
// ---------------------------------------------------------------------------

/// A date of the proleptic Gregorian calendar, as `time::Date` holds it.
#[derive(Debug, Clone, Copy, PartialEq, Eq, Structural)]
pub struct CalDate {
    pub year: i32,
    /// 1 (January) to 12.
    pub month: u8,
    pub day: u8,
}

pub open spec fn is_leap_year(y: int) -> bool {
    (y % 4 == 0 && y % 100 != 0) || y % 400 == 0
}

/// Days in month `m` of year `y`.
pub open spec fn month_len(y: int, m: int) -> int {
    if m == 2 {
        if is_leap_year(y) { 29 } else { 28 }
    } else if m == 4 || m == 6 || m == 9 || m == 11 {
        30
    } else {
        31
    }
}

/// A date `time::Date` can hold: years -9999 to 9999.
pub open spec fn valid_date(d: CalDate) -> bool {
    -9999 <= d.year <= 9999 && 1 <= d.month <= 12 && 1 <= d.day <= month_len(d.year as int, d.month as int)
}

/// The next calendar date; `None` after the last date `time::Date` holds.
pub open spec fn succ(d: CalDate) -> Option<CalDate> {
    if (d.day as int) < month_len(d.year as int, d.month as int) {
        Some(CalDate { year: d.year, month: d.month, day: (d.day + 1) as u8 })
    } else if d.month < 12 {
        Some(CalDate { year: d.year, month: (d.month + 1) as u8, day: 1 })
    } else if d.year < 9999 {
        Some(CalDate { year: (d.year + 1) as i32, month: 1, day: 1 })
    } else {
        None
    }
}

/// The weekday `time::Date::weekday` gives a date, counted from Monday (0).
pub uninterp spec fn weekday_num(year: i32, month: u8, day: u8) -> u8;

pub open spec fn weekday_of(d: CalDate) -> u8 {
    weekday_num(d.year, d.month, d.day)
}

/// Saturday or Sunday.
pub open spec fn is_weekend(d: CalDate) -> bool {
    weekday_of(d) >= 5
}

/// `time::Date::from_calendar_date` then `next_day`: the next calendar date,
/// `None` after `Date::MAX`; a day later is a weekday later (the weekday is
/// the Julian day number modulo 7).
#[verifier::external_body]
fn time_next_day(d: &CalDate) -> (r: Option<CalDate>)
    requires
        valid_date(*d),
    ensures
        r == succ(*d),
        r matches Some(n) ==> weekday_num(n.year, n.month, n.day) == (weekday_num(d.year, d.month, d.day) + 1) % 7,
{
    let month = time::Month::try_from(d.month).ok()?;
    let next = time::Date::from_calendar_date(d.year, month, d.day).ok()?.next_day()?;
    Some(CalDate { year: next.year(), month: u8::from(next.month()), day: next.day() })
}

/// `time::Date::weekday`, as days from Monday, named by [`weekday_num`].
#[verifier::external_body]
fn time_weekday(d: &CalDate) -> (r: u8)
    requires
        valid_date(*d),
    ensures
        r == weekday_num(d.year, d.month, d.day),
        r < 7,
{
    match time::Month::try_from(d.month) {
        Ok(month) => match time::Date::from_calendar_date(d.year, month, d.day) {
            Ok(date) => date.weekday().number_days_from_monday(),
            Err(_) => 0,
        },
        Err(_) => 0,
    }
}

/// The first weekday among `a` and up to `fuel` dates after it.
pub open spec fn first_business_from(a: CalDate, fuel: nat) -> Option<CalDate>
    decreases fuel,
{
    if !is_weekend(a) {
        Some(a)
    } else if fuel == 0 {
        None
    } else {
        match succ(a) {
            Some(b) => first_business_from(b, (fuel - 1) as nat),
            None => None,
        }
    }
}

/// The first business day strictly after `d` (a weekend is two days long);
/// `None` when the calendar ends first.
pub open spec fn next_business_spec(d: CalDate) -> Option<CalDate> {
    match succ(d) {
        Some(a) => first_business_from(a, 2),
        None => None,
    }
}

/// The first business day strictly after `date`, skipping weekends; `None`
/// only past the last date `time::Date` holds.
pub fn next_business_day(date: CalDate) -> (r: Option<CalDate>)
    requires
        valid_date(date),
    ensures
        r == next_business_spec(date),
        r matches Some(n) ==> valid_date(n) && !is_weekend(n),
{
    let mut next = match time_next_day(&date) {
        Some(n) => n,
        None => {
            return None;
        },
    };
    let mut fuel: u8 = 2;
    while time_weekday(&next) >= 5
        invariant
            valid_date(next),
            next_business_spec(date) == first_business_from(next, fuel as nat),
            fuel <= 2,
            is_weekend(next) ==> (fuel as int) >= 7 - weekday_of(next),
            weekday_of(next) < 7,
        decreases (if weekday_of(next) >= 5 { 7 - weekday_of(next) } else { 0 }),
    {
        let n = match time_next_day(&next) {
            Some(n) => n,
            None => {
                return None;
            },
        };
        next = n;
        fuel = fuel - 1;
    }
    Some(next)
}

pub open spec fn valid_window(w: ReviewWindow) -> bool {
    valid_date(w.start) && valid_date(w.end) && valid_date(w.decision)
}

/// The date `days` business days after `start`.
pub open spec fn business_days_after(start: CalDate, days: nat) -> Option<CalDate>
    decreases days,
{
    if days == 0 {
        Some(start)
    } else {
        match business_days_after(start, (days - 1) as nat) {
            Some(d) => next_business_spec(d),
            None => None,
        }
    }
}

/// The review window `days` business days from `start`, with the decision the
/// business day after its end.
pub open spec fn review_window_spec(start: CalDate, days: nat) -> Option<ReviewWindow> {
    match business_days_after(start, days) {
        Some(end) => match next_business_spec(end) {
            Some(decision) => Some(ReviewWindow { start, end, decision }),
            None => None,
        },
        None => None,
    }
}

/// The dates a review kickoff doc needs, all computed from a start date and a
/// business-day review window.
#[derive(Debug, Clone, Copy, PartialEq, Eq, Structural)]
pub struct ReviewWindow {
    /// First day of the review period.
    pub start: CalDate,
    /// Last day of the review period: `start` plus `days` business days.
    pub end: CalDate,
    /// First business day after `end`, when the decision is made.
    pub decision: CalDate,
}

/// A review window from a start date and a number of business days:
/// weekends are skipped, `days = 0` ends on `start`, and the decision falls on
/// the next business day after the end. `None` only past the last date
/// `time::Date` holds.
pub fn review_window(start: CalDate, days: u32) -> (r: Option<ReviewWindow>)
    requires
        valid_date(start),
    ensures
        r == review_window_spec(start, days as nat),
        r matches Some(w) ==> valid_window(w),
{
    let mut end = start;
    let mut i: u32 = 0;
    while i < days
        invariant
            i <= days,
            valid_date(end),
            business_days_after(start, i as nat) == Some(end),
        decreases days - i,
    {
        end = match next_business_day(end) {
            Some(n) => n,
            None => {
                proof {
                    lemma_business_days_stuck(start, (i + 1) as nat, days as nat);
                }
                return None;
            },
        };
        i = i + 1;
    }
    match next_business_day(end) {
        Some(decision) => Some(ReviewWindow { start, end, decision }),
        None => None,
    }
}

/// Once the calendar runs out, every later count of business days does too.
pub proof fn lemma_business_days_stuck(start: CalDate, k: nat, n: nat)
    requires
        business_days_after(start, k) is None,
        k <= n,
    ensures
        business_days_after(start, n) is None,
    decreases n - k,
{
    if k < n {
        lemma_business_days_stuck(start, k + 1, n);
    }
}

/// Three-letter English weekday names, Monday first.
pub open spec fn weekday_abbr(w: u8) -> Seq<char> {
    if w == 0 {
        "Mon"@
    } else if w == 1 {
        "Tue"@
    } else if w == 2 {
        "Wed"@
    } else if w == 3 {
        "Thu"@
    } else if w == 4 {
        "Fri"@
    } else if w == 5 {
        "Sat"@
    } else {
        "Sun"@
    }
}

/// Three-letter English month names.
pub open spec fn month_abbr(m: u8) -> Seq<char> {
    let names = seq!["Jan"@, "Feb"@, "Mar"@, "Apr"@, "May"@, "Jun"@, "Jul"@, "Aug"@, "Sep"@, "Oct"@, "Nov"@, "Dec"@];
    if 1 <= m <= 12 { names[m - 1] } else { "Dec"@ }
}

/// `Weekday Mon DD`, e.g. `Thu May 21`.
pub open spec fn review_date_spec(d: CalDate) -> Seq<char> {
    weekday_abbr(weekday_of(d)) + " "@ + month_abbr(d.month) + " "@ + pad_zero(dec(d.day as nat), 2)
}

fn weekday_abbr_v(w: u8) -> (r: &'static str)
    ensures
        r@ == weekday_abbr(w),
{
    if w == 0 {
        "Mon"
    } else if w == 1 {
        "Tue"
    } else if w == 2 {
        "Wed"
    } else if w == 3 {
        "Thu"
    } else if w == 4 {
        "Fri"
    } else if w == 5 {
        "Sat"
    } else {
        "Sun"
    }
}

fn month_abbr_v(m: u8) -> (r: &'static str)
    ensures
        r@ == month_abbr(m),
{
    let names: [&'static str; 12] = ["Jan", "Feb", "Mar", "Apr", "May", "Jun", "Jul", "Aug", "Sep", "Oct", "Nov", "Dec"];
    let ghost spec_names = seq!["Jan"@, "Feb"@, "Mar"@, "Apr"@, "May"@, "Jun"@, "Jul"@, "Aug"@, "Sep"@, "Oct"@, "Nov"@, "Dec"@];
    assert(names@.map_values(|s: &str| s@) =~= spec_names);
    if 1 <= m && m <= 12 {
        let r = names[(m - 1) as usize];
        assert(r@ == names@.map_values(|s: &str| s@)[(m - 1) as int]);
        r
    } else {
        "Dec"
    }
}

/// Format a date as `Weekday Mon DD` (e.g. `Thu May 21`), as the hand-written
/// review kickoff docs do.
pub fn format_review_date(date: CalDate) -> (r: String)
    requires
        valid_date(date),
    ensures
        r@ == review_date_spec(date),
{
    let mut v = chars_of(weekday_abbr_v(time_weekday(&date)));
    append_str(&mut v, " ");
    append_str(&mut v, month_abbr_v(date.month));
    append_str(&mut v, " ");
    append_all(&mut v, &crate::text::pad_zero_v(&dec_v(date.day as u64), 2));
    string_of(&v)
}

/// What a review kickoff document is rendered from.
#[derive(Debug, Clone)]
pub struct KickoffParams<'a> {
    pub number: Number,
    pub title: &'a str,
    /// The H1 date (ISO `YYYY-MM-DD`, the review start date).
    pub date: &'a str,
    /// Relative path to the ADR file, the link target.
    pub adr_path: &'a str,
    pub window: ReviewWindow,
    pub quorum: u32,
}

/// The kickoff template with every placeholder filled, ending in a newline.
pub open spec fn kickoff_spec(template: Seq<char>, p: KickoffParams) -> Seq<char> {
    let a = replace(template, "{{number}}"@, pad_zero(dec(p.number.0 as nat), 4));
    let b = replace(a, "{{title}}"@, p.title@);
    let c = replace(b, "{{date}}"@, p.date@);
    let d = replace(c, "{{adr_path}}"@, p.adr_path@);
    let e = replace(d, "{{review_start}}"@, review_date_spec(p.window.start));
    let f = replace(e, "{{review_end}}"@, review_date_spec(p.window.end));
    let g = replace(f, "{{decision_date}}"@, review_date_spec(p.window.decision));
    with_final_newline(replace(g, "{{quorum}}"@, dec(p.quorum as nat)))
}

/// Render the review-kickoff template into a concrete document.
pub fn render_kickoff(template: &str, params: &KickoffParams) -> (out: String)
    requires
        valid_window(params.window),
    ensures
        out@ == kickoff_spec(template@, *params),
{
    proof {
        reveal_strlit("{{number}}");
        reveal_strlit("{{title}}");
        reveal_strlit("{{date}}");
        reveal_strlit("{{adr_path}}");
        reveal_strlit("{{review_start}}");
        reveal_strlit("{{review_end}}");
        reveal_strlit("{{decision_date}}");
        reveal_strlit("{{quorum}}");
    }
    let a = replace_str(&chars_of(template), "{{number}}", &chars_of(params.number.to_string().as_str()));
    let b = replace_str(&a, "{{title}}", &chars_of(params.title));
    let c = replace_str(&b, "{{date}}", &chars_of(params.date));
    let d = replace_str(&c, "{{adr_path}}", &chars_of(params.adr_path));
    let e = replace_str(&d, "{{review_start}}", &chars_of(format_review_date(params.window.start).as_str()));
    let f = replace_str(&e, "{{review_end}}", &chars_of(format_review_date(params.window.end).as_str()));
    let g = replace_str(&f, "{{decision_date}}", &chars_of(format_review_date(params.window.decision).as_str()));
    let h = replace_str(&g, "{{quorum}}", &dec_v(params.quorum as u64));
    string_of(&final_newline(h))
}

} // verus!
