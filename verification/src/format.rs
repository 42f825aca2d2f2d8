//! On-disk ADR format profiles, and the markdown profile's line-level
//! parser and minimal-diff rewriters.
//!
//! Markdown writes are format-preserving: the rewriters change only the lines
//! they are about and join the rest back with the document's own newline.
use vstd::prelude::*;
use crate::adr::{ReviewBy, Status, status_name, status_named};
use crate::text::{
    all_free_of, append_all, append_str, chars_of, contains, contains_str, find, free_of, is_ws, join, lone_cr_at, occurs_at, eq_ignore_ascii_case,
    eq_ignore_case_chars, first_where, first_word, has_lone_cr, has_lone_cr_v, is_first_where,
    lead, lemma_first_where, lemma_lead, lines, lines_str, normalize_cr, normalize_cr_v,
    slice_of, starts_with, starts_with_str, string_of, strip_prefix, strip_prefix_str, trim, trim_char_v, trim_start,
    trim_start_char, trim_start_char_v, trim_start_str, trim_start_str_v, trim_start_v, trim_v,
    views, words_v, ws_pred, trim_end_char, trim_end_char_v, ends_with_str,
};

verus! {

// ---------------------------------------------------------------------------
// Profiles
// ---------------------------------------------------------------------------

/// Which on-disk serialization profile a store uses.
#[derive(Debug, Clone, Copy, PartialEq, Eq, Structural)]
pub enum Format {
    /// MADR-style markdown, status encoded by directory. The default.
    Markdown,
    /// YAML frontmatter + body.
    Frontmatter,
}

pub open spec fn format_name(f: Format) -> Seq<char> {
    match f {
        Format::Markdown => "markdown"@,
        Format::Frontmatter => "frontmatter"@,
    }
}

pub open spec fn format_named(s: Seq<char>) -> Option<Format> {
    if eq_ignore_ascii_case(s, "markdown"@) {
        Some(Format::Markdown)
    } else if eq_ignore_ascii_case(s, "frontmatter"@) {
        Some(Format::Frontmatter)
    } else {
        None
    }
}

impl Format {
    /// The snake_case name (`markdown`, `frontmatter`).
    pub fn to_string(&self) -> (s: String)
        ensures
            s@ == format_name(*self),
    {
        match self {
            Format::Markdown => string_of(&chars_of("markdown")),
            Format::Frontmatter => string_of(&chars_of("frontmatter")),
        }
    }

    /// Parse a profile name, ignoring ASCII case.
    pub fn parse_str(s: &str) -> (r: Option<Format>)
        ensures
            r == format_named(s@),
    {
        let v = chars_of(s);
        if eq_ignore_case_chars(&v, &chars_of("markdown")) {
            Some(Format::Markdown)
        } else if eq_ignore_case_chars(&v, &chars_of("frontmatter")) {
            Some(Format::Frontmatter)
        } else {
            None
        }
    }
}

impl Default for Format {
    fn default() -> (r: Self)
        ensures
            r == Format::Markdown,
    {
        Format::Markdown
    }
}

/// Errors raised while parsing the markdown profile.
#[derive(Debug, Clone, PartialEq, Eq)]
pub enum FormatError {
    MissingHeading,
    BadNumber(String),
    /// A markdown ADR is written from its body, which must hold something.
    EmptyBody,
}

impl FormatError {
    pub fn message(&self) -> (s: String)
        ensures
            self is MissingHeading ==> s@ == "missing H1 heading `# ADR-NNNN: Title`"@,
            self matches FormatError::BadNumber(n) ==> s@ == "could not parse ADR number from heading: "@ + n@,
            self is EmptyBody ==> s@ == "markdown ADR body must not be empty"@,
    {
        match self {
            FormatError::MissingHeading => string_of(&chars_of("missing H1 heading `# ADR-NNNN: Title`")),
            FormatError::BadNumber(n) => {
                let mut v = chars_of("could not parse ADR number from heading: ");
                append_str(&mut v, n.as_str());
                string_of(&v)
            },
            FormatError::EmptyBody => string_of(&chars_of("markdown ADR body must not be empty")),
        }
    }
}

// ---------------------------------------------------------------------------
// Line classes
// ---------------------------------------------------------------------------

/// `## Status`, whatever the case and surrounding whitespace.
pub open spec fn is_status_heading(l: Seq<char>) -> bool {
    eq_ignore_ascii_case(trim(l), "## Status"@)
}

/// `## References`, whatever the case and surrounding whitespace.
pub open spec fn is_references_heading(l: Seq<char>) -> bool {
    eq_ignore_ascii_case(trim(l), "## References"@)
}

/// Any markdown heading.
pub open spec fn is_heading(l: Seq<char>) -> bool {
    starts_with(trim_start(l), "#"@)
}

/// The level-one heading that carries the title.
pub open spec fn is_title_heading(l: Seq<char>) -> bool {
    starts_with(trim_start(l), "# "@)
}

/// The `> State:` banner.
pub open spec fn is_banner(l: Seq<char>) -> bool {
    starts_with(trim_start(l), "> State:"@)
}

/// The kinds of line the rewriters look for.
#[derive(Clone, Copy)]
pub enum LineClass {
    StatusHeading,
    ReferencesHeading,
    Heading,
    TitleHeading,
    Banner,
    NonBlank,
    ReviewLine,
}

pub open spec fn class_holds(c: LineClass, l: Seq<char>) -> bool {
    match c {
        LineClass::StatusHeading => is_status_heading(l),
        LineClass::ReferencesHeading => is_references_heading(l),
        LineClass::Heading => is_heading(l),
        LineClass::TitleHeading => is_title_heading(l),
        LineClass::Banner => is_banner(l),
        LineClass::NonBlank => trim(l).len() > 0,
        LineClass::ReviewLine => strip_prefix_ci(trim(l), "Review by"@) is Some,
    }
}

pub open spec fn class_pred(c: LineClass) -> spec_fn(Seq<char>) -> bool {
    |l: Seq<char>| class_holds(c, l)
}

/// Whether the line `l` is of class `c`.
pub fn line_is(c: LineClass, l: &Vec<char>) -> (r: bool)
    ensures
        r == class_holds(c, l@),
{
    match c {
        LineClass::StatusHeading => eq_ignore_case_chars(&trim_v(l), &chars_of("## Status")),
        LineClass::ReferencesHeading => eq_ignore_case_chars(&trim_v(l), &chars_of("## References")),
        LineClass::Heading => starts_with_str(&trim_start_v(l), "#"),
        LineClass::TitleHeading => starts_with_str(&trim_start_v(l), "# "),
        LineClass::Banner => starts_with_str(&trim_start_v(l), "> State:"),
        LineClass::NonBlank => trim_v(l).len() > 0,
        LineClass::ReviewLine => strip_prefix_ci_v(&trim_v(l), "Review by").is_some(),
    }
}

/// The first line at or after `from` of class `c` (`ls.len()` when none is).
pub fn first_line(ls: &Vec<Vec<char>>, from: usize, c: LineClass) -> (r: usize)
    requires
        from <= ls.len(),
    ensures
        r == first_where(views(ls@), class_pred(c), from as int),
        is_first_where(views(ls@), class_pred(c), from as int, r as int),
{
    let mut j = from;
    while j < ls.len() && !line_is(c, &ls[j])
        invariant
            from <= j <= ls.len(),
            forall|k: int| from <= k < j ==> !(class_pred(c))(#[trigger] views(ls@)[k]),
        decreases ls.len() - j,
    {
        j = j + 1;
    }
    proof {
        lemma_first_where(views(ls@), class_pred(c), from as int, j as int);
    }
    j
}

/// `is_status_heading` on a `str`.
pub fn is_status_heading_str(l: &str) -> (r: bool)
    ensures
        r == is_status_heading(l@),
{
    line_is(LineClass::StatusHeading, &chars_of(l))
}

// ---------------------------------------------------------------------------
// Headings
// ---------------------------------------------------------------------------

/// Case-insensitive `strip_prefix` for an ASCII prefix.
pub open spec fn strip_prefix_ci(s: Seq<char>, p: Seq<char>) -> Option<Seq<char>> {
    if p.len() <= s.len() && eq_ignore_ascii_case(s.take(p.len() as int), p) {
        Some(s.skip(p.len() as int))
    } else {
        None
    }
}

pub fn strip_prefix_ci_v(s: &Vec<char>, p: &str) -> (r: Option<Vec<char>>)
    ensures
        match r {
            Some(v) => strip_prefix_ci(s@, p@) == Some(v@),
            None => strip_prefix_ci(s@, p@) is None,
        },
{
    let pv = chars_of(p);
    if pv.len() <= s.len() && eq_ignore_case_chars(&slice_of(s, 0, pv.len()), &pv) {
        Some(slice_of(s, pv.len(), s.len()))
    } else {
        None
    }
}

/// The text of a heading line with its `#` marks and surrounding blanks removed.
pub open spec fn heading_body(line: Seq<char>) -> Seq<char> {
    trim(trim_start_char(line, '#'))
}

/// The heading text after an optional `ADR-` / `ADR ` / `ADR` prefix.
pub open spec fn after_adr_prefix(h: Seq<char>) -> Seq<char> {
    let r = match strip_prefix(h, "ADR-"@) {
        Some(x) => x,
        None => match strip_prefix(h, "ADR "@) {
            Some(x) => x,
            None => match strip_prefix(h, "ADR"@) {
                Some(x) => x,
                None => h,
            },
        },
    };
    trim_start(r)
}

/// The leading run of ASCII digits.
pub open spec fn digit_run(s: Seq<char>) -> Seq<char> {
    s.take(lead(s, crate::text::digit_pred()))
}

/// What a heading line says: the number, if it has one that fits a `u32`,
/// and the title.
pub open spec fn heading_parts(line: Seq<char>) -> (Option<u32>, Seq<char>) {
    let h = heading_body(line);
    let rest = after_adr_prefix(h);
    let digits = digit_run(rest);
    match crate::text::parse_u32(digits) {
        None => (None, h),
        Some(n) => {
            let after = trim_start(rest.skip(digits.len() as int));
            let t = if after.len() > 0 && (after[0] == ':' || after[0] == '.') {
                after.drop_first()
            } else {
                after
            };
            (Some(n), trim(t))
        },
    }
}

/// Parse the H1 heading into `(number, title)`.
///
/// Accepts `# ADR-0006: Title`, `# ADR 0006: Title` and `# 0006. Title`; a
/// plain `# Title` has no number and the whole heading text is the title.
pub fn parse_heading(line: &str) -> (r: (Option<crate::adr::Number>, String))
    ensures
        (
            match r.0 {
                Some(n) => Some(n.0),
                None => None,
            },
            r.1@,
        ) == heading_parts(line@),
{
    let lv = chars_of(line);
    let h = trim_v(&trim_start_char_v(&lv, '#'));
    proof {
        reveal_strlit("ADR-");
        reveal_strlit("ADR ");
        reveal_strlit("ADR");
    }
    let r0 = match strip_prefix_str(&h, "ADR-") {
        Some(x) => x,
        None => match strip_prefix_str(&h, "ADR ") {
            Some(x) => x,
            None => match strip_prefix_str(&h, "ADR") {
                Some(x) => x,
                None => {
                    let c = h.clone();
                    assert(c@ == h@);
                    c
                },
            },
        },
    };
    let rest = trim_start_v(&r0);
    let mut k: usize = 0;
    while k < rest.len() && rest[k] >= '0' && rest[k] <= '9'
        invariant
            k <= rest.len(),
            forall|j: int| 0 <= j < k ==> (crate::text::digit_pred())(#[trigger] rest@[j]),
        decreases rest.len() - k,
    {
        k = k + 1;
    }
    proof {
        lemma_lead(rest@, crate::text::digit_pred(), k as int);
    }
    let digits = slice_of(&rest, 0, k);
    match crate::text::parse_u32_v(&digits) {
        None => (None, string_of(&h)),
        Some(n) => {
            let after = trim_start_v(&slice_of(&rest, k, rest.len()));
            assert(after@ == trim_start(rest@.skip(digits@.len() as int)));
            let t = if after.len() > 0 && (after[0] == ':' || after[0] == '.') {
                slice_of(&after, 1, after.len())
            } else {
                after
            };
            (Some(crate::adr::Number::new(n)), string_of(&trim_v(&t)))
        },
    }
}

// ---------------------------------------------------------------------------
// The `## Status` region
// ---------------------------------------------------------------------------

/// The abstract value of a [`StatusRegion`].
pub struct RegionV {
    pub status: Option<Status>,
    pub supersedes: Option<Seq<char>>,
    pub superseded_by: Option<Seq<char>>,
    pub review_by: Option<ReviewBy>,
}

/// What the parser extracts from the `## Status` region of a markdown ADR.
/// Supersession is kept as the raw fragment after the keyword.
#[derive(Debug, Clone)]
pub struct StatusRegion {
    pub status: Option<Status>,
    pub supersedes: Option<String>,
    pub superseded_by: Option<String>,
    pub review_by: Option<ReviewBy>,
}

pub open spec fn opt_str_view(o: Option<String>) -> Option<Seq<char>> {
    match o {
        Some(s) => Some(s@),
        None => None,
    }
}

impl View for StatusRegion {
    type V = RegionV;

    open spec fn view(&self) -> RegionV {
        RegionV {
            status: self.status,
            supersedes: opt_str_view(self.supersedes),
            superseded_by: opt_str_view(self.superseded_by),
            review_by: self.review_by,
        }
    }
}

pub open spec fn empty_region() -> RegionV {
    RegionV { status: None, supersedes: None, superseded_by: None, review_by: None }
}

/// A status-region line with its banner marker and bold markers removed.
pub open spec fn banner_value(line: Seq<char>) -> Seq<char> {
    trim(trim_start_str(trim(trim_start_char(line, '>')), "**"@))
}

/// The status that a bare status line names: the whole line, else its
/// first word.
pub open spec fn line_status(v: Seq<char>) -> Option<Status> {
    match status_named(v) {
        Some(s) => Some(s),
        None => match first_word(v) {
            Some(w) => status_named(w),
            None => None,
        },
    }
}

/// What follows a `Review by:` (or `Review by`) keyword.
pub open spec fn review_rest(v: Seq<char>) -> Option<Seq<char>> {
    match strip_prefix_ci(v, "Review by:"@) {
        Some(r) => Some(r),
        None => strip_prefix_ci(v, "Review by"@),
    }
}

/// The date spelled after a `Review by` keyword.
pub open spec fn review_date(rest: Seq<char>) -> Seq<char> {
    trim(trim_start_char(trim(rest), ':'))
}

/// One non-blank line of the region folded into what was found so far.
pub open spec fn status_line_step(line: Seq<char>, r: RegionV) -> RegionV {
    let v = banner_value(line);
    match strip_prefix_ci(v, "Superseded by"@) {
        Some(rest) => RegionV {
            status: if r.status is Some { r.status } else { Some(Status::Superseded) },
            superseded_by: if r.superseded_by is None { Some(trim(rest)) } else { r.superseded_by },
            ..r
        },
        None => match strip_prefix_ci(v, "Supersedes"@) {
            Some(rest) => RegionV {
                supersedes: if r.supersedes is None { Some(trim(rest)) } else { r.supersedes },
                ..r
            },
            None => match review_rest(v) {
                Some(rest) => if r.review_by is None {
                    RegionV { review_by: ReviewBy::parse_spec(review_date(rest)), ..r }
                } else {
                    r
                },
                None => if r.status is None {
                    RegionV { status: line_status(v), ..r }
                } else {
                    r
                },
            },
        },
    }
}

/// The region fold from line `i` up to the next heading.
pub open spec fn region_from(ls: Seq<Seq<char>>, i: int, r: RegionV) -> RegionV
    decreases ls.len() - i,
{
    if i < 0 || i >= ls.len() || is_heading(ls[i]) {
        r
    } else {
        let t = trim(ls[i]);
        region_from(ls, i + 1, if t.len() == 0 { r } else { status_line_step(t, r) })
    }
}

/// Everything the `## Status` region of `input` says: the lines after the
/// first `## Status` heading, up to the next heading.
pub open spec fn status_region(input: Seq<char>) -> RegionV {
    let ls = lines(input);
    region_from(ls, first_where(ls, class_pred(LineClass::StatusHeading), 0) + 1, empty_region())
}

fn opt_string(o: Option<Vec<char>>) -> (r: Option<String>)
    ensures
        opt_str_view(r) == crate::naming::opt_chars(o),
{
    match o {
        Some(v) => Some(string_of(&v)),
        None => None,
    }
}

/// Parse one non-blank line of the status region into `region`.
pub fn parse_status_line(line: &Vec<char>, region: &mut StatusRegion)
    ensures
        final(region)@ == status_line_step(line@, old(region)@),
{
    proof {
        reveal_strlit("**");
    }
    let v = trim_v(&trim_start_str_v(&trim_v(&trim_start_char_v(line, '>')), "**"));
    assert(v@ == banner_value(line@));
    if let Some(rest) = strip_prefix_ci_v(&v, "Superseded by") {
        if region.status.is_none() {
            region.status = Some(Status::Superseded);
        }
        if region.superseded_by.is_none() {
            region.superseded_by = Some(string_of(&trim_v(&rest)));
        }
        return;
    }
    if let Some(rest) = strip_prefix_ci_v(&v, "Supersedes") {
        if region.supersedes.is_none() {
            region.supersedes = Some(string_of(&trim_v(&rest)));
        }
        return;
    }
    let rr = match strip_prefix_ci_v(&v, "Review by:") {
        Some(r) => Some(r),
        None => strip_prefix_ci_v(&v, "Review by"),
    };
    if let Some(rest) = rr {
        if region.review_by.is_none() {
            let date = trim_v(&trim_start_char_v(&trim_v(&rest), ':'));
            region.review_by = ReviewBy::parse_chars(&date);
        }
        return;
    }
    if region.status.is_none() {
        let whole = Status::parse_name(&v);
        let status = match whole {
            Some(s) => Some(s),
            None => {
                let ws = words_v(&v);
                if ws.len() == 0 {
                    None
                } else {
                    Status::parse_name(&ws[0])
                }
            },
        };
        region.status = status;
    }
}

/// Parse the `## Status` region: the status word, both supersession
/// directions and an optional `Review by:` line.
pub fn parse_status_region(input: &str) -> (r: StatusRegion)
    ensures
        r@ == status_region(input@),
{
    let ls = lines_str(input);
    let h = first_line(&ls, 0, LineClass::StatusHeading);
    let mut region = StatusRegion { status: None, supersedes: None, superseded_by: None, review_by: None };
    if h >= ls.len() {
        return region;
    }
    let mut i = h + 1;
    while i < ls.len() && !line_is(LineClass::Heading, &ls[i])
        invariant
            h + 1 <= i <= ls.len(),
            h < ls.len(),
            views(ls@) == lines(input@),
            h == first_where(views(ls@), class_pred(LineClass::StatusHeading), 0),
            region_from(views(ls@), i as int, region@) == status_region(input@),
        decreases ls.len() - i,
    {
        let t = trim_v(&ls[i]);
        if t.len() > 0 {
            parse_status_line(&t, &mut region);
        }
        i = i + 1;
    }
    region
}

/// The status stated in the `## Status` section, if one is stated.
pub fn parse_markdown_section_status(input: &str) -> (r: Option<Status>)
    ensures
        r == status_region(input@).status,
{
    parse_status_region(input).status
}

/// The supersession references of the `## Status` section, resolved by
/// `naming` as `(supersedes, superseded_by)`.
pub fn parse_markdown_section_supersession(
    input: &str,
    naming: crate::naming::NamingScheme,
    source_category: Option<&str>,
) -> (r: (Option<crate::naming::AdrRef>, Option<crate::naming::AdrRef>))
    ensures
        crate::naming::opt_view(r.0) == resolve_note(naming, status_region(input@).supersedes, opt_seq(source_category)),
        crate::naming::opt_view(r.1) == resolve_note(naming, status_region(input@).superseded_by, opt_seq(source_category)),
{
    let region = parse_status_region(input);
    let a = match &region.supersedes {
        Some(f) => naming.ref_in_note_from(f.as_str(), source_category),
        None => None,
    };
    let b = match &region.superseded_by {
        Some(f) => naming.ref_in_note_from(f.as_str(), source_category),
        None => None,
    };
    (a, b)
}

pub open spec fn opt_seq(o: Option<&str>) -> Option<Seq<char>> {
    match o {
        Some(c) => Some(c@),
        None => None,
    }
}

/// A supersession fragment resolved under `naming`.
pub open spec fn resolve_note(
    naming: crate::naming::NamingScheme,
    fragment: Option<Seq<char>>,
    source_category: Option<Seq<char>>,
) -> Option<crate::naming::RefV> {
    match fragment {
        Some(f) => crate::naming::scheme_ref_in_note_from(naming, f, source_category),
        None => None,
    }
}

// ---------------------------------------------------------------------------
// Reading and writing a whole markdown ADR
// ---------------------------------------------------------------------------

/// The index of a document's `# ` title line (the line count when none is).
pub open spec fn title_line(input: Seq<char>) -> int {
    first_where(lines(input), class_pred(LineClass::TitleHeading), 0)
}

/// The status an ADR reads as: its directory's, else its `## Status`
/// section's, else proposed.
pub open spec fn effective_status(dir_status: Option<Status>, input: Seq<char>) -> Status {
    match dir_status {
        Some(s) => s,
        None => match status_region(input).status {
            Some(s) => s,
            None => Status::Proposed,
        },
    }
}

/// Parse a markdown-profile ADR. `dir_status` is the status its directory
/// implies, which wins over the `## Status` section; `naming` resolves the
/// supersession notes. The body is the whole document without its trailing
/// newlines.
pub fn parse_markdown(input: &str, dir_status: Option<Status>, naming: crate::naming::NamingScheme) -> (r: Result<
    crate::adr::Adr,
    FormatError,
>)
    ensures
        (r is Err) <==> title_line(input@) >= lines(input@).len(),
        r is Err ==> r == Err::<crate::adr::Adr, FormatError>(FormatError::MissingHeading),
        r matches Ok(a) ==> ((
            match a.number {
                Some(n) => Some(n.0),
                None => None,
            },
            a.title@,
        ) == heading_parts(lines(input@)[title_line(input@)]) && a.status == effective_status(dir_status, input@)
            && a.body@ == trim_end_char(input@, '\n') && crate::naming::opt_view(a.supersedes) == resolve_note(
            naming,
            status_region(input@).supersedes,
            None,
        ) && crate::naming::opt_view(a.superseded_by) == resolve_note(naming, status_region(input@).superseded_by, None)
            && a.review_by == status_region(input@).review_by && a.slug is None && a.category is None
            && a.git_sha is None && a.relates_to@.len() == 0 && a.depends_on@.len() == 0 && a.refines@.len() == 0),
{
    let ls = lines_str(input);
    let h = first_line(&ls, 0, LineClass::TitleHeading);
    if h >= ls.len() {
        return Err(FormatError::MissingHeading);
    }
    let (number, title) = parse_heading(string_of(&ls[h]).as_str());
    let region = parse_status_region(input);
    let status = match dir_status {
        Some(s) => s,
        None => match region.status {
            Some(s) => s,
            None => Status::Proposed,
        },
    };
    let supersedes = match &region.supersedes {
        Some(f) => naming.ref_in_note_from(f.as_str(), None),
        None => None,
    };
    let superseded_by = match &region.superseded_by {
        Some(f) => naming.ref_in_note_from(f.as_str(), None),
        None => None,
    };
    Ok(crate::adr::Adr {
        id: crate::adr::AdrId::new(),
        number,
        slug: None,
        category: None,
        title,
        status,
        created: crate::adr::Created::now(),
        body: string_of(&trim_end_char_v(&chars_of(input), '\n')),
        git_sha: None,
        supersedes,
        superseded_by,
        relates_to: Vec::new(),
        depends_on: Vec::new(),
        refines: Vec::new(),
        review_by: region.review_by,
    })
}

/// An empty line is neither a heading nor the status heading, and trims to
/// nothing.
proof fn lemma_empty_line(l: Seq<char>)
    requires
        l.len() == 0,
    ensures
        !is_heading(l),
        !is_status_heading(l),
        !is_title_heading(l),
        trim(l).len() == 0,
{
    crate::text::lemma_trim_id(l);
    reveal_strlit("## Status");
    reveal_strlit("#");
    reveal_strlit("# ");
    assert(crate::text::ascii_lower_seq(trim(l)).len() == 0);
    assert(crate::text::ascii_lower_seq("## Status"@).len() == 9);
}

/// The first line of a class among lines that continue with empty ones is
/// the first among the lines before them, when it is not empty.
proof fn lemma_first_in_prefix(ls: Seq<Seq<char>>, lt: Seq<Seq<char>>, c: LineClass)
    requires
        lt.len() <= ls.len(),
        ls.take(lt.len() as int) == lt,
        forall|j: int| lt.len() <= j < ls.len() ==> (#[trigger] ls[j]).len() == 0,
        c == LineClass::TitleHeading || c == LineClass::StatusHeading,
    ensures
        first_where(ls, class_pred(c), 0) < ls.len() ==> first_where(lt, class_pred(c), 0) == first_where(ls, class_pred(c), 0),
        first_where(ls, class_pred(c), 0) >= ls.len() ==> first_where(lt, class_pred(c), 0) == lt.len(),
{
    let f = class_pred(c);
    crate::text::lemma_first_where_exists(ls, f, 0);
    let h = first_where(ls, f, 0);
    assert forall|j: int| 0 <= j < lt.len() implies #[trigger] lt[j] == ls[j] by {
        assert(ls.take(lt.len() as int)[j] == ls[j]);
    }
    if h < ls.len() {
        if h >= lt.len() {
            lemma_empty_line(ls[h]);
        }
        assert(is_first_where(lt, f, 0, h));
        lemma_first_where(lt, f, 0, h);
    } else {
        assert(is_first_where(lt, f, 0, lt.len() as int));
        lemma_first_where(lt, f, 0, lt.len() as int);
    }
}

/// The status region's fold reads the same over lines that continue with
/// empty ones as over the lines before them.
proof fn lemma_region_prefix(ls: Seq<Seq<char>>, lt: Seq<Seq<char>>, i: int, r: RegionV)
    requires
        lt.len() <= ls.len(),
        ls.take(lt.len() as int) == lt,
        forall|j: int| lt.len() <= j < ls.len() ==> (#[trigger] ls[j]).len() == 0,
        0 <= i,
    ensures
        region_from(ls, i, r) == region_from(lt, i, r),
    decreases ls.len() - i,
{
    if i < ls.len() {
        if i >= lt.len() {
            lemma_empty_line(ls[i]);
            lemma_region_prefix(ls, lt, i + 1, r);
        } else {
            assert(ls.take(lt.len() as int)[i] == ls[i]);
            let t = trim(ls[i]);
            lemma_region_prefix(ls, lt, i + 1, if t.len() == 0 { r } else { status_line_step(t, r) });
        }
    }
}

/// Reading the body a markdown ADR was read into gives back what was read:
/// the same title line, the same status, supersession notes and review
/// date, and a body that is already without trailing newlines. (A document
/// whose text before its trailing newlines ends in a carriage return is left
/// out.)
pub proof fn law_reparse_body(s: Seq<char>, dir_status: Option<Status>, naming: crate::naming::NamingScheme)
    requires
        title_line(s) < lines(s).len(),
        !crate::text::ends_in_cr(trim_end_char(s, '\n')),
    ensures
        ({
            let t = trim_end_char(s, '\n');
            &&& title_line(t) == title_line(s)
            &&& title_line(t) < lines(t).len()
            &&& lines(t)[title_line(t)] == lines(s)[title_line(s)]
            &&& effective_status(dir_status, t) == effective_status(dir_status, s)
            &&& resolve_note(naming, status_region(t).supersedes, None) == resolve_note(naming, status_region(s).supersedes, None)
            &&& resolve_note(naming, status_region(t).superseded_by, None) == resolve_note(
                naming,
                status_region(s).superseded_by,
                None,
            )
            &&& status_region(t).review_by == status_region(s).review_by
            &&& trim_end_char(t, '\n') == t
        }),
{
    let t = trim_end_char(s, '\n');
    let ls = lines(s);
    let lt = lines(t);
    crate::text::lemma_lines_trim_newlines(s);
    lemma_first_in_prefix(ls, lt, LineClass::TitleHeading);
    lemma_first_in_prefix(ls, lt, LineClass::StatusHeading);
    let h = title_line(s);
    crate::text::lemma_first_where_exists(ls, class_pred(LineClass::TitleHeading), 0);
    if h >= lt.len() {
        lemma_empty_line(ls[h]);
    }
    assert(ls.take(lt.len() as int)[h] == ls[h]);
    let hs = first_where(ls, class_pred(LineClass::StatusHeading), 0);
    crate::text::lemma_first_where_exists(ls, class_pred(LineClass::StatusHeading), 0);
    if hs < ls.len() {
        lemma_region_prefix(ls, lt, hs + 1, empty_region());
    }
    let f = crate::text::eq_pred('\n');
    crate::text::lemma_trail_exists(s, f);
    let m = crate::text::trail(s, f);
    assert(crate::text::is_trail(t, f, 0)) by {
        if t.len() > 0 {
            assert(t[t.len() - 1] == s[s.len() - m - 1]);
        }
    }
    crate::text::lemma_trail(t, f, 0);
    assert(t.take(t.len() as int) =~= t);
}

/// Render a brand-new markdown ADR: its body (which already holds the
/// heading and sections) with exactly one trailing newline added when it has
/// none.
pub fn serialize_markdown(adr: &crate::adr::Adr) -> (r: Result<String, FormatError>)
    ensures
        adr.body@.len() == 0 ==> r == Err::<String, FormatError>(FormatError::EmptyBody),
        adr.body@.len() > 0 ==> (r matches Ok(s) && s@ == crate::template::with_final_newline(adr.body@)),
{
    proof {
        reveal_strlit("\n");
    }
    let v = chars_of(adr.body.as_str());
    if v.len() == 0 {
        return Err(FormatError::EmptyBody);
    }
    if ends_with_str(&v, "\n") {
        Ok(string_of(&v))
    } else {
        let mut w = v;
        w.push('\n');
        assert(w@ =~= adr.body@ + "\n"@);
        Ok(string_of(&w))
    }
}

// ---------------------------------------------------------------------------
// Newlines
// ---------------------------------------------------------------------------

/// Replace every lone `\r` (one not followed by `\n`) with `\n`. The input
/// comes back borrowed, untouched, when it has none.
pub fn normalize_lone_cr(s: &str) -> (r: std::borrow::Cow<'_, str>)
    ensures
        r@ == normalize_cr(s@),
        (r is Borrowed) <==> !has_lone_cr(s@),
{
    let v = chars_of(s);
    if !has_lone_cr_v(&v) {
        proof {
            crate::text::lemma_normalize_noop(s@);
        }
        return std::borrow::Cow::Borrowed(s);
    }
    std::borrow::Cow::Owned(string_of(&normalize_cr_v(&v)))
}

/// The newline a document uses: `\r\n` if it holds one, else `\n`.
#[verifier::opaque]
pub open spec fn newline_of(s: Seq<char>) -> Seq<char> {
    if contains(s, "\r\n"@) {
        "\r\n"@
    } else {
        "\n"@
    }
}

/// The document normalized and cut at its newline.
#[verifier::opaque]
pub open spec fn doc_lines(original: Seq<char>) -> Seq<Seq<char>> {
    let o = normalize_cr(original);
    crate::text::split(o, newline_of(o))
}

/// `(normalized document, its newline, its lines)`.
fn prepare(original: &str) -> (r: (Vec<char>, Vec<char>, Vec<Vec<char>>))
    ensures
        r.0@ == normalize_cr(original@),
        r.1@ == newline_of(r.0@),
        r.1@.len() > 0,
        views(r.2@) == doc_lines(original@),
{
    let o = normalize_cr_v(&chars_of(original));
    proof {
        reveal_strlit("\r\n");
        reveal_strlit("\n");
        reveal(newline_of);
        reveal(doc_lines);
    }
    let nl = if contains_str(&o, "\r\n") { chars_of("\r\n") } else { chars_of("\n") };
    let ls = crate::text::split_v(&o, &nl);
    (o, nl, ls)
}

// ---------------------------------------------------------------------------
// Rewriting the status
// ---------------------------------------------------------------------------

/// The status value line: a bare status, or a supersession link.
pub open spec fn status_value(s: Status, supersede: Option<(Seq<char>, Seq<char>)>) -> Seq<char> {
    match supersede {
        Some(p) => if s == Status::Superseded {
            "Superseded by ["@ + p.0 + "]("@ + p.1 + ")"@
        } else {
            status_name(s)
        },
        None => status_name(s),
    }
}

/// The banner line for status `s`, keeping the old line's indentation.
pub open spec fn banner_line(line: Seq<char>, s: Status) -> Seq<char> {
    line.take(lead(line, ws_pred())) + "> State: "@ + status_name(s)
}

/// The first banner rewritten to `s`.
pub open spec fn with_banner(ls: Seq<Seq<char>>, s: Status) -> Seq<Seq<char>> {
    let b = first_where(ls, class_pred(LineClass::Banner), 0);
    if b < ls.len() {
        ls.update(b, banner_line(ls[b], s))
    } else {
        ls
    }
}

/// The status value line replaced by `value`; when the `## Status` section
/// has no value line (the next non-blank line is a heading, or there is
/// none), `value` is added to it; a `## Status` section is added after the
/// title heading when there is none.
pub open spec fn with_status_value(ls: Seq<Seq<char>>, value: Seq<char>) -> Seq<Seq<char>> {
    let h = first_where(ls, class_pred(LineClass::StatusHeading), 0);
    if h < ls.len() {
        let j = first_where(ls, class_pred(LineClass::NonBlank), h + 1);
        if j < ls.len() && is_heading(ls[j]) {
            ls.insert(j, value)
        } else if j < ls.len() {
            ls.update(j, value)
        } else {
            ls + seq![Seq::<char>::empty(), value]
        }
    } else {
        let t = first_where(ls, class_pred(LineClass::TitleHeading), 0);
        let at = if t < ls.len() { t + 1 } else { 0 };
        ls.take(at) + seq![Seq::<char>::empty(), "## Status"@, Seq::<char>::empty(), value] + ls.skip(at)
    }
}

/// What `rewrite_status` makes of a document.
#[verifier::opaque]
pub open spec fn rewrite_status_spec(
    original: Seq<char>,
    s: Status,
    supersede: Option<(Seq<char>, Seq<char>)>,
) -> Seq<char> {
    let o = normalize_cr(original);
    crate::text::join(with_status_value(with_banner(doc_lines(original), s), status_value(s, supersede)), newline_of(o))
}

pub open spec fn opt_pair(p: Option<(&str, &str)>) -> Option<(Seq<char>, Seq<char>)> {
    match p {
        Some(q) => Some((q.0@, q.1@)),
        None => None,
    }
}

fn set_banner(ls: &mut Vec<Vec<char>>, s: Status)
    ensures
        views(final(ls)@) == with_banner(views(old(ls)@), s),
{
    let b = first_line(ls, 0, LineClass::Banner);
    if b < ls.len() {
        let line = ls[b].clone();
        assert(line@ == views(ls@)[b as int]);
        let k = crate::text::lead_ws(&line);
        let mut nl = slice_of(&line, 0, k);
        append_str(&mut nl, "> State: ");
        append_all(&mut nl, &s.name_chars());
        let ghost old_ls = ls@;
        ls.set(b, nl);
        proof {
            assert(views(ls@) =~= views(old_ls).update(b as int, nl@));
        }
    }
}

fn set_status_value(ls: &mut Vec<Vec<char>>, value: &Vec<char>)
    ensures
        views(final(ls)@) == with_status_value(views(old(ls)@), value@),
{
    let ghost old_ls = views(ls@);
    let h = first_line(ls, 0, LineClass::StatusHeading);
    if h < ls.len() {
        let j = first_line(ls, h + 1, LineClass::NonBlank);
        if j < ls.len() && line_is(LineClass::Heading, &ls[j]) {
            ls.insert(j, value.clone());
            proof {
                assert(views(ls@) =~= old_ls.insert(j as int, value@));
            }
        } else if j < ls.len() {
            ls.set(j, value.clone());
            proof {
                assert(views(ls@) =~= old_ls.update(j as int, value@));
            }
        } else {
            ls.push(Vec::new());
            ls.push(value.clone());
            proof {
                assert(views(ls@) =~= old_ls + seq![Seq::<char>::empty(), value@]);
            }
        }
    } else {
        let t = first_line(ls, 0, LineClass::TitleHeading);
        let at = if t < ls.len() { t + 1 } else { 0 };
        ls.insert(at, Vec::new());
        assert(at + 1 <= ls.len());
        ls.insert(at + 1, chars_of("## Status"));
        assert(at + 2 <= ls.len());
        ls.insert(at + 2, Vec::new());
        assert(at + 3 <= ls.len());
        ls.insert(at + 3, value.clone());
        proof {
            assert(views(ls@) =~= old_ls.take(at as int) + seq![Seq::<char>::empty(), "## Status"@, Seq::<char>::empty(), value@] + old_ls.skip(at as int));
        }
    }
}

/// Rewrite, minimal-diff, the `## Status` value line and the `> State:`
/// banner of a markdown ADR. A `## Status` section without a value line
/// gets one, right before the heading that follows it; a document without a
/// `## Status` section gets one after its title heading. Every other line is
/// kept as it was.
pub fn rewrite_status(original: &str, new_status: Status, supersede: Option<(&str, &str)>) -> (r: String)
    ensures
        r@ == rewrite_status_spec(original@, new_status, opt_pair(supersede)),
{
    proof {
        reveal(rewrite_status_spec);
    }
    let (_o, nl, mut ls) = prepare(original);
    let value = match supersede {
        Some((label, link)) => if new_status == Status::Superseded {
            let mut v = chars_of("Superseded by [");
            append_str(&mut v, label);
            append_str(&mut v, "](");
            append_str(&mut v, link);
            append_str(&mut v, ")");
            v
        } else {
            new_status.name_chars()
        },
        None => new_status.name_chars(),
    };
    set_banner(&mut ls, new_status);
    set_status_value(&mut ls, &value);
    string_of(&crate::text::join_v(&ls, &nl))
}

// ---------------------------------------------------------------------------
// Rewriting the review deadline
// ---------------------------------------------------------------------------

/// The `Review by:` line for a date.
pub open spec fn review_line(d: ReviewBy) -> Seq<char> {
    "Review by: "@ + d.iso()
}

/// Where a new `Review by:` line goes, inside the `## Status` section:
/// right after the status value line, or, when the section has none, after
/// the blank run that follows the heading; `None` without a `## Status`
/// heading.
pub open spec fn review_insert_at(ls: Seq<Seq<char>>) -> Option<int> {
    let h = first_where(ls, class_pred(LineClass::StatusHeading), 0);
    if h < ls.len() {
        let j = first_where(ls, class_pred(LineClass::NonBlank), h + 1);
        Some(if j < ls.len() && !is_heading(ls[j]) { j + 1 } else { j })
    } else {
        None
    }
}

/// The `Review by:` line the rewriter edits: the first one in the
/// `## Status` region (from its heading to the next heading), or in the
/// whole document when it has no `## Status` heading; `ls.len()` when there
/// is none.
pub open spec fn review_at(ls: Seq<Seq<char>>) -> int {
    let h = first_where(ls, class_pred(LineClass::StatusHeading), 0);
    if h < ls.len() {
        let e = first_where(ls, class_pred(LineClass::ReviewLine), h + 1);
        if e < first_where(ls, class_pred(LineClass::Heading), h + 1) {
            e
        } else {
            ls.len() as int
        }
    } else {
        first_where(ls, class_pred(LineClass::ReviewLine), 0)
    }
}

/// The lines with the review deadline set to `rb`.
pub open spec fn with_review(ls: Seq<Seq<char>>, rb: Option<ReviewBy>) -> Seq<Seq<char>> {
    let e = review_at(ls);
    match rb {
        Some(d) => if e < ls.len() {
            ls.update(e, review_line(d))
        } else {
            match review_insert_at(ls) {
                Some(at) => ls.insert(at, review_line(d)),
                None => ls.push(review_line(d)),
            }
        },
        None => if e < ls.len() {
            ls.remove(e)
        } else {
            ls
        },
    }
}

/// What `rewrite_review_by` makes of a document.
#[verifier::opaque]
pub open spec fn rewrite_review_by_spec(original: Seq<char>, rb: Option<ReviewBy>) -> Seq<char> {
    let o = normalize_cr(original);
    crate::text::join(with_review(doc_lines(original), rb), newline_of(o))
}

/// Index at which to insert a new `Review by:` line.
pub fn review_insert_point(ls: &Vec<Vec<char>>) -> (r: Option<usize>)
    ensures
        match r {
            Some(at) => review_insert_at(views(ls@)) == Some(at as int) && at <= ls.len(),
            None => review_insert_at(views(ls@)) is None,
        },
{
    let h = first_line(ls, 0, LineClass::StatusHeading);
    if h >= ls.len() {
        return None;
    }
    let j = first_line(ls, h + 1, LineClass::NonBlank);
    Some(if j < ls.len() && !line_is(LineClass::Heading, &ls[j]) { j + 1 } else { j })
}

/// The index of the `Review by:` line [`review_at`] picks.
fn review_line_at(ls: &Vec<Vec<char>>) -> (r: usize)
    ensures
        r == review_at(views(ls@)),
        r <= ls.len(),
{
    let h = first_line(ls, 0, LineClass::StatusHeading);
    if h < ls.len() {
        let e = first_line(ls, h + 1, LineClass::ReviewLine);
        let end = first_line(ls, h + 1, LineClass::Heading);
        if e < end {
            e
        } else {
            ls.len()
        }
    } else {
        first_line(ls, 0, LineClass::ReviewLine)
    }
}

/// Rewrite, minimal-diff, the `Review by: YYYY-MM-DD` line of the
/// `## Status` region: `Some` replaces it or inserts it after the status
/// value line, `None` removes it. Every other line is kept as it was; a
/// `Review by` line outside the region is left alone. A document without a
/// `## Status` heading has its first such line edited, or one appended.
pub fn rewrite_review_by(original: &str, review_by: Option<ReviewBy>) -> (r: String)
    ensures
        r@ == rewrite_review_by_spec(original@, review_by),
{
    proof {
        reveal(rewrite_review_by_spec);
    }
    let (_o, nl, mut ls) = prepare(original);
    let ghost old_ls = views(ls@);
    let e = review_line_at(&ls);
    match review_by {
        Some(d) => {
            let mut line = chars_of("Review by: ");
            append_all(&mut line, &d.to_chars());
            if e < ls.len() {
                ls.set(e, line);
                proof {
                    assert(views(ls@) =~= old_ls.update(e as int, review_line(d)));
                }
            } else {
                match review_insert_point(&ls) {
                    Some(at) => {
                        ls.insert(at, line);
                        proof {
                            assert(views(ls@) =~= old_ls.insert(at as int, review_line(d)));
                        }
                    },
                    None => {
                        ls.push(line);
                        proof {
                            assert(views(ls@) =~= old_ls.push(review_line(d)));
                        }
                    },
                }
            }
        },
        None => {
            if e < ls.len() {
                ls.remove(e);
                proof {
                    assert(views(ls@) =~= old_ls.remove(e as int));
                }
            }
        },
    }
    string_of(&crate::text::join_v(&ls, &nl))
}

// ---------------------------------------------------------------------------
// The `## References` section
// ---------------------------------------------------------------------------

/// The `- <label>: <url>` bullet.
pub open spec fn reference_entry(label: Seq<char>, url: Seq<char>) -> Seq<char> {
    "- "@ + label + ": "@ + url
}

/// The lower-cased start of a label's bullet, `- <label>:`.
pub open spec fn label_prefix(label: Seq<char>) -> Seq<char> {
    crate::text::ascii_lower_seq("- "@ + label + ":"@)
}

/// A bullet for the label whose lower-cased prefix is `lp`.
pub open spec fn is_label_line(l: Seq<char>, lp: Seq<char>) -> bool {
    starts_with(crate::text::ascii_lower_seq(trim_start(l)), lp)
}

pub open spec fn label_pred(lp: Seq<char>) -> spec_fn(Seq<char>) -> bool {
    |l: Seq<char>| is_label_line(l, lp)
}

/// `at` moved back over the blank lines before it, not below `lo`.
pub open spec fn back_over_blank(ls: Seq<Seq<char>>, lo: int, at: int) -> int
    decreases at - lo,
{
    if at > lo && trim(ls[at - 1]).len() == 0 {
        back_over_blank(ls, lo, at - 1)
    } else {
        at
    }
}

/// The lines with the label's bullet set to `url`: replaced in place, else
/// appended after the section's last non-blank line, else a new section at
/// the end of the document.
pub open spec fn with_reference(ls: Seq<Seq<char>>, label: Seq<char>, url: Seq<char>) -> Seq<Seq<char>> {
    let entry = reference_entry(label, url);
    let h = first_where(ls, class_pred(LineClass::ReferencesHeading), 0);
    if h < ls.len() {
        let end = first_where(ls, class_pred(LineClass::Heading), h + 1);
        let e = first_where(ls, label_pred(label_prefix(label)), h + 1);
        if e < end {
            ls.update(e, entry)
        } else {
            ls.insert(back_over_blank(ls, h + 1, end), entry)
        }
    } else {
        ls.take(back_over_blank(ls, 0, ls.len() as int)) + seq![
            Seq::<char>::empty(),
            "## References"@,
            Seq::<char>::empty(),
            entry,
        ]
    }
}

/// What `upsert_reference` makes of a document.
#[verifier::opaque]
pub open spec fn upsert_reference_spec(original: Seq<char>, label: Seq<char>, url: Seq<char>) -> Seq<char> {
    let o = normalize_cr(original);
    let nl = newline_of(o);
    let out = crate::text::join(with_reference(doc_lines(original), label, url), nl);
    if crate::text::ends_with(o, "\n"@) && !crate::text::ends_with(out, "\n"@) {
        out + nl
    } else {
        out
    }
}

fn back_blank(ls: &Vec<Vec<char>>, lo: usize, at: usize) -> (r: usize)
    requires
        lo <= at <= ls.len(),
    ensures
        r as int == back_over_blank(views(ls@), lo as int, at as int),
        lo <= r <= at,
{
    let mut k = at;
    while k > lo && trim_v(&ls[k - 1]).len() == 0
        invariant
            lo <= k <= at <= ls.len(),
            back_over_blank(views(ls@), lo as int, k as int) == back_over_blank(views(ls@), lo as int, at as int),
        decreases k,
    {
        k = k - 1;
    }
    k
}

fn first_label_line(ls: &Vec<Vec<char>>, from: usize, lp: &Vec<char>) -> (r: usize)
    requires
        from <= ls.len(),
    ensures
        r == first_where(views(ls@), label_pred(lp@), from as int),
        from <= r <= ls.len(),
{
    let mut j = from;
    while j < ls.len() && !crate::text::starts_with_v(&crate::text::lower_ascii_chars(&trim_start_v(&ls[j])), lp)
        invariant
            from <= j <= ls.len(),
            forall|k: int| from <= k < j ==> !(label_pred(lp@))(#[trigger] views(ls@)[k]),
        decreases ls.len() - j,
    {
        j = j + 1;
    }
    proof {
        lemma_first_where(views(ls@), label_pred(lp@), from as int, j as int);
    }
    j
}

/// Upsert a `- <label>: <url>` bullet into the `## References` section,
/// keeping the rest of the document as it was; the section is created at
/// the end when absent.
pub fn upsert_reference(original: &str, label: &str, url: &str) -> (r: String)
    ensures
        r@ == upsert_reference_spec(original@, label@, url@),
{
    proof {
        reveal(upsert_reference_spec);
    }
    let (o, nl, mut ls) = prepare(original);
    let ghost old_ls = views(ls@);
    let mut entry = chars_of("- ");
    append_str(&mut entry, label);
    append_str(&mut entry, ": ");
    append_str(&mut entry, url);
    assert(entry@ == reference_entry(label@, url@));
    let mut lpv = chars_of("- ");
    append_str(&mut lpv, label);
    append_str(&mut lpv, ":");
    let lp = crate::text::lower_ascii_chars(&lpv);
    assert(lp@ == label_prefix(label@));
    let h = first_line(&ls, 0, LineClass::ReferencesHeading);
    if h < ls.len() {
        let end = first_line(&ls, h + 1, LineClass::Heading);
        let e = first_label_line(&ls, h + 1, &lp);
        if e < end {
            ls.set(e, entry);
            proof {
                assert(views(ls@) =~= old_ls.update(e as int, reference_entry(label@, url@)));
            }
        } else {
            let at = back_blank(&ls, h + 1, end);
            ls.insert(at, entry);
            proof {
                assert(views(ls@) =~= old_ls.insert(at as int, reference_entry(label@, url@)));
            }
        }
    } else {
        let k = back_blank(&ls, 0, ls.len());
        ls.truncate(k);
        ls.push(Vec::new());
        ls.push(chars_of("## References"));
        ls.push(Vec::new());
        ls.push(entry);
        proof {
            assert(views(ls@) =~= old_ls.take(k as int) + seq![
                Seq::<char>::empty(),
                "## References"@,
                Seq::<char>::empty(),
                reference_entry(label@, url@),
            ]);
        }
    }
    let mut out = crate::text::join_v(&ls, &nl);
    proof {
        reveal_strlit("\n");
    }
    if crate::text::ends_with_str(&o, "\n") && !crate::text::ends_with_str(&out, "\n") {
        append_all(&mut out, &nl);
    }
    string_of(&out)
}

/// The `(label, url)` pairs of the reference bullets from line `i` on;
/// `in_sec` says whether line `i` is inside the section.
pub open spec fn refs_from(ls: Seq<Seq<char>>, i: int, in_sec: bool) -> Seq<(Seq<char>, Seq<char>)>
    decreases ls.len() - i,
{
    if i < 0 || i >= ls.len() {
        seq![]
    } else if is_references_heading(ls[i]) {
        refs_from(ls, i + 1, true)
    } else if in_sec && is_heading(ls[i]) {
        seq![]
    } else if in_sec && strip_prefix(trim(ls[i]), "- "@) is Some
        && crate::text::split_once(strip_prefix(trim(ls[i]), "- "@)->0, ":"@) is Some {
        let p = crate::text::split_once(strip_prefix(trim(ls[i]), "- "@)->0, ":"@)->0;
        seq![(trim(p.0), trim(p.1))] + refs_from(ls, i + 1, in_sec)
    } else {
        refs_from(ls, i + 1, in_sec)
    }
}

pub open spec fn pair_views(v: Seq<(String, String)>) -> Seq<(Seq<char>, Seq<char>)> {
    v.map_values(|p: (String, String)| (p.0@, p.1@))
}

/// The `- label: url` bullets of the `## References` section, in order.
pub fn parse_references(original: &str) -> (r: Vec<(String, String)>)
    ensures
        pair_views(r@) == refs_from(lines(original@), 0, false),
{
    let ls = lines_str(original);
    let mut out: Vec<(String, String)> = Vec::new();
    let mut in_sec = false;
    let mut i: usize = 0;
    while i < ls.len()
        invariant
            i <= ls.len(),
            views(ls@) == lines(original@),
            pair_views(out@) + refs_from(views(ls@), i as int, in_sec) == refs_from(lines(original@), 0, false),
        decreases ls.len() - i,
    {
        let ghost vs = views(ls@);
        if line_is(LineClass::ReferencesHeading, &ls[i]) {
            in_sec = true;
            i = i + 1;
            continue;
        }
        if in_sec && line_is(LineClass::Heading, &ls[i]) {
            proof {
                assert(refs_from(vs, i as int, in_sec) =~= seq![]);
                assert(refs_from(vs, ls.len() as int, in_sec) =~= seq![]);
            }
            i = ls.len();
            continue;
        }
        if in_sec {
            proof {
                reveal_strlit("- ");
                reveal_strlit(":");
            }
            if let Some(rest) = strip_prefix_str(&trim_v(&ls[i]), "- ") {
                if let Some((label, url)) = crate::text::split_once_str(&rest, ":") {
                    let item = (string_of(&trim_v(&label)), string_of(&trim_v(&url)));
                    proof {
                        assert(pair_views(out@.push(item)) =~= pair_views(out@).push((item.0@, item.1@)));
                        assert(pair_views(out@) + refs_from(vs, i as int, in_sec) =~= pair_views(out@).push((item.0@, item.1@)) + refs_from(vs, i + 1, in_sec));
                    }
                    out.push(item);
                    i = i + 1;
                    continue;
                }
            }
        }
        i = i + 1;
    }
    proof {
        assert(refs_from(views(ls@), i as int, in_sec) =~= seq![]);
        assert(pair_views(out@) + seq![] =~= pair_views(out@));
    }
    out
}

// ---------------------------------------------------------------------------
// Laws
// ---------------------------------------------------------------------------

/// The newline a normalized document is cut at, and its lines: at least one,
/// joining back to the document, none holding a `\r` or the newline's first
/// character; a `\r\n` document has at least two.
pub proof fn lemma_doc_lines(doc: Seq<char>)
    ensures
        newline_of(normalize_cr(doc)) == seq!['\n'] || newline_of(normalize_cr(doc)) == seq!['\r', '\n'],
        doc_lines(doc).len() >= 1,
        join(doc_lines(doc), newline_of(normalize_cr(doc))) == normalize_cr(doc),
        all_free_of(doc_lines(doc), '\r'),
        all_free_of(doc_lines(doc), newline_of(normalize_cr(doc))[0]),
        newline_of(normalize_cr(doc)) == seq!['\r', '\n'] ==> doc_lines(doc).len() >= 2,
{
    reveal(newline_of);
    reveal(doc_lines);
    let o = normalize_cr(doc);
    crate::text::lemma_normalize_clean(doc);
    reveal_strlit("\r\n");
    reveal_strlit("\n");
    let crlf = seq!['\r', '\n'];
    let lf = seq!['\n'];
    assert("\r\n"@ =~= crlf);
    assert("\n"@ =~= lf);
    let nl = newline_of(o);
    crate::text::lemma_join_split(o, nl);
    if contains(o, crlf) {
        crate::text::lemma_split_crlf_free(o);
        crate::text::lemma_find(o, crlf);
        let i = find(o, crlf);
        crate::text::lemma_split_nonempty(o.skip(i + 2), crlf);
    } else {
        assert forall|j: int| 0 <= j < o.len() implies o[j] != '\r' by {
            if o[j] == '\r' {
                assert(!lone_cr_at(o, j));
                assert(o.subrange(j, j + 2) =~= crlf);
                assert(occurs_at(o, crlf, j));
            }
        }
        crate::text::lemma_split_free(o, lf, '\r');
        crate::text::lemma_split_free_sep(o, '\n');
    }
}

/// Lines free of `\r` and of the newline's first character join into a
/// document that is already normalized, uses the same newline, and cuts
/// back into the same lines.
pub proof fn lemma_out_lines(ls: Seq<Seq<char>>, nl: Seq<char>)
    requires
        nl == seq!['\n'] || nl == seq!['\r', '\n'],
        ls.len() >= 1,
        all_free_of(ls, '\r'),
        all_free_of(ls, nl[0]),
        nl == seq!['\r', '\n'] ==> ls.len() >= 2,
    ensures
        normalize_cr(join(ls, nl)) == join(ls, nl),
        newline_of(join(ls, nl)) == nl,
        doc_lines(join(ls, nl)) == ls,
{
    reveal(newline_of);
    reveal(doc_lines);
    let out = join(ls, nl);
    reveal_strlit("\r\n");
    reveal_strlit("\n");
    let crlf = seq!['\r', '\n'];
    assert("\r\n"@ =~= crlf);
    assert("\n"@ =~= seq!['\n']);
    crate::text::lemma_join_no_lone_cr(ls, nl);
    crate::text::lemma_normalize_noop(out);
    if nl == crlf {
        crate::text::lemma_join_contains_sep(ls, nl);
    } else {
        assert(free_of(nl, '\r'));
        crate::text::lemma_join_free(ls, nl, '\r');
        crate::text::lemma_free_no_occ(out, crlf);
    }
    crate::text::lemma_split_join(ls, nl);
}

/// The line a review deadline is written as is a review line, with no
/// line break in it.
pub proof fn lemma_review_line(d: ReviewBy)
    ensures
        class_holds(LineClass::ReviewLine, review_line(d)),
        free_of(review_line(d), '\r'),
        free_of(review_line(d), '\n'),
        !is_heading(review_line(d)),
        !is_status_heading(review_line(d)),
{
    reveal_strlit("Review by: ");
    reveal_strlit("Review by");
    let y = crate::text::pad_zero(crate::text::dec(d.year as nat), 4);
    let m = crate::text::pad_zero(crate::text::dec(d.month as nat), 2);
    let dd = crate::text::pad_zero(crate::text::dec(d.day as nat), 2);
    crate::text::lemma_dec_digits(d.year as nat);
    crate::text::lemma_dec_digits(d.month as nat);
    crate::text::lemma_dec_digits(d.day as nat);
    crate::text::lemma_pad_digits(crate::text::dec(d.year as nat), 4);
    crate::text::lemma_pad_digits(crate::text::dec(d.month as nat), 2);
    crate::text::lemma_pad_digits(crate::text::dec(d.day as nat), 2);
    crate::text::lemma_digits_free(y);
    crate::text::lemma_digits_free(m);
    crate::text::lemma_digits_free(dd);
    let iso = d.iso();
    let rl = review_line(d);
    let head = "Review by: "@;
    assert(iso == y + seq!['-'] + m + seq!['-'] + dd);
    assert(rl == head + iso);
    assert(rl.last() == dd.last());
    assert(crate::text::is_digit(dd.last()));
    assert(rl[0] == 'R');
    crate::text::lemma_trim_id(rl);
    assert(rl.take(9) =~= "Review by"@);
    reveal_strlit("#");
    reveal_strlit("## Status");
    assert(!starts_with(rl, "#"@)) by {
        assert(rl.take(1)[0] == 'R');
    }
    assert(crate::text::ascii_lower_seq(rl).len() != crate::text::ascii_lower_seq("## Status"@).len());
    assert forall|i: int| 0 <= i < rl.len() implies rl[i] != '\r' && rl[i] != '\n' by {
        if i < head.len() {
            assert(rl[i] == head[i]);
        } else {
            let k = i - head.len();
            assert(rl[i] == iso[k]);
            if k < y.len() {
                assert(iso[k] == y[k]);
            } else if k == y.len() {
            } else if k < y.len() + 1 + m.len() {
                assert(iso[k] == m[k - y.len() - 1]);
            } else if k == y.len() + 1 + m.len() {
            } else {
                assert(iso[k] == dd[k - y.len() - 2 - m.len()]);
            }
        }
    }
}

/// No line of `ls` is a review line.
pub open spec fn no_review_line(ls: Seq<Seq<char>>) -> bool {
    forall|k: int| 0 <= k < ls.len() ==> !class_holds(LineClass::ReviewLine, #[trigger] ls[k])
}

/// A blank line is no heading.
proof fn lemma_blank_not_heading(l: Seq<char>)
    requires
        trim(l).len() == 0,
    ensures
        !is_heading(l),
{
    reveal_strlit("#");
    let t = trim_start(l);
    if starts_with(t, "#"@) {
        assert(t[0] == t.take(1)[0]);
        crate::text::lemma_trim_start_id(t);
    }
}

/// The review line the rewriter edits is an index of the lines, or their
/// length.
proof fn lemma_review_at_bounds(ls: Seq<Seq<char>>)
    ensures
        0 <= review_at(ls) <= ls.len(),
{
    let h = first_where(ls, class_pred(LineClass::StatusHeading), 0);
    crate::text::lemma_first_where_exists(ls, class_pred(LineClass::StatusHeading), 0);
    if h < ls.len() {
        crate::text::lemma_first_where_exists(ls, class_pred(LineClass::ReviewLine), h + 1);
    } else {
        crate::text::lemma_first_where_exists(ls, class_pred(LineClass::ReviewLine), 0);
    }
}

/// Lines without a review line have none to edit.
proof fn lemma_review_at_none(ls: Seq<Seq<char>>)
    requires
        no_review_line(ls),
    ensures
        review_at(ls) == ls.len(),
{
    let rl = class_pred(LineClass::ReviewLine);
    let h = first_where(ls, class_pred(LineClass::StatusHeading), 0);
    crate::text::lemma_first_where_exists(ls, class_pred(LineClass::StatusHeading), 0);
    if h < ls.len() {
        assert(is_first_where(ls, rl, h + 1, ls.len() as int));
        lemma_first_where(ls, rl, h + 1, ls.len() as int);
        crate::text::lemma_first_where_exists(ls, class_pred(LineClass::Heading), h + 1);
    } else {
        assert(is_first_where(ls, rl, 0, ls.len() as int));
        lemma_first_where(ls, rl, 0, ls.len() as int);
    }
}

/// What the review rewrite makes of lines without a review line to edit:
/// the new line inserted at an index at most their length (or pushed at the
/// end), where the rewriter finds it again.
proof fn lemma_review_insert(ls: Seq<Seq<char>>, d: ReviewBy) -> (at: int)
    requires
        review_at(ls) == ls.len(),
    ensures
        0 <= at <= ls.len(),
        with_review(ls, Some(d)) == ls.insert(at, review_line(d)),
        review_at(ls.insert(at, review_line(d))) == at,
{
    lemma_review_line(d);
    let x = review_line(d);
    let fsh = class_pred(LineClass::StatusHeading);
    let frl = class_pred(LineClass::ReviewLine);
    let fhd = class_pred(LineClass::Heading);
    let fnb = class_pred(LineClass::NonBlank);
    let h = first_where(ls, fsh, 0);
    crate::text::lemma_first_where_exists(ls, fsh, 0);
    if h < ls.len() {
        let j = first_where(ls, fnb, h + 1);
        crate::text::lemma_first_where_exists(ls, fnb, h + 1);
        let end = first_where(ls, fhd, h + 1);
        crate::text::lemma_first_where_exists(ls, fhd, h + 1);
        let e = first_where(ls, frl, h + 1);
        crate::text::lemma_first_where_exists(ls, frl, h + 1);
        assert forall|k: int| h + 1 <= k < j implies !is_heading(#[trigger] ls[k]) by {
            assert(!fnb(ls[k]));
            lemma_blank_not_heading(ls[k]);
        }
        if end < j {
            assert(!is_heading(ls[end]));
        }
        let at = if j < ls.len() && !is_heading(ls[j]) { j + 1 } else { j };
        assert(review_insert_at(ls) == Some(at));
        assert(at <= end) by {
            if j < ls.len() && !is_heading(ls[j]) {
                if end == j {
                }
            }
        }
        let ls1 = ls.insert(at, x);
        assert(is_first_where(ls1, fsh, 0, h)) by {
            assert forall|k: int| 0 <= k < h implies !fsh(#[trigger] ls1[k]) by {
                assert(ls1[k] == ls[k]);
            }
            assert(ls1[h] == ls[h]);
        }
        lemma_first_where(ls1, fsh, 0, h);
        assert(is_first_where(ls1, frl, h + 1, at)) by {
            assert forall|k: int| h + 1 <= k < at implies !frl(#[trigger] ls1[k]) by {
                assert(ls1[k] == ls[k]);
                assert(!frl(ls[k]));
            }
            assert(ls1[at] == x);
        }
        lemma_first_where(ls1, frl, h + 1, at);
        let end1 = first_where(ls1, fhd, h + 1);
        crate::text::lemma_first_where_exists(ls1, fhd, h + 1);
        assert(end1 > at) by {
            if end1 <= at {
                if end1 < at {
                    assert(ls1[end1] == ls[end1]);
                    if end1 == j {
                        assert(!is_heading(ls[j]));
                    }
                } else {
                    assert(ls1[at] == x);
                }
            }
        }
        at
    } else {
        crate::text::lemma_first_where_exists(ls, frl, 0);
        assert(forall|k: int| 0 <= k < ls.len() ==> !frl(#[trigger] ls[k]));
        assert(ls.push(x) =~= ls.insert(ls.len() as int, x));
        let ls1 = ls.insert(ls.len() as int, x);
        assert(is_first_where(ls1, fsh, 0, ls1.len() as int)) by {
            assert forall|k: int| 0 <= k < ls1.len() implies !fsh(#[trigger] ls1[k]) by {
                if k < ls.len() {
                    assert(ls1[k] == ls[k]);
                    assert(!fsh(ls[k]));
                } else {
                    assert(ls1[k] == x);
                }
            }
        }
        lemma_first_where(ls1, fsh, 0, ls1.len() as int);
        crate::text::lemma_first_where_insert(ls, frl, ls.len() as int, x);
        ls.len() as int
    }
}

/// Removing a review line that the document does not have gives the
/// document back unchanged (a normalized document).
pub proof fn law_review_removal_absent_is_identity(doc: Seq<char>)
    requires
        !has_lone_cr(doc),
        no_review_line(doc_lines(doc)),
    ensures
        rewrite_review_by_spec(doc, None) == doc,
{
    reveal(rewrite_review_by_spec);
    let ls = doc_lines(doc);
    lemma_doc_lines(doc);
    crate::text::lemma_normalize_noop(doc);
    lemma_review_at_none(ls);
}

/// Setting a review deadline on a document without one and then removing
/// it gives the document back byte for byte (a normalized document).
pub proof fn law_review_set_then_remove(doc: Seq<char>, d: ReviewBy)
    requires
        !has_lone_cr(doc),
        no_review_line(doc_lines(doc)),
    ensures
        rewrite_review_by_spec(rewrite_review_by_spec(doc, Some(d)), None) == doc,
{
    reveal(rewrite_review_by_spec);
    let ls = doc_lines(doc);
    let nl = newline_of(normalize_cr(doc));
    lemma_doc_lines(doc);
    crate::text::lemma_normalize_noop(doc);
    lemma_review_line(d);
    let x = review_line(d);
    lemma_review_at_none(ls);
    let at = lemma_review_insert(ls, d);
    let ls1 = ls.insert(at, x);
    crate::text::lemma_insert_free(ls, at, x, '\r');
    crate::text::lemma_insert_free(ls, at, x, nl[0]);
    lemma_out_lines(ls1, nl);
    let r1 = join(ls1, nl);
    assert(rewrite_review_by_spec(doc, Some(d)) == r1);
    assert(ls1.remove(at) =~= ls);
}

/// The status value line: the first non-blank line after the `## Status`
/// heading.
pub open spec fn value_line_at(ls: Seq<Seq<char>>) -> int {
    first_where(ls, class_pred(LineClass::NonBlank), first_where(ls, class_pred(LineClass::StatusHeading), 0) + 1)
}

/// Setting a review deadline on a document without one, whose `## Status`
/// section has a value line, puts the `Review by:` line right after that
/// value line and keeps every other line (a normalized document).
pub proof fn law_review_lands_after_status_value(doc: Seq<char>, d: ReviewBy)
    requires
        !has_lone_cr(doc),
        no_review_line(doc_lines(doc)),
        first_where(doc_lines(doc), class_pred(LineClass::StatusHeading), 0) < doc_lines(doc).len(),
        value_line_at(doc_lines(doc)) < doc_lines(doc).len(),
        !is_heading(doc_lines(doc)[value_line_at(doc_lines(doc))]),
    ensures
        doc_lines(rewrite_review_by_spec(doc, Some(d))) == doc_lines(doc).insert(value_line_at(doc_lines(doc)) + 1, review_line(d)),
{
    reveal(rewrite_review_by_spec);
    let ls = doc_lines(doc);
    let nl = newline_of(normalize_cr(doc));
    lemma_doc_lines(doc);
    crate::text::lemma_normalize_noop(doc);
    lemma_review_line(d);
    let x = review_line(d);
    lemma_review_at_none(ls);
    let at = lemma_review_insert(ls, d);
    let h = first_where(ls, class_pred(LineClass::StatusHeading), 0);
    crate::text::lemma_first_where_exists(ls, class_pred(LineClass::StatusHeading), 0);
    crate::text::lemma_first_where_exists(ls, class_pred(LineClass::NonBlank), h + 1);
    assert(review_insert_at(ls) == Some(value_line_at(ls) + 1));
    let ls1 = ls.insert(at, x);
    crate::text::lemma_insert_free(ls, at, x, '\r');
    crate::text::lemma_insert_free(ls, at, x, nl[0]);
    lemma_out_lines(ls1, nl);
}

/// A status value line reads back, in the status region, as its status.
proof fn lemma_value_line_reads(st: Status, sup: Option<(Seq<char>, Seq<char>)>)
    requires
        one_line_pair(sup),
    ensures
        trim(status_value(st, sup)) == status_value(st, sup),
        status_line_step(status_value(st, sup), empty_region()).status == Some(st),
{
    reveal_strlit("Proposed");
    reveal_strlit("Accepted");
    reveal_strlit("Rejected");
    reveal_strlit("Deprecated");
    reveal_strlit("Superseded");
    reveal_strlit("Superseded by [");
    reveal_strlit("](");
    reveal_strlit(")");
    reveal_strlit("Superseded by");
    reveal_strlit("Supersedes");
    reveal_strlit("Review by:");
    reveal_strlit("Review by");
    reveal_strlit("**");
    reveal_strlit("proposed");
    reveal_strlit("accepted");
    reveal_strlit("rejected");
    reveal_strlit("deprecated");
    reveal_strlit("superseded");
    let v = status_value(st, sup);
    lemma_status_literals(st, sup);
    let linked = sup is Some && st == Status::Superseded;
    if linked {
        let p = sup->0;
        assert(v == "Superseded by ["@ + p.0 + "]("@ + p.1 + ")"@);
        assert(v.last() == ')');
    } else {
        assert(v == status_name(st));
    }
    assert(!crate::text::is_ws(v[0]) && !crate::text::is_ws(v.last()));
    crate::text::lemma_trim_id(v);
    assert(crate::text::is_lead(v, crate::text::eq_pred('>'), 0));
    crate::text::lemma_lead(v, crate::text::eq_pred('>'), 0);
    assert(v.skip(0) =~= v);
    assert(crate::text::trim_start_char(v, '>') == v);
    assert(!starts_with(v, "**"@)) by {
        assert(v.take(2)[0] == v[0]);
    }
    assert(crate::text::trim_start_str(v, "**"@) == v);
    assert(banner_value(v) == v);
    let lo = crate::text::ascii_lower_seq(v);
    assert(crate::text::ascii_lower_seq("proposed"@) =~= "proposed"@);
    assert(crate::text::ascii_lower_seq("accepted"@) =~= "accepted"@);
    assert(crate::text::ascii_lower_seq("rejected"@) =~= "rejected"@);
    assert(crate::text::ascii_lower_seq("deprecated"@) =~= "deprecated"@);
    assert(crate::text::ascii_lower_seq("superseded"@) =~= "superseded"@);
    if linked {
        assert(v.take(13) =~= "Superseded by"@);
        assert(strip_prefix_ci(v, "Superseded by"@) is Some);
    } else {
        let sp = "Supersedes"@;
        let rv = "Review by:"@;
        let rb = "Review by"@;
        assert(strip_prefix_ci(v, "Superseded by"@) is None);
        match st {
            Status::Proposed => {
                assert(strip_prefix_ci(v, sp) is None);
                assert(strip_prefix_ci(v, rv) is None);
                assert(strip_prefix_ci(v, rb) is None);
                assert(lo =~= "proposed"@);
                assert(crate::adr::status_named(v) == Some(st));
                assert(review_rest(v) is None);
            },
            Status::Accepted => {
                assert(strip_prefix_ci(v, sp) is None);
                assert(strip_prefix_ci(v, rv) is None);
                assert(strip_prefix_ci(v, rb) is None);
                assert(lo[0] != "proposed"@[0]);
                assert(lo =~= "accepted"@);
                assert(crate::adr::status_named(v) == Some(st));
                assert(review_rest(v) is None);
            },
            Status::Rejected => {
                assert(strip_prefix_ci(v, sp) is None);
                assert(strip_prefix_ci(v, rv) is None);
                assert(strip_prefix_ci(v, rb) is None);
                assert(lo[0] != "proposed"@[0]);
                assert(lo[0] != "accepted"@[0]);
                assert(lo =~= "rejected"@);
                assert(crate::adr::status_named(v) == Some(st));
                assert(review_rest(v) is None);
            },
            Status::Deprecated => {
                assert(crate::text::ascii_lower_seq(v.take(10))[0] != crate::text::ascii_lower_seq(sp)[0]);
                assert(strip_prefix_ci(v, sp) is None);
                assert(crate::text::ascii_lower_seq(v.take(10))[0] != crate::text::ascii_lower_seq(rv)[0]);
                assert(strip_prefix_ci(v, rv) is None);
                assert(crate::text::ascii_lower_seq(v.take(9))[0] != crate::text::ascii_lower_seq(rb)[0]);
                assert(strip_prefix_ci(v, rb) is None);
                assert(lo.len() != "proposed"@.len());
                assert(lo =~= "deprecated"@);
                assert(crate::adr::status_named(v) == Some(st));
                assert(review_rest(v) is None);
            },
            Status::Superseded => {
                assert(crate::text::ascii_lower_seq(v.take(10))[9] != crate::text::ascii_lower_seq(sp)[9]);
                assert(strip_prefix_ci(v, sp) is None);
                assert(crate::text::ascii_lower_seq(v.take(10))[0] != crate::text::ascii_lower_seq(rv)[0]);
                assert(strip_prefix_ci(v, rv) is None);
                assert(crate::text::ascii_lower_seq(v.take(9))[0] != crate::text::ascii_lower_seq(rb)[0]);
                assert(strip_prefix_ci(v, rb) is None);
                assert(lo.len() != "proposed"@.len());
                assert(lo[0] != "deprecated"@[0]);
                assert(lo =~= "superseded"@);
                assert(crate::adr::status_named(v) == Some(st));
                assert(review_rest(v) is None);
            },
        }
    }
}

/// Once the region has named a status, the rest of it keeps that status.
proof fn lemma_region_keeps_status(ls: Seq<Seq<char>>, i: int, r: RegionV)
    requires
        r.status is Some,
    ensures
        region_from(ls, i, r).status == r.status,
    decreases ls.len() - i,
{
    if !(i < 0 || i >= ls.len() || is_heading(ls[i])) {
        let t = trim(ls[i]);
        let r2 = if t.len() == 0 { r } else { status_line_step(t, r) };
        assert(r2.status == r.status);
        lemma_region_keeps_status(ls, i + 1, r2);
    }
}

/// Blank lines add nothing to the region.
proof fn lemma_region_skips_blank(ls: Seq<Seq<char>>, i: int, j: int, r: RegionV)
    requires
        0 <= i <= j <= ls.len(),
        forall|k: int| i <= k < j ==> trim(#[trigger] ls[k]).len() == 0,
    ensures
        region_from(ls, i, r) == region_from(ls, j, r),
    decreases j - i,
{
    if i < j {
        lemma_blank_not_heading(ls[i]);
        lemma_region_skips_blank(ls, i + 1, j, r);
    }
}

/// Where the status value stands after it is written: the first
/// `## Status` heading at `h`, only blank lines up to the value line `j`;
/// and the written lines hold no line break.
proof fn lemma_value_shape(lb: Seq<Seq<char>>, v: Seq<char>) -> (hj: (int, int))
    requires
        lb.len() >= 1,
        all_free_of(lb, '\r'),
        all_free_of(lb, '\n'),
        one_line(v),
        trim(v).len() > 0,
        !is_heading(v),
        !is_status_heading(v),
    ensures
        ({
            let ls1 = with_status_value(lb, v);
            let (h, j) = hj;
            &&& 0 <= h < j < ls1.len()
            &&& is_first_where(ls1, class_pred(LineClass::StatusHeading), 0, h)
            &&& forall|k: int| h < k < j ==> trim(#[trigger] ls1[k]).len() == 0
            &&& ls1[j] == v
            &&& all_free_of(ls1, '\r')
            &&& all_free_of(ls1, '\n')
            &&& ls1.len() >= 1
        }),
{
    lemma_status_literals(Status::Proposed, None);
    let fs = class_pred(LineClass::StatusHeading);
    let fnb = class_pred(LineClass::NonBlank);
    let ls1 = with_status_value(lb, v);
    let h = first_where(lb, fs, 0);
    crate::text::lemma_first_where_exists(lb, fs, 0);
    if h < lb.len() {
        let j = first_where(lb, fnb, h + 1);
        crate::text::lemma_first_where_exists(lb, fnb, h + 1);
        if j < lb.len() && is_heading(lb[j]) {
            assert(ls1 == lb.insert(j, v));
            crate::text::lemma_insert_free(lb, j, v, '\r');
            crate::text::lemma_insert_free(lb, j, v, '\n');
            assert forall|k: int| 0 <= k < h implies !fs(#[trigger] ls1[k]) by {
                assert(ls1[k] == lb[k]);
            }
            assert(ls1[h] == lb[h]);
            assert forall|k: int| h < k < j implies trim(#[trigger] ls1[k]).len() == 0 by {
                assert(ls1[k] == lb[k]);
                assert(!fnb(lb[k]));
            }
            (h, j)
        } else if j < lb.len() {
            assert(ls1 == lb.update(j, v));
            crate::text::lemma_update_free(lb, j, v, '\r');
            crate::text::lemma_update_free(lb, j, v, '\n');
            assert forall|k: int| 0 <= k < h implies !fs(#[trigger] ls1[k]) by {
                assert(ls1[k] == lb[k]);
            }
            assert(ls1[h] == lb[h]);
            assert forall|k: int| h < k < j implies trim(#[trigger] ls1[k]).len() == 0 by {
                assert(ls1[k] == lb[k]);
                assert(!fnb(lb[k]));
            }
            (h, j)
        } else {
            let e = Seq::<char>::empty();
            assert(ls1 == lb + seq![e, v]);
            assert forall|k: int| 0 <= k < ls1.len() implies free_of(#[trigger] ls1[k], '\r') && free_of(ls1[k], '\n') by {
                if k < lb.len() {
                    assert(ls1[k] == lb[k]);
                }
            }
            assert forall|k: int| 0 <= k < h implies !fs(#[trigger] ls1[k]) by {
                assert(ls1[k] == lb[k]);
            }
            assert(ls1[h] == lb[h]);
            assert forall|k: int| h < k < lb.len() + 1 implies trim(#[trigger] ls1[k]).len() == 0 by {
                if k < lb.len() {
                    assert(ls1[k] == lb[k]);
                    assert(!fnb(lb[k]));
                } else {
                    assert(ls1[k] == e);
                }
            }
            (h, lb.len() + 1int)
        }
    } else {
        let t = first_where(lb, class_pred(LineClass::TitleHeading), 0);
        crate::text::lemma_first_where_exists(lb, class_pred(LineClass::TitleHeading), 0);
        let at = if t < lb.len() { t + 1 } else { 0 };
        let e = Seq::<char>::empty();
        let block = seq![e, "## Status"@, e, v];
        assert(ls1 == lb.take(at) + block + lb.skip(at));
        assert forall|k: int| 0 <= k < ls1.len() implies free_of(#[trigger] ls1[k], '\r') && free_of(ls1[k], '\n') by {
            if k < at {
                assert(ls1[k] == lb[k]);
            } else if k >= at + 4 {
                assert(ls1[k] == lb[k - 4]);
            } else {
                assert(ls1[k] == block[k - at]);
            }
        }
        assert forall|k: int| 0 <= k < at + 1 implies !fs(#[trigger] ls1[k]) by {
            if k < at {
                assert(ls1[k] == lb[k]);
                assert(!fs(lb[k]));
            } else {
                assert(ls1[k] == e);
            }
        }
        assert(ls1[at + 1] == "## Status"@);
        assert(ls1[at + 2] == e);
        assert(ls1[at + 3] == v);
        (at + 1, at + 3)
    }
}

/// After a status rewrite of a document without carriage returns, its
/// `## Status` section reads back as the new status. (A supersession label
/// and link are single lines.)
pub proof fn law_rewrite_status_reads_back(doc: Seq<char>, st: Status, sup: Option<(Seq<char>, Seq<char>)>)
    requires
        one_line_pair(sup),
        free_of(doc, '\r'),
    ensures
        status_region(rewrite_status_spec(doc, st, sup)).status == Some(st),
{
    reveal(rewrite_status_spec);
    reveal(newline_of);
    reveal_strlit("\r\n");
    reveal_strlit("\n");
    assert(!has_lone_cr(doc)) by {
        if has_lone_cr(doc) {
            let i = choose|i: int| 0 <= i < doc.len() && #[trigger] crate::text::lone_cr_at(doc, i);
        }
    }
    crate::text::lemma_normalize_noop(doc);
    assert("\r\n"@[0] == '\r');
    crate::text::lemma_free_no_occ(doc, "\r\n"@);
    let nl = newline_of(normalize_cr(doc));
    assert(nl == seq!['\n']);
    let ls = doc_lines(doc);
    lemma_doc_lines(doc);
    let v = status_value(st, sup);
    lemma_status_literals(st, sup);
    lemma_value_line_reads(st, sup);
    let lb = with_banner(ls, st);
    let b = first_where(ls, class_pred(LineClass::Banner), 0);
    crate::text::lemma_first_where_exists(ls, class_pred(LineClass::Banner), 0);
    if b < ls.len() {
        lemma_banner_free(ls[b], st, '\r');
        lemma_banner_free(ls[b], st, '\n');
        crate::text::lemma_update_free(ls, b, banner_line(ls[b], st), '\r');
        crate::text::lemma_update_free(ls, b, banner_line(ls[b], st), '\n');
    }
    let (h, j) = lemma_value_shape(lb, v);
    let ls1 = with_status_value(lb, v);
    let out = join(ls1, nl);
    assert(rewrite_status_spec(doc, st, sup) == out);
    crate::text::lemma_lines_join_lf(ls1);
    let l2 = lines(out);
    assert(l2 == (if ls1.last().len() == 0 { ls1.drop_last() } else { ls1 }));
    assert(j < l2.len()) by {
        if ls1.last().len() == 0 && j == ls1.len() - 1 {
            assert(trim(v).len() > 0);
        }
    }
    assert forall|k: int| 0 <= k < l2.len() implies #[trigger] l2[k] == ls1[k] by {}
    let fs = class_pred(LineClass::StatusHeading);
    assert(is_first_where(l2, fs, 0, h)) by {
        assert forall|k: int| 0 <= k < h implies !fs(#[trigger] l2[k]) by {
            assert(l2[k] == ls1[k]);
        }
        assert(l2[h] == ls1[h]);
    }
    lemma_first_where(l2, fs, 0, h);
    assert forall|k: int| h + 1 <= k < j implies trim(#[trigger] l2[k]).len() == 0 by {
        assert(l2[k] == ls1[k]);
    }
    lemma_region_skips_blank(l2, h + 1, j, empty_region());
    assert(l2[j] == v);
    assert(!is_heading(l2[j]));
    let r1 = status_line_step(trim(v), empty_region());
    assert(region_from(l2, j, empty_region()) == region_from(l2, j + 1, r1));
    lemma_region_keeps_status(l2, j + 1, r1);
}

/// Setting the same review deadline twice is setting it once.
pub proof fn law_review_set_idempotent(doc: Seq<char>, d: ReviewBy)
    ensures
        rewrite_review_by_spec(rewrite_review_by_spec(doc, Some(d)), Some(d)) == rewrite_review_by_spec(doc, Some(d)),
{
    reveal(rewrite_review_by_spec);
    let ls = doc_lines(doc);
    let nl = newline_of(normalize_cr(doc));
    lemma_doc_lines(doc);
    lemma_review_line(d);
    let x = review_line(d);
    let e = review_at(ls);
    lemma_review_at_bounds(ls);
    let ls1 = with_review(ls, Some(d));
    if e < ls.len() {
        lemma_review_update(ls, d);
        assert(ls1 == ls.update(e, x));
        crate::text::lemma_update_free(ls, e, x, '\r');
        crate::text::lemma_update_free(ls, e, x, nl[0]);
        lemma_out_lines(ls1, nl);
        assert(ls1.update(e, x) =~= ls1);
    } else {
        let at = lemma_review_insert(ls, d);
        crate::text::lemma_insert_free(ls, at, x, '\r');
        crate::text::lemma_insert_free(ls, at, x, nl[0]);
        lemma_out_lines(ls1, nl);
        assert(ls1.update(at, x) =~= ls1);
    }
}

/// Replacing the review line the rewriter edits leaves it where the
/// rewriter finds it.
proof fn lemma_review_update(ls: Seq<Seq<char>>, d: ReviewBy)
    requires
        review_at(ls) < ls.len(),
    ensures
        review_at(ls.update(review_at(ls), review_line(d))) == review_at(ls),
{
    lemma_review_line(d);
    let x = review_line(d);
    let e = review_at(ls);
    lemma_review_at_bounds(ls);
    let ls1 = ls.update(e, x);
    let fsh = class_pred(LineClass::StatusHeading);
    let frl = class_pred(LineClass::ReviewLine);
    let fhd = class_pred(LineClass::Heading);
    let h = first_where(ls, fsh, 0);
    crate::text::lemma_first_where_exists(ls, fsh, 0);
    if h < ls.len() {
        crate::text::lemma_first_where_exists(ls, frl, h + 1);
        let end = first_where(ls, fhd, h + 1);
        crate::text::lemma_first_where_exists(ls, fhd, h + 1);
        assert(e > h);
        assert(is_first_where(ls1, fsh, 0, h)) by {
            assert forall|k: int| 0 <= k < h implies !fsh(#[trigger] ls1[k]) by {
                assert(ls1[k] == ls[k]);
            }
            assert(ls1[h] == ls[h]);
        }
        lemma_first_where(ls1, fsh, 0, h);
        crate::text::lemma_first_where_update(ls, frl, h + 1, e, x);
        assert(!fhd(ls[e]));
        assert forall|k: int| 0 <= k < ls.len() implies fhd(#[trigger] ls[k]) == fhd(ls1[k]) by {
            if k == e {
                assert(ls1[k] == x);
            } else {
                assert(ls1[k] == ls[k]);
            }
        }
        crate::text::lemma_first_where_same(ls, ls1, fhd, h + 1);
    } else {
        crate::text::lemma_first_where_exists(ls, frl, 0);
        assert forall|k: int| 0 <= k < ls.len() implies fsh(#[trigger] ls[k]) == fsh(ls1[k]) by {
            if k == e {
                assert(ls1[k] == x);
                assert(!fsh(ls[k]));
            } else {
                assert(ls1[k] == ls[k]);
            }
        }
        crate::text::lemma_first_where_same(ls, ls1, fsh, 0);
        crate::text::lemma_first_where_update(ls, frl, 0, e, x);
    }
}

/// `back_over_blank` stays within `[lo, at]`.
proof fn lemma_back_over_blank(ls: Seq<Seq<char>>, lo: int, at: int)
    requires
        lo <= at,
    ensures
        lo <= back_over_blank(ls, lo, at) <= at,
    decreases at - lo,
{
    if at > lo && trim(ls[at - 1]).len() == 0 {
        lemma_back_over_blank(ls, lo, at - 1);
    }
}

/// A label and URL without line breaks.
pub open spec fn one_line(s: Seq<char>) -> bool {
    free_of(s, '\r') && free_of(s, '\n')
}

/// What the rewriter needs of the lines it writes: the bullet is a bullet
/// for its label and neither heading kind, the blank line is none of the
/// three, the section heading is a references heading; none holds a line
/// break.
proof fn lemma_reference_literals(label: Seq<char>, url: Seq<char>)
    requires
        one_line(label),
        one_line(url),
    ensures
        is_label_line(reference_entry(label, url), label_prefix(label)),
        !is_heading(reference_entry(label, url)),
        !is_references_heading(reference_entry(label, url)),
        one_line(reference_entry(label, url)),
        !is_heading(Seq::<char>::empty()),
        !is_references_heading(Seq::<char>::empty()),
        !is_label_line(Seq::<char>::empty(), label_prefix(label)),
        trim(Seq::<char>::empty()).len() == 0,
        is_references_heading("## References"@),
        one_line("## References"@),
{
    reveal_strlit("- ");
    reveal_strlit(": ");
    reveal_strlit(":");
    reveal_strlit("#");
    reveal_strlit("## References");
    let e = reference_entry(label, url);
    let head = "- "@ + label + ":"@;
    assert(e =~= head + (seq![' '] + url));
    assert(e[0] == '-');
    crate::text::lemma_trim_start_id(e);
    assert("#"@ =~= seq!['#']);
    assert(e.take(1)[0] == e[0]);
    assert("## References"@.len() == 13);
    assert(crate::text::ascii_lower_seq(e).take(head.len() as int) =~= crate::text::ascii_lower_seq(head));
    assert(crate::text::ascii_lower_seq(trim(e))[0] == '-');
    assert(crate::text::ascii_lower_seq("## References"@)[0] == '#');
    assert forall|i: int| 0 <= i < e.len() implies e[i] != '\r' && e[i] != '\n' by {
        if i >= 2 && i < 2 + label.len() {
            assert(e[i] == label[i - 2]);
        } else if i >= 4 + label.len() {
            assert(e[i] == url[i - 4 - label.len()]);
        }
    }
    let rh = "## References"@;
    assert(rh[0] == '#' && rh.last() == 's');
    crate::text::lemma_trim_id(rh);
    crate::text::lemma_trim_id(Seq::<char>::empty());
    assert(trim(Seq::<char>::empty()) == Seq::<char>::empty());
    assert(crate::text::ascii_lower_seq(Seq::<char>::empty()).len() == 0);
    assert(crate::text::ascii_lower_seq(rh).len() == 13);
    assert(!is_references_heading(Seq::<char>::empty()));
    assert(label_prefix(label).len() >= 3);
}

/// The reference rewrite keeps every line free of a line-break character,
/// and never loses a line.
proof fn lemma_reference_lines(ls: Seq<Seq<char>>, label: Seq<char>, url: Seq<char>, c: char)
    requires
        one_line(label),
        one_line(url),
        c == '\r' || c == '\n',
        all_free_of(ls, c),
    ensures
        all_free_of(with_reference(ls, label, url), c),
        ls.len() >= 2 ==> with_reference(ls, label, url).len() >= 2,
        with_reference(ls, label, url).len() >= 1,
{
    lemma_reference_literals(label, url);
    let entry = reference_entry(label, url);
    let h = first_where(ls, class_pred(LineClass::ReferencesHeading), 0);
    crate::text::lemma_first_where_exists(ls, class_pred(LineClass::ReferencesHeading), 0);
    if h < ls.len() {
        let end = first_where(ls, class_pred(LineClass::Heading), h + 1);
        let e = first_where(ls, label_pred(label_prefix(label)), h + 1);
        crate::text::lemma_first_where_exists(ls, class_pred(LineClass::Heading), h + 1);
        crate::text::lemma_first_where_exists(ls, label_pred(label_prefix(label)), h + 1);
        if e < end {
            crate::text::lemma_update_free(ls, e, entry, c);
        } else {
            lemma_back_over_blank(ls, h + 1, end);
            crate::text::lemma_insert_free(ls, back_over_blank(ls, h + 1, end), entry, c);
        }
    } else {
        let k = back_over_blank(ls, 0, ls.len() as int);
        lemma_back_over_blank(ls, 0, ls.len() as int);
        let tail = seq![Seq::<char>::empty(), "## References"@, Seq::<char>::empty(), entry];
        let l1 = ls.take(k) + tail;
        assert forall|j: int| 0 <= j < l1.len() implies free_of(#[trigger] l1[j], c) by {
            if j < k {
                assert(l1[j] == ls[j]);
            } else {
                assert(l1[j] == tail[j - k]);
            }
        }
    }
}

/// Upserting a reference into lines it was already upserted into (with
/// one blank line or none after them) changes nothing.
proof fn lemma_reference_fixpoint(ls: Seq<Seq<char>>, label: Seq<char>, url: Seq<char>, extra: Seq<Seq<char>>)
    requires
        one_line(label),
        one_line(url),
        extra == Seq::<Seq<char>>::empty() || extra == seq![Seq::<char>::empty()],
    ensures
        with_reference(with_reference(ls, label, url) + extra, label, url) == with_reference(ls, label, url) + extra,
{
    lemma_reference_literals(label, url);
    let entry = reference_entry(label, url);
    let fr = class_pred(LineClass::ReferencesHeading);
    let fh = class_pred(LineClass::Heading);
    let fl = label_pred(label_prefix(label));
    let ls1 = with_reference(ls, label, url);
    let l2 = ls1 + extra;
    let h = first_where(ls, fr, 0);
    crate::text::lemma_first_where_exists(ls, fr, 0);
    if h < ls.len() {
        let end = first_where(ls, fh, h + 1);
        let e = first_where(ls, fl, h + 1);
        crate::text::lemma_first_where_exists(ls, fh, h + 1);
        crate::text::lemma_first_where_exists(ls, fl, h + 1);
        let at: int = if e < end {
            e
        } else {
            lemma_back_over_blank(ls, h + 1, end);
            back_over_blank(ls, h + 1, end)
        };
        assert(ls1 == if e < end { ls.update(e, entry) } else { ls.insert(at, entry) });
        assert(ls1.len() >= ls.len());
        assert(l2[at] == entry);
        assert forall|j: int| 0 <= j < at && j != at implies #[trigger] l2[j] == ls[j] by {
            assert(l2[j] == ls1[j]);
        }
        assert forall|j: int| 0 <= j < h implies !fr(#[trigger] l2[j]) by {
            assert(l2[j] == ls[j]);
        }
        assert(l2[h] == ls[h]);
        assert(is_first_where(l2, fr, 0, h));
        lemma_first_where(l2, fr, 0, h);
        assert forall|j: int| h + 1 <= j < at implies !fl(#[trigger] l2[j]) && !fh(l2[j]) by {
            assert(l2[j] == ls[j]);
        }
        assert(is_first_where(l2, fl, h + 1, at));
        lemma_first_where(l2, fl, h + 1, at);
        let end2 = first_where(l2, fh, h + 1);
        crate::text::lemma_first_where_exists(l2, fh, h + 1);
        if end2 <= at {
            if end2 < at {
                assert(!fh(l2[end2]));
            } else {
                assert(!fh(l2[at]));
            }
        }
        assert(l2.update(at, entry) =~= l2);
    } else {
        let k = back_over_blank(ls, 0, ls.len() as int);
        lemma_back_over_blank(ls, 0, ls.len() as int);
        let tail = seq![Seq::<char>::empty(), "## References"@, Seq::<char>::empty(), entry];
        assert(ls1 == ls.take(k) + tail);
        assert forall|j: int| 0 <= j < k implies !fr(#[trigger] l2[j]) by {
            assert(l2[j] == ls[j]);
            assert(!fr(ls[j]));
        }
        assert(l2[k] == Seq::<char>::empty());
        assert(l2[k + 1] == "## References"@);
        assert(l2[k + 2] == Seq::<char>::empty());
        assert(l2[k + 3] == entry);
        assert(is_first_where(l2, fr, 0, k + 1));
        lemma_first_where(l2, fr, 0, k + 1);
        assert(is_first_where(l2, fl, k + 2, k + 3));
        lemma_first_where(l2, fl, k + 2, k + 3);
        let end2 = first_where(l2, fh, k + 2);
        crate::text::lemma_first_where_exists(l2, fh, k + 2);
        if end2 <= k + 3 {
            if end2 == k + 2 {
                assert(!fh(l2[k + 2]));
            } else {
                assert(!fh(l2[k + 3]));
            }
        }
        assert(l2.update(k + 3, entry) =~= l2);
    }
}

/// Upserting the same reference twice is upserting it once: a second
/// write with the same label and URL is byte-identical. (The label and URL
/// are single lines.)
pub proof fn law_upsert_reference_idempotent(doc: Seq<char>, label: Seq<char>, url: Seq<char>)
    requires
        one_line(label),
        one_line(url),
    ensures
        upsert_reference_spec(upsert_reference_spec(doc, label, url), label, url) == upsert_reference_spec(doc, label, url),
{
    reveal(upsert_reference_spec);
    let o = normalize_cr(doc);
    let nl = newline_of(o);
    let ls = doc_lines(doc);
    lemma_doc_lines(doc);
    let ls1 = with_reference(ls, label, url);
    lemma_reference_lines(ls, label, url, '\r');
    lemma_reference_lines(ls, label, url, nl[0]);
    let out = join(ls1, nl);
    let cond = crate::text::ends_with(o, "\n"@) && !crate::text::ends_with(out, "\n"@);
    let extra = if cond { seq![Seq::<char>::empty()] } else { Seq::<Seq<char>>::empty() };
    let l2 = ls1 + extra;
    let r1 = if cond { out + nl } else { out };
    assert(upsert_reference_spec(doc, label, url) == r1);
    if cond {
        assert(l2 =~= ls1.push(Seq::<char>::empty()));
        crate::text::lemma_join_push(ls1, Seq::<char>::empty(), nl);
        assert(out + nl + Seq::<char>::empty() =~= out + nl);
    } else {
        assert(l2 =~= ls1);
    }
    assert(join(l2, nl) == r1);
    assert forall|j: int| 0 <= j < l2.len() implies free_of(#[trigger] l2[j], '\r') && free_of(l2[j], nl[0]) by {
        if j < ls1.len() {
            assert(l2[j] == ls1[j]);
        } else {
            assert(l2[j] == Seq::<char>::empty());
        }
    }
    lemma_out_lines(l2, nl);
    lemma_reference_fixpoint(ls, label, url, extra);
    assert(with_reference(doc_lines(r1), label, url) == l2);
}

/// A supersession label and link without line breaks.
pub open spec fn one_line_pair(sup: Option<(Seq<char>, Seq<char>)>) -> bool {
    match sup {
        Some(p) => one_line(p.0) && one_line(p.1),
        None => true,
    }
}

/// The status value line, a blank line and the `## Status` heading are
/// what they look like, and hold no line break.
proof fn lemma_status_literals(st: Status, sup: Option<(Seq<char>, Seq<char>)>)
    requires
        one_line_pair(sup),
    ensures
        trim(status_value(st, sup)).len() > 0,
        !is_banner(status_value(st, sup)),
        !is_status_heading(status_value(st, sup)),
        !is_heading(status_value(st, sup)),
        one_line(status_value(st, sup)),
        !is_banner(Seq::<char>::empty()),
        !is_status_heading(Seq::<char>::empty()),
        trim(Seq::<char>::empty()).len() == 0,
        is_status_heading("## Status"@),
        !is_banner("## Status"@),
        one_line("## Status"@),
{
    reveal_strlit("Proposed");
    reveal_strlit("Accepted");
    reveal_strlit("Rejected");
    reveal_strlit("Deprecated");
    reveal_strlit("Superseded");
    reveal_strlit("Superseded by [");
    reveal_strlit("](");
    reveal_strlit(")");
    reveal_strlit("## Status");
    reveal_strlit("> State:");
    let v = status_value(st, sup);
    let sh = "## Status"@;
    if sup is Some && st == Status::Superseded {
        let p = sup->0;
        let l = p.0;
        let k = p.1;
        let a = "Superseded by ["@;
        assert(v == a + l + "]("@ + k + ")"@);
        assert(v[0] == 'S');
        assert forall|i: int| 0 <= i < v.len() implies v[i] != '\r' && v[i] != '\n' by {
            if i < 15 {
                assert(v[i] == a[i]);
            } else if i < 15 + l.len() {
                assert(v[i] == l[i - 15]);
            } else if i < 17 + l.len() {
            } else if i < 17 + l.len() + k.len() {
                assert(v[i] == k[i - 17 - l.len()]);
            }
        }
    } else {
        assert(v == status_name(st));
        assert(v[0] != '>' && v[0] != '#' && !is_ws(v[0]));
    }
    assert(v.len() > 0);
    crate::text::lemma_trim_start_id(v);
    reveal_strlit("#");
    assert(v.take(1)[0] == v[0]);
    assert("> State:"@.len() == 8 && "> State:"@[0] == '>');
    assert(v.take(8)[0] == v[0]);
    assert(crate::text::ascii_lower_seq(trim(v))[0] != '#');
    assert(crate::text::ascii_lower_seq(sh)[0] == '#');
    crate::text::lemma_trim_id(sh);
    crate::text::lemma_trim_id(Seq::<char>::empty());
    assert(trim(Seq::<char>::empty()) == Seq::<char>::empty());
    assert(crate::text::ascii_lower_seq(Seq::<char>::empty()).len() == 0);
    assert(crate::text::ascii_lower_seq(sh).len() == 9);
    assert(sh.take(8)[0] == '#');
}

/// A banner line is a banner, not a status heading, keeps a line's lack of
/// line breaks, and rewriting it again to the same status leaves it.
proof fn lemma_banner_line(l: Seq<char>, st: Status)
    ensures
        is_banner(banner_line(l, st)),
        !is_status_heading(banner_line(l, st)),
        trim(banner_line(l, st)).len() > 0,
        one_line(l) ==> one_line(banner_line(l, st)),
        banner_line(banner_line(l, st), st) == banner_line(l, st),
{
    reveal_strlit("> State: ");
    reveal_strlit("> State:");
    reveal_strlit("## Status");
    reveal_strlit("Proposed");
    reveal_strlit("Accepted");
    reveal_strlit("Rejected");
    reveal_strlit("Deprecated");
    reveal_strlit("Superseded");
    crate::text::lemma_lead_exists(l, crate::text::ws_pred());
    let ind = l.take(crate::text::lead(l, crate::text::ws_pred()));
    let rest = "> State: "@ + status_name(st);
    let bl = banner_line(l, st);
    assert(bl == ind + rest);
    assert forall|i: int| 0 <= i < ind.len() implies is_ws(#[trigger] ind[i]) by {
        assert(ind[i] == l[i]);
        assert((crate::text::ws_pred())(l[i]));
    }
    assert(rest[0] == '>');
    crate::text::lemma_lead_ws_concat(ind, rest);
    assert(bl.take(ind.len() as int) =~= ind);
    assert(rest.take(8) =~= "> State:"@);
    crate::text::lemma_trim_start_id(rest);
    assert(trim(bl) == trim(rest)) by {
        assert(crate::text::trim_start(bl) == rest);
    }
    assert(crate::text::ascii_lower_seq(trim(rest))[0] == '>');
    assert(crate::text::ascii_lower_seq("## Status"@)[0] == '#');
    if one_line(l) {
        assert forall|i: int| 0 <= i < bl.len() implies bl[i] != '\r' && bl[i] != '\n' by {
            if i < ind.len() {
                assert(bl[i] == l[i]);
            } else {
                assert(bl[i] == rest[i - ind.len()]);
                let k = i - ind.len();
                if k >= 9 {
                    assert(rest[k] == status_name(st)[k - 9]);
                }
            }
        }
    }
}

/// The status value line is the first banner and another banner follows:
/// the one input shape on which a status rewrite is not idempotent (the
/// first pass writes the value over the banner, the second then rewrites
/// the later banner).
pub open spec fn banner_is_value_line(ls: Seq<Seq<char>>) -> bool {
    let b = first_where(ls, class_pred(LineClass::Banner), 0);
    let h = first_where(ls, class_pred(LineClass::StatusHeading), 0);
    &&& b < ls.len()
    &&& h < ls.len()
    &&& first_where(ls, class_pred(LineClass::NonBlank), h + 1) == b
    &&& exists|k: int| b < k < ls.len() && is_banner(#[trigger] ls[k])
}

/// The status part of a rewrite is a fixpoint: writing the same value
/// again into the lines it produced changes nothing.
proof fn lemma_status_value_fixpoint(lb: Seq<Seq<char>>, v: Seq<char>)
    requires
        trim(v).len() > 0,
        !is_status_heading(v),
        !is_heading(v),
    ensures
        with_status_value(with_status_value(lb, v), v) == with_status_value(lb, v),
{
    lemma_status_literals(Status::Proposed, None);
    let fs = class_pred(LineClass::StatusHeading);
    let fnb = class_pred(LineClass::NonBlank);
    let ls1 = with_status_value(lb, v);
    let h = first_where(lb, fs, 0);
    crate::text::lemma_first_where_exists(lb, fs, 0);
    if h < lb.len() {
        let j = first_where(lb, fnb, h + 1);
        crate::text::lemma_first_where_exists(lb, fnb, h + 1);
        let jj: int = if j < lb.len() { j } else { lb.len() + 1int };
        let ins = j < lb.len() && is_heading(lb[j]);
        assert(ls1 == if ins { lb.insert(j, v) } else if j < lb.len() { lb.update(j, v) } else { lb + seq![Seq::<char>::empty(), v] });
        assert forall|k: int| 0 <= k < h implies !fs(#[trigger] ls1[k]) by {
            assert(ls1[k] == lb[k]);
        }
        assert(ls1[h] == lb[h]);
        assert(is_first_where(ls1, fs, 0, h));
        lemma_first_where(ls1, fs, 0, h);
        assert forall|k: int| h + 1 <= k < jj implies !fnb(#[trigger] ls1[k]) by {
            if k < lb.len() {
                assert(ls1[k] == lb[k]);
            } else {
                assert(ls1[k] == Seq::<char>::empty());
            }
        }
        assert(ls1[jj] == v);
        assert(is_first_where(ls1, fnb, h + 1, jj));
        lemma_first_where(ls1, fnb, h + 1, jj);
        assert(ls1.update(jj, v) =~= ls1);
    } else {
        let t = first_where(lb, class_pred(LineClass::TitleHeading), 0);
        crate::text::lemma_first_where_exists(lb, class_pred(LineClass::TitleHeading), 0);
        let at = if t < lb.len() { t + 1 } else { 0 };
        let block = seq![Seq::<char>::empty(), "## Status"@, Seq::<char>::empty(), v];
        assert(ls1 == lb.take(at) + block + lb.skip(at));
        assert forall|k: int| 0 <= k < at implies !fs(#[trigger] ls1[k]) by {
            assert(ls1[k] == lb[k]);
            assert(!fs(lb[k]));
        }
        assert(ls1[at] == Seq::<char>::empty());
        assert(ls1[at + 1] == "## Status"@);
        assert(ls1[at + 2] == Seq::<char>::empty());
        assert(ls1[at + 3] == v);
        assert(is_first_where(ls1, fs, 0, at + 1));
        lemma_first_where(ls1, fs, 0, at + 1);
        assert(is_first_where(ls1, fnb, at + 2, at + 3));
        lemma_first_where(ls1, fnb, at + 2, at + 3);
        assert(ls1.update(at + 3, v) =~= ls1);
    }
}

/// A banner line holds no line-break character its source line lacks.
proof fn lemma_banner_free(l: Seq<char>, st: Status, c: char)
    requires
        c == '\r' || c == '\n',
        free_of(l, c),
    ensures
        free_of(banner_line(l, st), c),
{
    reveal_strlit("> State: ");
    reveal_strlit("Proposed");
    reveal_strlit("Accepted");
    reveal_strlit("Rejected");
    reveal_strlit("Deprecated");
    reveal_strlit("Superseded");
    crate::text::lemma_lead_exists(l, crate::text::ws_pred());
    let ind = l.take(crate::text::lead(l, crate::text::ws_pred()));
    let rest = "> State: "@ + status_name(st);
    let bl = banner_line(l, st);
    assert(bl == ind + rest);
    assert forall|i: int| 0 <= i < bl.len() implies bl[i] != c by {
        if i < ind.len() {
            assert(bl[i] == l[i]);
        } else {
            let k = i - ind.len();
            assert(bl[i] == rest[k]);
            if k >= 9 {
                assert(rest[k] == status_name(st)[k - 9]);
            }
        }
    }
}

/// A banner is neither blank nor a status heading.
proof fn lemma_banner_not_heading(l: Seq<char>)
    requires
        is_banner(l),
    ensures
        !is_status_heading(l),
        !is_heading(l),
        trim(l).len() > 0,
{
    reveal_strlit("#");
    reveal_strlit("> State:");
    reveal_strlit("## Status");
    let t = trim_start(l);
    assert(t.take(8) == "> State:"@);
    assert(t[0] == t.take(8)[0]);
    assert(t[0] == '>');
    crate::text::lemma_lead_exists(l, crate::text::ws_pred());
    crate::text::lemma_trim_start_id(t);
    assert(trim(l) == trim(t)) by {
        assert(trim_start(t) == t);
    }
    assert(crate::text::ascii_lower_seq(trim(l))[0] == '>');
    assert(crate::text::ascii_lower_seq("## Status"@)[0] == '#');
}

/// The banner part of a rewrite is a fixpoint over what the whole rewrite
/// produced, unless the status value line was the first of several banners.
#[verifier::spinoff_prover]
#[verifier::rlimit(40)]
proof fn lemma_banner_fixpoint(ls: Seq<Seq<char>>, st: Status, v: Seq<char>)
    requires
        !banner_is_value_line(ls),
        trim(v).len() > 0,
        !is_banner(v),
        !is_status_heading(v),
    ensures
        with_banner(with_status_value(with_banner(ls, st), v), st) == with_status_value(with_banner(ls, st), v),
{
    lemma_status_literals(Status::Proposed, None);
    let fb = class_pred(LineClass::Banner);
    let fs = class_pred(LineClass::StatusHeading);
    let fnb = class_pred(LineClass::NonBlank);
    let lb = with_banner(ls, st);
    let ls1 = with_status_value(lb, v);
    let b = first_where(ls, fb, 0);
    crate::text::lemma_first_where_exists(ls, fb, 0);
    let h = first_where(lb, fs, 0);
    crate::text::lemma_first_where_exists(lb, fs, 0);
    let t = first_where(lb, class_pred(LineClass::TitleHeading), 0);
    crate::text::lemma_first_where_exists(lb, class_pred(LineClass::TitleHeading), 0);
    let at = if t < lb.len() { t + 1 } else { 0 };
    let block = seq![Seq::<char>::empty(), "## Status"@, Seq::<char>::empty(), v];
    let j = if h < lb.len() { first_where(lb, fnb, h + 1) } else { 0 };
    if h < lb.len() {
        crate::text::lemma_first_where_exists(lb, fnb, h + 1);
    }
    let ins = h < lb.len() && j < lb.len() && is_heading(lb[j]);
    assert(ls1 == if h < lb.len() {
        if ins { lb.insert(j, v) } else if j < lb.len() { lb.update(j, v) } else { lb + seq![Seq::<char>::empty(), v] }
    } else {
        lb.take(at) + block + lb.skip(at)
    });
    if b == ls.len() {
        assert(lb == ls);
        assert forall|k: int| 0 <= k < ls1.len() implies !fb(#[trigger] ls1[k]) by {
            if h < lb.len() {
                if ins {
                    if k < j {
                        assert(ls1[k] == ls[k]);
                    } else if k > j {
                        assert(ls1[k] == ls[k - 1]);
                    }
                } else if j < lb.len() {
                    if k != j {
                        assert(ls1[k] == ls[k]);
                    }
                } else if k < lb.len() {
                    assert(ls1[k] == ls[k]);
                }
            } else {
                if k < at {
                    assert(ls1[k] == ls[k]);
                } else if k >= at + 4 {
                    assert(ls1[k] == ls[k - 4]);
                }
            }
        }
        assert(is_first_where(ls1, fb, 0, ls1.len() as int));
        lemma_first_where(ls1, fb, 0, ls1.len() as int);
    } else {
        let bl = banner_line(ls[b], st);
        lemma_banner_line(ls[b], st);
        lemma_banner_not_heading(ls[b]);
        assert(lb == ls.update(b, bl));
        assert forall|k: int| 0 <= k < ls.len() implies fs(#[trigger] ls[k]) == fs(lb[k]) && fnb(ls[k]) == fnb(lb[k]) by {
            if k != b {
                assert(lb[k] == ls[k]);
            }
        }
        crate::text::lemma_first_where_same(ls, lb, fs, 0);
        if h < lb.len() {
            crate::text::lemma_first_where_same(ls, lb, fnb, h + 1);
        }
        if h < lb.len() && j < lb.len() && j == b {
            lemma_banner_not_heading(bl);
            assert(!ins);
            assert(!(exists|k: int| b < k < ls.len() && is_banner(#[trigger] ls[k])));
            assert forall|k: int| 0 <= k < ls1.len() implies !fb(#[trigger] ls1[k]) by {
                if k != b {
                    assert(ls1[k] == ls[k]);
                    if k > b {
                        assert(!is_banner(ls[k]));
                    }
                }
            }
            assert(is_first_where(ls1, fb, 0, ls1.len() as int));
            lemma_first_where(ls1, fb, 0, ls1.len() as int);
        } else {
            let b2: int = if h >= lb.len() && b >= at { b + 4 } else if ins && b >= j { b + 1 } else { b };
            assert(ls1[b2] == bl);
            assert forall|k: int| 0 <= k < b2 implies !fb(#[trigger] ls1[k]) by {
                if h < lb.len() {
                    if ins {
                        if k < j {
                            assert(ls1[k] == ls[k]);
                        } else if k > j {
                            assert(ls1[k] == ls[k - 1]);
                        }
                    } else if j < lb.len() && k == j {
                    } else {
                        assert(ls1[k] == ls[k]);
                    }
                } else if k < at {
                    assert(ls1[k] == ls[k]);
                } else if k >= at + 4 {
                    assert(ls1[k] == ls[k - 4]);
                }
            }
            assert(is_first_where(ls1, fb, 0, b2));
            lemma_first_where(ls1, fb, 0, b2);
            assert(ls1.update(b2, banner_line(bl, st)) =~= ls1);
        }
    }
}

/// Rewriting a document to the same status twice is rewriting it once: the
/// second pass is byte-identical. (A supersession label and link are single
/// lines; the status value line is not the first of several banners.)
pub proof fn law_rewrite_status_idempotent(doc: Seq<char>, st: Status, sup: Option<(Seq<char>, Seq<char>)>)
    requires
        one_line_pair(sup),
        !banner_is_value_line(doc_lines(doc)),
    ensures
        rewrite_status_spec(rewrite_status_spec(doc, st, sup), st, sup) == rewrite_status_spec(doc, st, sup),
{
    reveal(rewrite_status_spec);
    let ls = doc_lines(doc);
    let nl = newline_of(normalize_cr(doc));
    lemma_doc_lines(doc);
    let v = status_value(st, sup);
    lemma_status_literals(st, sup);
    let lb = with_banner(ls, st);
    let ls1 = with_status_value(lb, v);
    let b = first_where(ls, class_pred(LineClass::Banner), 0);
    crate::text::lemma_first_where_exists(ls, class_pred(LineClass::Banner), 0);
    if b < ls.len() {
        lemma_banner_free(ls[b], st, '\r');
        lemma_banner_free(ls[b], st, nl[0]);
        crate::text::lemma_update_free(ls, b, banner_line(ls[b], st), '\r');
        crate::text::lemma_update_free(ls, b, banner_line(ls[b], st), nl[0]);
    }
    assert(all_free_of(lb, '\r') && all_free_of(lb, nl[0]));
    let fs = class_pred(LineClass::StatusHeading);
    let h = first_where(lb, fs, 0);
    crate::text::lemma_first_where_exists(lb, fs, 0);
    let t = first_where(lb, class_pred(LineClass::TitleHeading), 0);
    crate::text::lemma_first_where_exists(lb, class_pred(LineClass::TitleHeading), 0);
    let at = if t < lb.len() { t + 1 } else { 0 };
    let block = seq![Seq::<char>::empty(), "## Status"@, Seq::<char>::empty(), v];
    if h < lb.len() {
        let j = first_where(lb, class_pred(LineClass::NonBlank), h + 1);
        crate::text::lemma_first_where_exists(lb, class_pred(LineClass::NonBlank), h + 1);
        if j < lb.len() {
            crate::text::lemma_update_free(lb, j, v, '\r');
            crate::text::lemma_update_free(lb, j, v, nl[0]);
        } else {
            let ext = lb + seq![Seq::<char>::empty(), v];
            assert forall|k: int| 0 <= k < ext.len() implies free_of(#[trigger] ext[k], '\r') && free_of(ext[k], nl[0]) by {
                if k < lb.len() {
                    assert(ext[k] == lb[k]);
                }
            }
        }
    } else {
        assert forall|k: int| 0 <= k < ls1.len() implies free_of(#[trigger] ls1[k], '\r') && free_of(ls1[k], nl[0]) by {
            if k < at {
                assert(ls1[k] == lb[k]);
            } else if k >= at + 4 {
                assert(ls1[k] == lb[k - 4]);
            } else {
                assert(ls1[k] == block[k - at]);
            }
        }
    }
    assert(ls1.len() >= ls.len());
    lemma_out_lines(ls1, nl);
    let out = join(ls1, nl);
    lemma_banner_fixpoint(ls, st, v);
    lemma_status_value_fixpoint(lb, v);
}

} // verus!
