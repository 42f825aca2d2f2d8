//! The ADR identity / naming seam. Every scheme-specific rule lives here: how
//! a scheme assigns, parses, names, displays, links and scopes identifiers.
use vstd::prelude::*;
use crate::paths::{file_name, file_name_v, parent_name, parent_name_v, stem, stem_v};
use crate::text::{eq_ignore_ascii_case, eq_ignore_case_chars, after_last, after_last_str, append_all, append_str, ascii_lower_seq, before_first, before_first_str, chars_of, contains, dec, dec_v, eq_chars, find, find_str, is_ascii_char, is_ascii_seq, join, join_str, lead, leading_digits, leading_digits_v, lemma_lead, lines, lines_v, occurs_at, pad4_v, pad_zero, rfind, rfind_str, rsplit_once, rsplit_once_str, slice_of, split, starts_with, starts_with_v, string_of, strip_prefix, strip_prefix_str, strip_suffix, strip_suffix_str, trim, trim_start_char, trim_start_char_v, trim_v, views, words, words_v};
use vstd::std_specs::cmp::PartialEqSpecImpl;

verus! {

/// The abstract value of an [`AdrRef`].
pub enum RefV {
    Number(u32),
    Slug(Seq<char>),
}

/// A scheme-agnostic display / reference identity for an ADR.
#[derive(Debug, Clone)]
pub enum AdrRef {
    Number(u32),
    Slug(String),
}

impl View for AdrRef {
    type V = RefV;

    open spec fn view(&self) -> RefV {
        match self {
            AdrRef::Number(n) => RefV::Number(*n),
            AdrRef::Slug(s) => RefV::Slug(s@),
        }
    }
}

impl PartialEq for AdrRef {
    fn eq(&self, other: &Self) -> (r: bool) {
        match (self, other) {
            (AdrRef::Number(a), AdrRef::Number(b)) => *a == *b,
            (AdrRef::Slug(a), AdrRef::Slug(b)) => eq_chars(&chars_of(a.as_str()), &chars_of(b.as_str())),
            _ => false,
        }
    }
}

impl PartialEqSpecImpl for AdrRef {
    open spec fn obeys_eq_spec() -> bool {
        true
    }

    open spec fn eq_spec(&self, other: &Self) -> bool {
        self@ == other@
    }
}

impl Eq for AdrRef {}

impl AdrRef {
    /// Clone with the abstract value preserved.
    pub fn copy(&self) -> (r: AdrRef)
        ensures
            r@ == self@,
    {
        match self {
            AdrRef::Number(n) => AdrRef::Number(*n),
            AdrRef::Slug(s) => AdrRef::Slug(string_of(&chars_of(s.as_str()))),
        }
    }

    /// Equality of abstract values.
    pub fn same(&self, other: &AdrRef) -> (r: bool)
        ensures
            r == (self@ == other@),
    {
        match (self, other) {
            (AdrRef::Number(a), AdrRef::Number(b)) => *a == *b,
            (AdrRef::Slug(a), AdrRef::Slug(b)) => eq_chars(&chars_of(a.as_str()), &chars_of(b.as_str())),
            _ => false,
        }
    }

    pub fn as_number(&self) -> (r: Option<u32>)
        ensures
            r == (match self@ {
                RefV::Number(n) => Some(n),
                RefV::Slug(_) => None::<u32>,
            }),
    {
        match self {
            AdrRef::Number(n) => Some(*n),
            AdrRef::Slug(_) => None,
        }
    }

    pub fn as_slug(&self) -> (r: Option<&str>)
        ensures
            match self@ {
                RefV::Slug(s) => r is Some && r->0@ == s,
                RefV::Number(_) => r is None,
            },
    {
        match self {
            AdrRef::Slug(s) => Some(s.as_str()),
            AdrRef::Number(_) => None,
        }
    }

    /// The addressing token a user passes to reach this ADR.
    pub fn addr(&self) -> (r: String)
        ensures
            r@ == ref_addr(self@),
    {
        match self {
            AdrRef::Number(n) => string_of(&dec_v(*n as u64)),
            AdrRef::Slug(s) => string_of(&chars_of(s.as_str())),
        }
    }
}

/// The addressing token: the bare number, or the slug.
pub open spec fn ref_addr(r: RefV) -> Seq<char> {
    match r {
        RefV::Number(n) => dec(n as nat),
        RefV::Slug(s) => s,
    }
}

/// Uniqueness scope a scheme enforces for collision checks.
#[derive(Debug, Clone, Copy, PartialEq, Eq, Structural)]
pub enum Scope {
    Global,
    PerDir,
}

/// How ADR identifiers are formed.
#[derive(Debug, Clone, Copy, PartialEq, Eq, Structural)]
pub enum NamingScheme {
    Sequential,
    Date,
    Uuid,
    PerCategory,
}

impl Default for NamingScheme {
    fn default() -> (r: Self)
        ensures
            r == NamingScheme::Sequential,
    {
        NamingScheme::Sequential
    }
}

// ---------------------------------------------------------------------------
// Unicode helpers from std
// ---------------------------------------------------------------------------

/// What `char::is_alphanumeric` returns.
pub uninterp spec fn is_alnum(c: char) -> bool;

/// What `str::to_lowercase` returns.
pub uninterp spec fn lowercase(s: Seq<char>) -> Seq<char>;

pub open spec fn is_ascii_alnum(c: char) -> bool {
    ('a' <= c && c <= 'z') || ('A' <= c && c <= 'Z') || ('0' <= c && c <= '9')
}

/// std's `char::is_alphanumeric` (Unicode `Alphabetic` or `Numeric`). Its
/// result is named; for an ASCII character it is an ASCII letter or digit.
#[verifier::external_body]
pub fn char_is_alphanumeric(c: char) -> (r: bool)
    ensures
        r == is_alnum(c),
        is_ascii_char(c) ==> (r <==> is_ascii_alnum(c)),
{
    c.is_alphanumeric()
}

/// std's `str::to_lowercase` (Unicode lower-case mapping). Its result is
/// named; for an all-ASCII string it maps exactly the letters `A`-`Z`.
#[verifier::external_body]
pub fn str_to_lowercase(s: &str) -> (r: String)
    ensures
        r@ == lowercase(s@),
        is_ascii_seq(s@) ==> r@ == ascii_lower_seq(s@),
{
    s.to_lowercase()
}

// ---------------------------------------------------------------------------
// Shared helpers (scheme-agnostic)
// ---------------------------------------------------------------------------

/// Non-alphanumeric characters become spaces.
pub open spec fn alnum_or_space(s: Seq<char>) -> Seq<char> {
    s.map_values(|c: char| if is_alnum(c) { c } else { ' ' })
}

/// Kebab-case a title: lowercase, non-alphanumerics split words, words joined by `-`.
pub open spec fn slugify(title: Seq<char>) -> Seq<char> {
    join(words(alnum_or_space(lowercase(title))), "-"@)
}

pub fn slugify_v(title: &str) -> (r: Vec<char>)
    ensures
        r@ == slugify(title@),
{
    let lower = str_to_lowercase(title);
    let lv = chars_of(lower.as_str());
    let mut mapped: Vec<char> = Vec::new();
    let mut i: usize = 0;
    while i < lv.len()
        invariant
            i <= lv.len(),
            mapped@ == alnum_or_space(lv@.take(i as int)),
        decreases lv.len() - i,
    {
        let c = lv[i];
        let m = if char_is_alphanumeric(c) {
            c
        } else {
            ' '
        };
        mapped.push(m);
        assert(alnum_or_space(lv@.take(i + 1)) =~= alnum_or_space(lv@.take(i as int)).push(m));
        i = i + 1;
    }
    assert(lv@.take(lv.len() as int) =~= lv@);
    let ws = words_v(&mapped);
    join_str(&ws, "-")
}

/// The canonical per-category composite id: `category/NNNN`.
pub open spec fn percat_id(category: Seq<char>, number: u32) -> Seq<char> {
    category + seq!['/'] + pad_zero(dec(number as nat), 4)
}

pub fn percat_id_v(category: &Vec<char>, number: u32) -> (r: Vec<char>)
    ensures
        r@ == percat_id(category@, number),
{
    let mut r = category.clone();
    assert(r@ =~= category@);
    r.push('/');
    append_all(&mut r, &pad4_v(number));
    r
}

/// The local number of a `category/NNNN` composite id.
pub open spec fn percat_number(id: Seq<char>) -> Option<u32> {
    leading_digits(after_last(id, seq!['/']))
}

pub fn percat_number_v(id: &Vec<char>) -> (r: Option<u32>)
    ensures
        r == percat_number(id@),
{
    proof {
        reveal_strlit("/");
    }
    assert("/"@ =~= seq!['/']);
    let last = after_last_str(id, "/");
    leading_digits_v(&last)
}

/// The leading number of a path's file name (`0006-foo.md` → 6).
pub open spec fn leading_number(path: Seq<char>) -> Option<u32> {
    match file_name(path) {
        Some(n) => leading_digits(n),
        None => None,
    }
}

pub fn leading_number_v(path: &Vec<char>) -> (r: Option<u32>)
    ensures
        r == leading_number(path@),
{
    match file_name_v(path) {
        Some(n) => leading_digits_v(&n),
        None => None,
    }
}

/// `s` with one `ADR-` or `adr-` prefix removed, if it has one.
pub open spec fn strip_adr_prefix(s: Seq<char>) -> Option<Seq<char>> {
    match strip_prefix(s, "ADR-"@) {
        Some(r) => Some(r),
        None => strip_prefix(s, "adr-"@),
    }
}

pub fn strip_adr_prefix_v(s: &Vec<char>) -> (r: Option<Vec<char>>)
    ensures
        match r {
            Some(t) => strip_adr_prefix(s@) == Some(t@),
            None => strip_adr_prefix(s@) is None,
        },
{
    match strip_prefix_str(s, "ADR-") {
        Some(r) => Some(r),
        None => strip_prefix_str(s, "adr-"),
    }
}

/// A heading-ish line with its `#`s and surrounding whitespace removed.
pub open spec fn heading_text(line: Seq<char>) -> Seq<char> {
    trim(trim_start_char(line, '#'))
}

/// The number from the first `ADR-NNNN` line among `ls` (searching from the front).
pub open spec fn heading_number_in(ls: Seq<Seq<char>>) -> Option<u32>
    decreases ls.len(),
{
    if ls.len() == 0 {
        None
    } else {
        match strip_adr_prefix(heading_text(ls[0])) {
            Some(rest) => leading_digits(rest),
            None => heading_number_in(ls.drop_first()),
        }
    }
}

/// Number from a `# ADR-NNNN: Title` heading: the first line that (after its
/// `#`s) starts with `ADR-`/`adr-` decides.
pub open spec fn heading_number(content: Seq<char>) -> Option<u32> {
    heading_number_in(lines(content))
}

pub fn heading_number_v(content: &Vec<char>) -> (r: Option<u32>)
    ensures
        r == heading_number(content@),
{
    let ls = lines_v(content);
    let ghost lv = views(ls@);
    let mut i: usize = 0;
    assert(lv.skip(0) =~= lv);
    while i < ls.len()
        invariant
            i <= ls.len(),
            lv == views(ls@),
            lv == lines(content@),
            heading_number_in(lv.skip(i as int)) == heading_number_in(lv),
        decreases ls.len() - i,
    {
        proof {
            assert(lv.skip(i as int)[0] == ls@[i as int]@);
            assert(lv.skip(i as int).drop_first() =~= lv.skip(i + 1));
        }
        let t0 = trim_start_char_v(&ls[i], '#');
        let t = trim_v(&t0);
        assert(heading_text(lv.skip(i as int)[0]) == t@);
        match strip_adr_prefix_v(&t) {
            Some(rest) => {
                assert(lv.skip(i as int).len() > 0);
                assert(heading_number_in(lv.skip(i as int)) == leading_digits(rest@));
                return leading_digits_v(&rest);
            },
            None => {},
        }
        i = i + 1;
    }
    assert(lv.skip(i as int).len() == 0);
    None
}

// ---------------------------------------------------------------------------
// Scheme behaviour (spec)
// ---------------------------------------------------------------------------

pub open spec fn scheme_parse(scheme: NamingScheme, path: Seq<char>, content: Seq<char>) -> Option<RefV> {
    match scheme {
        NamingScheme::Sequential => match heading_number(content) {
            Some(n) => Some(RefV::Number(n)),
            None => match leading_number(path) {
                Some(n) => Some(RefV::Number(n)),
                None => None,
            },
        },
        NamingScheme::PerCategory => {
            let n = match heading_number(content) {
                Some(n) => Some(n),
                None => leading_number(path),
            };
            match (n, parent_name(path)) {
                (Some(n), Some(cat)) => Some(RefV::Slug(percat_id(cat, n))),
                _ => None,
            }
        },
        NamingScheme::Date => match stem(path) {
            Some(s) => Some(RefV::Slug(s)),
            None => None,
        },
        NamingScheme::Uuid => match stem(path) {
            Some(s) => Some(RefV::Slug(before_first(s, seq!['-']))),
            None => None,
        },
    }
}

pub open spec fn scheme_parse_ref(scheme: NamingScheme, input: Seq<char>) -> Option<RefV> {
    let t = trim(input);
    if t.len() == 0 {
        None
    } else if scheme == NamingScheme::Sequential {
        let digits = match strip_adr_prefix(t) {
            Some(d) => d,
            None => t,
        };
        match leading_digits(digits) {
            Some(n) => Some(RefV::Number(n)),
            None => None,
        }
    } else if scheme == NamingScheme::PerCategory {
        match rsplit_once(t, seq!['/']) {
            Some((cat, num)) => match leading_digits(num) {
                Some(n) => Some(RefV::Slug(percat_id(cat, n))),
                None => None,
            },
            None => None,
        }
    } else {
        Some(
            RefV::Slug(
                match strip_suffix(t, ".md"@) {
                    Some(s) => s,
                    None => t,
                },
            ),
        )
    }
}

pub open spec fn scheme_ref_matches(scheme: NamingScheme, stored: RefV, query: RefV) -> bool {
    match (scheme, stored, query) {
        (NamingScheme::Uuid, RefV::Slug(s), RefV::Slug(q)) => q.len() > 0 && starts_with(s, q),
        _ => stored == query,
    }
}

pub open spec fn scheme_filename(scheme: NamingScheme, r: RefV, title: Seq<char>) -> Seq<char> {
    match (scheme, r) {
        (NamingScheme::Date, RefV::Slug(s)) => s + ".md"@,
        (NamingScheme::Uuid, RefV::Slug(s)) => s + seq!['-'] + slugify(title) + ".md"@,
        (NamingScheme::PerCategory, RefV::Slug(s)) => {
            let n = match percat_number(s) {
                Some(n) => n,
                None => 0u32,
            };
            pad_zero(dec(n as nat), 4) + seq!['-'] + slugify(title) + ".md"@
        },
        (_, RefV::Number(n)) => pad_zero(dec(n as nat), 4) + seq!['-'] + slugify(title) + ".md"@,
        (_, RefV::Slug(s)) => s + ".md"@,
    }
}

pub open spec fn scheme_display(scheme: NamingScheme, r: RefV) -> Seq<char> {
    match r {
        RefV::Number(n) => "ADR-"@ + pad_zero(dec(n as nat), 4),
        RefV::Slug(s) => if scheme == NamingScheme::Uuid {
            "ADR-"@ + (if s.len() <= 8 {
                s
            } else {
                s.take(8)
            })
        } else {
            s
        },
    }
}

pub open spec fn scheme_heading(scheme: NamingScheme, r: RefV, title: Seq<char>) -> Seq<char> {
    match r {
        RefV::Number(n) => "# ADR-"@ + pad_zero(dec(n as nat), 4) + ": "@ + title,
        RefV::Slug(s) => if scheme == NamingScheme::PerCategory {
            let n = match percat_number(s) {
                Some(n) => n,
                None => 0u32,
            };
            "# ADR-"@ + pad_zero(dec(n as nat), 4) + ": "@ + title
        } else {
            "# "@ + title
        },
    }
}

/// The segment just before the last `/` of `file` (`rsplit('/').nth(1)`).
pub open spec fn dir_segment(file: Seq<char>) -> Option<Seq<char>> {
    let i = rfind(file, seq!['/']);
    if i < 0 {
        None
    } else {
        Some(after_last(file.take(i), seq!['/']))
    }
}

/// The filename stem a link target names (anchor and directories dropped).
pub open spec fn link_stem(target: Seq<char>) -> Seq<char> {
    let file = before_first(target, seq!['#']);
    let name = after_last(file, seq!['/']);
    match strip_suffix(name, ".md"@) {
        Some(s) => s,
        None => name,
    }
}

pub open spec fn scheme_ref_in_link_from(
    scheme: NamingScheme,
    target: Seq<char>,
    source_category: Option<Seq<char>>,
) -> Option<RefV> {
    let file = before_first(target, seq!['#']);
    let stem = link_stem(target);
    if stem.len() == 0 {
        None
    } else if scheme == NamingScheme::Sequential {
        match leading_digits(stem) {
            Some(n) => Some(RefV::Number(n)),
            None => None,
        }
    } else if scheme == NamingScheme::PerCategory {
        let seg = dir_segment(file);
        let category = match seg {
            Some(c) => if c.len() > 0 && c != seq!['.'] && c != seq!['.', '.'] {
                Some(c)
            } else if c == seq!['.'] {
                source_category
            } else {
                None
            },
            None => source_category,
        };
        match (category, leading_digits(stem)) {
            (Some(cat), Some(n)) => Some(RefV::Slug(percat_id(cat, n))),
            _ => None,
        }
    } else {
        Some(RefV::Slug(stem))
    }
}

pub open spec fn scheme_ref_in_link(scheme: NamingScheme, target: Seq<char>) -> Option<RefV> {
    scheme_ref_in_link_from(scheme, target, None)
}

/// Characters that end a bare supersession token.
pub open spec fn not_token_end() -> spec_fn(char) -> bool {
    |c: char| !(c == ']' || c == ' ' || c == ')' || c == ',')
}

/// The bare token of a supersession note (`ADR-0009`, a slug, ...).
pub open spec fn note_token(fragment: Seq<char>) -> Seq<char> {
    let t = trim_start_char(trim(fragment), '[');
    trim(t.take(lead(t, not_token_end())))
}

pub open spec fn scheme_ref_in_note_from(
    scheme: NamingScheme,
    fragment: Seq<char>,
    source_category: Option<Seq<char>>,
) -> Option<RefV> {
    let open = find(fragment, "]("@);
    if open >= 0 {
        let after = fragment.skip(open + 2);
        scheme_ref_in_link_from(scheme, before_first(after, seq![')']), source_category)
    } else {
        let token = note_token(fragment);
        if token.len() == 0 {
            None
        } else {
            scheme_parse_ref(scheme, token)
        }
    }
}

pub open spec fn scheme_ref_in_note(scheme: NamingScheme, fragment: Seq<char>) -> Option<RefV> {
    scheme_ref_in_note_from(scheme, fragment, None)
}

pub open spec fn opt_view(r: Option<AdrRef>) -> Option<RefV> {
    match r {
        Some(x) => Some(x@),
        None => None,
    }
}


/// The largest element (0 for an empty sequence).
pub open spec fn seq_max(s: Seq<u32>) -> u32
    decreases s.len(),
{
    if s.len() == 0 {
        0
    } else {
        let m = seq_max(s.drop_last());
        if s.last() > m {
            s.last()
        } else {
            m
        }
    }
}

pub fn max_of(s: &[u32]) -> (r: u32)
    ensures
        r == seq_max(s@),
{
    let mut m: u32 = 0;
    let mut i: usize = 0;
    while i < s.len()
        invariant
            i <= s.len(),
            m == seq_max(s@.take(i as int)),
        decreases s.len() - i,
    {
        assert(s@.take(i + 1).drop_last() =~= s@.take(i as int));
        if s[i] > m {
            m = s[i];
        }
        i = i + 1;
    }
    assert(s@.take(s.len() as int) =~= s@);
    m
}

pub proof fn lemma_seq_max_member(s: Seq<u32>)
    ensures
        s.len() > 0 ==> s.contains(seq_max(s)),
        s.len() == 0 ==> seq_max(s) == 0,
    decreases s.len(),
{
    if s.len() > 0 {
        lemma_seq_max_member(s.drop_last());
        if s.last() <= seq_max(s.drop_last()) && s.len() > 1 {
            let k = choose|k: int| 0 <= k < s.drop_last().len() && s.drop_last()[k] == seq_max(s.drop_last());
            assert(s[k] == seq_max(s));
        } else {
            assert(s[s.len() - 1] == seq_max(s));
        }
    }
}

/// Every element is at most the largest one.
pub proof fn lemma_seq_max_bound(s: Seq<u32>)
    ensures
        forall|i: int| 0 <= i < s.len() ==> s[i] <= seq_max(s),
    decreases s.len(),
{
    if s.len() > 0 {
        lemma_seq_max_bound(s.drop_last());
        assert forall|i: int| 0 <= i < s.len() implies s[i] <= seq_max(s) by {
            if i < s.len() - 1 {
                assert(s[i] == s.drop_last()[i]);
            }
        }
    }
}

/// The largest `Number` among refs (0 when there is none).
pub open spec fn refs_max(rs: Seq<RefV>) -> u32
    decreases rs.len(),
{
    if rs.len() == 0 {
        0
    } else {
        let m = refs_max(rs.drop_last());
        match rs.last() {
            RefV::Number(n) => if n > m { n } else { m },
            RefV::Slug(_) => m,
        }
    }
}

pub open spec fn refs_view(rs: Seq<AdrRef>) -> Seq<RefV> {
    rs.map_values(|r: AdrRef| r@)
}

/// Every number among the refs is at most their largest.
pub proof fn lemma_refs_max_bound(rs: Seq<RefV>)
    ensures
        forall|i: int| 0 <= i < rs.len() ==> (#[trigger] rs[i] matches RefV::Number(n) ==> n <= refs_max(rs)),
    decreases rs.len(),
{
    if rs.len() > 0 {
        lemma_refs_max_bound(rs.drop_last());
        assert forall|i: int| 0 <= i < rs.len() implies (#[trigger] rs[i] matches RefV::Number(n) ==> n <= refs_max(rs)) by {
            if i < rs.len() - 1 {
                assert(rs[i] == rs.drop_last()[i]);
            }
        }
    }
}

/// Some ref is the slug `s`.
pub open spec fn slug_taken(rs: Seq<RefV>, s: Seq<char>) -> bool {
    exists|j: int| 0 <= j < rs.len() && rs[j] == RefV::Slug(s)
}

/// The `i`-th alternative to a taken slug: `<base>-<i>`.
pub open spec fn dedup_candidate(base: Seq<char>, i: nat) -> Seq<char> {
    base + "-"@ + dec(i)
}

/// `s` is `base` made unique among `rs`: `base` itself when free, else the
/// first free `<base>-<i>` for `i` from 2.
pub open spec fn is_dedup_of(s: Seq<char>, base: Seq<char>, rs: Seq<RefV>) -> bool {
    &&& !slug_taken(rs, s)
    &&& (s == base || (slug_taken(rs, base) && exists|k: nat|
        k >= 2 && s == dedup_candidate(base, k) && (forall|i: nat| 2 <= i < k ==> #[trigger] slug_taken(rs, dedup_candidate(base, i)))))
}

/// `YYYYMMDD` as `{}{:02}{:02}` prints it (a negative year keeps its sign).
pub open spec fn ymd(d: crate::template::CalDate) -> Seq<char> {
    let y = if d.year < 0 { "-"@ + dec((-d.year) as nat) } else { dec(d.year as nat) };
    y + pad_zero(dec(d.month as nat), 2) + pad_zero(dec(d.day as nat), 2)
}

/// Decimal spellings are distinct for distinct numbers.
pub proof fn lemma_dec_injective(a: nat, b: nat)
    requires
        dec(a) == dec(b),
    ensures
        a == b,
    decreases a,
{
    crate::text::lemma_dec_digits(a / 10);
    crate::text::lemma_dec_digits(b / 10);
    let ca = crate::text::digit_char(a % 10);
    let cb = crate::text::digit_char(b % 10);
    assert(ca as u32 == 48 + a % 10);
    assert(cb as u32 == 48 + b % 10);
    if a >= 10 && b >= 10 {
        assert(dec(a) == dec(a / 10).push(ca));
        assert(dec(b) == dec(b / 10).push(cb));
        assert(dec(a).drop_last() =~= dec(a / 10));
        assert(dec(b).drop_last() =~= dec(b / 10));
        assert(ca == dec(a).last());
        assert(cb == dec(b).last());
        lemma_dec_injective(a / 10, b / 10);
        assert(a % 10 == b % 10);
    } else if a < 10 && b < 10 {
        assert(dec(a) == seq![ca]);
        assert(dec(b) == seq![cb]);
        assert(dec(a)[0] == ca);
        assert(dec(b)[0] == cb);
    } else if a < 10 {
        assert(dec(a) == seq![ca]);
        assert(dec(b) == dec(b / 10).push(cb));
        assert(dec(a).len() != dec(b).len());
    } else {
        assert(dec(b) == seq![cb]);
        assert(dec(a) == dec(a / 10).push(ca));
        assert(dec(a).len() != dec(b).len());
    }
}

/// Distinct suffixes give distinct candidates.
proof fn lemma_candidate_injective(base: Seq<char>, i: nat, t: nat)
    requires
        dedup_candidate(base, i) == dedup_candidate(base, t),
    ensures
        i == t,
{
    let p = base + "-"@;
    assert(dedup_candidate(base, i).skip(p.len() as int) =~= dec(i));
    assert(dedup_candidate(base, t).skip(p.len() as int) =~= dec(t));
    lemma_dec_injective(i, t);
}

/// Whether some ref is the slug `s`.
fn is_slug_taken(rs: &[AdrRef], s: &Vec<char>) -> (r: bool)
    ensures
        r == slug_taken(refs_view(rs@), s@),
{
    let mut j: usize = 0;
    while j < rs.len()
        invariant
            j <= rs.len(),
            forall|k: int| 0 <= k < j ==> refs_view(rs@)[k] != RefV::Slug(s@),
        decreases rs.len() - j,
    {
        match &rs[j] {
            AdrRef::Slug(x) => {
                if eq_chars(&chars_of(x.as_str()), s) {
                    assert(refs_view(rs@)[j as int] == RefV::Slug(s@));
                    return true;
                }
            },
            AdrRef::Number(_) => {},
        }
        assert(refs_view(rs@)[j as int] == rs@[j as int]@);
        j = j + 1;
    }
    false
}

/// Make `base` unique among the refs' slugs by appending `-2`, `-3`, ...
pub fn dedup(base: Vec<char>, existing: &[AdrRef]) -> (r: Vec<char>)
    requires
        existing@.len() <= isize::MAX,
    ensures
        is_dedup_of(r@, base@, refs_view(existing@)),
{
    let ghost rs = refs_view(existing@);
    if !is_slug_taken(existing, &base) {
        return base;
    }
    let n = existing.len();
    let mut i: u64 = 2;
    let ghost mut used: Set<int> = Set::empty();
    loop
        invariant
            2 <= i <= n + 2,
            n == existing@.len(),
            n <= isize::MAX,
            rs == refs_view(existing@),
            slug_taken(rs, base@),
            forall|t: nat| 2 <= t < i ==> #[trigger] slug_taken(rs, dedup_candidate(base@, t)),
            used.finite(),
            used.len() == i - 2,
            used.subset_of(vstd::set_lib::set_int_range(0, n as int)),
            forall|j: int| #[trigger] used.contains(j) ==> exists|t: nat|
                2 <= t < i && rs[j] == RefV::Slug(#[trigger] dedup_candidate(base@, t)),
        decreases n + 2 - i,
    {
        let mut cand = base.clone();
        append_str(&mut cand, "-");
        append_all(&mut cand, &dec_v(i));
        assert(cand@ == dedup_candidate(base@, i as nat));
        if !is_slug_taken(existing, &cand) {
            assert(is_dedup_of(cand@, base@, rs));
            return cand;
        }
        proof {
            assert(rs.len() == n);
            let j = choose|j: int| 0 <= j < rs.len() && rs[j] == RefV::Slug(cand@);
            if used.contains(j) {
                let t = choose|t: nat| 2 <= t < i && rs[j] == RefV::Slug(dedup_candidate(base@, t));
                lemma_candidate_injective(base@, i as nat, t);
            }
            let used2 = used.insert(j);
            assert forall|k: int| #[trigger] used2.contains(k) implies exists|t: nat|
                2 <= t < i + 1 && rs[k] == RefV::Slug(#[trigger] dedup_candidate(base@, t)) by {
                if k == j {
                    assert(rs[k] == RefV::Slug(dedup_candidate(base@, i as nat)));
                } else {
                    let t = choose|t: nat| 2 <= t < i && rs[k] == RefV::Slug(dedup_candidate(base@, t));
                    assert(rs[k] == RefV::Slug(dedup_candidate(base@, t)));
                }
            }
            vstd::set_lib::lemma_int_range(0, n as int);
            assert(used2.subset_of(vstd::set_lib::set_int_range(0, n as int)));
            vstd::set_lib::lemma_len_subset(used2, vstd::set_lib::set_int_range(0, n as int));
            used = used2;
        }
        i = i + 1;
    }
}

/// The largest `Number` among refs.
pub fn refs_max_v(rs: &[AdrRef]) -> (r: u32)
    ensures
        r == refs_max(refs_view(rs@)),
{
    let mut m: u32 = 0;
    let mut i: usize = 0;
    while i < rs.len()
        invariant
            i <= rs.len(),
            m == refs_max(refs_view(rs@).take(i as int)),
        decreases rs.len() - i,
    {
        assert(refs_view(rs@).take(i + 1).drop_last() =~= refs_view(rs@).take(i as int));
        assert(refs_view(rs@).take(i + 1).last() == rs@[i as int]@);
        match &rs[i] {
            AdrRef::Number(n) => {
                if *n > m {
                    m = *n;
                }
            },
            AdrRef::Slug(_) => {},
        }
        i = i + 1;
    }
    assert(refs_view(rs@).take(rs.len() as int) =~= refs_view(rs@));
    m
}

/// `YYYYMMDD` of a date.
pub fn ymd_v(d: crate::template::CalDate) -> (r: Vec<char>)
    ensures
        r@ == ymd(d),
{
    let mut v: Vec<char> = Vec::new();
    if d.year < 0 {
        v.push('-');
        let y: u64 = (0i64 - (d.year as i64)) as u64;
        append_all(&mut v, &dec_v(y));
        assert(v@ =~= "-"@ + dec((-d.year) as nat)) by {
            reveal_strlit("-");
        }
    } else {
        append_all(&mut v, &dec_v(d.year as u64));
    }
    append_all(&mut v, &crate::text::pad_zero_v(&dec_v(d.month as u64), 2));
    append_all(&mut v, &crate::text::pad_zero_v(&dec_v(d.day as u64), 2));
    v
}

fn slug_of(v: &Vec<char>) -> (r: AdrRef)
    ensures
        r@ == RefV::Slug(v@),
{
    AdrRef::Slug(string_of(v))
}

impl NamingScheme {
    /// Uniqueness scope for collision detection.
    pub fn scope(&self) -> (r: Scope)
        ensures
            r == (if *self == NamingScheme::PerCategory {
                Scope::PerDir
            } else {
                Scope::Global
            }),
    {
        match self {
            NamingScheme::PerCategory => Scope::PerDir,
            _ => Scope::Global,
        }
    }

    /// `true` when the identity is a single global sequential number.
    pub fn is_numeric(&self) -> (r: bool)
        ensures
            r == (*self == NamingScheme::Sequential),
    {
        matches!(self, NamingScheme::Sequential)
    }

    /// A fresh identity for a new ADR among the refs already in its scope:
    /// sequential numbering takes one past the largest number; the date
    /// scheme takes `YYYYMMDD-<slug>` made unique with a `-2`, `-3`, ...
    /// suffix; the uuid scheme takes the fresh uuid's 32 hex digits.
    pub fn assign(&self, existing: &[AdrRef], title: &str, today: crate::template::CalDate, fresh_uuid: u128) -> (r: AdrRef)
        requires
            refs_max(refs_view(existing@)) < u32::MAX,
            existing@.len() <= isize::MAX,
        ensures
            (*self == NamingScheme::Sequential || *self == NamingScheme::PerCategory) ==> r@ == RefV::Number(
                (refs_max(refs_view(existing@)) + 1) as u32,
            ),
            *self == NamingScheme::Date ==> (r@ matches RefV::Slug(s) && is_dedup_of(
                s,
                ymd(today) + "-"@ + slugify(title@),
                refs_view(existing@),
            )),
            *self == NamingScheme::Uuid ==> r@ == RefV::Slug(crate::adr::uuid_simple(fresh_uuid as nat)),
            *self != NamingScheme::Uuid ==> !refs_view(existing@).contains(r@),
    {
        proof {
            lemma_refs_max_bound(refs_view(existing@));
        }
        match self {
            NamingScheme::Sequential | NamingScheme::PerCategory => AdrRef::Number(refs_max_v(existing) + 1),
            NamingScheme::Date => {
                let mut base = ymd_v(today);
                append_str(&mut base, "-");
                append_all(&mut base, &slugify_v(title));
                slug_of(&dedup(base, existing))
            },
            NamingScheme::Uuid => slug_of(&crate::adr::hex_digits_v(fresh_uuid, 32)),
        }
    }

    /// The per-category composite identity `category/NNNN` for a fresh ADR in
    /// `category`, one past the largest number already used there.
    pub fn assign_in_category(&self, category: &str, existing_numbers: &[u32]) -> (r: AdrRef)
        requires
            forall|i: int| 0 <= i < existing_numbers@.len() ==> existing_numbers@[i] < u32::MAX,
        ensures
            r@ == RefV::Slug(percat_id(category@, (seq_max(existing_numbers@) + 1) as u32)),
    {
        let m = max_of(existing_numbers);
        proof {
            lemma_seq_max_member(existing_numbers@);
        }
        let next = m + 1;
        slug_of(&percat_id_v(&chars_of(category), next))
    }

    /// Parse an ADR's identity from its file path and content.
    pub fn parse(&self, path: &str, content: &str) -> (r: Option<AdrRef>)
        ensures
            opt_view(r) == scheme_parse(*self, path@, content@),
    {
        let pv = chars_of(path);
        match self {
            NamingScheme::Sequential => {
                match heading_number_v(&chars_of(content)) {
                    Some(n) => Some(AdrRef::Number(n)),
                    None => match leading_number_v(&pv) {
                        Some(n) => Some(AdrRef::Number(n)),
                        None => None,
                    },
                }
            },
            NamingScheme::PerCategory => {
                let n = match heading_number_v(&chars_of(content)) {
                    Some(n) => Some(n),
                    None => leading_number_v(&pv),
                };
                match (n, parent_name_v(&pv)) {
                    (Some(n), Some(cat)) => Some(slug_of(&percat_id_v(&cat, n))),
                    _ => None,
                }
            },
            NamingScheme::Date => match stem_v(&pv) {
                Some(s) => Some(slug_of(&s)),
                None => None,
            },
            NamingScheme::Uuid => match stem_v(&pv) {
                Some(s) => {
                    proof {
                        reveal_strlit("-");
                    }
                    assert("-"@ =~= seq!['-']);
                    Some(slug_of(&before_first_str(&s, "-")))
                },
                None => None,
            },
        }
    }

    /// Parse a user-supplied identifier into a ref under this scheme.
    pub fn parse_ref(&self, input: &str) -> (r: Option<AdrRef>)
        ensures
            opt_view(r) == scheme_parse_ref(*self, input@),
    {
        self.parse_ref_v(&chars_of(input))
    }

    pub fn parse_ref_v(&self, input: &Vec<char>) -> (r: Option<AdrRef>)
        ensures
            opt_view(r) == scheme_parse_ref(*self, input@),
    {
        let t = trim_v(input);
        if t.len() == 0 {
            return None;
        }
        if self.is_numeric() {
            let digits = match strip_adr_prefix_v(&t) {
                Some(d) => d,
                None => t,
            };
            match leading_digits_v(&digits) {
                Some(n) => Some(AdrRef::Number(n)),
                None => None,
            }
        } else if matches!(self, NamingScheme::PerCategory) {
            proof {
                reveal_strlit("/");
            }
            assert("/"@ =~= seq!['/']);
            match rsplit_once_str(&t, "/") {
                Some((cat, num)) => match leading_digits_v(&num) {
                    Some(n) => Some(slug_of(&percat_id_v(&cat, n))),
                    None => None,
                },
                None => None,
            }
        } else {
            match strip_suffix_str(&t, ".md") {
                Some(s) => Some(slug_of(&s)),
                None => Some(slug_of(&t)),
            }
        }
    }

    /// Whether a stored ref satisfies a query ref: exact, except that under
    /// the uuid scheme a non-empty leading prefix of the uuid matches.
    pub fn ref_matches(&self, stored: &AdrRef, query: &AdrRef) -> (r: bool)
        ensures
            r == scheme_ref_matches(*self, stored@, query@),
    {
        match (self, stored, query) {
            (NamingScheme::Uuid, AdrRef::Slug(s), AdrRef::Slug(q)) => {
                let qv = chars_of(q.as_str());
                qv.len() > 0 && starts_with_v(&chars_of(s.as_str()), &qv)
            },
            _ => stored.same(query),
        }
    }

    /// The on-disk filename for an ADR with this ref and title.
    pub fn filename(&self, r: &AdrRef, title: &str) -> (f: String)
        ensures
            f@ == scheme_filename(*self, r@, title@),
    {
        string_of(&self.filename_v(r, title))
    }

    pub fn filename_v(&self, r: &AdrRef, title: &str) -> (f: Vec<char>)
        ensures
            f@ == scheme_filename(*self, r@, title@),
    {
        match (self, r) {
            (NamingScheme::Date, AdrRef::Slug(s)) => {
                let mut f = chars_of(s.as_str());
                append_str(&mut f, ".md");
                f
            },
            (NamingScheme::Uuid, AdrRef::Slug(s)) => {
                let mut f = chars_of(s.as_str());
                f.push('-');
                append_all(&mut f, &slugify_v(title));
                append_str(&mut f, ".md");
                f
            },
            (NamingScheme::PerCategory, AdrRef::Slug(s)) => {
                let n = match percat_number_v(&chars_of(s.as_str())) {
                    Some(n) => n,
                    None => 0,
                };
                let mut f = pad4_v(n);
                f.push('-');
                append_all(&mut f, &slugify_v(title));
                append_str(&mut f, ".md");
                f
            },
            (_, AdrRef::Number(n)) => {
                let mut f = pad4_v(*n);
                f.push('-');
                append_all(&mut f, &slugify_v(title));
                append_str(&mut f, ".md");
                f
            },
            (_, AdrRef::Slug(s)) => {
                let mut f = chars_of(s.as_str());
                append_str(&mut f, ".md");
                f
            },
        }
    }

    /// How the ref is shown to humans.
    pub fn display(&self, r: &AdrRef) -> (d: String)
        ensures
            d@ == scheme_display(*self, r@),
    {
        string_of(&self.display_v(r))
    }

    pub fn display_v(&self, r: &AdrRef) -> (d: Vec<char>)
        ensures
            d@ == scheme_display(*self, r@),
    {
        match r {
            AdrRef::Number(n) => {
                let mut d = chars_of("ADR-");
                append_all(&mut d, &pad4_v(*n));
                d
            },
            AdrRef::Slug(s) => {
                let sv = chars_of(s.as_str());
                if matches!(self, NamingScheme::Uuid) {
                    let mut d = chars_of("ADR-");
                    if sv.len() <= 8 {
                        append_all(&mut d, &sv);
                    } else {
                        append_all(&mut d, &slice_of(&sv, 0, 8));
                    }
                    d
                } else {
                    sv
                }
            },
        }
    }

    /// The H1 heading line for an ADR.
    pub fn heading(&self, r: &AdrRef, title: &str) -> (h: String)
        ensures
            h@ == scheme_heading(*self, r@, title@),
    {
        string_of(&self.heading_v(r, title))
    }

    pub fn heading_v(&self, r: &AdrRef, title: &str) -> (h: Vec<char>)
        ensures
            h@ == scheme_heading(*self, r@, title@),
    {
        match r {
            AdrRef::Number(n) => {
                let mut h = chars_of("# ADR-");
                append_all(&mut h, &pad4_v(*n));
                append_str(&mut h, ": ");
                append_str(&mut h, title);
                h
            },
            AdrRef::Slug(s) => {
                if matches!(self, NamingScheme::PerCategory) {
                    let n = match percat_number_v(&chars_of(s.as_str())) {
                        Some(n) => n,
                        None => 0,
                    };
                    let mut h = chars_of("# ADR-");
                    append_all(&mut h, &pad4_v(n));
                    append_str(&mut h, ": ");
                    append_str(&mut h, title);
                    h
                } else {
                    let mut h = chars_of("# ");
                    append_str(&mut h, title);
                    h
                }
            },
        }
    }

    /// The label used inside a cross-ADR markdown link.
    pub fn link_label(&self, r: &AdrRef) -> (d: String)
        ensures
            d@ == scheme_display(*self, r@),
    {
        self.display(r)
    }

    /// The ADR ref a relative link target points at (filename-based).
    pub fn ref_in_link(&self, target: &str) -> (r: Option<AdrRef>)
        ensures
            opt_view(r) == scheme_ref_in_link(*self, target@),
    {
        self.ref_in_link_v(&chars_of(target), None)
    }

    /// Like [`ref_in_link`], but a per-category link with no category segment
    /// (or a `./` one) resolves in `source_category`.
    pub fn ref_in_link_from(&self, target: &str, source_category: Option<&str>) -> (r: Option<AdrRef>)
        ensures
            opt_view(r) == scheme_ref_in_link_from(
                *self,
                target@,
                match source_category {
                    Some(c) => Some(c@),
                    None => None,
                },
            ),
    {
        let sc = match source_category {
            Some(c) => Some(chars_of(c)),
            None => None,
        };
        self.ref_in_link_v(&chars_of(target), sc)
    }

    pub fn ref_in_link_v(&self, target: &Vec<char>, source_category: Option<Vec<char>>) -> (r: Option<AdrRef>)
        ensures
            opt_view(r) == scheme_ref_in_link_from(
                *self,
                target@,
                match source_category {
                    Some(c) => Some(c@),
                    None => None,
                },
            ),
    {
        proof {
            reveal_strlit("/");
            reveal_strlit("#");
        }
        assert("/"@ =~= seq!['/']);
        assert("#"@ =~= seq!['#']);
        let file = before_first_str(target, "#");
        let name = after_last_str(&file, "/");
        let stem = match strip_suffix_str(&name, ".md") {
            Some(s) => s,
            None => name,
        };
        assert(stem@ == link_stem(target@));
        if stem.len() == 0 {
            return None;
        }
        if self.is_numeric() {
            match leading_digits_v(&stem) {
                Some(n) => Some(AdrRef::Number(n)),
                None => None,
            }
        } else if matches!(self, NamingScheme::PerCategory) {
            let seg = match rfind_str(&file, "/") {
                Some(i) => Some(after_last_str(&slice_of(&file, 0, i), "/")),
                None => None,
            };
            assert(opt_chars(seg) == dir_segment(file@));
            let category = match seg {
                Some(c) => {
                    let is_dot = c.len() == 1 && c[0] == '.';
                    let is_dotdot = c.len() == 2 && c[0] == '.' && c[1] == '.';
                    proof {
                        if c@.len() == 1 {
                            assert(is_dot == (c@ == seq!['.'])) by {
                                if c@ == seq!['.'] {
                                    assert(c@[0] == '.');
                                }
                                if is_dot {
                                    assert(c@ =~= seq!['.']);
                                }
                            }
                        } else {
                            assert(c@ != seq!['.']);
                        }
                        if c@.len() == 2 {
                            assert(is_dotdot == (c@ == seq!['.', '.'])) by {
                                if c@ == seq!['.', '.'] {
                                    assert(c@[0] == '.' && c@[1] == '.');
                                }
                                if is_dotdot {
                                    assert(c@ =~= seq!['.', '.']);
                                }
                            }
                        } else {
                            assert(c@ != seq!['.', '.']);
                        }
                    }
                    if c.len() > 0 && !is_dot && !is_dotdot {
                        Some(c)
                    } else if is_dot {
                        source_category
                    } else {
                        None
                    }
                },
                None => source_category,
            };
            match (category, leading_digits_v(&stem)) {
                (Some(cat), Some(n)) => Some(slug_of(&percat_id_v(&cat, n))),
                _ => None,
            }
        } else {
            Some(slug_of(&stem))
        }
    }

    /// Resolve a supersession reference from the fragment after
    /// `Superseded by` / `Supersedes`: a `[label](target)` link or a bare token.
    pub fn ref_in_note(&self, fragment: &str) -> (r: Option<AdrRef>)
        ensures
            opt_view(r) == scheme_ref_in_note(*self, fragment@),
    {
        self.ref_in_note_v(&chars_of(fragment), None)
    }

    pub fn ref_in_note_from(&self, fragment: &str, source_category: Option<&str>) -> (r: Option<AdrRef>)
        ensures
            opt_view(r) == scheme_ref_in_note_from(
                *self,
                fragment@,
                match source_category {
                    Some(c) => Some(c@),
                    None => None,
                },
            ),
    {
        let sc = match source_category {
            Some(c) => Some(chars_of(c)),
            None => None,
        };
        self.ref_in_note_v(&chars_of(fragment), sc)
    }

    pub fn ref_in_note_v(&self, fragment: &Vec<char>, source_category: Option<Vec<char>>) -> (r: Option<AdrRef>)
        ensures
            opt_view(r) == scheme_ref_in_note_from(
                *self,
                fragment@,
                match source_category {
                    Some(c) => Some(c@),
                    None => None,
                },
            ),
    {
        proof {
            reveal_strlit(")");
        }
        assert(")"@ =~= seq![')']);
        match find_str(fragment, "](") {
            Some(open) => {
                assert(occurs_at(fragment@, "]("@, open as int));
                proof {
                    reveal_strlit("](");
                }
                assert(open + 2 <= fragment.len());
                let after = slice_of(fragment, open + 2, fragment.len());
                let target = before_first_str(&after, ")");
                self.ref_in_link_v(&target, source_category)
            },
            None => {
                let t0 = trim_v(fragment);
                let t = trim_start_char_v(&t0, '[');
                let mut k: usize = 0;
                while k < t.len() && !(t[k] == ']' || t[k] == ' ' || t[k] == ')' || t[k] == ',')
                    invariant
                        k <= t.len(),
                        forall|j: int| 0 <= j < k ==> (not_token_end())(#[trigger] t@[j]),
                    decreases t.len() - k,
                {
                    k = k + 1;
                }
                proof {
                    lemma_lead(t@, not_token_end(), k as int);
                }
                let token = trim_v(&slice_of(&t, 0, k));
                assert(token@ == note_token(fragment@));
                if token.len() == 0 {
                    None
                } else {
                    self.parse_ref_v(&token)
                }
            },
        }
    }
}

pub open spec fn opt_chars(o: Option<Vec<char>>) -> Option<Seq<char>> {
    match o {
        Some(v) => Some(v@),
        None => None,
    }
}

// ---------------------------------------------------------------------------
// Scheme names
// ---------------------------------------------------------------------------

/// The snake_case name of a [`NamingScheme`].
pub open spec fn naming_name(x: NamingScheme) -> Seq<char> {
    match x {
        NamingScheme::Sequential => "sequential"@,
        NamingScheme::Date => "date"@,
        NamingScheme::Uuid => "uuid"@,
        NamingScheme::PerCategory => "per_category"@,
    }
}

/// The [`NamingScheme`] a name selects, ignoring ASCII case.
pub open spec fn naming_named(s: Seq<char>) -> Option<NamingScheme> {
    if eq_ignore_ascii_case(s, "sequential"@) {
        Some(NamingScheme::Sequential)
    } else if eq_ignore_ascii_case(s, "date"@) {
        Some(NamingScheme::Date)
    } else if eq_ignore_ascii_case(s, "uuid"@) {
        Some(NamingScheme::Uuid)
    } else if eq_ignore_ascii_case(s, "per_category"@) {
        Some(NamingScheme::PerCategory)
    } else {
        None
    }
}

impl NamingScheme {
    /// The snake_case name.
    pub fn to_string(&self) -> (s: String)
        ensures
            s@ == naming_name(*self),
    {
        match self {
            NamingScheme::Sequential => string_of(&chars_of("sequential")),
            NamingScheme::Date => string_of(&chars_of("date")),
            NamingScheme::Uuid => string_of(&chars_of("uuid")),
            NamingScheme::PerCategory => string_of(&chars_of("per_category")),
        }
    }

    /// Parse a name, ignoring ASCII case.
    pub fn parse_str(s: &str) -> (r: Option<NamingScheme>)
        ensures
            r == naming_named(s@),
    {
        let v = chars_of(s);
        if eq_ignore_case_chars(&v, &chars_of("sequential")) {
            Some(NamingScheme::Sequential)
        } else if eq_ignore_case_chars(&v, &chars_of("date")) {
            Some(NamingScheme::Date)
        } else if eq_ignore_case_chars(&v, &chars_of("uuid")) {
            Some(NamingScheme::Uuid)
        } else if eq_ignore_case_chars(&v, &chars_of("per_category")) {
            Some(NamingScheme::PerCategory)
        } else {
            None
        }
    }
}



// ---------------------------------------------------------------------------
// Laws
// ---------------------------------------------------------------------------

/// A ref's addressing token parses back to the ref under its scheme: a
/// number under the sequential scheme; a per-category id `category/NNNN`
/// under the per-category scheme; a slug (no surrounding whitespace, no `.md`
/// ending) under the date and uuid schemes.
pub proof fn law_addr_round_trips(scheme: NamingScheme, r: RefV)
    requires
        scheme == NamingScheme::Sequential ==> r is Number,
        scheme == NamingScheme::PerCategory ==> exists|c: Seq<char>, n: u32|
            r == RefV::Slug(percat_id(c, n)) && trim(percat_id(c, n)) == percat_id(c, n),
        (scheme == NamingScheme::Date || scheme == NamingScheme::Uuid) ==> (r matches RefV::Slug(s) && s.len() > 0
            && trim(s) == s && !crate::text::ends_with(s, ".md"@)),
    ensures
        scheme_parse_ref(scheme, ref_addr(r)) == Some(r),
{
    match scheme {
        NamingScheme::Sequential => {
            let n = r->Number_0;
            let t = dec(n as nat);
            crate::text::lemma_dec_digits(n as nat);
            assert(crate::text::is_digit(t[0]));
            assert(crate::text::is_digit(t.last()));
            crate::text::lemma_trim_id(t);
            reveal_strlit("ADR-");
            reveal_strlit("adr-");
            if t.len() >= 4 {
                assert(t.take(4)[0] == t[0]);
            }
            assert(strip_adr_prefix(t) is None);
            crate::text::lemma_parse_dec(n);
        },
        NamingScheme::PerCategory => {
            let (c, n) = choose|c: Seq<char>, n: u32|
                r == RefV::Slug(percat_id(c, n)) && trim(percat_id(c, n)) == percat_id(c, n);
            let id = percat_id(c, n);
            let num = pad_zero(dec(n as nat), 4);
            crate::text::lemma_dec_digits(n as nat);
            crate::text::lemma_pad_digits(dec(n as nat), 4);
            let slash = seq!['/'];
            let k = c.len() as int;
            assert(id.subrange(k, k + 1) =~= slash);
            assert(occurs_at(id, slash, k));
            assert forall|j: int| k < j implies !#[trigger] occurs_at(id, slash, j) by {
                if occurs_at(id, slash, j) {
                    assert(id.subrange(j, j + 1)[0] == id[j]);
                    assert(id[j] == num[j - k - 1]);
                }
            }
            crate::text::lemma_rfind_is(id, slash, k);
            assert(id.take(k) =~= c);
            assert(id.skip(k + 1) =~= num);
            crate::text::lemma_parse_padded(n, 4);
        },
        _ => {
            reveal_strlit(".md");
        },
    }
}
} // verus!
