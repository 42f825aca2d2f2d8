//! Character-sequence primitives shared by every parser and rewriter in the
//! crate. Each exec function works on `Vec<char>` and is specified over
//! `Seq<char>` by the spec functions defined next to it.
use vstd::prelude::*;

verus! {

// ---------------------------------------------------------------------------
// Conversions between `str`/`String` and `Vec<char>`
// ---------------------------------------------------------------------------

/// Push one character onto a `String` (std's `String::push`).
#[verifier::external_body]
pub fn push_char(s: &mut String, c: char)
    ensures
        final(s)@ == old(s)@.push(c),
{
    s.push(c);
}

/// The characters of `s`, in order.
pub fn chars_of(s: &str) -> (v: Vec<char>)
    ensures
        v@ == s@,
{
    let mut v: Vec<char> = Vec::new();
    for c in it: s.chars()
        invariant
            v@ == it.seq().take(it.index() as int),
    {
        v.push(c);
    }
    v
}

/// A `String` holding exactly the characters of `v`.
pub fn string_of(v: &Vec<char>) -> (s: String)
    ensures
        s@ == v@,
{
    let mut s = String::new();
    let mut i: usize = 0;
    while i < v.len()
        invariant
            i <= v.len(),
            s@ == v@.take(i as int),
        decreases v.len() - i,
    {
        push_char(&mut s, v[i]);
        assert(v@.take(i + 1) =~= v@.take(i as int).push(v@[i as int]));
        i = i + 1;
    }
    assert(v@.take(v.len() as int) =~= v@);
    s
}

/// The sub-vector `v[lo..hi]`.
pub fn slice_of(v: &Vec<char>, lo: usize, hi: usize) -> (r: Vec<char>)
    requires
        lo <= hi <= v.len(),
    ensures
        r@ == v@.subrange(lo as int, hi as int),
{
    let mut r: Vec<char> = Vec::new();
    let mut i = lo;
    while i < hi
        invariant
            lo <= i <= hi <= v.len(),
            r@ == v@.subrange(lo as int, i as int),
        decreases hi - i,
    {
        r.push(v[i]);
        assert(v@.subrange(lo as int, i + 1) =~= v@.subrange(lo as int, i as int).push(v@[i as int]));
        i = i + 1;
    }
    r
}

/// Append all of `b` to `a`.
pub fn append_all(a: &mut Vec<char>, b: &Vec<char>)
    ensures
        final(a)@ == old(a)@ + b@,
{
    let mut i: usize = 0;
    while i < b.len()
        invariant
            i <= b.len(),
            a@ == old(a)@ + b@.take(i as int),
        decreases b.len() - i,
    {
        a.push(b[i]);
        assert(b@.take(i + 1) =~= b@.take(i as int).push(b@[i as int]));
        i = i + 1;
    }
    assert(b@.take(b.len() as int) =~= b@);
}

/// `a ++ b` as a fresh vector.
pub fn concat(a: &Vec<char>, b: &Vec<char>) -> (r: Vec<char>)
    ensures
        r@ == a@ + b@,
{
    let mut r = a.clone();
    assert(r@ == a@);
    append_all(&mut r, b);
    r
}

/// The characters of a string literal or other `str`, appended to `a`.
pub fn append_str(a: &mut Vec<char>, s: &str)
    ensures
        final(a)@ == old(a)@ + s@,
{
    let v = chars_of(s);
    append_all(a, &v);
}

/// Equality of two character vectors.
pub fn eq_chars(a: &Vec<char>, b: &Vec<char>) -> (r: bool)
    ensures
        r == (a@ == b@),
{
    if a.len() != b.len() {
        return false;
    }
    let mut i: usize = 0;
    while i < a.len()
        invariant
            i <= a.len() == b.len(),
            forall|j: int| 0 <= j < i ==> a@[j] == b@[j],
        decreases a.len() - i,
    {
        if a[i] != b[i] {
            return false;
        }
        i = i + 1;
    }
    assert(a@ =~= b@);
    true
}

// ---------------------------------------------------------------------------
// Character classes
// ---------------------------------------------------------------------------

/// Unicode `White_Space` (what `char::is_whitespace` tests).
pub open spec fn is_ws(c: char) -> bool {
    ('\t' <= c && c <= '\r') || c == ' ' || c == '\u{85}' || c == '\u{a0}' || c == '\u{1680}'
        || ('\u{2000}' <= c && c <= '\u{200a}') || c == '\u{2028}' || c == '\u{2029}'
        || c == '\u{202f}' || c == '\u{205f}' || c == '\u{3000}'
}

pub fn is_whitespace(c: char) -> (r: bool)
    ensures
        r == is_ws(c),
{
    ('\t' <= c && c <= '\r') || c == ' ' || c == '\u{85}' || c == '\u{a0}' || c == '\u{1680}'
        || ('\u{2000}' <= c && c <= '\u{200a}') || c == '\u{2028}' || c == '\u{2029}'
        || c == '\u{202f}' || c == '\u{205f}' || c == '\u{3000}'
}

pub open spec fn is_digit(c: char) -> bool {
    '0' <= c && c <= '9'
}

pub open spec fn is_ascii_char(c: char) -> bool {
    (c as u32) < 128
}

pub open spec fn is_ascii_seq(s: Seq<char>) -> bool {
    forall|i: int| 0 <= i < s.len() ==> is_ascii_char(#[trigger] s[i])
}

/// ASCII upper-case letters map to lower case, everything else is unchanged.
pub open spec fn ascii_lower(c: char) -> char {
    if 'A' <= c && c <= 'Z' {
        ((c as u32) + 32) as char
    } else {
        c
    }
}

pub open spec fn ascii_lower_seq(s: Seq<char>) -> Seq<char> {
    s.map_values(|c: char| ascii_lower(c))
}

pub fn to_ascii_lower(c: char) -> (r: char)
    ensures
        r == ascii_lower(c),
{
    if 'A' <= c && c <= 'Z' {
        let u = (c as u8) + 32;
        u as char
    } else {
        c
    }
}

/// `to_ascii_lowercase` of a whole sequence.
pub fn lower_ascii_chars(v: &Vec<char>) -> (r: Vec<char>)
    ensures
        r@ == ascii_lower_seq(v@),
{
    let mut r: Vec<char> = Vec::new();
    let mut i: usize = 0;
    while i < v.len()
        invariant
            i <= v.len(),
            r@ == ascii_lower_seq(v@.take(i as int)),
        decreases v.len() - i,
    {
        r.push(to_ascii_lower(v[i]));
        assert(ascii_lower_seq(v@.take(i + 1)) =~= ascii_lower_seq(v@.take(i as int)).push(ascii_lower(v@[i as int])));
        i = i + 1;
    }
    assert(v@.take(v.len() as int) =~= v@);
    r
}

/// `eq_ignore_ascii_case` on sequences.
pub open spec fn eq_ignore_ascii_case(a: Seq<char>, b: Seq<char>) -> bool {
    ascii_lower_seq(a) == ascii_lower_seq(b)
}

pub fn eq_ignore_case_chars(a: &Vec<char>, b: &Vec<char>) -> (r: bool)
    ensures
        r == eq_ignore_ascii_case(a@, b@),
{
    let la = lower_ascii_chars(a);
    let lb = lower_ascii_chars(b);
    eq_chars(&la, &lb)
}


// ---------------------------------------------------------------------------
// Leading / trailing runs of characters satisfying a predicate
// ---------------------------------------------------------------------------

pub open spec fn ws_pred() -> spec_fn(char) -> bool {
    |c: char| is_ws(c)
}

pub open spec fn non_ws_pred() -> spec_fn(char) -> bool {
    |c: char| !is_ws(c)
}

pub open spec fn digit_pred() -> spec_fn(char) -> bool {
    |c: char| is_digit(c)
}

pub open spec fn eq_pred(x: char) -> spec_fn(char) -> bool {
    |c: char| c == x
}

/// `i` is the length of the longest prefix of `s` made of characters satisfying `f`.
pub open spec fn is_lead(s: Seq<char>, f: spec_fn(char) -> bool, i: int) -> bool {
    &&& 0 <= i <= s.len()
    &&& forall|j: int| 0 <= j < i ==> f(#[trigger] s[j])
    &&& (i == s.len() || !f(s[i]))
}

pub open spec fn lead(s: Seq<char>, f: spec_fn(char) -> bool) -> int {
    choose|i: int| is_lead(s, f, i)
}

/// `k` is the length of the longest suffix of `s` made of characters satisfying `f`.
pub open spec fn is_trail(s: Seq<char>, f: spec_fn(char) -> bool, k: int) -> bool {
    &&& 0 <= k <= s.len()
    &&& forall|j: int| s.len() - k <= j < s.len() ==> f(#[trigger] s[j])
    &&& (k == s.len() || !f(s[s.len() - k - 1]))
}

pub open spec fn trail(s: Seq<char>, f: spec_fn(char) -> bool) -> int {
    choose|k: int| is_trail(s, f, k)
}

pub proof fn lemma_lead(s: Seq<char>, f: spec_fn(char) -> bool, i: int)
    requires
        is_lead(s, f, i),
    ensures
        lead(s, f) == i,
{
    let k = lead(s, f);
    assert(is_lead(s, f, k));
    if k < i {
        assert(f(s[k]));
    } else if k > i {
        assert(f(s[i]));
    }
}

pub proof fn lemma_lead_exists(s: Seq<char>, f: spec_fn(char) -> bool)
    ensures
        is_lead(s, f, lead(s, f)),
    decreases s.len(),
{
    if s.len() == 0 || !f(s[0]) {
        assert(is_lead(s, f, 0));
        lemma_lead(s, f, 0);
    } else {
        let t = s.drop_first();
        lemma_lead_exists(t, f);
        let k = lead(t, f);
        assert forall|j: int| 0 <= j < k + 1 implies f(#[trigger] s[j]) by {
            if j > 0 {
                assert(s[j] == t[j - 1]);
            }
        }
        if k + 1 < s.len() {
            assert(s[k + 1] == t[k]);
        }
        assert(is_lead(s, f, k + 1));
        lemma_lead(s, f, k + 1);
    }
}

pub proof fn lemma_trail(s: Seq<char>, f: spec_fn(char) -> bool, k: int)
    requires
        is_trail(s, f, k),
    ensures
        trail(s, f) == k,
{
    let m = trail(s, f);
    assert(is_trail(s, f, m));
    if m < k {
        assert(f(s[s.len() - m - 1]));
    } else if m > k {
        assert(f(s[s.len() - k - 1]));
    }
}

pub proof fn lemma_trail_exists(s: Seq<char>, f: spec_fn(char) -> bool)
    ensures
        is_trail(s, f, trail(s, f)),
    decreases s.len(),
{
    if s.len() == 0 || !f(s[s.len() - 1]) {
        assert(is_trail(s, f, 0));
        lemma_trail(s, f, 0);
    } else {
        let t = s.drop_last();
        lemma_trail_exists(t, f);
        let k = trail(t, f);
        assert forall|j: int| s.len() - (k + 1) <= j < s.len() implies f(#[trigger] s[j]) by {
            if j < s.len() - 1 {
                assert(s[j] == t[j]);
            }
        }
        if k + 1 < s.len() {
            assert(s[s.len() - (k + 1) - 1] == t[t.len() - k - 1]);
        }
        assert(is_trail(s, f, k + 1));
        lemma_trail(s, f, k + 1);
    }
}

/// Length of the leading whitespace run.
pub fn lead_ws(v: &Vec<char>) -> (i: usize)
    ensures
        i == lead(v@, ws_pred()),
        is_lead(v@, ws_pred(), i as int),
{
    let mut i: usize = 0;
    while i < v.len() && is_whitespace(v[i])
        invariant
            i <= v.len(),
            forall|j: int| 0 <= j < i ==> (ws_pred())(#[trigger] v@[j]),
        decreases v.len() - i,
    {
        i = i + 1;
    }
    proof {
        lemma_lead(v@, ws_pred(), i as int);
    }
    i
}

/// Length of the trailing whitespace run.
pub fn trail_ws(v: &Vec<char>) -> (k: usize)
    ensures
        k == trail(v@, ws_pred()),
        is_trail(v@, ws_pred(), k as int),
{
    let mut k: usize = 0;
    while k < v.len() && is_whitespace(v[v.len() - 1 - k])
        invariant
            k <= v.len(),
            forall|j: int| v.len() - k <= j < v.len() ==> (ws_pred())(#[trigger] v@[j]),
        decreases v.len() - k,
    {
        k = k + 1;
    }
    proof {
        lemma_trail(v@, ws_pred(), k as int);
    }
    k
}

/// Length of the leading run of `c`.
pub fn lead_char(v: &Vec<char>, c: char) -> (i: usize)
    ensures
        i == lead(v@, eq_pred(c)),
        is_lead(v@, eq_pred(c), i as int),
{
    let mut i: usize = 0;
    while i < v.len() && v[i] == c
        invariant
            i <= v.len(),
            forall|j: int| 0 <= j < i ==> (eq_pred(c))(#[trigger] v@[j]),
        decreases v.len() - i,
    {
        i = i + 1;
    }
    proof {
        lemma_lead(v@, eq_pred(c), i as int);
    }
    i
}

/// Length of the trailing run of `c`.
pub fn trail_char(v: &Vec<char>, c: char) -> (k: usize)
    ensures
        k == trail(v@, eq_pred(c)),
        is_trail(v@, eq_pred(c), k as int),
{
    let mut k: usize = 0;
    while k < v.len() && v[v.len() - 1 - k] == c
        invariant
            k <= v.len(),
            forall|j: int| v.len() - k <= j < v.len() ==> (eq_pred(c))(#[trigger] v@[j]),
        decreases v.len() - k,
    {
        k = k + 1;
    }
    proof {
        lemma_trail(v@, eq_pred(c), k as int);
    }
    k
}

/// Length of the leading run of ASCII digits.
pub fn lead_digits(v: &Vec<char>) -> (i: usize)
    ensures
        i == lead(v@, digit_pred()),
        is_lead(v@, digit_pred(), i as int),
{
    let mut i: usize = 0;
    while i < v.len() && '0' <= v[i] && v[i] <= '9'
        invariant
            i <= v.len(),
            forall|j: int| 0 <= j < i ==> (digit_pred())(#[trigger] v@[j]),
        decreases v.len() - i,
    {
        i = i + 1;
    }
    proof {
        lemma_lead(v@, digit_pred(), i as int);
    }
    i
}

// ---------------------------------------------------------------------------
// Trimming
// ---------------------------------------------------------------------------

/// `str::trim_start`.
pub open spec fn trim_start(s: Seq<char>) -> Seq<char> {
    s.skip(lead(s, ws_pred()))
}

/// `str::trim_end`.
pub open spec fn trim_end(s: Seq<char>) -> Seq<char> {
    s.take(s.len() - trail(s, ws_pred()))
}

/// `str::trim`.
pub open spec fn trim(s: Seq<char>) -> Seq<char> {
    trim_end(trim_start(s))
}

/// `str::trim_start_matches` with a single character.
pub open spec fn trim_start_char(s: Seq<char>, c: char) -> Seq<char> {
    s.skip(lead(s, eq_pred(c)))
}

/// `str::trim_end_matches` with a single character.
pub open spec fn trim_end_char(s: Seq<char>, c: char) -> Seq<char> {
    s.take(s.len() - trail(s, eq_pred(c)))
}

/// `str::trim_matches` with a single character.
pub open spec fn trim_char(s: Seq<char>, c: char) -> Seq<char> {
    trim_end_char(trim_start_char(s, c), c)
}

pub fn trim_start_v(v: &Vec<char>) -> (r: Vec<char>)
    ensures
        r@ == trim_start(v@),
{
    let i = lead_ws(v);
    slice_of(v, i, v.len())
}

pub fn trim_end_v(v: &Vec<char>) -> (r: Vec<char>)
    ensures
        r@ == trim_end(v@),
{
    let k = trail_ws(v);
    slice_of(v, 0, v.len() - k)
}

pub fn trim_v(v: &Vec<char>) -> (r: Vec<char>)
    ensures
        r@ == trim(v@),
{
    let a = trim_start_v(v);
    trim_end_v(&a)
}

pub fn trim_start_char_v(v: &Vec<char>, c: char) -> (r: Vec<char>)
    ensures
        r@ == trim_start_char(v@, c),
{
    let i = lead_char(v, c);
    slice_of(v, i, v.len())
}

pub fn trim_end_char_v(v: &Vec<char>, c: char) -> (r: Vec<char>)
    ensures
        r@ == trim_end_char(v@, c),
{
    let k = trail_char(v, c);
    slice_of(v, 0, v.len() - k)
}

pub fn trim_char_v(v: &Vec<char>, c: char) -> (r: Vec<char>)
    ensures
        r@ == trim_char(v@, c),
{
    let a = trim_start_char_v(v, c);
    trim_end_char_v(&a, c)
}


// ---------------------------------------------------------------------------
// Prefixes, suffixes, occurrences
// ---------------------------------------------------------------------------

pub open spec fn starts_with(s: Seq<char>, p: Seq<char>) -> bool {
    p.len() <= s.len() && s.take(p.len() as int) == p
}

pub open spec fn ends_with(s: Seq<char>, p: Seq<char>) -> bool {
    p.len() <= s.len() && s.skip(s.len() - p.len()) == p
}

/// `str::strip_prefix`.
pub open spec fn strip_prefix(s: Seq<char>, p: Seq<char>) -> Option<Seq<char>> {
    if starts_with(s, p) {
        Some(s.skip(p.len() as int))
    } else {
        None
    }
}

/// `str::strip_suffix`.
pub open spec fn strip_suffix(s: Seq<char>, p: Seq<char>) -> Option<Seq<char>> {
    if ends_with(s, p) {
        Some(s.take(s.len() - p.len()))
    } else {
        None
    }
}

/// `p` occurs in `s` starting at index `i`.
pub open spec fn occurs_at(s: Seq<char>, p: Seq<char>, i: int) -> bool {
    0 <= i && i + p.len() <= s.len() && s.subrange(i, i + p.len()) == p
}

pub open spec fn contains(s: Seq<char>, p: Seq<char>) -> bool {
    exists|i: int| occurs_at(s, p, i)
}

/// `i` is the first occurrence of `p` in `s`.
pub open spec fn first_occ(s: Seq<char>, p: Seq<char>, i: int) -> bool {
    occurs_at(s, p, i) && forall|j: int| 0 <= j < i ==> !#[trigger] occurs_at(s, p, j)
}

/// `i` is the last occurrence of `p` in `s`.
pub open spec fn last_occ(s: Seq<char>, p: Seq<char>, i: int) -> bool {
    occurs_at(s, p, i) && forall|j: int| i < j ==> !#[trigger] occurs_at(s, p, j)
}

/// `str::find`: index of the first occurrence, or -1.
pub open spec fn find(s: Seq<char>, p: Seq<char>) -> int {
    if exists|i: int| first_occ(s, p, i) {
        choose|i: int| first_occ(s, p, i)
    } else {
        -1
    }
}

/// `str::rfind`: index of the last occurrence, or -1.
pub open spec fn rfind(s: Seq<char>, p: Seq<char>) -> int {
    if exists|i: int| last_occ(s, p, i) {
        choose|i: int| last_occ(s, p, i)
    } else {
        -1
    }
}

pub proof fn lemma_find_is(s: Seq<char>, p: Seq<char>, i: int)
    requires
        first_occ(s, p, i),
    ensures
        find(s, p) == i,
{
    let k = choose|k: int| first_occ(s, p, k);
    assert(first_occ(s, p, k));
    if k < i {
        assert(!occurs_at(s, p, k));
    } else if k > i {
        assert(!occurs_at(s, p, i));
    }
}

pub proof fn lemma_find_none(s: Seq<char>, p: Seq<char>)
    requires
        forall|j: int| !#[trigger] occurs_at(s, p, j),
    ensures
        find(s, p) == -1,
{
}

pub proof fn lemma_rfind_is(s: Seq<char>, p: Seq<char>, i: int)
    requires
        last_occ(s, p, i),
    ensures
        rfind(s, p) == i,
{
    let k = choose|k: int| last_occ(s, p, k);
    assert(last_occ(s, p, k));
    if k < i {
        assert(!occurs_at(s, p, i));
    } else if k > i {
        assert(!occurs_at(s, p, k));
    }
}

/// Every occurrence has a first occurrence at or before it.
pub proof fn lemma_first_exists(s: Seq<char>, p: Seq<char>, i: int)
    requires
        occurs_at(s, p, i),
    ensures
        find(s, p) >= 0,
        find(s, p) <= i,
        first_occ(s, p, find(s, p)),
    decreases i,
{
    if forall|j: int| 0 <= j < i ==> !#[trigger] occurs_at(s, p, j) {
        lemma_find_is(s, p, i);
    } else {
        let j = choose|j: int| 0 <= j < i && occurs_at(s, p, j);
        lemma_first_exists(s, p, j);
    }
}

/// `find` is -1 exactly when there is no occurrence; otherwise it is the first one.
pub proof fn lemma_find(s: Seq<char>, p: Seq<char>)
    ensures
        find(s, p) == -1 <==> !contains(s, p),
        find(s, p) >= 0 ==> first_occ(s, p, find(s, p)),
        find(s, p) >= -1,
{
    if contains(s, p) {
        let i = choose|i: int| occurs_at(s, p, i);
        lemma_first_exists(s, p, i);
    }
}

/// `v[i..]` starts with `p`.
pub fn occurs_at_v(v: &Vec<char>, p: &Vec<char>, i: usize) -> (r: bool)
    ensures
        r == occurs_at(v@, p@, i as int),
{
    if i > v.len() || p.len() > v.len() - i {
        return false;
    }
    let mut j: usize = 0;
    while j < p.len()
        invariant
            i + p.len() <= v.len(),
            j <= p.len(),
            forall|k: int| 0 <= k < j ==> v@[i + k] == p@[k],
        decreases p.len() - j,
    {
        if v[i + j] != p[j] {
            assert(v@.subrange(i as int, i + p.len())[j as int] != p@[j as int]);
            return false;
        }
        j = j + 1;
    }
    assert(v@.subrange(i as int, i + p.len()) =~= p@);
    true
}

pub fn starts_with_v(v: &Vec<char>, p: &Vec<char>) -> (r: bool)
    ensures
        r == starts_with(v@, p@),
{
    let r = occurs_at_v(v, p, 0);
    assert(v@.subrange(0, p@.len() as int) =~= v@.take(p@.len() as int));
    r
}

pub fn starts_with_str(v: &Vec<char>, p: &str) -> (r: bool)
    ensures
        r == starts_with(v@, p@),
{
    let pv = chars_of(p);
    starts_with_v(v, &pv)
}

pub fn ends_with_v(v: &Vec<char>, p: &Vec<char>) -> (r: bool)
    ensures
        r == ends_with(v@, p@),
{
    if p.len() > v.len() {
        return false;
    }
    let r = occurs_at_v(v, p, v.len() - p.len());
    assert(v@.subrange(v.len() - p.len(), v.len() as int) =~= v@.skip(v.len() - p.len()));
    r
}

pub fn ends_with_str(v: &Vec<char>, p: &str) -> (r: bool)
    ensures
        r == ends_with(v@, p@),
{
    let pv = chars_of(p);
    ends_with_v(v, &pv)
}

pub fn strip_prefix_v(v: &Vec<char>, p: &Vec<char>) -> (r: Option<Vec<char>>)
    ensures
        match r {
            Some(t) => strip_prefix(v@, p@) == Some(t@),
            None => strip_prefix(v@, p@) is None,
        },
{
    if starts_with_v(v, p) {
        Some(slice_of(v, p.len(), v.len()))
    } else {
        None
    }
}

pub fn strip_prefix_str(v: &Vec<char>, p: &str) -> (r: Option<Vec<char>>)
    ensures
        match r {
            Some(t) => strip_prefix(v@, p@) == Some(t@),
            None => strip_prefix(v@, p@) is None,
        },
{
    let pv = chars_of(p);
    strip_prefix_v(v, &pv)
}

pub fn strip_suffix_str(v: &Vec<char>, p: &str) -> (r: Option<Vec<char>>)
    ensures
        match r {
            Some(t) => strip_suffix(v@, p@) == Some(t@),
            None => strip_suffix(v@, p@) is None,
        },
{
    let pv = chars_of(p);
    if ends_with_v(v, &pv) {
        Some(slice_of(v, 0, v.len() - pv.len()))
    } else {
        None
    }
}

/// First occurrence of `p` at or after `start`.
pub fn find_from(v: &Vec<char>, p: &Vec<char>, start: usize) -> (r: Option<usize>)
    ensures
        match r {
            Some(k) => start <= k && occurs_at(v@, p@, k as int) && forall|j: int|
                start <= j < k ==> !#[trigger] occurs_at(v@, p@, j),
            None => forall|j: int| start <= j ==> !#[trigger] occurs_at(v@, p@, j),
        },
{
    if start > v.len() || p.len() > v.len() {
        return None;
    }
    let mut i = start;
    if i > v.len() - p.len() {
        return None;
    }
    loop
        invariant
            start <= i <= v.len() - p.len(),
            p.len() <= v.len(),
            forall|j: int| start <= j < i ==> !#[trigger] occurs_at(v@, p@, j),
        decreases v.len() - i,
    {
        if occurs_at_v(v, p, i) {
            return Some(i);
        }
        if i == v.len() - p.len() {
            return None;
        }
        i = i + 1;
    }
}

/// `str::find`.
pub fn find_v(v: &Vec<char>, p: &Vec<char>) -> (r: Option<usize>)
    ensures
        match r {
            Some(k) => find(v@, p@) == k && first_occ(v@, p@, k as int),
            None => find(v@, p@) == -1 && !contains(v@, p@),
        },
{
    let r = find_from(v, p, 0);
    proof {
        match r {
            Some(k) => {
                lemma_find_is(v@, p@, k as int);
            },
            None => {
                lemma_find_none(v@, p@);
            },
        }
    }
    r
}

pub fn find_str(v: &Vec<char>, p: &str) -> (r: Option<usize>)
    ensures
        match r {
            Some(k) => find(v@, p@) == k && first_occ(v@, p@, k as int),
            None => find(v@, p@) == -1 && !contains(v@, p@),
        },
{
    let pv = chars_of(p);
    find_v(v, &pv)
}

pub fn contains_str(v: &Vec<char>, p: &str) -> (r: bool)
    ensures
        r == contains(v@, p@),
{
    find_str(v, p).is_some()
}

/// `str::rfind`.
pub fn rfind_v(v: &Vec<char>, p: &Vec<char>) -> (r: Option<usize>)
    ensures
        match r {
            Some(k) => rfind(v@, p@) == k && last_occ(v@, p@, k as int),
            None => rfind(v@, p@) == -1 && !contains(v@, p@),
        },
{
    if p.len() > v.len() {
        assert forall|j: int| !#[trigger] occurs_at(v@, p@, j) by {}
        return None;
    }
    let mut i = v.len() - p.len();
    loop
        invariant
            i <= v.len() - p.len(),
            p.len() <= v.len(),
            forall|j: int| i < j ==> !#[trigger] occurs_at(v@, p@, j),
        decreases i,
    {
        if occurs_at_v(v, p, i) {
            proof {
                lemma_rfind_is(v@, p@, i as int);
            }
            return Some(i);
        }
        if i == 0 {
            assert forall|j: int| !#[trigger] occurs_at(v@, p@, j) by {
                if j == 0 {
                }
            }
            return None;
        }
        i = i - 1;
    }
}

pub fn rfind_str(v: &Vec<char>, p: &str) -> (r: Option<usize>)
    ensures
        match r {
            Some(k) => rfind(v@, p@) == k && last_occ(v@, p@, k as int),
            None => rfind(v@, p@) == -1 && !contains(v@, p@),
        },
{
    let pv = chars_of(p);
    rfind_v(v, &pv)
}

// ---------------------------------------------------------------------------
// Splitting around occurrences
// ---------------------------------------------------------------------------

/// `str::split_once`.
pub open spec fn split_once(s: Seq<char>, p: Seq<char>) -> Option<(Seq<char>, Seq<char>)> {
    let i = find(s, p);
    if i < 0 {
        None
    } else {
        Some((s.take(i), s.skip(i + p.len())))
    }
}

/// `str::rsplit_once`.
pub open spec fn rsplit_once(s: Seq<char>, p: Seq<char>) -> Option<(Seq<char>, Seq<char>)> {
    let i = rfind(s, p);
    if i < 0 {
        None
    } else {
        Some((s.take(i), s.skip(i + p.len())))
    }
}

/// `s.split(p).next().unwrap()`: everything before the first `p`.
pub open spec fn before_first(s: Seq<char>, p: Seq<char>) -> Seq<char> {
    let i = find(s, p);
    if i < 0 {
        s
    } else {
        s.take(i)
    }
}

/// `s.rsplit(p).next().unwrap()`: everything after the last `p`.
pub open spec fn after_last(s: Seq<char>, p: Seq<char>) -> Seq<char> {
    let i = rfind(s, p);
    if i < 0 {
        s
    } else {
        s.skip(i + p.len())
    }
}

pub fn split_once_str(v: &Vec<char>, p: &str) -> (r: Option<(Vec<char>, Vec<char>)>)
    ensures
        match r {
            Some((a, b)) => split_once(v@, p@) == Some((a@, b@)),
            None => split_once(v@, p@) is None,
        },
{
    let pv = chars_of(p);
    match find_v(v, &pv) {
        Some(i) => {
            assert(occurs_at(v@, pv@, i as int));
            let n = pv.len();
            assert(i + n <= v.len());
            let j = i + n;
            Some((slice_of(v, 0, i), slice_of(v, j, v.len())))
        },
        None => None,
    }
}

pub fn rsplit_once_str(v: &Vec<char>, p: &str) -> (r: Option<(Vec<char>, Vec<char>)>)
    ensures
        match r {
            Some((a, b)) => rsplit_once(v@, p@) == Some((a@, b@)),
            None => rsplit_once(v@, p@) is None,
        },
{
    let pv = chars_of(p);
    match rfind_v(v, &pv) {
        Some(i) => {
            assert(occurs_at(v@, pv@, i as int));
            let n = pv.len();
            assert(i + n <= v.len());
            let j = i + n;
            Some((slice_of(v, 0, i), slice_of(v, j, v.len())))
        },
        None => None,
    }
}

pub fn before_first_str(v: &Vec<char>, p: &str) -> (r: Vec<char>)
    ensures
        r@ == before_first(v@, p@),
{
    let pv = chars_of(p);
    match find_v(v, &pv) {
        Some(i) => slice_of(v, 0, i),
        None => v.clone(),
    }
}

pub fn after_last_str(v: &Vec<char>, p: &str) -> (r: Vec<char>)
    ensures
        r@ == after_last(v@, p@),
{
    let pv = chars_of(p);
    match rfind_v(v, &pv) {
        Some(i) => {
            assert(occurs_at(v@, pv@, i as int));
            let n = pv.len();
            assert(i + n <= v.len());
            let j = i + n;
            slice_of(v, j, v.len())
        },
        None => v.clone(),
    }
}


/// Occurrences in `s.skip(start)` are the occurrences in `s` shifted by `start`.
pub proof fn lemma_occurs_skip(s: Seq<char>, p: Seq<char>, start: int, j: int)
    requires
        0 <= start <= s.len(),
    ensures
        occurs_at(s.skip(start), p, j) <==> (j >= 0 && occurs_at(s, p, j + start)),
{
    if j >= 0 && j + p.len() <= s.len() - start {
        assert(s.skip(start).subrange(j, j + p.len()) =~= s.subrange(j + start, j + start + p.len()));
    }
}

pub proof fn lemma_find_skip(s: Seq<char>, p: Seq<char>, start: int, k: int)
    requires
        0 <= start <= k,
        occurs_at(s, p, k),
        forall|j: int| start <= j < k ==> !#[trigger] occurs_at(s, p, j),
    ensures
        find(s.skip(start), p) == k - start,
        k + p.len() <= s.len(),
{
    let t = s.skip(start);
    lemma_occurs_skip(s, p, start, k - start);
    assert forall|j: int| 0 <= j < k - start implies !#[trigger] occurs_at(t, p, j) by {
        lemma_occurs_skip(s, p, start, j);
    }
    lemma_find_is(t, p, k - start);
}

pub proof fn lemma_find_skip_none(s: Seq<char>, p: Seq<char>, start: int)
    requires
        0 <= start <= s.len(),
        forall|j: int| start <= j ==> !#[trigger] occurs_at(s, p, j),
    ensures
        find(s.skip(start), p) == -1,
{
    let t = s.skip(start);
    assert forall|j: int| !#[trigger] occurs_at(t, p, j) by {
        lemma_occurs_skip(s, p, start, j);
    }
    lemma_find_none(t, p);
}

pub open spec fn views(vs: Seq<Vec<char>>) -> Seq<Seq<char>> {
    vs.map_values(|v: Vec<char>| v@)
}

/// `str::split` with a non-empty separator: the pieces between occurrences.
pub open spec fn split(s: Seq<char>, p: Seq<char>) -> Seq<Seq<char>>
    decreases s.len(),
{
    if p.len() == 0 {
        seq![s]
    } else {
        let i = find(s, p);
        if i < 0 {
            seq![s]
        } else {
            proof {
                lemma_find(s, p);
            }
            seq![s.take(i)] + split(s.skip(i + p.len()), p)
        }
    }
}

/// `[..].join(sep)`.
pub open spec fn join(ps: Seq<Seq<char>>, sep: Seq<char>) -> Seq<char>
    decreases ps.len(),
{
    if ps.len() == 0 {
        Seq::empty()
    } else if ps.len() == 1 {
        ps[0]
    } else {
        join(ps.drop_last(), sep) + sep + ps.last()
    }
}

/// A line without its `\r` terminator half.
pub open spec fn strip_cr(s: Seq<char>) -> Seq<char> {
    if s.len() > 0 && s.last() == '\r' {
        s.drop_last()
    } else {
        s
    }
}

/// `str::lines`: split at `\n`, drop a `\r` before it, no empty last line.
pub open spec fn lines(s: Seq<char>) -> Seq<Seq<char>>
    decreases s.len(),
{
    if s.len() == 0 {
        seq![]
    } else {
        let i = find(s, seq!['\n']);
        if i < 0 {
            seq![s]
        } else {
            proof {
                lemma_find(s, seq!['\n']);
            }
            seq![strip_cr(s.take(i))] + lines(s.skip(i + 1))
        }
    }
}

/// `str::replace` with a non-empty pattern: leftmost, non-overlapping.
pub open spec fn replace(s: Seq<char>, p: Seq<char>, r: Seq<char>) -> Seq<char>
    decreases s.len(),
{
    if p.len() == 0 {
        s
    } else {
        let i = find(s, p);
        if i < 0 {
            s
        } else {
            proof {
                lemma_find(s, p);
            }
            s.take(i) + r + replace(s.skip(i + p.len()), p, r)
        }
    }
}

pub fn split_v(v: &Vec<char>, p: &Vec<char>) -> (r: Vec<Vec<char>>)
    requires
        p.len() > 0,
    ensures
        views(r@) == split(v@, p@),
{
    let mut out: Vec<Vec<char>> = Vec::new();
    let mut start: usize = 0;
    assert(v@.skip(0) =~= v@);
    loop
        invariant
            start <= v.len(),
            p.len() > 0,
            views(out@) + split(v@.skip(start as int), p@) == split(v@, p@),
        decreases v.len() - start,
    {
        let ghost rest = v@.skip(start as int);
        match find_from(v, p, start) {
            Some(k) => {
                proof {
                    lemma_find_skip(v@, p@, start as int, k as int);
                    assert(rest.take(k - start) =~= v@.subrange(start as int, k as int));
                    assert(rest.skip(k - start + p.len()) =~= v@.skip(k + p.len()));
                }
                let piece = slice_of(v, start, k);
                proof {
                    assert(views(out@.push(piece)) =~= views(out@).push(piece@));
                    assert(views(out@) + split(rest, p@) =~= views(out@).push(piece@) + split(v@.skip(k + p.len()), p@));
                }
                out.push(piece);
                start = k + p.len();
            },
            None => {
                proof {
                    lemma_find_skip_none(v@, p@, start as int);
                }
                let piece = slice_of(v, start, v.len());
                proof {
                    assert(piece@ =~= rest);
                    assert(views(out@.push(piece)) =~= views(out@).push(piece@));
                    assert(views(out@) + split(rest, p@) =~= views(out@).push(piece@));
                }
                out.push(piece);
                return out;
            },
        }
    }
}

pub fn split_str(v: &Vec<char>, p: &str) -> (r: Vec<Vec<char>>)
    requires
        p@.len() > 0,
    ensures
        views(r@) == split(v@, p@),
{
    let pv = chars_of(p);
    split_v(v, &pv)
}

pub fn join_v(ps: &Vec<Vec<char>>, sep: &Vec<char>) -> (r: Vec<char>)
    ensures
        r@ == join(views(ps@), sep@),
{
    let mut r: Vec<char> = Vec::new();
    let mut i: usize = 0;
    while i < ps.len()
        invariant
            i <= ps.len(),
            r@ == join(views(ps@).take(i as int), sep@),
        decreases ps.len() - i,
    {
        let ghost before = r@;
        if i > 0 {
            append_all(&mut r, sep);
        }
        append_all(&mut r, &ps[i]);
        proof {
            let vs = views(ps@);
            assert(vs.take(i + 1).drop_last() =~= vs.take(i as int));
            assert(vs.take(i + 1).last() == ps@[i as int]@);
            if i == 0 {
                assert(vs.take(1) =~= seq![ps@[0]@]);
            }
        }
        i = i + 1;
    }
    assert(views(ps@).take(ps.len() as int) =~= views(ps@));
    r
}

pub fn join_str(ps: &Vec<Vec<char>>, sep: &str) -> (r: Vec<char>)
    ensures
        r@ == join(views(ps@), sep@),
{
    let sv = chars_of(sep);
    join_v(ps, &sv)
}

pub fn strip_cr_v(v: &Vec<char>) -> (r: Vec<char>)
    ensures
        r@ == strip_cr(v@),
{
    if v.len() > 0 && v[v.len() - 1] == '\r' {
        slice_of(v, 0, v.len() - 1)
    } else {
        v.clone()
    }
}

pub fn lines_v(v: &Vec<char>) -> (r: Vec<Vec<char>>)
    ensures
        views(r@) == lines(v@),
{
    let mut out: Vec<Vec<char>> = Vec::new();
    let mut start: usize = 0;
    let nl: Vec<char> = vec!['\n'];
    assert(nl@ =~= seq!['\n']);
    assert(v@.skip(0) =~= v@);
    loop
        invariant
            start <= v.len(),
            nl@ == seq!['\n'],
            views(out@) + lines(v@.skip(start as int)) == lines(v@),
        decreases v.len() - start,
    {
        let ghost rest = v@.skip(start as int);
        if start == v.len() {
            assert(rest.len() == 0);
            assert(views(out@) + lines(rest) =~= views(out@));
            return out;
        }
        match find_from(v, &nl, start) {
            Some(k) => {
                proof {
                    lemma_find_skip(v@, nl@, start as int, k as int);
                    assert(rest.take(k - start) =~= v@.subrange(start as int, k as int));
                    assert(rest.skip(k - start + 1) =~= v@.skip(k + 1));
                }
                let raw = slice_of(v, start, k);
                let piece = strip_cr_v(&raw);
                proof {
                    assert(views(out@.push(piece)) =~= views(out@).push(piece@));
                    assert(views(out@) + lines(rest) =~= views(out@).push(piece@) + lines(v@.skip(k + 1)));
                }
                out.push(piece);
                start = k + 1;
            },
            None => {
                proof {
                    lemma_find_skip_none(v@, nl@, start as int);
                }
                let piece = slice_of(v, start, v.len());
                proof {
                    assert(piece@ =~= rest);
                    assert(views(out@.push(piece)) =~= views(out@).push(piece@));
                    assert(views(out@) + lines(rest) =~= views(out@).push(piece@));
                }
                out.push(piece);
                return out;
            },
        }
    }
}

pub fn lines_str(s: &str) -> (r: Vec<Vec<char>>)
    ensures
        views(r@) == lines(s@),
{
    let v = chars_of(s);
    lines_v(&v)
}

pub fn replace_v(v: &Vec<char>, p: &Vec<char>, with: &Vec<char>) -> (r: Vec<char>)
    requires
        p.len() > 0,
    ensures
        r@ == replace(v@, p@, with@),
{
    let mut out: Vec<char> = Vec::new();
    let mut start: usize = 0;
    assert(v@.skip(0) =~= v@);
    loop
        invariant
            start <= v.len(),
            p.len() > 0,
            out@ + replace(v@.skip(start as int), p@, with@) == replace(v@, p@, with@),
        decreases v.len() - start,
    {
        let ghost rest = v@.skip(start as int);
        match find_from(v, p, start) {
            Some(k) => {
                proof {
                    lemma_find_skip(v@, p@, start as int, k as int);
                    assert(rest.take(k - start) =~= v@.subrange(start as int, k as int));
                    assert(rest.skip(k - start + p.len()) =~= v@.skip(k + p.len()));
                }
                let piece = slice_of(v, start, k);
                let ghost before = out@;
                append_all(&mut out, &piece);
                append_all(&mut out, with);
                proof {
                    assert(before + replace(rest, p@, with@) =~= out@ + replace(v@.skip(k + p.len()), p@, with@));
                }
                start = k + p.len();
            },
            None => {
                proof {
                    lemma_find_skip_none(v@, p@, start as int);
                }
                let piece = slice_of(v, start, v.len());
                assert(piece@ =~= rest);
                append_all(&mut out, &piece);
                return out;
            },
        }
    }
}

pub fn replace_str(v: &Vec<char>, p: &str, with: &Vec<char>) -> (r: Vec<char>)
    requires
        p@.len() > 0,
    ensures
        r@ == replace(v@, p@, with@),
{
    let pv = chars_of(p);
    replace_v(v, &pv, with)
}


// ---------------------------------------------------------------------------
// Whitespace-separated words
// ---------------------------------------------------------------------------

/// `str::split_whitespace`: the maximal runs of non-whitespace characters.
pub open spec fn words(s: Seq<char>) -> Seq<Seq<char>>
    decreases s.len(),
{
    let t = trim_start(s);
    if t.len() == 0 {
        seq![]
    } else {
        let k = lead(t, non_ws_pred());
        proof {
            lemma_lead_exists(s, ws_pred());
            lemma_lead_exists(t, non_ws_pred());
        }
        if k <= 0 {
            seq![]
        } else {
            seq![t.take(k)] + words(t.skip(k))
        }
    }
}

/// `s.split_whitespace().next()`.
pub open spec fn first_word(s: Seq<char>) -> Option<Seq<char>> {
    let w = words(s);
    if w.len() == 0 {
        None
    } else {
        Some(w[0])
    }
}

pub fn words_v(v: &Vec<char>) -> (r: Vec<Vec<char>>)
    ensures
        views(r@) == words(v@),
    decreases v.len(),
{
    let t = trim_start_v(v);
    proof {
        lemma_lead_exists(v@, ws_pred());
    }
    if t.len() == 0 {
        return Vec::new();
    }
    let mut k: usize = 0;
    while k < t.len() && !is_whitespace(t[k])
        invariant
            k <= t.len(),
            forall|j: int| 0 <= j < k ==> (non_ws_pred())(#[trigger] t@[j]),
        decreases t.len() - k,
    {
        k = k + 1;
    }
    proof {
        lemma_lead(t@, non_ws_pred(), k as int);
    }
    if k == 0 {
        return Vec::new();
    }
    let first = slice_of(&t, 0, k);
    let rest = slice_of(&t, k, t.len());
    let tail = words_v(&rest);
    let mut out: Vec<Vec<char>> = Vec::new();
    out.push(first);
    let mut i: usize = 0;
    let ghost first_v = first@;
    while i < tail.len()
        invariant
            i <= tail.len(),
            views(out@) == seq![first_v] + views(tail@).take(i as int),
        decreases tail.len() - i,
    {
        let c = tail[i].clone();
        assert(c@ =~= tail@[i as int]@);
        let ghost old_out = out@;
        out.push(c);
        proof {
            assert(views(out@) =~= views(old_out).push(c@));
            assert(views(tail@).take(i + 1) =~= views(tail@).take(i as int).push(tail@[i as int]@));
            assert(views(out@) =~= seq![first_v] + views(tail@).take(i + 1));
        }
        i = i + 1;
    }
    assert(views(tail@).take(tail.len() as int) =~= views(tail@));
    assert(t@.take(k as int) =~= first@);
    assert(t@.skip(k as int) =~= rest@);
    out
}

// ---------------------------------------------------------------------------
// Decimal numbers
// ---------------------------------------------------------------------------

pub open spec fn digit_val(c: char) -> nat {
    ((c as u32) - ('0' as u32)) as nat
}

/// The value of a string of decimal digits.
pub open spec fn digits_val(s: Seq<char>) -> nat
    decreases s.len(),
{
    if s.len() == 0 {
        0
    } else {
        digits_val(s.drop_last()) * 10 + digit_val(s.last())
    }
}

pub open spec fn all_digits(s: Seq<char>) -> bool {
    forall|i: int| 0 <= i < s.len() ==> is_digit(#[trigger] s[i])
}

/// `<u32 as FromStr>::from_str`: an optional `+`, then one or more digits
/// whose value fits.
pub open spec fn parse_u32(s: Seq<char>) -> Option<u32> {
    let t = if s.len() > 0 && s[0] == '+' {
        s.drop_first()
    } else {
        s
    };
    if t.len() > 0 && all_digits(t) && digits_val(t) <= u32::MAX {
        Some(digits_val(t) as u32)
    } else {
        None
    }
}

/// The number spelled by the leading ASCII digits of `s`, if any and if it fits.
pub open spec fn leading_digits(s: Seq<char>) -> Option<u32> {
    parse_u32(s.take(lead(s, digit_pred())))
}

pub open spec fn pow10(n: nat) -> nat
    decreases n,
{
    if n == 0 {
        1
    } else {
        10 * pow10((n - 1) as nat)
    }
}

/// An all-digit string of length `n` has a value below `10^n`.
pub proof fn lemma_digits_bound(s: Seq<char>)
    requires
        all_digits(s),
    ensures
        digits_val(s) < pow10(s.len()),
    decreases s.len(),
{
    if s.len() > 0 {
        let t = s.drop_last();
        assert(all_digits(t)) by {
            assert forall|i: int| 0 <= i < t.len() implies is_digit(#[trigger] t[i]) by {
                assert(t[i] == s[i]);
            }
        }
        lemma_digits_bound(t);
        assert(is_digit(s[s.len() - 1]));
        assert(digit_val(s.last()) <= 9);
    }
}

pub proof fn lemma_digits_prefix_le(s: Seq<char>, i: int)
    requires
        0 <= i <= s.len(),
    ensures
        digits_val(s.take(i)) <= digits_val(s),
    decreases s.len(),
{
    if i < s.len() {
        let t = s.drop_last();
        lemma_digits_prefix_le(t, i);
        assert(t.take(i) =~= s.take(i));
    } else {
        assert(s.take(i) =~= s);
    }
}

/// Parse a string of ASCII digits (no sign) into a `u32`.
fn parse_digits(t: &Vec<char>, from: usize) -> (r: Option<u32>)
    requires
        from <= t.len(),
    ensures
        ({
            let d = t@.skip(from as int);
            r == (if d.len() > 0 && all_digits(d) && digits_val(d) <= u32::MAX {
                Some(digits_val(d) as u32)
            } else {
                None
            })
        }),
{
    let ghost d = t@.skip(from as int);
    if from == t.len() {
        return None;
    }
    let mut acc: u64 = 0;
    let mut i = from;
    while i < t.len()
        invariant
            from <= i <= t.len(),
            d == t@.skip(from as int),
            acc <= u32::MAX,
            all_digits(d.take(i - from)),
            acc == digits_val(d.take(i - from)),
        decreases t.len() - i,
    {
        let c = t[i];
        if !('0' <= c && c <= '9') {
            assert(d[i - from] == c);
            return None;
        }
        let dv = (c as u32 - '0' as u32) as u64;
        proof {
            assert(d.take(i - from + 1).drop_last() =~= d.take(i - from));
            assert(d.take(i - from + 1).last() == c);
            assert(all_digits(d.take(i - from + 1)));
        }
        let next = acc * 10 + dv;
        if next > u32::MAX as u64 {
            proof {
                lemma_digits_prefix_le(d, i - from + 1);
                if all_digits(d) {
                }
            }
            return None;
        }
        acc = next;
        i = i + 1;
    }
    assert(d.take(i - from) =~= d);
    Some(acc as u32)
}

pub fn parse_u32_v(s: &Vec<char>) -> (r: Option<u32>)
    ensures
        r == parse_u32(s@),
{
    if s.len() > 0 && s[0] == '+' {
        assert(s@.skip(1) =~= s@.drop_first());
        parse_digits(s, 1)
    } else {
        assert(s@.skip(0) =~= s@);
        parse_digits(s, 0)
    }
}

pub fn leading_digits_v(s: &Vec<char>) -> (r: Option<u32>)
    ensures
        r == leading_digits(s@),
{
    let k = lead_digits(s);
    let d = slice_of(s, 0, k);
    assert(d@ =~= s@.take(k as int));
    parse_u32_v(&d)
}

pub open spec fn digit_char(d: nat) -> char {
    (('0' as u32) + d) as char
}

/// Decimal spelling of `n` (what `n.to_string()` gives).
pub open spec fn dec(n: nat) -> Seq<char>
    decreases n,
{
    if n < 10 {
        seq![digit_char(n)]
    } else {
        dec(n / 10).push(digit_char(n % 10))
    }
}

/// `s` left-padded with `0` to width `w` (what `{:0w}` gives).
pub open spec fn pad_zero(s: Seq<char>, w: nat) -> Seq<char> {
    if s.len() >= w {
        s
    } else {
        Seq::new((w - s.len()) as nat, |i: int| '0') + s
    }
}

fn digit_char_v(d: u64) -> (c: char)
    requires
        d < 10,
    ensures
        c == digit_char(d as nat),
{
    let b = (d as u8) + 48;
    b as char
}

pub fn dec_v(n: u64) -> (r: Vec<char>)
    ensures
        r@ == dec(n as nat),
    decreases n,
{
    if n < 10 {
        let mut r: Vec<char> = Vec::new();
        r.push(digit_char_v(n));
        assert(r@ =~= seq![digit_char(n as nat)]);
        r
    } else {
        let mut r = dec_v(n / 10);
        r.push(digit_char_v(n % 10));
        r
    }
}

pub fn pad_zero_v(s: &Vec<char>, w: usize) -> (r: Vec<char>)
    ensures
        r@ == pad_zero(s@, w as nat),
{
    if s.len() >= w {
        return s.clone();
    }
    let mut r: Vec<char> = Vec::new();
    let mut i: usize = 0;
    while i < w - s.len()
        invariant
            s.len() < w,
            i <= w - s.len(),
            r@ == Seq::new(i as nat, |j: int| '0'),
        decreases w - s.len() - i,
    {
        r.push('0');
        assert(r@ =~= Seq::new((i + 1) as nat, |j: int| '0'));
        i = i + 1;
    }
    append_all(&mut r, s);
    r
}

/// `format!("{:04}", n)`.
pub fn pad4_v(n: u32) -> (r: Vec<char>)
    ensures
        r@ == pad_zero(dec(n as nat), 4),
{
    let d = dec_v(n as u64);
    pad_zero_v(&d, 4)
}


// ---------------------------------------------------------------------------
// Searching sequences of lines
// ---------------------------------------------------------------------------

/// `i` is the first index at or after `from` whose line satisfies `f`
/// (`ls.len()` when none does).
pub open spec fn is_first_where(ls: Seq<Seq<char>>, f: spec_fn(Seq<char>) -> bool, from: int, i: int) -> bool {
    &&& from <= i <= ls.len()
    &&& forall|j: int| from <= j < i ==> !f(#[trigger] ls[j])
    &&& (i == ls.len() || f(ls[i]))
}

pub open spec fn first_where(ls: Seq<Seq<char>>, f: spec_fn(Seq<char>) -> bool, from: int) -> int {
    choose|i: int| is_first_where(ls, f, from, i)
}

pub proof fn lemma_first_where(ls: Seq<Seq<char>>, f: spec_fn(Seq<char>) -> bool, from: int, i: int)
    requires
        is_first_where(ls, f, from, i),
    ensures
        first_where(ls, f, from) == i,
{
    let k = first_where(ls, f, from);
    assert(is_first_where(ls, f, from, k));
    if k < i {
        assert(f(ls[k]));
    } else if k > i {
        assert(f(ls[i]));
    }
}

pub proof fn lemma_first_where_exists(ls: Seq<Seq<char>>, f: spec_fn(Seq<char>) -> bool, from: int)
    requires
        0 <= from <= ls.len(),
    ensures
        is_first_where(ls, f, from, first_where(ls, f, from)),
    decreases ls.len() - from,
{
    if from == ls.len() || f(ls[from]) {
        lemma_first_where(ls, f, from, from);
    } else {
        lemma_first_where_exists(ls, f, from + 1);
        let k = first_where(ls, f, from + 1);
        assert(is_first_where(ls, f, from, k));
        lemma_first_where(ls, f, from, k);
    }
}

/// A line that is blank after trimming.
pub open spec fn blank_pred() -> spec_fn(Seq<char>) -> bool {
    |l: Seq<char>| trim(l).len() == 0
}

/// A line that is not blank after trimming.
pub open spec fn nonblank_pred() -> spec_fn(Seq<char>) -> bool {
    |l: Seq<char>| trim(l).len() > 0
}

pub fn is_blank_v(l: &Vec<char>) -> (r: bool)
    ensures
        r == (trim(l@).len() == 0),
{
    trim_v(l).len() == 0
}

/// First line at or after `from` that is not blank.
pub fn first_nonblank_from(ls: &Vec<Vec<char>>, from: usize) -> (r: usize)
    requires
        from <= ls.len(),
    ensures
        r == first_where(views(ls@), nonblank_pred(), from as int),
        is_first_where(views(ls@), nonblank_pred(), from as int, r as int),
{
    let mut j = from;
    while j < ls.len() && is_blank_v(&ls[j])
        invariant
            from <= j <= ls.len(),
            forall|k: int| from <= k < j ==> !(nonblank_pred())(#[trigger] views(ls@)[k]),
        decreases ls.len() - j,
    {
        j = j + 1;
    }
    proof {
        lemma_first_where(views(ls@), nonblank_pred(), from as int, j as int);
    }
    j
}

/// `str::trim_start_matches` with a string pattern.
pub open spec fn trim_start_str(s: Seq<char>, p: Seq<char>) -> Seq<char>
    decreases s.len(),
{
    if p.len() > 0 && starts_with(s, p) {
        trim_start_str(s.skip(p.len() as int), p)
    } else {
        s
    }
}

pub fn trim_start_str_v(v: &Vec<char>, p: &str) -> (r: Vec<char>)
    ensures
        r@ == trim_start_str(v@, p@),
{
    let pv = chars_of(p);
    if pv.len() == 0 {
        return v.clone();
    }
    let mut i: usize = 0;
    assert(v@.skip(0) =~= v@);
    while i <= v.len() && occurs_at_v(v, &pv, i)
        invariant
            i <= v.len(),
            pv@ == p@,
            pv.len() > 0,
            trim_start_str(v@.skip(i as int), p@) == trim_start_str(v@, p@),
        decreases v.len() - i,
    {
        proof {
            assert(v@.skip(i as int).take(pv.len() as int) =~= v@.subrange(i as int, i + pv.len()));
            assert(v@.skip(i as int).skip(pv.len() as int) =~= v@.skip(i + pv.len()));
        }
        i = i + pv.len();
    }
    proof {
        if starts_with(v@.skip(i as int), p@) {
            assert(v@.skip(i as int).take(pv.len() as int) =~= v@.subrange(i as int, i + pv.len()));
        }
    }
    slice_of(v, i, v.len())
}

/// `str::trim_end_matches` with a string pattern.
pub open spec fn trim_end_str(s: Seq<char>, p: Seq<char>) -> Seq<char>
    decreases s.len(),
{
    if p.len() > 0 && ends_with(s, p) {
        trim_end_str(s.take(s.len() - p.len()), p)
    } else {
        s
    }
}

pub fn trim_end_str_v(v: &Vec<char>, p: &str) -> (r: Vec<char>)
    ensures
        r@ == trim_end_str(v@, p@),
{
    let pv = chars_of(p);
    if pv.len() == 0 {
        return v.clone();
    }
    let mut k: usize = v.len();
    assert(v@.take(k as int) =~= v@);
    while k >= pv.len() && ends_with_v(&slice_of(v, 0, k), &pv)
        invariant
            k <= v.len(),
            pv@ == p@,
            pv.len() > 0,
            trim_end_str(v@.take(k as int), p@) == trim_end_str(v@, p@),
        decreases k,
    {
        proof {
            assert(v@.take(k as int).take(k - pv.len()) =~= v@.take(k - pv.len()));
        }
        k = k - pv.len();
    }
    proof {
        if k < pv.len() {
            assert(!ends_with(v@.take(k as int), p@));
        }
    }
    slice_of(v, 0, k)
}

/// `s` with every `\r` that does not start a `\r\n` turned into `\n`.
pub open spec fn normalize_cr(s: Seq<char>) -> Seq<char> {
    Seq::new(
        s.len(),
        |i: int|
            if s[i] == '\r' && (i + 1 >= s.len() || s[i + 1] != '\n') {
                '\n'
            } else {
                s[i]
            },
    )
}

/// A `\r` at `i` that does not start a `\r\n`.
pub open spec fn lone_cr_at(s: Seq<char>, i: int) -> bool {
    s[i] == '\r' && (i + 1 >= s.len() || s[i + 1] != '\n')
}

/// Whether `s` holds a `\r` that does not start a `\r\n`.
pub open spec fn has_lone_cr(s: Seq<char>) -> bool {
    exists|i: int| 0 <= i < s.len() && #[trigger] lone_cr_at(s, i)
}

pub fn normalize_cr_v(v: &Vec<char>) -> (r: Vec<char>)
    ensures
        r@ == normalize_cr(v@),
{
    let mut r: Vec<char> = Vec::new();
    let mut i: usize = 0;
    while i < v.len()
        invariant
            i <= v.len(),
            r@ == normalize_cr(v@).take(i as int),
        decreases v.len() - i,
    {
        let c = v[i];
        let lone = c == '\r' && (i + 1 >= v.len() || v[i + 1] != '\n');
        if lone {
            r.push('\n');
        } else {
            r.push(c);
        }
        assert(normalize_cr(v@).take(i + 1) =~= normalize_cr(v@).take(i as int).push(normalize_cr(v@)[i as int]));
        i = i + 1;
    }
    assert(normalize_cr(v@).take(v.len() as int) =~= normalize_cr(v@));
    r
}

pub fn has_lone_cr_v(v: &Vec<char>) -> (r: bool)
    ensures
        r == has_lone_cr(v@),
{
    let mut i: usize = 0;
    while i < v.len()
        invariant
            i <= v.len(),
            forall|k: int| 0 <= k < i ==> !#[trigger] lone_cr_at(v@, k),
        decreases v.len() - i,
    {
        if v[i] == '\r' && (i + 1 >= v.len() || v[i + 1] != '\n') {
            assert(lone_cr_at(v@, i as int));
            return true;
        }
        i = i + 1;
    }
    false
}

pub proof fn lemma_normalize_noop(s: Seq<char>)
    requires
        !has_lone_cr(s),
    ensures
        normalize_cr(s) == s,
{
    assert forall|i: int| 0 <= i < s.len() implies normalize_cr(s)[i] == s[i] by {
        if lone_cr_at(s, i) {
        }
    }
    assert(normalize_cr(s) =~= s);
}

// ---------------------------------------------------------------------------
// Splitting and joining back
// ---------------------------------------------------------------------------

/// `s` holds no `c`.
pub open spec fn free_of(s: Seq<char>, c: char) -> bool {
    forall|i: int| 0 <= i < s.len() ==> s[i] != c
}

/// Every piece is free of `c`.
pub open spec fn all_free_of(ls: Seq<Seq<char>>, c: char) -> bool {
    forall|k: int| 0 <= k < ls.len() ==> free_of(#[trigger] ls[k], c)
}

/// Joining with a piece in front puts the separator after it.
pub proof fn lemma_join_cons(a: Seq<char>, rest: Seq<Seq<char>>, sep: Seq<char>)
    requires
        rest.len() > 0,
    ensures
        join(seq![a] + rest, sep) == a + sep + join(rest, sep),
    decreases rest.len(),
{
    let l = seq![a] + rest;
    if rest.len() == 1 {
        assert(l.drop_last() =~= seq![a]);
        assert(join(seq![a], sep) == a);
        assert(join(rest, sep) == rest[0]);
    } else {
        assert(l.drop_last() =~= seq![a] + rest.drop_last());
        lemma_join_cons(a, rest.drop_last(), sep);
        assert(a + sep + join(rest.drop_last(), sep) + sep + rest.last() =~= a + sep + (join(rest.drop_last(), sep) + sep + rest.last()));
    }
}

/// Joining after a push puts the separator before the new piece.
pub proof fn lemma_join_push(ls: Seq<Seq<char>>, x: Seq<char>, sep: Seq<char>)
    requires
        ls.len() > 0,
    ensures
        join(ls.push(x), sep) == join(ls, sep) + sep + x,
{
    assert(ls.push(x).drop_last() =~= ls);
}

/// Splitting always yields at least one piece.
pub proof fn lemma_split_nonempty(s: Seq<char>, p: Seq<char>)
    ensures
        split(s, p).len() >= 1,
    decreases s.len(),
{
    if p.len() > 0 {
        let i = find(s, p);
        if i >= 0 {
            lemma_find(s, p);
            lemma_split_nonempty(s.skip(i + p.len()), p);
        }
    }
}

/// Joining the pieces of a split gives the string back.
pub proof fn lemma_join_split(s: Seq<char>, p: Seq<char>)
    requires
        p.len() > 0,
    ensures
        join(split(s, p), p) == s,
        split(s, p).len() >= 1,
    decreases s.len(),
{
    lemma_split_nonempty(s, p);
    let i = find(s, p);
    if i >= 0 {
        lemma_find(s, p);
        let rest = s.skip(i + p.len());
        lemma_join_split(rest, p);
        lemma_split_nonempty(rest, p);
        lemma_join_cons(s.take(i), split(rest, p), p);
        assert(s.subrange(i, i + p.len()) == p);
        assert(s.take(i) + p + rest =~= s);
    }
}

/// An occurrence of `p` starts with `p[0]`.
proof fn lemma_occurs_first(s: Seq<char>, p: Seq<char>, j: int)
    requires
        p.len() > 0,
        occurs_at(s, p, j),
    ensures
        s[j] == p[0],
{
    assert(s.subrange(j, j + p.len())[0] == s[j]);
}

/// Splitting pieces that hold no `sep[0]`, joined with `sep`, gives them back.
pub proof fn lemma_split_join(ls: Seq<Seq<char>>, sep: Seq<char>)
    requires
        ls.len() >= 1,
        sep.len() > 0,
        all_free_of(ls, sep[0]),
    ensures
        split(join(ls, sep), sep) == ls,
    decreases ls.len(),
{
    let a = ls[0];
    assert(free_of(a, sep[0]));
    if ls.len() == 1 {
        assert(join(ls, sep) == a);
        assert forall|j: int| !#[trigger] occurs_at(a, sep, j) by {
            if occurs_at(a, sep, j) {
                lemma_occurs_first(a, sep, j);
            }
        }
        lemma_find_none(a, sep);
        assert(split(a, sep) =~= seq![a]);
    } else {
        let rest = ls.drop_first();
        assert(ls =~= seq![a] + rest);
        lemma_join_cons(a, rest, sep);
        let s = join(ls, sep);
        let jr = join(rest, sep);
        assert(s == a + sep + jr);
        assert(s.subrange(a.len() as int, (a.len() + sep.len()) as int) =~= sep);
        assert forall|j: int| 0 <= j < a.len() implies !#[trigger] occurs_at(s, sep, j) by {
            if occurs_at(s, sep, j) {
                lemma_occurs_first(s, sep, j);
                assert(s[j] == a[j]);
            }
        }
        lemma_find_is(s, sep, a.len() as int);
        assert(s.take(a.len() as int) =~= a);
        assert(s.skip((a.len() + sep.len()) as int) =~= jr);
        assert forall|k: int| 0 <= k < rest.len() implies free_of(#[trigger] rest[k], sep[0]) by {
            assert(rest[k] == ls[k + 1]);
        }
        lemma_split_join(rest, sep);
    }
}

/// The pieces of a split are pieces of the string: each is free of any
/// character the string is free of.
pub proof fn lemma_split_free(s: Seq<char>, p: Seq<char>, c: char)
    requires
        p.len() > 0,
        free_of(s, c),
    ensures
        all_free_of(split(s, p), c),
    decreases s.len(),
{
    let i = find(s, p);
    if i >= 0 {
        lemma_find(s, p);
        let rest = s.skip(i + p.len());
        lemma_split_free(rest, p, c);
        let ls = split(s, p);
        assert(ls == seq![s.take(i)] + split(rest, p));
        assert forall|k: int| 0 <= k < ls.len() implies free_of(#[trigger] ls[k], c) by {
            if k > 0 {
                assert(ls[k] == split(rest, p)[k - 1]);
            }
        }
    } else {
        assert(split(s, p) =~= seq![s]);
    }
}

/// The pieces of a split by a one-character separator hold no separator.
pub proof fn lemma_split_free_sep(s: Seq<char>, c: char)
    ensures
        all_free_of(split(s, seq![c]), c),
    decreases s.len(),
{
    let p = seq![c];
    let i = find(s, p);
    lemma_find(s, p);
    if i >= 0 {
        let rest = s.skip(i + 1);
        lemma_split_free_sep(rest, c);
        let ls = split(s, p);
        assert(ls == seq![s.take(i)] + split(rest, p));
        assert forall|j: int| 0 <= j < i implies s.take(i)[j] != c by {
            if s[j] == c {
                assert(s.subrange(j, j + 1) =~= p);
                assert(occurs_at(s, p, j));
            }
        }
        assert forall|k: int| 0 <= k < ls.len() implies free_of(#[trigger] ls[k], c) by {
            if k > 0 {
                assert(ls[k] == split(rest, p)[k - 1]);
            }
        }
    } else {
        assert forall|j: int| 0 <= j < s.len() implies s[j] != c by {
            if s[j] == c {
                assert(s.subrange(j, j + 1) =~= p);
                assert(occurs_at(s, p, j));
            }
        }
        assert(split(s, p) =~= seq![s]);
    }
}

/// Without a lone `\r`, the pieces of a split at `\r\n` hold no `\r`.
pub proof fn lemma_split_crlf_free(s: Seq<char>)
    requires
        !has_lone_cr(s),
    ensures
        all_free_of(split(s, seq!['\r', '\n']), '\r'),
    decreases s.len(),
{
    let p = seq!['\r', '\n'];
    let i = find(s, p);
    lemma_find(s, p);
    assert forall|j: int| 0 <= j < s.len() && #[trigger] s[j] == '\r' implies j + 1 < s.len() && s[j + 1] == '\n' by {
        if !(j + 1 < s.len() && s[j + 1] == '\n') {
            assert(lone_cr_at(s, j));
        }
    }
    if i >= 0 {
        let rest = s.skip(i + 2);
        assert forall|j: int| 0 <= j < rest.len() implies !#[trigger] lone_cr_at(rest, j) by {
            if lone_cr_at(rest, j) {
                assert(rest[j] == s[j + i + 2]);
                if j + 1 < rest.len() {
                    assert(rest[j + 1] == s[j + i + 3]);
                }
                assert(lone_cr_at(s, j + i + 2));
            }
        }
        lemma_split_crlf_free(rest);
        let ls = split(s, p);
        assert(ls == seq![s.take(i)] + split(rest, p));
        assert forall|j: int| 0 <= j < i implies s.take(i)[j] != '\r' by {
            if s[j] == '\r' {
                assert(s.subrange(j, j + 2) =~= p);
                assert(occurs_at(s, p, j));
            }
        }
        assert forall|k: int| 0 <= k < ls.len() implies free_of(#[trigger] ls[k], '\r') by {
            if k > 0 {
                assert(ls[k] == split(rest, p)[k - 1]);
            }
        }
    } else {
        assert forall|j: int| 0 <= j < s.len() implies s[j] != '\r' by {
            if s[j] == '\r' {
                assert(s.subrange(j, j + 2) =~= p);
                assert(occurs_at(s, p, j));
            }
        }
        assert(split(s, p) =~= seq![s]);
    }
}

/// Joining `\r`-free pieces with `\n` or `\r\n` leaves no lone `\r`.
pub proof fn lemma_join_no_lone_cr(ls: Seq<Seq<char>>, sep: Seq<char>)
    requires
        all_free_of(ls, '\r'),
        sep == seq!['\n'] || sep == seq!['\r', '\n'],
    ensures
        !has_lone_cr(join(ls, sep)),
    decreases ls.len(),
{
    if ls.len() == 1 {
        assert(free_of(ls[0], '\r'));
    } else if ls.len() > 1 {
        let front = ls.drop_last();
        assert forall|k: int| 0 <= k < front.len() implies free_of(#[trigger] front[k], '\r') by {
            assert(front[k] == ls[k]);
        }
        lemma_join_no_lone_cr(front, sep);
        let a = join(front, sep);
        let b = ls.last();
        assert(free_of(b, '\r'));
        let s = a + sep + b;
        assert forall|j: int| 0 <= j < s.len() implies !#[trigger] lone_cr_at(s, j) by {
            if j < a.len() {
                assert(s[j] == a[j]);
                if a[j] == '\r' {
                    assert(!lone_cr_at(a, j));
                    if j + 1 < a.len() {
                        assert(s[j + 1] == a[j + 1]);
                    }
                }
            } else if j < a.len() + sep.len() {
                assert(s[j] == sep[j - a.len()]);
            } else {
                assert(s[j] == b[j - a.len() - sep.len()]);
            }
        }
    }
}

/// Joining `\r`-free pieces with `\n` gives a `\r`-free string.
pub proof fn lemma_join_free(ls: Seq<Seq<char>>, sep: Seq<char>, c: char)
    requires
        all_free_of(ls, c),
        free_of(sep, c),
    ensures
        free_of(join(ls, sep), c),
    decreases ls.len(),
{
    if ls.len() == 1 {
        assert(free_of(ls[0], c));
    } else if ls.len() > 1 {
        let front = ls.drop_last();
        assert forall|k: int| 0 <= k < front.len() implies free_of(#[trigger] front[k], c) by {
            assert(front[k] == ls[k]);
        }
        lemma_join_free(front, sep, c);
        let a = join(front, sep);
        let b = ls.last();
        assert(free_of(b, c));
        let s = a + sep + b;
        assert forall|j: int| 0 <= j < s.len() implies s[j] != c by {
            if j < a.len() {
                assert(s[j] == a[j]);
            } else if j < a.len() + sep.len() {
                assert(s[j] == sep[j - a.len()]);
            } else {
                assert(s[j] == b[j - a.len() - sep.len()]);
            }
        }
    }
}

/// A string free of `p[0]` holds no occurrence of `p`.
pub proof fn lemma_free_no_occ(s: Seq<char>, p: Seq<char>)
    requires
        p.len() > 0,
        free_of(s, p[0]),
    ensures
        !contains(s, p),
{
    assert forall|j: int| !#[trigger] occurs_at(s, p, j) by {
        if occurs_at(s, p, j) {
            lemma_occurs_first(s, p, j);
        }
    }
}

/// Joining two or more pieces with `sep` contains `sep`.
pub proof fn lemma_join_contains_sep(ls: Seq<Seq<char>>, sep: Seq<char>)
    requires
        ls.len() >= 2,
    ensures
        contains(join(ls, sep), sep),
{
    let a = join(ls.drop_last(), sep);
    let s = a + sep + ls.last();
    assert(s.subrange(a.len() as int, (a.len() + sep.len()) as int) =~= sep);
    assert(occurs_at(s, sep, a.len() as int));
}

/// Normalizing leaves no lone `\r`.
pub proof fn lemma_normalize_clean(s: Seq<char>)
    ensures
        !has_lone_cr(normalize_cr(s)),
{
    let n = normalize_cr(s);
    assert forall|i: int| 0 <= i < n.len() implies !#[trigger] lone_cr_at(n, i) by {
        if n[i] == '\r' {
            assert(s[i] == '\r' && !(i + 1 >= s.len() || s[i + 1] != '\n'));
            assert(n[i + 1] == s[i + 1]);
        }
    }
}

/// A string whose ends are not blank is its own trim.
pub proof fn lemma_trim_id(s: Seq<char>)
    requires
        s.len() == 0 || (!is_ws(s[0]) && !is_ws(s.last())),
    ensures
        trim_start(s) == s,
        trim(s) == s,
{
    assert(is_lead(s, ws_pred(), 0));
    lemma_lead(s, ws_pred(), 0);
    assert(s.skip(0) =~= s);
    assert(is_trail(s, ws_pred(), 0));
    lemma_trail(s, ws_pred(), 0);
    assert(s.take(s.len() as int) =~= s);
}

/// A decimal spelling is one or more digits.
pub proof fn lemma_dec_digits(n: nat)
    ensures
        dec(n).len() >= 1,
        all_digits(dec(n)),
    decreases n,
{
    if n >= 10 {
        lemma_dec_digits(n / 10);
        let d = dec(n / 10);
        assert(dec(n) == d.push(digit_char(n % 10)));
        assert forall|i: int| 0 <= i < dec(n).len() implies is_digit(#[trigger] dec(n)[i]) by {
            if i < d.len() {
                assert(dec(n)[i] == d[i]);
            } else {
                assert(digit_char(n % 10) as u32 == 48 + n % 10);
            }
        }
    } else {
        assert(digit_char(n) as u32 == 48 + n);
    }
}

/// Zero-padding digits gives digits.
pub proof fn lemma_pad_digits(s: Seq<char>, w: nat)
    requires
        all_digits(s),
    ensures
        all_digits(pad_zero(s, w)),
        pad_zero(s, w).len() >= s.len(),
        s.len() >= 1 ==> pad_zero(s, w).last() == s.last(),
{
    if s.len() < w {
        let z = Seq::new((w - s.len()) as nat, |i: int| '0');
        assert forall|i: int| 0 <= i < pad_zero(s, w).len() implies is_digit(#[trigger] pad_zero(s, w)[i]) by {
            if i < z.len() {
                assert(pad_zero(s, w)[i] == '0');
            } else {
                assert(pad_zero(s, w)[i] == s[i - z.len()]);
            }
        }
    }
}

/// Digits hold no line break.
pub proof fn lemma_digits_free(s: Seq<char>)
    requires
        all_digits(s),
    ensures
        free_of(s, '\r'),
        free_of(s, '\n'),
{
    assert forall|i: int| 0 <= i < s.len() implies s[i] != '\r' && s[i] != '\n' by {
        assert(is_digit(s[i]));
    }
}

/// Inserting a line keeps every line free of `c` when the new one is.
pub proof fn lemma_insert_free(ls: Seq<Seq<char>>, at: int, x: Seq<char>, c: char)
    requires
        0 <= at <= ls.len(),
        all_free_of(ls, c),
        free_of(x, c),
    ensures
        all_free_of(ls.insert(at, x), c),
{
    let l2 = ls.insert(at, x);
    assert forall|k: int| 0 <= k < l2.len() implies free_of(#[trigger] l2[k], c) by {
        if k < at {
            assert(l2[k] == ls[k]);
        } else if k > at {
            assert(l2[k] == ls[k - 1]);
        }
    }
}

/// Replacing a line keeps every line free of `c` when the new one is.
pub proof fn lemma_update_free(ls: Seq<Seq<char>>, at: int, x: Seq<char>, c: char)
    requires
        0 <= at < ls.len(),
        all_free_of(ls, c),
        free_of(x, c),
    ensures
        all_free_of(ls.update(at, x), c),
{
    let l2 = ls.update(at, x);
    assert forall|k: int| 0 <= k < l2.len() implies free_of(#[trigger] l2[k], c) by {
        if k != at {
            assert(l2[k] == ls[k]);
        }
    }
}

/// After inserting a matching line into lines none of which match, the
/// first match is the inserted one.
pub proof fn lemma_first_where_insert(ls: Seq<Seq<char>>, f: spec_fn(Seq<char>) -> bool, at: int, x: Seq<char>)
    requires
        0 <= at <= ls.len(),
        forall|k: int| 0 <= k < ls.len() ==> !f(#[trigger] ls[k]),
        f(x),
    ensures
        first_where(ls.insert(at, x), f, 0) == at,
{
    let l2 = ls.insert(at, x);
    assert forall|k: int| 0 <= k < at implies !f(#[trigger] l2[k]) by {
        assert(l2[k] == ls[k]);
    }
    assert(is_first_where(l2, f, 0, at));
    lemma_first_where(l2, f, 0, at);
}

/// Replacing the first match with another matching line keeps it first.
pub proof fn lemma_first_where_update(ls: Seq<Seq<char>>, f: spec_fn(Seq<char>) -> bool, from: int, e: int, x: Seq<char>)
    requires
        0 <= from <= e < ls.len(),
        is_first_where(ls, f, from, e),
        f(x),
    ensures
        first_where(ls.update(e, x), f, from) == e,
{
    let l2 = ls.update(e, x);
    assert forall|k: int| from <= k < e implies !f(#[trigger] l2[k]) by {
        assert(l2[k] == ls[k]);
    }
    assert(is_first_where(l2, f, from, e));
    lemma_first_where(l2, f, from, e);
}

/// A string that does not start with a blank is its own `trim_start`, and
/// its trim keeps its first character.
pub proof fn lemma_trim_start_id(s: Seq<char>)
    requires
        s.len() > 0,
        !is_ws(s[0]),
    ensures
        trim_start(s) == s,
        trim(s).len() > 0,
        trim(s)[0] == s[0],
{
    assert(is_lead(s, ws_pred(), 0));
    lemma_lead(s, ws_pred(), 0);
    assert(s.skip(0) =~= s);
    lemma_trail_exists(s, ws_pred());
    let k = trail(s, ws_pred());
    if k == s.len() {
        assert((ws_pred())(s[0]));
    }
}

/// Lines that agree on a predicate agree on its first match.
pub proof fn lemma_first_where_same(ls: Seq<Seq<char>>, ls2: Seq<Seq<char>>, f: spec_fn(Seq<char>) -> bool, from: int)
    requires
        ls.len() == ls2.len(),
        0 <= from <= ls.len(),
        forall|k: int| 0 <= k < ls.len() ==> f(#[trigger] ls[k]) == f(ls2[k]),
    ensures
        first_where(ls2, f, from) == first_where(ls, f, from),
{
    lemma_first_where_exists(ls, f, from);
    let k = first_where(ls, f, from);
    assert forall|j: int| from <= j < k implies !f(#[trigger] ls2[j]) by {
        assert(!f(ls[j]));
    }
    if k < ls.len() {
        assert(f(ls[k]));
    }
    assert(is_first_where(ls2, f, from, k));
    lemma_first_where(ls2, f, from, k);
}

/// The leading blanks of `a + b`, where `a` is all blanks and `b` does not
/// start with one, are `a`.
pub proof fn lemma_lead_ws_concat(a: Seq<char>, b: Seq<char>)
    requires
        forall|i: int| 0 <= i < a.len() ==> is_ws(#[trigger] a[i]),
        b.len() > 0,
        !is_ws(b[0]),
    ensures
        lead(a + b, ws_pred()) == a.len(),
        trim_start(a + b) == b,
{
    let s = a + b;
    assert forall|j: int| 0 <= j < a.len() implies (ws_pred())(#[trigger] s[j]) by {
        assert(s[j] == a[j]);
    }
    assert(s[a.len() as int] == b[0]);
    assert(is_lead(s, ws_pred(), a.len() as int));
    lemma_lead(s, ws_pred(), a.len() as int);
    assert(s.skip(a.len() as int) =~= b);
}


/// The value of a decimal spelling is the number spelled.
pub proof fn lemma_dec_value(n: nat)
    ensures
        digits_val(dec(n)) == n,
    decreases n,
{
    let c = digit_char(n % 10);
    assert(c as u32 == 48 + n % 10);
    assert(digit_val(c) == n % 10);
    if n < 10 {
        assert(dec(n) == seq![c]);
        assert(seq![c].drop_last() =~= Seq::<char>::empty());
        assert(digits_val(Seq::<char>::empty()) == 0);
        assert(digits_val(dec(n)) == digits_val(dec(n).drop_last()) * 10 + digit_val(dec(n).last()));
    } else {
        lemma_dec_value(n / 10);
        let d = dec(n / 10);
        assert(dec(n) == d.push(c));
        assert(d.push(c).drop_last() =~= d);
        assert(digits_val(dec(n)) == digits_val(dec(n).drop_last()) * 10 + digit_val(dec(n).last()));
        assert(digits_val(dec(n)) == (n / 10) * 10 + n % 10);
    }
}

/// A run of `0`s is worth nothing.
pub proof fn lemma_zeros_value(z: nat)
    ensures
        digits_val(Seq::new(z, |i: int| '0')) == 0,
    decreases z,
{
    if z > 0 {
        lemma_zeros_value((z - 1) as nat);
        assert(Seq::new(z, |i: int| '0').drop_last() =~= Seq::new((z - 1) as nat, |i: int| '0'));
        assert(digit_val('0') == 0);
    }
}

/// Leading zeros do not change a value.
pub proof fn lemma_leading_zeros_value(z: nat, s: Seq<char>)
    ensures
        digits_val(Seq::new(z, |i: int| '0') + s) == digits_val(s),
    decreases s.len(),
{
    let zs = Seq::new(z, |i: int| '0');
    if s.len() == 0 {
        assert(zs + s =~= zs);
        lemma_zeros_value(z);
    } else {
        lemma_leading_zeros_value(z, s.drop_last());
        assert((zs + s).drop_last() =~= zs + s.drop_last());
        assert((zs + s).last() == s.last());
    }
}

/// A zero-padded decimal spelling is worth the number.
pub proof fn lemma_pad_value(n: nat, w: nat)
    ensures
        digits_val(pad_zero(dec(n), w)) == n,
{
    lemma_dec_value(n);
    if dec(n).len() < w {
        lemma_leading_zeros_value((w - dec(n).len()) as nat, dec(n));
    }
}

/// An all-digit string's leading digits are the whole of it.
pub proof fn lemma_leading_all_digits(s: Seq<char>)
    requires
        all_digits(s),
    ensures
        lead(s, digit_pred()) == s.len(),
        s.take(lead(s, digit_pred())) == s,
{
    assert(is_lead(s, digit_pred(), s.len() as int));
    lemma_lead(s, digit_pred(), s.len() as int);
    assert(s.take(s.len() as int) =~= s);
}

/// A zero-padded decimal spelling of a `u32` parses back to it, whole or as
/// leading digits.
pub proof fn lemma_parse_padded(n: u32, w: nat)
    ensures
        parse_u32(pad_zero(dec(n as nat), w)) == Some(n),
        leading_digits(pad_zero(dec(n as nat), w)) == Some(n),
{
    let s = pad_zero(dec(n as nat), w);
    lemma_dec_digits(n as nat);
    lemma_pad_digits(dec(n as nat), w);
    lemma_pad_value(n as nat, w);
    assert(is_digit(s[0]));
    lemma_leading_all_digits(s);
}

/// A decimal spelling of a `u32` parses back to it, whole or as leading
/// digits.
pub proof fn lemma_parse_dec(n: u32)
    ensures
        parse_u32(dec(n as nat)) == Some(n),
        leading_digits(dec(n as nat)) == Some(n),
{
    lemma_dec_digits(n as nat);
    assert(pad_zero(dec(n as nat), 0) == dec(n as nat));
    lemma_parse_padded(n, 0);
}

/// A text whose last character is a carriage return.
pub open spec fn ends_in_cr(s: Seq<char>) -> bool {
    s.len() > 0 && s.last() == '\r'
}

/// A one-character pattern occurs exactly where that character stands.
pub proof fn lemma_occurs_char(s: Seq<char>, c: char, j: int)
    ensures
        occurs_at(s, seq![c], j) <==> (0 <= j < s.len() && s[j] == c),
{
    if 0 <= j < s.len() {
        assert(s.subrange(j, j + 1) =~= seq![s[j]]);
        if s[j] != c {
            assert(s.subrange(j, j + 1)[0] != seq![c][0]);
        }
    }
}

/// A text of newlines only is trimmed to nothing.
proof fn lemma_all_newlines_trim(r: Seq<char>)
    requires
        forall|j: int| 0 <= j < r.len() ==> r[j] == '\n',
    ensures
        trim_end_char(r, '\n') == Seq::<char>::empty(),
{
    assert(is_trail(r, eq_pred('\n'), r.len() as int));
    lemma_trail(r, eq_pred('\n'), r.len() as int);
    assert(r.take(0) =~= Seq::<char>::empty());
}

/// Newlines at the end of a text only add empty lines: the lines of the
/// text without them come first, and every line after those is empty. (A
/// text whose last other character is a carriage return is left out: there
/// the last line keeps its `\r` once the newline after it is gone.)
pub proof fn lemma_lines_trim_newlines(s: Seq<char>)
    requires
        !ends_in_cr(trim_end_char(s, '\n')),
    ensures
        lines(trim_end_char(s, '\n')).len() <= lines(s).len(),
        lines(s).take(lines(trim_end_char(s, '\n')).len() as int) == lines(trim_end_char(s, '\n')),
        forall|j: int| lines(trim_end_char(s, '\n')).len() <= j < lines(s).len() ==> (#[trigger] lines(s)[j]).len() == 0,
    decreases s.len(),
{
    let nl = seq!['\n'];
    let f = eq_pred('\n');
    lemma_trail_exists(s, f);
    let m = trail(s, f);
    let t = trim_end_char(s, '\n');
    assert(t == s.take(s.len() - m));
    lemma_find(s, nl);
    let i = find(s, nl);
    if s.len() == 0 {
        assert(t =~= s);
        assert(lines(s).take(0) =~= lines(t));
    } else if i < 0 {
        if m > 0 {
            lemma_occurs_char(s, '\n', s.len() - 1);
        }
        assert(t =~= s);
        assert(lines(s).take(lines(s).len() as int) =~= lines(s));
    } else {
        lemma_occurs_char(s, '\n', i);
        assert forall|j: int| 0 <= j < i implies s[j] != '\n' by {
            lemma_occurs_char(s, '\n', j);
        }
        let rest = s.skip(i + 1);
        assert(lines(s) == seq![strip_cr(s.take(i))] + lines(rest));
        if t.len() == 0 {
            assert forall|j: int| 0 <= j < s.len() implies s[j] == '\n' by {
                assert(s.len() - m <= j);
            }
            assert(i == 0);
            assert forall|j: int| 0 <= j < rest.len() implies rest[j] == '\n' by {
                assert(rest[j] == s[j + 1]);
            }
            lemma_all_newlines_trim(rest);
            lemma_lines_trim_newlines(rest);
            assert(lines(Seq::<char>::empty()).len() == 0);
            assert(strip_cr(s.take(0)).len() == 0);
            assert forall|j: int| 0 <= j < lines(s).len() implies (#[trigger] lines(s)[j]).len() == 0 by {
                if j > 0 {
                    assert(lines(s)[j] == lines(rest)[j - 1]);
                }
            }
            assert(lines(s).take(0) =~= lines(t));
        } else if i >= t.len() {
            assert(m > 0) by {
                if m == 0 {
                    assert(t =~= s);
                }
            }
            assert(s[t.len() as int] == '\n');
            lemma_occurs_char(s, '\n', t.len() as int);
            assert(i == t.len());
            assert forall|j: int| 0 <= j < rest.len() implies rest[j] == '\n' by {
                assert(rest[j] == s[i + 1 + j]);
                assert(s.len() - m <= i + 1 + j);
            }
            lemma_all_newlines_trim(rest);
            lemma_lines_trim_newlines(rest);
            assert(s.take(i) =~= t);
            assert(strip_cr(t) == t);
            assert forall|j: int| !#[trigger] occurs_at(t, nl, j) by {
                lemma_occurs_char(t, '\n', j);
                if 0 <= j < t.len() {
                    assert(t[j] == s[j]);
                }
            }
            lemma_find_none(t, nl);
            assert(lines(t) == seq![t]);
            assert(lines(s).take(1) =~= lines(t));
            assert forall|j: int| 1 <= j < lines(s).len() implies (#[trigger] lines(s)[j]).len() == 0 by {
                assert(lines(s)[j] == lines(rest)[j - 1]);
            }
        } else {
            assert(t[i] == '\n');
            assert(t.take(i) =~= s.take(i));
            assert(i + 1 < t.len()) by {
                if i + 1 == t.len() {
                    assert(s[s.len() - m - 1] == t[i]);
                }
            }
            lemma_occurs_char(t, '\n', i);
            assert forall|j: int| 0 <= j < i implies !#[trigger] occurs_at(t, nl, j) by {
                lemma_occurs_char(t, '\n', j);
                assert(t[j] == s[j]);
            }
            lemma_find_is(t, nl, i);
            let t2 = t.skip(i + 1);
            assert(lines(t) == seq![strip_cr(t.take(i))] + lines(t2));
            assert(is_trail(rest, f, m)) by {
                assert forall|j: int| rest.len() - m <= j < rest.len() implies f(#[trigger] rest[j]) by {
                    assert(rest[j] == s[i + 1 + j]);
                }
                assert(rest[rest.len() - m - 1] == s[s.len() - m - 1]);
            }
            lemma_trail(rest, f, m);
            assert(trim_end_char(rest, '\n') =~= t2);
            assert(t2.last() == t.last());
            lemma_lines_trim_newlines(rest);
            let n2 = lines(t2).len() as int;
            assert(lines(s).take(n2 + 1) =~= lines(t));
            assert forall|j: int| n2 + 1 <= j < lines(s).len() implies (#[trigger] lines(s)[j]).len() == 0 by {
                assert(lines(s)[j] == lines(rest)[j - 1]);
            }
        }
    }
}

/// Reading back lines joined by `\n`: the lines themselves, less a last
/// empty one, when none holds a line break.
pub proof fn lemma_lines_join_lf(ls: Seq<Seq<char>>)
    requires
        ls.len() >= 1,
        all_free_of(ls, '\n'),
        all_free_of(ls, '\r'),
    ensures
        lines(join(ls, seq!['\n'])) == (if ls.last().len() == 0 { ls.drop_last() } else { ls }),
    decreases ls.len(),
{
    let nl = seq!['\n'];
    let a = ls[0];
    assert(free_of(a, '\n'));
    assert(free_of(a, '\r'));
    if ls.len() == 1 {
        assert(join(ls, nl) == a);
        if a.len() > 0 {
            lemma_free_no_occ(a, nl);
            lemma_find(a, nl);
            assert(ls.drop_last().len() == 0);
        } else {
            assert(ls.drop_last() =~= Seq::<Seq<char>>::empty());
        }
    } else {
        let rest = ls.drop_first();
        assert(seq![a] + rest =~= ls);
        lemma_join_cons(a, rest, nl);
        let j = join(rest, nl);
        let t = a + nl + j;
        assert(join(ls, nl) == t);
        let i = a.len() as int;
        assert(occurs_at(t, nl, i)) by {
            assert(t.subrange(i, i + 1) =~= nl);
        }
        assert forall|k: int| 0 <= k < i implies !#[trigger] occurs_at(t, nl, k) by {
            if occurs_at(t, nl, k) {
                assert(t.subrange(k, k + 1)[0] == t[k]);
                assert(t[k] == a[k]);
            }
        }
        lemma_find_is(t, nl, i);
        assert(t.take(i) =~= a);
        assert(t.skip(i + 1) =~= j);
        assert(strip_cr(a) == a) by {
            if a.len() > 0 {
                assert(a.last() == a[a.len() - 1]);
            }
        }
        assert forall|k: int| 0 <= k < rest.len() implies free_of(#[trigger] rest[k], '\n') && free_of(rest[k], '\r') by {
            assert(rest[k] == ls[k + 1]);
        }
        lemma_lines_join_lf(rest);
        assert(rest.last() == ls.last());
        if ls.last().len() == 0 {
            assert(seq![a] + rest.drop_last() =~= ls.drop_last());
        }
    }
}

} // verus!
