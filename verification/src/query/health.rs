//! Repository health: the problems `check` reports, how they are ordered,
//! and the rules that find them.
use vstd::prelude::*;
use vstd::relations::sorted_by;
use crate::adr::{adr_ref, status_name, Adr, Status};
use crate::format::{opt_seq, resolve_note, status_region, Format};
use crate::links::{md_targets_from, rel_link_spec};
use crate::naming::{lowercase, opt_view, scheme_display, scheme_parse, scheme_ref_in_link_from, AdrRef, NamingScheme, RefV};
use crate::paths::parent_name;
use crate::store::{dir_of, dir_status_spec, rel_to, Store};
use crate::text::{append_all, append_str, chars_of, dec, eq_chars, join, pad_zero, string_of, trim, trim_start_str, views};

verus! {

/// How serious a problem is. Errors make a check fail; warnings are only reported.
#[derive(Debug, Clone, Copy, PartialEq, Eq, Structural)]
pub enum Severity {
    Error,
    Warning,
}

/// Which rule a problem breaks.
#[derive(Debug, Clone, Copy, PartialEq, Eq, Structural)]
pub enum ProblemKind {
    /// The status directory and the `## Status` section disagree.
    StatusDirMismatch,
    /// Two files carry the same identity.
    DuplicateId,
    /// A file could not be parsed.
    Unparseable,
    /// A supersession reference names no existing ADR.
    BrokenSupersession,
    /// A relative link points at no file and names no existing ADR.
    BrokenLink,
    /// A relative link names an ADR that now lives elsewhere.
    StaleLink,
    /// Two ADRs share a title (advisory).
    DuplicateTitle,
    /// An ADR and its linked issue or pull request disagree (advisory).
    ForgeIntegration,
}

/// A file a problem concerns, with size hints.
#[derive(Debug)]
pub struct ProblemFile {
    pub path: String,
    pub lines: usize,
    pub bytes: u64,
}

/// One finding of `check`.
#[derive(Debug)]
pub struct Problem {
    pub severity: Severity,
    pub kind: ProblemKind,
    /// What the problem is about: an `ADR-NNNN` reference, a path or a title.
    pub label: String,
    pub summary: String,
    pub paths: Vec<ProblemFile>,
    /// The flat one-line message the command line prints.
    pub message: String,
}

/// The outcome of `check`: how many files were examined and what was found,
/// errors first, then by message.
#[derive(Debug)]
pub struct CheckReport {
    pub checked: usize,
    pub problems: Vec<Problem>,
}

/// The abstract value of a [`Problem`].
pub struct ProblemV {
    pub severity: Severity,
    pub kind: ProblemKind,
    pub label: Seq<char>,
    pub summary: Seq<char>,
    pub paths: Seq<(Seq<char>, usize, u64)>,
    pub message: Seq<char>,
}

pub open spec fn file_v(f: ProblemFile) -> (Seq<char>, usize, u64) {
    (f.path@, f.lines, f.bytes)
}

impl View for Problem {
    type V = ProblemV;

    open spec fn view(&self) -> ProblemV {
        ProblemV {
            severity: self.severity,
            kind: self.kind,
            label: self.label@,
            summary: self.summary@,
            paths: self.paths@.map_values(|f: ProblemFile| file_v(f)),
            message: self.message@,
        }
    }
}

pub open spec fn problems_v(s: Seq<Problem>) -> Seq<ProblemV> {
    s.map_values(|p: Problem| p@)
}

// ---------------------------------------------------------------------------
// Ordering
// ---------------------------------------------------------------------------

/// Strict lexicographic order of character sequences by code point, which
/// for UTF-8 text is the byte order `str` compares by.
pub open spec fn chars_lt(a: Seq<char>, b: Seq<char>) -> bool
    decreases a.len(),
{
    if a.len() == 0 {
        b.len() > 0
    } else if b.len() == 0 {
        false
    } else if a[0] != b[0] {
        a[0] < b[0]
    } else {
        chars_lt(a.drop_first(), b.drop_first())
    }
}

pub proof fn lemma_chars_lt_irreflexive(a: Seq<char>)
    ensures
        !chars_lt(a, a),
    decreases a.len(),
{
    if a.len() > 0 {
        lemma_chars_lt_irreflexive(a.drop_first());
    }
}

pub proof fn lemma_chars_lt_transitive(a: Seq<char>, b: Seq<char>, c: Seq<char>)
    requires
        chars_lt(a, b),
        chars_lt(b, c),
    ensures
        chars_lt(a, c),
    decreases a.len(),
{
    if a.len() > 0 && b.len() > 0 && c.len() > 0 {
        if a[0] == b[0] && b[0] == c[0] {
            lemma_chars_lt_transitive(a.drop_first(), b.drop_first(), c.drop_first());
        }
    }
}

pub proof fn lemma_chars_lt_total(a: Seq<char>, b: Seq<char>)
    ensures
        a == b || chars_lt(a, b) || chars_lt(b, a),
    decreases a.len(),
{
    if a.len() > 0 && b.len() > 0 {
        if a[0] == b[0] {
            lemma_chars_lt_total(a.drop_first(), b.drop_first());
            if a.drop_first() == b.drop_first() {
                assert(a =~= seq![a[0]] + a.drop_first());
                assert(b =~= seq![b[0]] + b.drop_first());
            }
        }
    } else if a.len() == 0 && b.len() == 0 {
        assert(a =~= b);
    }
}

pub open spec fn severity_rank(s: Severity) -> int {
    match s {
        Severity::Error => 0,
        Severity::Warning => 1,
    }
}

/// `p` may come before `q`: a lower severity rank, or the same rank and a
/// message that is not greater.
pub open spec fn problem_leq(p: ProblemV, q: ProblemV) -> bool {
    severity_rank(p.severity) < severity_rank(q.severity)
        || (severity_rank(p.severity) == severity_rank(q.severity) && !chars_lt(q.message, p.message))
}

proof fn lemma_problem_leq_total(p: ProblemV, q: ProblemV)
    ensures
        problem_leq(p, q) || problem_leq(q, p),
{
    lemma_chars_lt_total(p.message, q.message);
    if chars_lt(p.message, q.message) && chars_lt(q.message, p.message) {
        lemma_chars_lt_transitive(p.message, q.message, p.message);
        lemma_chars_lt_irreflexive(p.message);
    }
}

proof fn lemma_problem_leq_transitive(p: ProblemV, q: ProblemV, r: ProblemV)
    requires
        problem_leq(p, q),
        problem_leq(q, r),
    ensures
        problem_leq(p, r),
{
    if severity_rank(p.severity) == severity_rank(r.severity) {
        if chars_lt(r.message, p.message) {
            lemma_chars_lt_total(q.message, p.message);
            lemma_chars_lt_total(r.message, q.message);
            if chars_lt(r.message, q.message) {
                lemma_chars_lt_transitive(r.message, q.message, p.message);
            } else if chars_lt(q.message, r.message) {
                if chars_lt(q.message, p.message) {
                } else if q.message == p.message {
                } else {
                    lemma_chars_lt_transitive(p.message, q.message, r.message);
                    lemma_chars_lt_transitive(r.message, p.message, r.message);
                    lemma_chars_lt_irreflexive(r.message);
                }
            }
        }
    }
}

/// Whether `a` comes strictly before `b` in code-point order.
pub(crate) fn chars_less(a: &Vec<char>, b: &Vec<char>) -> (r: bool)
    ensures
        r == chars_lt(a@, b@),
{
    let mut i: usize = 0;
    proof {
        assert(a@.skip(0) =~= a@);
        assert(b@.skip(0) =~= b@);
    }
    while i < a.len() && i < b.len() && a[i] == b[i]
        invariant
            i <= a.len(),
            i <= b.len(),
            chars_lt(a@.skip(i as int), b@.skip(i as int)) == chars_lt(a@, b@),
        decreases a.len() - i,
    {
        proof {
            let sa = a@.skip(i as int);
            let sb = b@.skip(i as int);
            assert(sa.drop_first() =~= a@.skip(i + 1));
            assert(sb.drop_first() =~= b@.skip(i + 1));
            assert(sa[0] == sb[0]);
        }
        i = i + 1;
    }
    if i == a.len() {
        assert(a@.skip(i as int).len() == 0);
        i < b.len()
    } else if i == b.len() {
        false
    } else {
        assert(a@.skip(i as int)[0] == a@[i as int]);
        assert(b@.skip(i as int)[0] == b@[i as int]);
        a[i] < b[i]
    }
}

/// Whether `p` may stay before `q`.
fn problem_precedes(p: &Problem, q: &Problem) -> (r: bool)
    ensures
        r == problem_leq(p@, q@),
{
    let rp: u8 = match p.severity {
        Severity::Error => 0,
        Severity::Warning => 1,
    };
    let rq: u8 = match q.severity {
        Severity::Error => 0,
        Severity::Warning => 1,
    };
    if rp < rq {
        true
    } else if rp > rq {
        false
    } else {
        !chars_less(&crate::text::chars_of(q.message.as_str()), &crate::text::chars_of(p.message.as_str()))
    }
}

pub open spec fn problem_order() -> spec_fn(ProblemV, ProblemV) -> bool {
    |p: ProblemV, q: ProblemV| problem_leq(p, q)
}

/// `problems` ordered errors first, then by message; equal keys keep their
/// order.
pub fn sort_problems(problems: Vec<Problem>) -> (r: Vec<Problem>)
    ensures
        problems_v(r@).to_multiset() == problems_v(problems@).to_multiset(),
        sorted_by(problems_v(r@), problem_order()),
{
    let mut out: Vec<Problem> = Vec::new();
    let mut rest = problems;
    let ghost all = problems_v(rest@);
    let mut taken: usize = 0;
    // Work from the back so that popping is cheap; `rest` shrinks from its end.
    let ghost n = rest.len();
    proof {
        assert(problems_v(out@) =~= Seq::<ProblemV>::empty());
        assert(all.skip(n as int) =~= Seq::<ProblemV>::empty());
        assert(problems_v(rest@) =~= all.take(n as int));
    }
    while rest.len() > 0
        invariant
            all.len() == n,
            rest.len() <= n,
            problems_v(rest@) == all.take(rest.len() as int),
            problems_v(out@).to_multiset() == all.skip(rest.len() as int).to_multiset(),
            sorted_by(problems_v(out@), problem_order()),
        decreases rest.len(),
    {
        let ghost prev = problems_v(rest@);
        let p = rest.pop().unwrap();
        let ghost pv = p@;
        let ghost k0 = rest.len() as int;
        assert(all[k0] == pv) by {
            assert(prev.len() == k0 + 1);
            assert(prev[k0] == pv);
            assert(all.take(k0 + 1)[k0] == all[k0]);
        }
        // Insert `p` before the first element it strictly precedes, after
        // every element it does not: this keeps later-inserted (earlier in
        // input) equal keys in front, so the result is stable.
        let mut k: usize = 0;
        while k < out.len() && !problem_precedes(&p, &out[k])
            invariant
                k <= out.len(),
                pv == p@,
                forall|j: int| 0 <= j < k ==> !problem_leq(pv, #[trigger] problems_v(out@)[j]),
            decreases out.len() - k,
        {
            k = k + 1;
        }
        let ghost before = problems_v(out@);
        out.insert(k, p);
        proof {
            let after = problems_v(out@);
            assert(after =~= before.insert(k as int, pv));
            assert forall|i: int, j: int| 0 <= i < j < after.len() implies #[trigger] problem_leq(after[i], after[j]) by {
                if j < k {
                    assert(problem_order()(before[i], before[j]));
                } else if j == k {
                    lemma_problem_leq_total(pv, before[i]);
                } else if i < k {
                    assert(problem_order()(before[i], before[j - 1]));
                } else if i == k {
                    assert(problem_leq(pv, before[k as int]));
                    if j - 1 > k {
                        assert(problem_order()(before[k as int], before[j - 1]));
                        lemma_problem_leq_transitive(pv, before[k as int], before[j - 1]);
                    }
                } else {
                    assert(problem_order()(before[i - 1], before[j - 1]));
                }
            }
            assert(0 <= k0 < all.len());
            assert(all.skip(k0) =~= all.skip(k0 + 1).insert(0, pv)) by {
                assert(all.skip(k0)[0] == all[k0]);
            }
            vstd::seq_lib::to_multiset_insert(before, k as int, pv);
            vstd::seq_lib::to_multiset_insert(all.skip(k0 + 1), 0, pv);
            assert(all.take(k0) =~= all.take(k0 + 1).drop_last());
        }
    }
    proof {
        assert(all.skip(0) =~= all);
    }
    out
}

// ---------------------------------------------------------------------------
// What `check` reads
// ---------------------------------------------------------------------------

/// What was found on disk for one relative link target of a file.
#[derive(Debug)]
pub struct LinkFacts {
    /// The link target as written.
    pub target: String,
    /// Whether the file it resolves to, next to the linking file, exists.
    pub exists: bool,
    /// That file's canonical path, when it resolves.
    pub canonical: Option<String>,
}

/// What `check` reads of one ADR file of the store.
#[derive(Debug)]
pub struct FileFacts {
    /// The file's path as the store lists it.
    pub path: String,
    /// The parsed ADR, or the message of the error that parsing gave.
    pub parsed: Result<Adr, String>,
    /// The raw text, when it could be read.
    pub content: Option<String>,
    /// Line and byte counts of the file.
    pub lines: usize,
    pub bytes: u64,
    /// The file's canonical path, when it resolves.
    pub canonical: Option<String>,
    /// The facts for the file's relative link targets.
    pub links: Vec<LinkFacts>,
}

pub open spec fn rel_of(store: Store, f: FileFacts) -> Seq<char> {
    rel_to(store.root_view(), f.path@)
}

/// The identity a file is grouped by: that of a parsed ADR with a slug or a
/// number.
pub open spec fn ident_of(f: FileFacts) -> Option<RefV> {
    match f.parsed {
        Ok(a) => if adr_ref(a) is Slug || a.number is Some {
            Some(adr_ref(a))
        } else {
            None
        },
        Err(_) => None,
    }
}

/// The indices below `n` whose key is `k`, in order.
pub open spec fn positions<K>(keys: Seq<Option<K>>, k: K, n: int) -> Seq<int>
    decreases n,
{
    if n <= 0 {
        Seq::empty()
    } else {
        positions(keys, k, n - 1) + if keys[n - 1] == Some(k) {
            seq![n - 1]
        } else {
            Seq::<int>::empty()
        }
    }
}

pub open spec fn idents(files: Seq<FileFacts>) -> Seq<Option<RefV>> {
    files.map_values(|f: FileFacts| ident_of(f))
}

/// The indices below `n` of the files grouped under `r`, in order.
pub open spec fn holders(files: Seq<FileFacts>, r: RefV, n: int) -> Seq<int> {
    positions(idents(files), r, n)
}

pub open spec fn all_holders(files: Seq<FileFacts>, r: RefV) -> Seq<int> {
    holders(files, r, files.len() as int)
}

/// `ProblemV` with no file list.
pub open spec fn plain(severity: Severity, kind: ProblemKind, label: Seq<char>, summary: Seq<char>, message: Seq<char>) -> ProblemV {
    ProblemV { severity, kind, label, summary, paths: Seq::empty(), message }
}

// ---------------------------------------------------------------------------
// Rule 1 and 3: unparseable files, status / directory mismatch
// ---------------------------------------------------------------------------

/// `ADR-NNNN`.
pub open spec fn padded_ref(n: u32) -> Seq<char> {
    "ADR-"@ + pad_zero(dec(n as nat), 4)
}

pub open spec fn mismatch_problem(store: Store, f: FileFacts, a: Adr, d: Status, s: Status) -> ProblemV {
    let rel = rel_of(store, f);
    let tail = "directory says "@ + status_name(d) + " but ## Status says "@ + status_name(s);
    ProblemV {
        severity: Severity::Error,
        kind: ProblemKind::StatusDirMismatch,
        label: match a.number {
            Some(n) => padded_ref(n.0),
            None => rel,
        },
        summary: tail,
        paths: match a.number {
            Some(_) => seq![(rel, f.lines, f.bytes)],
            None => Seq::empty(),
        },
        message: match a.number {
            Some(n) => padded_ref(n.0) + " ("@ + rel + "): "@ + tail,
            None => "("@ + rel + "): "@ + tail,
        },
    }
}

/// The first-pass findings for one file: a parse failure, or (markdown) a
/// status section that contradicts the status directory.
pub open spec fn first_pass(store: Store, f: FileFacts) -> Seq<ProblemV> {
    let rel = rel_of(store, f);
    match f.parsed {
        Err(e) => seq![
            plain(
                Severity::Error,
                ProblemKind::Unparseable,
                rel,
                "failed to parse ("@ + e@ + ")"@,
                rel + ": "@ + ("failed to parse ("@ + e@ + ")"@),
            ),
        ],
        Ok(a) => if store.format_view() == Format::Markdown {
            match f.content {
                Some(c) => match (dir_status_spec(store.layout_view(), store.dirs(), f.path@), status_region(c@).status) {
                    (Some(d), Some(s)) => if d != s {
                        seq![mismatch_problem(store, f, a, d, s)]
                    } else {
                        Seq::empty()
                    },
                    _ => Seq::empty(),
                },
                None => Seq::empty(),
            }
        } else {
            Seq::empty()
        },
    }
}

pub open spec fn first_pass_upto(store: Store, files: Seq<FileFacts>, n: int) -> Seq<ProblemV>
    decreases n,
{
    if n <= 0 {
        Seq::empty()
    } else {
        first_pass_upto(store, files, n - 1) + first_pass(store, files[n - 1])
    }
}

/// A markdown file that parsed but whose text could not be read.
pub open spec fn unreadable(store: Store, f: FileFacts) -> bool {
    store.format_view() == Format::Markdown && f.parsed is Ok && f.content is None
}

/// The first unreadable file below `n`.
pub open spec fn first_unreadable(store: Store, files: Seq<FileFacts>, n: int) -> Option<int>
    decreases n,
{
    if n <= 0 {
        None
    } else {
        match first_unreadable(store, files, n - 1) {
            Some(k) => Some(k),
            None => if unreadable(store, files[n - 1]) {
                Some(n - 1)
            } else {
                None
            },
        }
    }
}

fn plain_problem(severity: Severity, kind: ProblemKind, label: Vec<char>, summary: Vec<char>, message: Vec<char>) -> (p: Problem)
    ensures
        p@ == plain(severity, kind, label@, summary@, message@),
{
    let p = Problem {
        severity,
        kind,
        label: string_of(&label),
        summary: string_of(&summary),
        paths: Vec::new(),
        message: string_of(&message),
    };
    assert(p@.paths =~= Seq::<(Seq<char>, usize, u64)>::empty());
    p
}

fn rel_of_v(store: &Store, f: &FileFacts) -> (r: Vec<char>)
    ensures
        r@ == rel_of(*store, *f),
{
    chars_of(crate::store::rel_to_v(store.root(), &chars_of(f.path.as_str())).as_str())
}

/// The first-pass findings for one file, or the path of the file when its
/// text could not be read.
fn first_pass_v(store: &Store, f: &FileFacts) -> (r: Result<Vec<Problem>, String>)
    ensures
        match r {
            Ok(v) => !unreadable(*store, *f) && problems_v(v@) == first_pass(*store, *f),
            Err(p) => unreadable(*store, *f) && p@ == f.path@,
        },
{
    let rel = rel_of_v(store, f);
    let mut out: Vec<Problem> = Vec::new();
    match &f.parsed {
        Err(e) => {
            let mut summary = chars_of("failed to parse (");
            append_str(&mut summary, e.as_str());
            append_str(&mut summary, ")");
            let mut message = rel.clone();
            append_str(&mut message, ": ");
            append_all(&mut message, &summary);
            out.push(plain_problem(Severity::Error, ProblemKind::Unparseable, rel, summary, message));
            assert(problems_v(out@) =~= first_pass(*store, *f));
        },
        Ok(a) => {
            if store.format() == Format::Markdown {
                match &f.content {
                    None => {
                        return Err(string_of(&chars_of(f.path.as_str())));
                    },
                    Some(c) => {
                        let ds = store.dir_status(f.path.as_str());
                        let ss = crate::format::parse_markdown_section_status(c.as_str());
                        match (ds, ss) {
                            (Some(d), Some(st)) => {
                                if d != st {
                                    let mut tail = chars_of("directory says ");
                                    append_all(&mut tail, &d.name_chars());
                                    append_str(&mut tail, " but ## Status says ");
                                    append_all(&mut tail, &st.name_chars());
                                    let mut message: Vec<char> = Vec::new();
                                    let label;
                                    let mut paths: Vec<ProblemFile> = Vec::new();
                                    match a.number {
                                        Some(n) => {
                                            let mut l = chars_of("ADR-");
                                            append_all(&mut l, &crate::text::pad4_v(n.0));
                                            append_all(&mut message, &l);
                                            append_str(&mut message, " (");
                                            label = l;
                                            paths.push(ProblemFile { path: string_of(&rel), lines: f.lines, bytes: f.bytes });
                                        },
                                        None => {
                                            append_str(&mut message, "(");
                                            label = rel.clone();
                                        },
                                    }
                                    append_all(&mut message, &rel);
                                    append_str(&mut message, "): ");
                                    append_all(&mut message, &tail);
                                    let p = Problem {
                                        severity: Severity::Error,
                                        kind: ProblemKind::StatusDirMismatch,
                                        label: string_of(&label),
                                        summary: string_of(&tail),
                                        paths,
                                        message: string_of(&message),
                                    };
                                    proof {
                                        let m = mismatch_problem(*store, *f, *a, d, st);
                                        assert(p@.paths =~= m.paths);
                                        assert(p@.message =~= m.message);
                                        assert(p@ == m);
                                    }
                                    out.push(p);
                                }
                            },
                            _ => {},
                        }
                        assert(problems_v(out@) =~= first_pass(*store, *f));
                    },
                }
            } else {
                assert(problems_v(out@) =~= first_pass(*store, *f));
            }
        },
    }
    Ok(out)
}

// ---------------------------------------------------------------------------
// Grouping by identity
// ---------------------------------------------------------------------------

fn ident_of_v(f: &FileFacts) -> (r: Option<AdrRef>)
    ensures
        opt_view(r) == ident_of(*f),
{
    match &f.parsed {
        Ok(a) => {
            let r = a.reference();
            let slug = match &r {
                AdrRef::Slug(_) => true,
                AdrRef::Number(_) => false,
            };
            if slug || a.number.is_some() {
                Some(r)
            } else {
                None
            }
        },
        Err(_) => None,
    }
}

pub open spec fn as_ints(v: Seq<usize>) -> Seq<int> {
    v.map_values(|k: usize| k as int)
}

proof fn lemma_positions_bounds<K>(keys: Seq<Option<K>>, k: K, n: int)
    requires
        n <= keys.len(),
    ensures
        forall|j: int| 0 <= j < positions(keys, k, n).len() ==> 0 <= #[trigger] positions(keys, k, n)[j] < n,
        forall|j: int, q: int| 0 <= j < q < positions(keys, k, n).len() ==> positions(keys, k, n)[j] < positions(keys, k, n)[q],
        forall|j: int| 0 <= j < positions(keys, k, n).len() ==> keys[#[trigger] positions(keys, k, n)[j]] == Some(k),
        forall|i: int| 0 <= i < n && keys[i] == Some(k) ==> positions(keys, k, n).contains(i),
    decreases n,
{
    if n > 0 {
        lemma_positions_bounds(keys, k, n - 1);
        let h = positions(keys, k, n - 1);
        if keys[n - 1] == Some(k) {
            assert(positions(keys, k, n) =~= h.push(n - 1));
            assert forall|i: int| 0 <= i < n && keys[i] == Some(k) implies positions(keys, k, n).contains(i) by {
                if i < n - 1 {
                    assert(h.contains(i));
                    let q = choose|q: int| 0 <= q < h.len() && h[q] == i;
                    assert(h.push(n - 1)[q] == i);
                } else {
                    assert(positions(keys, k, n)[h.len() as int] == i);
                }
            }
        } else {
            assert(positions(keys, k, n) =~= h);
        }
    }
}

proof fn lemma_positions_prefix<K>(keys: Seq<Option<K>>, k: K, m: int, n: int)
    requires
        0 <= m <= n <= keys.len(),
    ensures
        positions(keys, k, m).len() <= positions(keys, k, n).len(),
        positions(keys, k, n).take(positions(keys, k, m).len() as int) == positions(keys, k, m),
        forall|j: int| 0 <= j < positions(keys, k, n).len() && #[trigger] positions(keys, k, n)[j] < m ==> j < positions(keys, k, m).len(),
    decreases n - m,
{
    if n > m {
        lemma_positions_prefix(keys, k, m, n - 1);
        lemma_positions_bounds(keys, k, n - 1);
        let h = positions(keys, k, n - 1);
        if keys[n - 1] == Some(k) {
            assert(positions(keys, k, n) =~= h.push(n - 1));
        } else {
            assert(positions(keys, k, n) =~= h);
        }
        assert(positions(keys, k, n).take(positions(keys, k, m).len() as int) =~= h.take(positions(keys, k, m).len() as int));
    } else {
        assert(positions(keys, k, n).take(positions(keys, k, n).len() as int) =~= positions(keys, k, n));
    }
}

/// Whether `i` is the first of at least two positions of `k`.
pub open spec fn first_of_many<K>(keys: Seq<Option<K>>, k: K, i: int) -> bool {
    positions(keys, k, i).len() == 0 && positions(keys, k, keys.len() as int).len() > 1
}

/// The first of all positions of a key is `i` exactly when `i` holds the key
/// and no earlier index does.
proof fn lemma_first_position<K>(keys: Seq<Option<K>>, k: K, i: int)
    requires
        0 <= i < keys.len(),
        keys[i] == Some(k),
    ensures
        positions(keys, k, keys.len() as int).len() > 0,
        (positions(keys, k, keys.len() as int)[0] == i) == (positions(keys, k, i).len() == 0),
{
    let n = keys.len() as int;
    lemma_positions_bounds(keys, k, n);
    lemma_positions_bounds(keys, k, i);
    lemma_positions_prefix(keys, k, i, n);
    let all = positions(keys, k, n);
    assert(all.contains(i));
    let q = choose|q: int| 0 <= q < all.len() && all[q] == i;
    if positions(keys, k, i).len() > 0 {
        assert(all[0] == positions(keys, k, i)[0]);
    } else if q > 0 {
        assert(all[0] < all[q]);
    }
}

/// The indices of the files grouped under `r`, in order.
fn holders_v(files: &Vec<FileFacts>, r: &AdrRef) -> (hs: Vec<usize>)
    ensures
        as_ints(hs@) == all_holders(files@, r@),
        forall|j: int| 0 <= j < hs.len() ==> hs@[j] < files.len(),
{
    let mut hs: Vec<usize> = Vec::new();
    let mut i: usize = 0;
    while i < files.len()
        invariant
            i <= files.len(),
            as_ints(hs@) == holders(files@, r@, i as int),
            forall|j: int| 0 <= j < hs.len() ==> hs@[j] < i,
        decreases files.len() - i,
    {
        let id = ident_of_v(&files[i]);
        let hit = match &id {
            Some(x) => x.same(r),
            None => false,
        };
        let ghost before = hs@;
        if hit {
            hs.push(i);
            assert(as_ints(hs@) =~= as_ints(before).push(i as int));
        } else {
            assert(as_ints(hs@) =~= as_ints(before));
        }
        proof {
            assert(idents(files@)[i as int] == ident_of(files@[i as int]));
            assert(holders(files@, r@, i + 1) == holders(files@, r@, i as int) + if ident_of(files@[i as int]) == Some(r@) {
                seq![i as int]
            } else {
                Seq::<int>::empty()
            });
            assert(as_ints(hs@) =~= holders(files@, r@, i + 1));
        }
        i = i + 1;
    }
    hs
}

/// Whether some file is grouped under `r`.
fn is_held(files: &Vec<FileFacts>, r: &AdrRef) -> (b: bool)
    ensures
        b == (all_holders(files@, r@).len() > 0),
{
    let hs = holders_v(files, r);
    assert(as_ints(hs@).len() == hs@.len());
    hs.len() > 0
}

// ---------------------------------------------------------------------------
// Rule 4: supersession references that name no ADR
// ---------------------------------------------------------------------------

pub open spec fn broken_supersession(store: Store, f: FileFacts, origin: Seq<char>, word: Seq<char>, r: RefV) -> ProblemV {
    let rel = rel_of(store, f);
    let summary = origin + " says "@ + word + " "@ + scheme_display(store.naming_view(), r) + " but no such ADR exists"@;
    plain(Severity::Error, ProblemKind::BrokenSupersession, rel, summary, rel + ": "@ + summary)
}

pub open spec fn dangling(files: Seq<FileFacts>, r: Option<RefV>) -> bool {
    r is Some && all_holders(files, r->0).len() == 0
}

/// The findings for a file's `(supersedes, superseded_by)` references,
/// read from `origin`.
pub open spec fn broken_refs(
    store: Store,
    files: Seq<FileFacts>,
    f: FileFacts,
    origin: Seq<char>,
    sup: Option<RefV>,
    sup_by: Option<RefV>,
) -> Seq<ProblemV> {
    (if dangling(files, sup) {
        seq![broken_supersession(store, f, origin, "Supersedes"@, sup->0)]
    } else {
        Seq::empty()
    }) + (if dangling(files, sup_by) {
        seq![broken_supersession(store, f, origin, "Superseded by"@, sup_by->0)]
    } else {
        Seq::empty()
    })
}

/// The supersession findings for one file: from the `## Status` section of
/// a readable markdown file, or from the fields of a parsed frontmatter ADR.
pub open spec fn second_pass(store: Store, files: Seq<FileFacts>, f: FileFacts) -> Seq<ProblemV> {
    let naming = store.naming_view();
    if store.format_view() == Format::Markdown {
        match f.content {
            Some(c) => broken_refs(
                store,
                files,
                f,
                "## Status"@,
                resolve_note(naming, status_region(c@).supersedes, parent_name(f.path@)),
                resolve_note(naming, status_region(c@).superseded_by, parent_name(f.path@)),
            ),
            None => Seq::empty(),
        }
    } else {
        match f.parsed {
            Ok(a) => broken_refs(store, files, f, "frontmatter"@, opt_view(a.supersedes), opt_view(a.superseded_by)),
            Err(_) => Seq::empty(),
        }
    }
}

pub open spec fn second_pass_upto(store: Store, files: Seq<FileFacts>, n: int) -> Seq<ProblemV>
    decreases n,
{
    if n <= 0 {
        Seq::empty()
    } else {
        second_pass_upto(store, files, n - 1) + second_pass(store, files, files[n - 1])
    }
}

/// Append the finding for one reference when it names no ADR.
fn push_dangling(out: &mut Vec<Problem>, store: &Store, files: &Vec<FileFacts>, f: &FileFacts, origin: &str, word: &str, r: &Option<AdrRef>)
    ensures
        problems_v(final(out)@) == problems_v(old(out)@) + if dangling(files@, opt_view(*r)) {
            seq![broken_supersession(*store, *f, origin@, word@, opt_view(*r)->0)]
        } else {
            Seq::<ProblemV>::empty()
        },
{
    let ghost before = problems_v(out@);
    match r {
        Some(x) => {
            if !is_held(files, x) {
                let rel = rel_of_v(store, f);
                let mut summary = chars_of(origin);
                append_str(&mut summary, " says ");
                append_str(&mut summary, word);
                append_str(&mut summary, " ");
                append_all(&mut summary, &store.options().naming.display_v(x));
                append_str(&mut summary, " but no such ADR exists");
                let mut message = rel.clone();
                append_str(&mut message, ": ");
                append_all(&mut message, &summary);
                let p = plain_problem(Severity::Error, ProblemKind::BrokenSupersession, rel, summary, message);
                out.push(p);
                assert(problems_v(out@) =~= before.push(p@));
            } else {
                assert(problems_v(out@) =~= before);
            }
        },
        None => {
            assert(problems_v(out@) =~= before);
        },
    }
}

fn second_pass_v(out: &mut Vec<Problem>, store: &Store, files: &Vec<FileFacts>, f: &FileFacts)
    ensures
        problems_v(final(out)@) == problems_v(old(out)@) + second_pass(*store, files@, *f),
{
    let ghost before = problems_v(out@);
    let naming = store.options().naming;
    if store.format() == Format::Markdown {
        match &f.content {
            Some(c) => {
                let cat: Option<String> = match crate::paths::parent_name_v(&chars_of(f.path.as_str())) {
                    Some(n) => Some(string_of(&n)),
                    None => None,
                };
                let cat_ref: Option<&str> = match &cat {
                    Some(n) => Some(n.as_str()),
                    None => None,
                };
                let (sup, sup_by) = crate::format::parse_markdown_section_supersession(c.as_str(), naming, cat_ref);
                assert(opt_seq(cat_ref) == parent_name(f.path@));
                push_dangling(out, store, files, f, "## Status", "Supersedes", &sup);
                push_dangling(out, store, files, f, "## Status", "Superseded by", &sup_by);
            },
            None => {},
        }
    } else {
        match &f.parsed {
            Ok(a) => {
                push_dangling(out, store, files, f, "frontmatter", "Supersedes", &a.supersedes);
                push_dangling(out, store, files, f, "frontmatter", "Superseded by", &a.superseded_by);
            },
            Err(_) => {},
        }
    }
    assert(problems_v(out@) =~= before + second_pass(*store, files@, *f));
}

// ---------------------------------------------------------------------------
// Rule 5: relative links that are broken or stale
// ---------------------------------------------------------------------------

pub open spec fn opt_chars(o: Option<String>) -> Option<Seq<char>> {
    match o {
        Some(s) => Some(s@),
        None => None,
    }
}

/// What was found for link target `t`: the first facts given for it, or a
/// missing file when none are.
pub open spec fn link_facts(ls: Seq<LinkFacts>, t: Seq<char>) -> (bool, Option<Seq<char>>)
    decreases ls.len(),
{
    if ls.len() == 0 {
        (false, None)
    } else if ls[0].target@ == t {
        (ls[0].exists, opt_chars(ls[0].canonical))
    } else {
        link_facts(ls.drop_first(), t)
    }
}

/// How a link message names the ADR: `ADR-N` unpadded for a number, the
/// scheme's display form for a slug.
pub open spec fn link_disp(scheme: NamingScheme, r: RefV) -> Seq<char> {
    match r {
        RefV::Number(n) => "ADR-"@ + dec(n as nat),
        RefV::Slug(_) => scheme_display(scheme, r),
    }
}

/// The one file grouped under the ADR `r` names, when exactly one is.
pub open spec fn home(files: Seq<FileFacts>, r: Option<RefV>) -> Option<int> {
    match r {
        Some(x) => if all_holders(files, x).len() == 1 {
            Some(all_holders(files, x)[0])
        } else {
            None
        },
        None => None,
    }
}

pub open spec fn stale_problem(store: Store, f: FileFacts, t: Seq<char>, disp: Seq<char>, want: Seq<char>) -> ProblemV {
    let rel = rel_of(store, f);
    let summary = "stale link ["@ + t + "] — "@ + disp + " is now ["@ + want + "] (run `adroit relink`)"@;
    plain(Severity::Warning, ProblemKind::StaleLink, rel, summary, rel + ": "@ + summary)
}

pub open spec fn broken_link(store: Store, f: FileFacts, t: Seq<char>) -> ProblemV {
    let rel = rel_of(store, f);
    let summary = "broken link ["@ + t + "] — target file not found"@;
    plain(Severity::Error, ProblemKind::BrokenLink, rel, summary, rel + ": "@ + summary)
}

/// The finding for link target `t` of file `f`. A target whose file is
/// missing is stale when it names an ADR that lives at exactly one place
/// (a relink heals it), else broken. A target whose file exists is stale
/// when it names such an ADR and resolves to another file than its home.
pub open spec fn link_finding(store: Store, files: Seq<FileFacts>, f: FileFacts, t: Seq<char>) -> Seq<ProblemV> {
    let scheme = store.naming_view();
    let r = scheme_ref_in_link_from(scheme, t, parent_name(f.path@));
    let h = home(files, r);
    let facts = link_facts(f.links@, t);
    let named = r is Some && h is Some;
    if !facts.0 {
        if named {
            seq![stale_problem(store, f, t, link_disp(scheme, r->0), rel_link_spec(dir_of(f.path@), files[h->0].path@))]
        } else {
            seq![broken_link(store, f, t)]
        }
    } else if named && facts.1 is Some && files[h->0].canonical is Some && facts.1->0 != files[h->0].canonical->0@ {
        seq![stale_problem(store, f, t, link_disp(scheme, r->0), rel_link_spec(dir_of(f.path@), files[h->0].path@))]
    } else {
        Seq::empty()
    }
}

pub open spec fn link_findings(store: Store, files: Seq<FileFacts>, f: FileFacts, ts: Seq<Seq<char>>) -> Seq<ProblemV>
    decreases ts.len(),
{
    if ts.len() == 0 {
        Seq::empty()
    } else {
        link_findings(store, files, f, ts.drop_last()) + link_finding(store, files, f, ts.last())
    }
}

/// The link findings for one readable file, over its relative `.md` targets.
pub open spec fn third_pass(store: Store, files: Seq<FileFacts>, f: FileFacts) -> Seq<ProblemV> {
    match f.content {
        Some(c) => link_findings(store, files, f, md_targets_from(c@, 0)),
        None => Seq::empty(),
    }
}

pub open spec fn third_pass_upto(store: Store, files: Seq<FileFacts>, n: int) -> Seq<ProblemV>
    decreases n,
{
    if n <= 0 {
        Seq::empty()
    } else {
        third_pass_upto(store, files, n - 1) + third_pass(store, files, files[n - 1])
    }
}

fn link_facts_v(ls: &Vec<LinkFacts>, t: &str) -> (r: (bool, Option<Vec<char>>))
    ensures
        r.0 == link_facts(ls@, t@).0,
        match r.1 {
            Some(c) => link_facts(ls@, t@).1 == Some(c@),
            None => link_facts(ls@, t@).1 is None,
        },
{
    let tv = chars_of(t);
    let mut k: usize = 0;
    proof {
        assert(ls@.skip(0) =~= ls@);
    }
    while k < ls.len()
        invariant
            k <= ls.len(),
            tv@ == t@,
            link_facts(ls@.skip(k as int), t@) == link_facts(ls@, t@),
        decreases ls.len() - k,
    {
        let l = &ls[k];
        proof {
            assert(ls@.skip(k as int)[0] == *l);
            assert(ls@.skip(k as int).drop_first() =~= ls@.skip(k + 1));
        }
        if eq_chars(&chars_of(l.target.as_str()), &tv) {
            let c = match &l.canonical {
                Some(c) => Some(chars_of(c.as_str())),
                None => None,
            };
            return (l.exists, c);
        }
        k = k + 1;
    }
    (false, None)
}

fn link_disp_v(scheme: NamingScheme, r: &AdrRef) -> (d: Vec<char>)
    ensures
        d@ == link_disp(scheme, r@),
{
    match r {
        AdrRef::Number(n) => {
            let mut d = chars_of("ADR-");
            append_all(&mut d, &crate::text::dec_v(*n as u64));
            d
        },
        AdrRef::Slug(_) => scheme.display_v(r),
    }
}

fn stale_v(store: &Store, f: &FileFacts, t: &str, disp: &Vec<char>, want: &Vec<char>) -> (p: Problem)
    ensures
        p@ == stale_problem(*store, *f, t@, disp@, want@),
{
    let rel = rel_of_v(store, f);
    let mut summary = chars_of("stale link [");
    append_str(&mut summary, t);
    append_str(&mut summary, "] — ");
    append_all(&mut summary, disp);
    append_str(&mut summary, " is now [");
    append_all(&mut summary, want);
    append_str(&mut summary, "] (run `adroit relink`)");
    let mut message = rel.clone();
    append_str(&mut message, ": ");
    append_all(&mut message, &summary);
    plain_problem(Severity::Warning, ProblemKind::StaleLink, rel, summary, message)
}

fn link_finding_v(out: &mut Vec<Problem>, store: &Store, files: &Vec<FileFacts>, f: &FileFacts, t: &str, cat: Option<&str>, dir: &Vec<char>)
    requires
        opt_seq(cat) == parent_name(f.path@),
        dir@ == dir_of(f.path@),
    ensures
        problems_v(final(out)@) == problems_v(old(out)@) + link_finding(*store, files@, *f, t@),
{
    let ghost before = problems_v(out@);
    let scheme = store.options().naming;
    let r = scheme.ref_in_link_from(t, cat);
    let mut h: Option<usize> = None;
    match &r {
        Some(x) => {
            let hs = holders_v(files, x);
            assert(as_ints(hs@).len() == hs@.len());
            if hs.len() == 1 {
                assert(as_ints(hs@)[0] == hs@[0]);
                h = Some(hs[0]);
            }
        },
        None => {},
    }
    let ghost hv: Option<int> = match h {
        Some(k) => Some(k as int),
        None => None,
    };
    assert(hv == home(files@, opt_view(r)));
    let facts = link_facts_v(&f.links, t);
    let ghost spec_r = opt_view(r);
    match (&r, h) {
        (Some(x), Some(k)) => {
            let disp = link_disp_v(scheme, x);
            let want = chars_of(crate::links::rel_link(string_of(dir).as_str(), files[k].path.as_str()).as_str());
            if !facts.0 {
                out.push(stale_v(store, f, t, &disp, &want));
            } else {
                let differs = match (&facts.1, &files[k].canonical) {
                    (Some(rp), Some(cp)) => !eq_chars(rp, &chars_of(cp.as_str())),
                    _ => false,
                };
                if differs {
                    out.push(stale_v(store, f, t, &disp, &want));
                }
            }
        },
        _ => {
            if !facts.0 {
                let rel = rel_of_v(store, f);
                let mut summary = chars_of("broken link [");
                append_str(&mut summary, t);
                append_str(&mut summary, "] — target file not found");
                let mut message = rel.clone();
                append_str(&mut message, ": ");
                append_all(&mut message, &summary);
                out.push(plain_problem(Severity::Error, ProblemKind::BrokenLink, rel, summary, message));
            }
        },
    }
    assert(problems_v(out@) =~= before + link_finding(*store, files@, *f, t@));
}

fn third_pass_v(out: &mut Vec<Problem>, store: &Store, files: &Vec<FileFacts>, f: &FileFacts)
    ensures
        problems_v(final(out)@) == problems_v(old(out)@) + third_pass(*store, files@, *f),
{
    let ghost before = problems_v(out@);
    match &f.content {
        Some(c) => {
            let pv = chars_of(f.path.as_str());
            let cat: Option<String> = match crate::paths::parent_name_v(&pv) {
                Some(n) => Some(string_of(&n)),
                None => None,
            };
            let cat_ref: Option<&str> = match &cat {
                Some(n) => Some(n.as_str()),
                None => None,
            };
            let dir = crate::store::dir_of_v(&pv);
            let ts = crate::links::relative_md_targets(c.as_str());
            let ghost tsv = ts@.map_values(|t: &str| t@);
            let mut i: usize = 0;
            assert(tsv.take(0) =~= Seq::<Seq<char>>::empty());
            while i < ts.len()
                invariant
                    i <= ts.len(),
                    tsv == ts@.map_values(|t: &str| t@),
                    opt_seq(cat_ref) == parent_name(f.path@),
                    dir@ == dir_of(f.path@),
                    problems_v(out@) == before + link_findings(*store, files@, *f, tsv.take(i as int)),
                decreases ts.len() - i,
            {
                link_finding_v(out, store, files, f, ts[i], cat_ref, &dir);
                proof {
                    assert(tsv.take(i + 1).drop_last() =~= tsv.take(i as int));
                    assert(tsv.take(i + 1).last() == ts@[i as int]@);
                }
                i = i + 1;
            }
            assert(tsv.take(i as int) =~= tsv);
        },
        None => {
            assert(problems_v(out@) =~= before);
        },
    }
}

// ---------------------------------------------------------------------------
// Rule 2: duplicate identifiers; duplicate titles (advisory)
// ---------------------------------------------------------------------------

pub open spec fn file_entry(store: Store, f: FileFacts) -> (Seq<char>, usize, u64) {
    (rel_of(store, f), f.lines, f.bytes)
}

pub open spec fn entries(store: Store, files: Seq<FileFacts>, hs: Seq<int>) -> Seq<(Seq<char>, usize, u64)> {
    hs.map_values(|k: int| file_entry(store, files[k]))
}

pub open spec fn rels(store: Store, files: Seq<FileFacts>, hs: Seq<int>) -> Seq<Seq<char>> {
    hs.map_values(|k: int| rel_of(store, files[k]))
}

/// How a duplicate identity is named: `ADR-NNNN` for a number; for a slug,
/// the scheme's display of what the first file's path parses to, else the
/// slug itself.
pub open spec fn dup_disp(scheme: NamingScheme, f: FileFacts, r: RefV) -> Seq<char> {
    match r {
        RefV::Number(n) => padded_ref(n),
        RefV::Slug(s) => match scheme_parse(scheme, f.path@, Seq::empty()) {
            Some(x) => scheme_display(scheme, x),
            None => trim_start_str("s:"@ + s, "s:"@),
        },
    }
}

pub open spec fn id_noun(scheme: NamingScheme) -> Seq<char> {
    if scheme == NamingScheme::Sequential {
        "number"@
    } else {
        "identifier"@
    }
}

pub open spec fn dup_id_problem(store: Store, files: Seq<FileFacts>, i: int, r: RefV) -> ProblemV {
    let scheme = store.naming_view();
    let hs = all_holders(files, r);
    let disp = dup_disp(scheme, files[i], r);
    ProblemV {
        severity: Severity::Error,
        kind: ProblemKind::DuplicateId,
        label: disp,
        summary: "duplicate "@ + id_noun(scheme),
        paths: entries(store, files, hs),
        message: disp + ": duplicate "@ + id_noun(scheme) + " used by "@ + join(rels(store, files, hs), ", "@),
    }
}

/// The duplicate-identity finding reported at file `i`: at the first file of
/// an identity that more than one file carries.
pub open spec fn dup_id_at(store: Store, files: Seq<FileFacts>, i: int) -> Seq<ProblemV> {
    match ident_of(files[i]) {
        Some(r) => if holders(files, r, i).len() == 0 && all_holders(files, r).len() > 1 {
            seq![dup_id_problem(store, files, i, r)]
        } else {
            Seq::empty()
        },
        None => Seq::empty(),
    }
}

pub open spec fn dup_ids_upto(store: Store, files: Seq<FileFacts>, n: int) -> Seq<ProblemV>
    decreases n,
{
    if n <= 0 {
        Seq::empty()
    } else {
        dup_ids_upto(store, files, n - 1) + dup_id_at(store, files, n - 1)
    }
}

/// The file entries and the relative paths of the files at `hs`.
fn entries_v(store: &Store, files: &Vec<FileFacts>, hs: &Vec<usize>) -> (r: (Vec<ProblemFile>, Vec<Vec<char>>))
    requires
        forall|j: int| 0 <= j < hs.len() ==> hs@[j] < files.len(),
    ensures
        r.0@.map_values(|f: ProblemFile| file_v(f)) == entries(*store, files@, as_ints(hs@)),
        views(r.1@) == rels(*store, files@, as_ints(hs@)),
{
    let mut es: Vec<ProblemFile> = Vec::new();
    let mut rs: Vec<Vec<char>> = Vec::new();
    let mut j: usize = 0;
    while j < hs.len()
        invariant
            j <= hs.len(),
            forall|q: int| 0 <= q < hs.len() ==> hs@[q] < files.len(),
            es@.map_values(|f: ProblemFile| file_v(f)) == entries(*store, files@, as_ints(hs@)).take(j as int),
            views(rs@) == rels(*store, files@, as_ints(hs@)).take(j as int),
        decreases hs.len() - j,
    {
        let f = &files[hs[j]];
        let rel = rel_of_v(store, f);
        let ghost e0 = es@.map_values(|f: ProblemFile| file_v(f));
        let ghost r0 = views(rs@);
        es.push(ProblemFile { path: string_of(&rel), lines: f.lines, bytes: f.bytes });
        rs.push(rel);
        proof {
            assert(es@.map_values(|f: ProblemFile| file_v(f)) =~= e0.push(file_entry(*store, *f)));
            assert(views(rs@) =~= r0.push(rel_of(*store, *f)));
            assert(entries(*store, files@, as_ints(hs@)).take(j + 1) =~= entries(*store, files@, as_ints(hs@)).take(j as int).push(file_entry(*store, *f)));
            assert(rels(*store, files@, as_ints(hs@)).take(j + 1) =~= rels(*store, files@, as_ints(hs@)).take(j as int).push(rel_of(*store, *f)));
        }
        j = j + 1;
    }
    proof {
        assert(entries(*store, files@, as_ints(hs@)).take(j as int) =~= entries(*store, files@, as_ints(hs@)));
        assert(rels(*store, files@, as_ints(hs@)).take(j as int) =~= rels(*store, files@, as_ints(hs@)));
    }
    (es, rs)
}

/// The duplicate-identity finding at file `i`, if any.
fn dup_id_v(out: &mut Vec<Problem>, store: &Store, files: &Vec<FileFacts>, i: usize)
    requires
        i < files.len(),
    ensures
        problems_v(final(out)@) == problems_v(old(out)@) + dup_id_at(*store, files@, i as int),
{
    let ghost before = problems_v(out@);
    match ident_of_v(&files[i]) {
        Some(r) => {
            let hs = holders_v(files, &r);
            proof {
                assert(idents(files@)[i as int] == ident_of(files@[i as int]));
                lemma_first_position(idents(files@), r@, i as int);
                assert(as_ints(hs@).len() == hs@.len());
                if hs.len() > 0 {
                    assert(as_ints(hs@)[0] == hs@[0]);
                }
            }
            if hs.len() > 1 && hs[0] == i {
                let scheme = store.options().naming;
                let disp: Vec<char> = match &r {
                    AdrRef::Number(n) => {
                        let mut d = chars_of("ADR-");
                        append_all(&mut d, &crate::text::pad4_v(*n));
                        d
                    },
                    AdrRef::Slug(sl) => match scheme.parse(files[i].path.as_str(), "") {
                        Some(x) => scheme.display_v(&x),
                        None => {
                            let mut k = chars_of("s:");
                            append_str(&mut k, sl.as_str());
                            crate::text::trim_start_str_v(&k, "s:")
                        },
                    },
                };
                proof {
                    reveal_strlit("");
                }
                let noun = if scheme.is_numeric() {
                    chars_of("number")
                } else {
                    chars_of("identifier")
                };
                let (es, rs) = entries_v(store, files, &hs);
                let mut summary = chars_of("duplicate ");
                append_all(&mut summary, &noun);
                let mut message = disp.clone();
                append_str(&mut message, ": duplicate ");
                append_all(&mut message, &noun);
                append_str(&mut message, " used by ");
                append_all(&mut message, &crate::text::join_str(&rs, ", "));
                let p = Problem {
                    severity: Severity::Error,
                    kind: ProblemKind::DuplicateId,
                    label: string_of(&disp),
                    summary: string_of(&summary),
                    paths: es,
                    message: string_of(&message),
                };
                assert(p@ == dup_id_problem(*store, files@, i as int, r@));
                out.push(p);
            }
        },
        None => {},
    }
    assert(problems_v(out@) =~= before + dup_id_at(*store, files@, i as int));
}

/// A parsed ADR's title, trimmed.
pub open spec fn title_of(f: FileFacts) -> Seq<char> {
    match f.parsed {
        Ok(a) => trim(a.title@),
        Err(_) => Seq::empty(),
    }
}

/// The key titles are compared by: trimmed and lower-cased, when not empty.
pub open spec fn title_key(f: FileFacts) -> Option<Seq<char>> {
    match f.parsed {
        Ok(a) => if lowercase(trim(a.title@)).len() > 0 {
            Some(lowercase(trim(a.title@)))
        } else {
            None
        },
        Err(_) => None,
    }
}

pub open spec fn title_keys(files: Seq<FileFacts>) -> Seq<Option<Seq<char>>> {
    files.map_values(|f: FileFacts| title_key(f))
}

/// The duplicate-title finding reported at file `i`: at the first file of a
/// title key that more than one file has, labelled with that file's title.
pub open spec fn dup_title_at(store: Store, files: Seq<FileFacts>, i: int) -> Seq<ProblemV> {
    match title_key(files[i]) {
        Some(k) => if first_of_many(title_keys(files), k, i) {
            let hs = positions(title_keys(files), k, files.len() as int);
            seq![
                ProblemV {
                    severity: Severity::Warning,
                    kind: ProblemKind::DuplicateTitle,
                    label: title_of(files[i]),
                    summary: "duplicate title"@,
                    paths: entries(store, files, hs),
                    message: "duplicate title \""@ + title_of(files[i]) + "\" used by "@ + join(rels(store, files, hs), ", "@),
                },
            ]
        } else {
            Seq::empty()
        },
        None => Seq::empty(),
    }
}

pub open spec fn dup_titles_upto(store: Store, files: Seq<FileFacts>, n: int) -> Seq<ProblemV>
    decreases n,
{
    if n <= 0 {
        Seq::empty()
    } else {
        dup_titles_upto(store, files, n - 1) + dup_title_at(store, files, n - 1)
    }
}

fn title_key_v(f: &FileFacts) -> (r: Option<Vec<char>>)
    ensures
        match r {
            Some(k) => title_key(*f) == Some(k@),
            None => title_key(*f) is None,
        },
{
    match &f.parsed {
        Ok(a) => {
            let t = crate::text::trim_v(&chars_of(a.title.as_str()));
            let k = chars_of(crate::naming::str_to_lowercase(string_of(&t).as_str()).as_str());
            if k.len() > 0 {
                Some(k)
            } else {
                None
            }
        },
        Err(_) => None,
    }
}

/// The indices of the files whose title key is `k`, in order.
fn title_positions_v(files: &Vec<FileFacts>, k: &Vec<char>) -> (hs: Vec<usize>)
    ensures
        as_ints(hs@) == positions(title_keys(files@), k@, files.len() as int),
        forall|j: int| 0 <= j < hs.len() ==> hs@[j] < files.len(),
{
    let mut hs: Vec<usize> = Vec::new();
    let mut i: usize = 0;
    while i < files.len()
        invariant
            i <= files.len(),
            as_ints(hs@) == positions(title_keys(files@), k@, i as int),
            forall|j: int| 0 <= j < hs.len() ==> hs@[j] < i,
        decreases files.len() - i,
    {
        let hit = match title_key_v(&files[i]) {
            Some(x) => eq_chars(&x, k),
            None => false,
        };
        let ghost before = hs@;
        assert(title_keys(files@)[i as int] == title_key(files@[i as int]));
        if hit {
            hs.push(i);
            assert(as_ints(hs@) =~= as_ints(before).push(i as int));
        } else {
            assert(as_ints(hs@) =~= as_ints(before));
        }
        assert(as_ints(hs@) =~= positions(title_keys(files@), k@, i + 1));
        i = i + 1;
    }
    hs
}

/// The duplicate-title finding at file `i`, if any.
fn dup_title_v(out: &mut Vec<Problem>, store: &Store, files: &Vec<FileFacts>, i: usize)
    requires
        i < files.len(),
    ensures
        problems_v(final(out)@) == problems_v(old(out)@) + dup_title_at(*store, files@, i as int),
{
    let ghost before = problems_v(out@);
    match title_key_v(&files[i]) {
        Some(k) => {
            let hs = title_positions_v(files, &k);
            proof {
                assert(title_keys(files@)[i as int] == title_key(files@[i as int]));
                lemma_first_position(title_keys(files@), k@, i as int);
                assert(as_ints(hs@).len() == hs@.len());
                if hs.len() > 0 {
                    assert(as_ints(hs@)[0] == hs@[0]);
                }
            }
            if hs.len() > 1 && hs[0] == i {
                let title = match &files[i].parsed {
                    Ok(a) => crate::text::trim_v(&chars_of(a.title.as_str())),
                    Err(_) => Vec::new(),
                };
                let (es, rs) = entries_v(store, files, &hs);
                let mut message = chars_of("duplicate title \"");
                append_all(&mut message, &title);
                append_str(&mut message, "\" used by ");
                append_all(&mut message, &crate::text::join_str(&rs, ", "));
                let p = Problem {
                    severity: Severity::Warning,
                    kind: ProblemKind::DuplicateTitle,
                    label: string_of(&title),
                    summary: string_of(&chars_of("duplicate title")),
                    paths: es,
                    message: string_of(&message),
                };
                out.push(p);
            }
        },
        None => {},
    }
    assert(problems_v(out@) =~= before + dup_title_at(*store, files@, i as int));
}

// ---------------------------------------------------------------------------
// The whole check
// ---------------------------------------------------------------------------

/// Every finding, in the order the rules run: per file, parse failures and
/// status mismatches; per file, dangling supersession references; per file,
/// broken and stale links; per identity, duplicates; per title, duplicates.
pub open spec fn all_findings(store: Store, files: Seq<FileFacts>) -> Seq<ProblemV> {
    let n = files.len() as int;
    first_pass_upto(store, files, n) + second_pass_upto(store, files, n) + third_pass_upto(store, files, n)
        + dup_ids_upto(store, files, n) + dup_titles_upto(store, files, n)
}

/// Validate an ADR repository from what was read of its files.
///
/// Runs the checks `adroit check` has always run: a status section that
/// contradicts the status directory (markdown, by-status layout), duplicate
/// identities (scheme-aware), unparseable files, supersession references to
/// no existing ADR, broken or stale relative links; and, as a warning,
/// duplicate titles. A markdown file that parsed but whose text is missing
/// fails the whole check with that file's path. Problems come errors first,
/// then by message.
pub fn check(store: &Store, files: &Vec<FileFacts>) -> (r: Result<CheckReport, super::QueryError>)
    ensures
        match first_unreadable(*store, files@, files.len() as int) {
            Some(k) => r matches Err(super::QueryError::Io(p)) && p@ == files@[k].path@,
            None => r matches Ok(rep) && rep.checked == files.len()
                && problems_v(rep.problems@).to_multiset() == all_findings(*store, files@).to_multiset()
                && sorted_by(problems_v(rep.problems@), problem_order()),
        },
{
    let n = files.len();
    let mut out: Vec<Problem> = Vec::new();
    let mut i: usize = 0;
    assert(problems_v(out@) =~= Seq::<ProblemV>::empty());
    while i < n
        invariant
            i <= n,
            n == files.len(),
            first_unreadable(*store, files@, i as int) is None,
            problems_v(out@) == first_pass_upto(*store, files@, i as int),
        decreases n - i,
    {
        match first_pass_v(store, &files[i]) {
            Ok(found) => {
                let ghost before = problems_v(out@);
                let mut found = found;
                out.append(&mut found);
                assert(problems_v(out@) =~= before + first_pass(*store, files@[i as int]));
            },
            Err(p) => {
                proof {
                    assert(first_unreadable(*store, files@, i + 1) == Some(i as int));
                    lemma_first_unreadable_stays(*store, files@, i + 1, n as int);
                }
                return Err(super::QueryError::Io(p));
            },
        }
        i = i + 1;
    }
    let mut j: usize = 0;
    while j < n
        invariant
            j <= n,
            n == files.len(),
            problems_v(out@) == first_pass_upto(*store, files@, n as int) + second_pass_upto(*store, files@, j as int),
        decreases n - j,
    {
        second_pass_v(&mut out, store, files, &files[j]);
        j = j + 1;
    }
    let mut k: usize = 0;
    while k < n
        invariant
            k <= n,
            n == files.len(),
            problems_v(out@) == first_pass_upto(*store, files@, n as int) + second_pass_upto(*store, files@, n as int)
                + third_pass_upto(*store, files@, k as int),
        decreases n - k,
    {
        third_pass_v(&mut out, store, files, &files[k]);
        k = k + 1;
    }
    let mut d: usize = 0;
    while d < n
        invariant
            d <= n,
            n == files.len(),
            problems_v(out@) == first_pass_upto(*store, files@, n as int) + second_pass_upto(*store, files@, n as int)
                + third_pass_upto(*store, files@, n as int) + dup_ids_upto(*store, files@, d as int),
        decreases n - d,
    {
        dup_id_v(&mut out, store, files, d);
        d = d + 1;
    }
    let mut t: usize = 0;
    while t < n
        invariant
            t <= n,
            n == files.len(),
            problems_v(out@) == first_pass_upto(*store, files@, n as int) + second_pass_upto(*store, files@, n as int)
                + third_pass_upto(*store, files@, n as int) + dup_ids_upto(*store, files@, n as int)
                + dup_titles_upto(*store, files@, t as int),
        decreases n - t,
    {
        dup_title_v(&mut out, store, files, t);
        t = t + 1;
    }
    let problems = sort_problems(out);
    Ok(CheckReport { checked: n, problems })
}

proof fn lemma_first_unreadable_stays(store: Store, files: Seq<FileFacts>, m: int, n: int)
    requires
        0 <= m <= n,
        first_unreadable(store, files, m) is Some,
    ensures
        first_unreadable(store, files, n) == first_unreadable(store, files, m),
    decreases n - m,
{
    if n > m {
        lemma_first_unreadable_stays(store, files, m, n - 1);
    }
}


/// No file holding `x` leaves no holder of `x`.
proof fn lemma_no_holders(files: Seq<FileFacts>, x: RefV)
    requires
        forall|j: int| 0 <= j < files.len() ==> ident_of(#[trigger] files[j]) != Some(x),
    ensures
        all_holders(files, x).len() == 0,
{
    let keys = idents(files);
    lemma_positions_bounds(keys, x, files.len() as int);
    let ps = all_holders(files, x);
    if ps.len() > 0 {
        let j = ps[0];
        assert(keys[j] == Some(x));
        assert(keys[j] == ident_of(files[j]));
    }
}

/// What one file's supersession findings add shows up in the second pass.
proof fn lemma_second_pass_upto_has(store: Store, files: Seq<FileFacts>, n: int, i: int, p: ProblemV)
    requires
        0 <= i < n <= files.len(),
        second_pass(store, files, files[i]).contains(p),
    ensures
        second_pass_upto(store, files, n).contains(p),
    decreases n,
{
    let prev = second_pass_upto(store, files, n - 1);
    let last = second_pass(store, files, files[n - 1]);
    assert(second_pass_upto(store, files, n) == prev + last);
    if i < n - 1 {
        lemma_second_pass_upto_has(store, files, n - 1, i, p);
        let k = choose|k: int| 0 <= k < prev.len() && prev[k] == p;
        assert((prev + last)[k] == p);
    } else {
        let k = choose|k: int| 0 <= k < last.len() && last[k] == p;
        assert((prev + last)[prev.len() + k] == p);
    }
}

/// The broken-supersession error `check` gives for a reference of a file's
/// `## Status` section (`word` is `Supersedes` or `Superseded by`) to `x`.
pub open spec fn status_ref_error(store: Store, f: FileFacts, word: Seq<char>, x: RefV) -> ProblemV {
    let rel = rel_to(store.root_view(), f.path@);
    let summary = "## Status"@ + " says "@ + word + " "@ + scheme_display(store.naming_view(), x) + " but no such ADR exists"@;
    ProblemV { severity: Severity::Error, kind: ProblemKind::BrokenSupersession, label: rel, summary, paths: Seq::empty(), message: rel + ": "@ + summary }
}

/// A supersession named by a markdown ADR's `## Status` section must exist:
/// when the section says `Supersedes` or `Superseded by` an ADR that no file
/// of the repository is, `check` reports a broken-supersession error for
/// that file naming the missing ADR, in both directions.
pub proof fn law_check_flags_missing_supersession(store: Store, files: Seq<FileFacts>, i: int)
    requires
        0 <= i < files.len(),
        store.format_view() == Format::Markdown,
        files[i].content is Some,
    ensures
        ({
            let f = files[i];
            let region = status_region(f.content->0@);
            let cat = parent_name(f.path@);
            let naming = store.naming_view();
            &&& region.supersedes matches Some(fr) ==> (
                crate::naming::scheme_ref_in_note_from(naming, fr, cat) matches Some(x) ==> (
                    (forall|j: int| 0 <= j < files.len() ==> ident_of(#[trigger] files[j]) != Some(x))
                        ==> all_findings(store, files).contains(status_ref_error(store, f, "Supersedes"@, x))))
            &&& region.superseded_by matches Some(fr) ==> (
                crate::naming::scheme_ref_in_note_from(naming, fr, cat) matches Some(x) ==> (
                    (forall|j: int| 0 <= j < files.len() ==> ident_of(#[trigger] files[j]) != Some(x))
                        ==> all_findings(store, files).contains(status_ref_error(store, f, "Superseded by"@, x))))
        }),
{
    let f = files[i];
    let region = status_region(f.content->0@);
    let cat = parent_name(f.path@);
    let naming = store.naming_view();
    let n = files.len() as int;
    let sup = resolve_note(naming, region.supersedes, cat);
    let sup_by = resolve_note(naming, region.superseded_by, cat);
    let sp = second_pass(store, files, f);
    assert(sp == broken_refs(store, files, f, "## Status"@, sup, sup_by));
    let a = first_pass_upto(store, files, n);
    let b = second_pass_upto(store, files, n);
    let c = third_pass_upto(store, files, n);
    let d = dup_ids_upto(store, files, n);
    let e = dup_titles_upto(store, files, n);
    assert(all_findings(store, files) == a + b + c + d + e);
    if let Some(x) = sup {
        if forall|j: int| 0 <= j < files.len() ==> ident_of(#[trigger] files[j]) != Some(x) {
            lemma_no_holders(files, x);
            let p = status_ref_error(store, f, "Supersedes"@, x);
            assert(sp[0] == p);
            assert(sp.contains(p));
            lemma_second_pass_upto_has(store, files, n, i, p);
            let k = choose|k: int| 0 <= k < b.len() && b[k] == p;
            assert((a + b + c + d + e)[a.len() + k] == p);
        }
    }
    if let Some(x) = sup_by {
        if forall|j: int| 0 <= j < files.len() ==> ident_of(#[trigger] files[j]) != Some(x) {
            lemma_no_holders(files, x);
            let p = status_ref_error(store, f, "Superseded by"@, x);
            let first: Seq<ProblemV> = if dangling(files, sup) {
                seq![broken_supersession(store, f, "## Status"@, "Supersedes"@, sup->0)]
            } else {
                Seq::empty()
            };
            assert(sp[first.len() as int] == p);
            assert(sp.contains(p));
            lemma_second_pass_upto_has(store, files, n, i, p);
            let k = choose|k: int| 0 <= k < b.len() && b[k] == p;
            assert((a + b + c + d + e)[a.len() + k] == p);
        }
    }
}

} // verus!
