//! The read side's shared vocabulary: how listings are filtered and sorted,
//! what a query can fail with, and which ADRs a body links to.
use vstd::prelude::*;
use crate::adr::{adr_ref, Adr, Status};
use crate::links::{link_close, link_close_v, link_spans, span_texts};
use crate::naming::{opt_view, ref_addr, scheme_display, scheme_ref_in_link, AdrRef, NamingScheme, RefV};
use crate::store::StoreError;
use crate::text::{append_str, chars_of, eq_chars, slice_of, string_of};

pub mod health;
pub mod listing;
pub mod stats;
pub mod tree;

pub use tree::{graph_tree, GraphGroup, GraphTree};
pub use stats::{stats, CreatedBucket, ProposedAge, StatusCount, Stats};
pub use listing::{same_title_positions, detail_of, related_links, search, sort_summaries, summaries, summary_of, timeline_event, AdrDetail, AdrSummary, Dated, RelatedLink, TimelineEvent};
pub use health::{check, sort_problems, CheckReport, FileFacts, LinkFacts, Problem, ProblemFile, ProblemKind, Severity};

verus! {

/// What a query can fail with.
#[derive(Debug)]
pub enum QueryError {
    /// The store could not be read.
    Store(StoreError),
    /// A file could not be read.
    Io(String),
}

impl QueryError {
    pub fn message(&self) -> (s: String)
        ensures
            self matches QueryError::Io(p) ==> s@ == "could not read "@ + p@,
    {
        match self {
            QueryError::Store(e) => e.message(),
            QueryError::Io(p) => {
                let mut v = chars_of("could not read ");
                append_str(&mut v, p.as_str());
                string_of(&v)
            },
        }
    }
}

/// Sort order of an ADR listing.
#[derive(Debug, Clone, Copy, PartialEq, Eq, Structural)]
pub enum Sort {
    /// Ascending by ADR number, the on-disk listing order.
    NumberAsc,
    /// Descending by ADR number (newest first).
    NumberDesc,
    /// Newest creation date first.
    CreatedDesc,
    /// Alphabetical by title, ignoring case.
    TitleAsc,
}

impl Default for Sort {
    fn default() -> (r: Self)
        ensures
            r == Sort::NumberAsc,
    {
        Sort::NumberAsc
    }
}

/// How to filter and sort an ADR listing.
#[derive(Debug, Clone, Copy, PartialEq, Eq, Structural)]
pub struct Filter {
    /// Only ADRs with this status; `None` keeps all.
    pub status: Option<Status>,
    pub sort: Sort,
}

impl Default for Filter {
    fn default() -> (r: Self)
        ensures
            r.status is None,
            r.sort == Sort::NumberAsc,
    {
        Filter { status: None, sort: Sort::NumberAsc }
    }
}

impl Filter {
    /// Whether an ADR of status `s` is kept.
    pub fn keeps(&self, s: Status) -> (r: bool)
        ensures
            r == (match self.status {
                Some(want) => want == s,
                None => true,
            }),
    {
        match self.status {
            Some(want) => want == s,
            None => true,
        }
    }
}

/// `acc` with the ref a link target names appended, unless it is none or
/// already there.
pub open spec fn add_ref(acc: Seq<RefV>, r: Option<RefV>) -> Seq<RefV> {
    match r {
        Some(x) => if acc.contains(x) {
            acc
        } else {
            acc.push(x)
        },
        None => acc,
    }
}

/// The refs the targets name, in first-seen order, each once.
pub open spec fn refs_fold(acc: Seq<RefV>, targets: Seq<Seq<char>>, scheme: NamingScheme) -> Seq<RefV>
    decreases targets.len(),
{
    if targets.len() == 0 {
        acc
    } else {
        refs_fold(add_ref(acc, scheme_ref_in_link(scheme, targets[0])), targets.drop_first(), scheme)
    }
}

/// The ADR refs a body's markdown link targets name, first-seen order, no
/// repeats.
pub open spec fn linked_refs_spec(body: Seq<char>, scheme: NamingScheme) -> Seq<RefV> {
    refs_fold(Seq::empty(), span_texts(body, link_spans(body, 0)), scheme)
}

pub open spec fn refs_of(v: Seq<AdrRef>) -> Seq<RefV> {
    v.map_values(|r: AdrRef| r@)
}

/// Whether `r` is among `out`.
fn holds_ref(out: &Vec<AdrRef>, r: &AdrRef) -> (b: bool)
    ensures
        b == refs_of(out@).contains(r@),
{
    let mut k: usize = 0;
    while k < out.len()
        invariant
            k <= out.len(),
            forall|j: int| 0 <= j < k ==> refs_of(out@)[j] != r@,
        decreases out.len() - k,
    {
        if out[k].same(r) {
            assert(refs_of(out@)[k as int] == r@);
            return true;
        }
        k = k + 1;
    }
    false
}

/// The ADR refs targeted by markdown links in `body`, resolved through the
/// naming `scheme` (`[ADR-0006](../accepted/0006-foo.md)` gives `Number(6)`),
/// in first-seen order and each once.
pub fn linked_refs(body: &str, scheme: NamingScheme) -> (r: Vec<AdrRef>)
    ensures
        refs_of(r@) == linked_refs_spec(body@, scheme),
{
    let v = chars_of(body);
    let mut out: Vec<AdrRef> = Vec::new();
    let mut i: usize = 0;
    assert(refs_of(out@) =~= Seq::<RefV>::empty());
    while i < v.len()
        invariant
            i <= v.len(),
            v@ == body@,
            refs_fold(refs_of(out@), span_texts(v@, link_spans(v@, i as int)), scheme) == linked_refs_spec(body@, scheme),
        decreases v.len() - i,
    {
        let ghost s = v@;
        match link_close_v(&v, i) {
            Some(e) => {
                let t = slice_of(&v, i + 2, e);
                let found = scheme.ref_in_link_v(&t, None);
                proof {
                    let rest = link_spans(s, e + 1);
                    assert(link_spans(s, i as int) == seq![(i + 2, e as int)] + rest);
                    let ts = span_texts(s, link_spans(s, i as int));
                    assert(ts =~= seq![t@] + span_texts(s, rest));
                    assert(ts.drop_first() =~= span_texts(s, rest));
                    assert(ts[0] == t@);
                }
                match found {
                    Some(x) => {
                        if !holds_ref(&out, &x) {
                            let ghost before = refs_of(out@);
                            out.push(x);
                            assert(refs_of(out@) =~= before.push(x@));
                        }
                    },
                    None => {},
                }
                i = e + 1;
            },
            None => {
                i = i + 1;
            },
        }
    }
    proof {
        assert(span_texts(v@, link_spans(v@, i as int)) =~= Seq::<Seq<char>>::empty());
    }
    out
}

// ---------------------------------------------------------------------------
// The relationship graph
// ---------------------------------------------------------------------------

/// The kind of a relationship between two ADRs.
#[derive(Debug, Clone, Copy, PartialEq, Eq, Structural)]
pub enum EdgeKind {
    /// `from` supersedes `to`.
    Supersedes,
    /// `from` depends on `to`.
    DependsOn,
    /// `from` refines `to`.
    Refines,
    /// `from` relates to `to`.
    RelatesTo,
    /// A plain markdown link from `from`'s body to `to`.
    Related,
}

/// One ADR in the graph.
#[derive(Debug)]
pub struct GraphNode {
    /// The scheme's display form (`ADR-0001`).
    pub reference: String,
    /// The addressing token, for an ADR that has an identity.
    pub address: Option<String>,
    pub title: String,
    pub status: Status,
}

/// A directed relationship between two ADRs, by display reference.
#[derive(Debug)]
pub struct GraphEdge {
    pub from: String,
    pub to: String,
    pub kind: EdgeKind,
}

/// The supersession / relationship graph across all ADRs.
#[derive(Debug)]
pub struct Graph {
    pub nodes: Vec<GraphNode>,
    pub edges: Vec<GraphEdge>,
}

/// The abstract value of an edge: `(from, to, kind)`.
pub type EdgeT = (Seq<char>, Seq<char>, EdgeKind);

pub open spec fn edge_v(e: GraphEdge) -> EdgeT {
    (e.from@, e.to@, e.kind)
}

pub open spec fn edges_v(s: Seq<GraphEdge>) -> Seq<EdgeT> {
    s.map_values(|e: GraphEdge| edge_v(e))
}

/// The abstract value of a node: `(reference, address, title, status)`.
pub open spec fn node_v(n: GraphNode) -> (Seq<char>, Option<Seq<char>>, Seq<char>, Status) {
    (
        n.reference@,
        match n.address {
            Some(a) => Some(a@),
            None => None,
        },
        n.title@,
        n.status,
    )
}

/// The node an ADR contributes: its display reference, its address when it
/// has a number or a slug, its title and status.
pub open spec fn node_spec(a: Adr, scheme: NamingScheme) -> (Seq<char>, Option<Seq<char>>, Seq<char>, Status) {
    (
        scheme_display(scheme, adr_ref(a)),
        if a.number is Some || a.slug is Some {
            Some(ref_addr(adr_ref(a)))
        } else {
            None
        },
        a.title@,
        a.status,
    )
}

/// `acc` with `e` appended unless it is already there.
pub open spec fn push_unique_spec(acc: Seq<EdgeT>, e: EdgeT) -> Seq<EdgeT> {
    if acc.contains(e) {
        acc
    } else {
        acc.push(e)
    }
}

/// One edge of `kind` from `from` to each of `targets`, in order.
pub open spec fn typed_fold(acc: Seq<EdgeT>, from: Seq<char>, targets: Seq<RefV>, kind: EdgeKind, scheme: NamingScheme) -> Seq<EdgeT>
    decreases targets.len(),
{
    if targets.len() == 0 {
        acc
    } else {
        typed_fold(
            push_unique_spec(acc, (from, scheme_display(scheme, targets[0]), kind)),
            from,
            targets.drop_first(),
            kind,
            scheme,
        )
    }
}

/// Whether an edge joins `a` and `b`, either way round.
pub open spec fn pair_matches_spec(e: EdgeT, a: Seq<char>, b: Seq<char>) -> bool {
    (e.0 == a && e.1 == b) || (e.0 == b && e.1 == a)
}

/// Whether a more specific edge than a body link already joins `a` and `b`.
pub open spec fn covered(acc: Seq<EdgeT>, a: Seq<char>, b: Seq<char>) -> bool {
    exists|k: int| 0 <= k < acc.len() && acc[k].2 != EdgeKind::Related && pair_matches_spec(#[trigger] acc[k], a, b)
}

/// A `Related` edge for each linked ADR other than the ADR itself, unless a
/// more specific edge already joins the pair.
pub open spec fn related_fold(acc: Seq<EdgeT>, from: Seq<char>, refs: Seq<RefV>, scheme: NamingScheme) -> Seq<EdgeT>
    decreases refs.len(),
{
    if refs.len() == 0 {
        acc
    } else {
        let to = scheme_display(scheme, refs[0]);
        let next = if to == from || covered(acc, from, to) {
            acc
        } else {
            push_unique_spec(acc, (from, to, EdgeKind::Related))
        };
        related_fold(next, from, refs.drop_first(), scheme)
    }
}

/// The edges one ADR adds: its supersession fields, then its typed links,
/// then its body links.
pub open spec fn adr_edges(acc: Seq<EdgeT>, a: Adr, scheme: NamingScheme) -> Seq<EdgeT> {
    let from = scheme_display(scheme, adr_ref(a));
    let s1 = match a.supersedes {
        Some(r) => push_unique_spec(acc, (from, scheme_display(scheme, r@), EdgeKind::Supersedes)),
        None => acc,
    };
    let s2 = match a.superseded_by {
        Some(r) => push_unique_spec(s1, (scheme_display(scheme, r@), from, EdgeKind::Supersedes)),
        None => s1,
    };
    let s3 = typed_fold(s2, from, refs_of(a.depends_on@), EdgeKind::DependsOn, scheme);
    let s4 = typed_fold(s3, from, refs_of(a.refines@), EdgeKind::Refines, scheme);
    let s5 = typed_fold(s4, from, refs_of(a.relates_to@), EdgeKind::RelatesTo, scheme);
    related_fold(s5, from, linked_refs_spec(a.body@, scheme), scheme)
}

/// The edges of the first `n` ADRs.
pub open spec fn edges_upto(adrs: Seq<Adr>, n: int, scheme: NamingScheme) -> Seq<EdgeT>
    decreases n,
{
    if n <= 0 {
        Seq::empty()
    } else {
        adr_edges(edges_upto(adrs, n - 1, scheme), adrs[n - 1], scheme)
    }
}

/// Whether `edges` holds an edge equal to `(from, to, kind)`.
fn has_edge(edges: &Vec<GraphEdge>, from: &Vec<char>, to: &Vec<char>, kind: EdgeKind) -> (b: bool)
    ensures
        b == edges_v(edges@).contains((from@, to@, kind)),
{
    let mut k: usize = 0;
    while k < edges.len()
        invariant
            k <= edges.len(),
            forall|j: int| 0 <= j < k ==> edges_v(edges@)[j] != (from@, to@, kind),
        decreases edges.len() - k,
    {
        let e = &edges[k];
        if e.kind == kind && eq_chars(&chars_of(e.from.as_str()), from) && eq_chars(&chars_of(e.to.as_str()), to) {
            assert(edges_v(edges@)[k as int] == (from@, to@, kind));
            return true;
        }
        k = k + 1;
    }
    false
}

/// Append the edge unless an equal one is there.
fn push_unique(edges: &mut Vec<GraphEdge>, from: &Vec<char>, to: &Vec<char>, kind: EdgeKind)
    ensures
        edges_v(final(edges)@) == push_unique_spec(edges_v(old(edges)@), (from@, to@, kind)),
{
    if !has_edge(edges, from, to, kind) {
        let ghost before = edges_v(edges@);
        edges.push(GraphEdge { from: string_of(from), to: string_of(to), kind });
        assert(edges_v(edges@) =~= before.push((from@, to@, kind)));
    } else {
        assert(edges_v(edges@).contains((from@, to@, kind)));
    }
}

/// Whether a non-`Related` edge already joins `a` and `b`.
fn has_specific_edge(edges: &Vec<GraphEdge>, a: &Vec<char>, b: &Vec<char>) -> (r: bool)
    ensures
        r == covered(edges_v(edges@), a@, b@),
{
    let ghost es = edges_v(edges@);
    let mut k: usize = 0;
    while k < edges.len()
        invariant
            k <= edges.len(),
            es == edges_v(edges@),
            forall|j: int| 0 <= j < k ==> !(es[j].2 != EdgeKind::Related && pair_matches_spec(#[trigger] es[j], a@, b@)),
        decreases edges.len() - k,
    {
        let e = &edges[k];
        assert(es[k as int] == edge_v(*e));
        if e.kind != EdgeKind::Related {
            let f = chars_of(e.from.as_str());
            let t = chars_of(e.to.as_str());
            if (eq_chars(&f, a) && eq_chars(&t, b)) || (eq_chars(&f, b) && eq_chars(&t, a)) {
                assert(es[k as int].2 != EdgeKind::Related && pair_matches_spec(es[k as int], a@, b@));
                return true;
            }
        }
        k = k + 1;
    }
    false
}

/// One typed edge from `from` to each target.
fn push_typed(edges: &mut Vec<GraphEdge>, from: &Vec<char>, targets: &Vec<AdrRef>, kind: EdgeKind, scheme: NamingScheme)
    ensures
        edges_v(final(edges)@) == typed_fold(edges_v(old(edges)@), from@, refs_of(targets@), kind, scheme),
{
    let mut i: usize = 0;
    assert(refs_of(targets@).skip(0) =~= refs_of(targets@));
    while i < targets.len()
        invariant
            i <= targets.len(),
            typed_fold(edges_v(edges@), from@, refs_of(targets@).skip(i as int), kind, scheme)
                == typed_fold(edges_v(old(edges)@), from@, refs_of(targets@), kind, scheme),
        decreases targets.len() - i,
    {
        let to = scheme.display_v(&targets[i]);
        proof {
            let rest = refs_of(targets@).skip(i as int);
            assert(rest[0] == targets@[i as int]@);
            assert(rest.drop_first() =~= refs_of(targets@).skip(i + 1));
        }
        push_unique(edges, from, &to, kind);
        i = i + 1;
    }
    assert(refs_of(targets@).skip(i as int) =~= Seq::<RefV>::empty());
}

/// The body-link edges of one ADR.
fn push_related(edges: &mut Vec<GraphEdge>, from: &Vec<char>, refs: &Vec<AdrRef>, scheme: NamingScheme)
    ensures
        edges_v(final(edges)@) == related_fold(edges_v(old(edges)@), from@, refs_of(refs@), scheme),
{
    let mut i: usize = 0;
    assert(refs_of(refs@).skip(0) =~= refs_of(refs@));
    while i < refs.len()
        invariant
            i <= refs.len(),
            related_fold(edges_v(edges@), from@, refs_of(refs@).skip(i as int), scheme)
                == related_fold(edges_v(old(edges)@), from@, refs_of(refs@), scheme),
        decreases refs.len() - i,
    {
        let to = scheme.display_v(&refs[i]);
        proof {
            let rest = refs_of(refs@).skip(i as int);
            assert(rest[0] == refs@[i as int]@);
            assert(rest.drop_first() =~= refs_of(refs@).skip(i + 1));
        }
        if !eq_chars(&to, from) && !has_specific_edge(edges, from, &to) {
            push_unique(edges, from, &to, EdgeKind::Related);
        }
        i = i + 1;
    }
    assert(refs_of(refs@).skip(i as int) =~= Seq::<RefV>::empty());
}

/// The supersession / relationship graph across `adrs`: one node per ADR, in
/// order; edges from the `supersedes` / `superseded_by` fields (newer to
/// older), from the typed links, and a `Related` edge for each body link to
/// another ADR that no more specific edge already joins. No edge repeats.
pub fn graph(adrs: &Vec<Adr>, scheme: NamingScheme) -> (g: Graph)
    ensures
        g.nodes.len() == adrs.len(),
        forall|i: int| 0 <= i < adrs.len() ==> node_v(#[trigger] g.nodes@[i]) == node_spec(adrs@[i], scheme),
        edges_v(g.edges@) == edges_upto(adrs@, adrs.len() as int, scheme),
{
    let mut nodes: Vec<GraphNode> = Vec::new();
    let mut i: usize = 0;
    while i < adrs.len()
        invariant
            i <= adrs.len(),
            nodes.len() == i,
            forall|k: int| 0 <= k < i ==> node_v(#[trigger] nodes@[k]) == node_spec(adrs@[k], scheme),
        decreases adrs.len() - i,
    {
        let a = &adrs[i];
        let r = a.reference();
        let address = if a.number.is_some() || a.slug.is_some() {
            Some(r.addr())
        } else {
            None
        };
        nodes.push(GraphNode {
            reference: scheme.display(&r),
            address,
            title: string_of(&chars_of(a.title.as_str())),
            status: a.status,
        });
        i = i + 1;
    }
    let mut edges: Vec<GraphEdge> = Vec::new();
    let mut j: usize = 0;
    assert(edges_v(edges@) =~= Seq::<EdgeT>::empty());
    while j < adrs.len()
        invariant
            j <= adrs.len(),
            edges_v(edges@) == edges_upto(adrs@, j as int, scheme),
        decreases adrs.len() - j,
    {
        let a = &adrs[j];
        let from = scheme.display_v(&a.reference());
        match &a.supersedes {
            Some(r) => {
                let to = scheme.display_v(r);
                push_unique(&mut edges, &from, &to, EdgeKind::Supersedes);
            },
            None => {},
        }
        match &a.superseded_by {
            Some(r) => {
                let other = scheme.display_v(r);
                push_unique(&mut edges, &other, &from, EdgeKind::Supersedes);
            },
            None => {},
        }
        push_typed(&mut edges, &from, &a.depends_on, EdgeKind::DependsOn, scheme);
        push_typed(&mut edges, &from, &a.refines, EdgeKind::Refines, scheme);
        push_typed(&mut edges, &from, &a.relates_to, EdgeKind::RelatesTo, scheme);
        let linked = linked_refs(a.body.as_str(), scheme);
        push_related(&mut edges, &from, &linked, scheme);
        j = j + 1;
    }
    Graph { nodes, edges }
}

/// Whether no edge repeats and no `Related` edge loops back to its source.
pub open spec fn edges_wf(s: Seq<EdgeT>) -> bool {
    &&& forall|i: int, j: int| 0 <= i < j < s.len() ==> s[i] != s[j]
    &&& forall|i: int| 0 <= i < s.len() && (#[trigger] s[i]).2 == EdgeKind::Related ==> s[i].0 != s[i].1
}

proof fn lemma_push_unique(acc: Seq<EdgeT>, e: EdgeT)
    ensures
        (edges_wf(acc) && (e.2 == EdgeKind::Related ==> e.0 != e.1)) ==> edges_wf(push_unique_spec(acc, e)),
        push_unique_spec(acc, e).contains(e),
        forall|x: EdgeT| acc.contains(x) ==> push_unique_spec(acc, e).contains(x),
{
    let r = push_unique_spec(acc, e);
    if !acc.contains(e) {
        assert(r[acc.len() as int] == e);
        assert forall|x: EdgeT| acc.contains(x) implies r.contains(x) by {
            let k = choose|k: int| 0 <= k < acc.len() && acc[k] == x;
            assert(r[k] == x);
        }
    }
}

proof fn lemma_typed_fold(acc: Seq<EdgeT>, from: Seq<char>, targets: Seq<RefV>, kind: EdgeKind, scheme: NamingScheme)
    requires
        kind != EdgeKind::Related,
    ensures
        edges_wf(acc) ==> edges_wf(typed_fold(acc, from, targets, kind, scheme)),
        forall|x: EdgeT| acc.contains(x) ==> typed_fold(acc, from, targets, kind, scheme).contains(x),
        forall|k: int| 0 <= k < targets.len() ==> typed_fold(acc, from, targets, kind, scheme).contains(
            (from, scheme_display(scheme, #[trigger] targets[k]), kind),
        ),
    decreases targets.len(),
{
    if targets.len() > 0 {
        let e = (from, scheme_display(scheme, targets[0]), kind);
        lemma_push_unique(acc, e);
        let rest = targets.drop_first();
        lemma_typed_fold(push_unique_spec(acc, e), from, rest, kind, scheme);
        assert forall|k: int| 0 <= k < targets.len() implies typed_fold(acc, from, targets, kind, scheme).contains(
            (from, scheme_display(scheme, #[trigger] targets[k]), kind),
        ) by {
            if k > 0 {
                assert(targets[k] == rest[k - 1]);
            }
        }
    }
}

proof fn lemma_related_fold(acc: Seq<EdgeT>, from: Seq<char>, refs: Seq<RefV>, scheme: NamingScheme)
    ensures
        edges_wf(acc) ==> edges_wf(related_fold(acc, from, refs, scheme)),
        forall|x: EdgeT| acc.contains(x) ==> related_fold(acc, from, refs, scheme).contains(x),
    decreases refs.len(),
{
    if refs.len() > 0 {
        let to = scheme_display(scheme, refs[0]);
        let e = (from, to, EdgeKind::Related);
        lemma_push_unique(acc, e);
        let next = if to == from || covered(acc, from, to) {
            acc
        } else {
            push_unique_spec(acc, e)
        };
        lemma_related_fold(next, from, refs.drop_first(), scheme);
    }
}

proof fn lemma_adr_edges(acc: Seq<EdgeT>, a: Adr, scheme: NamingScheme)
    ensures
        edges_wf(acc) ==> edges_wf(adr_edges(acc, a, scheme)),
        forall|x: EdgeT| acc.contains(x) ==> adr_edges(acc, a, scheme).contains(x),
        a.supersedes matches Some(r) ==> adr_edges(acc, a, scheme).contains(
            (scheme_display(scheme, adr_ref(a)), scheme_display(scheme, r@), EdgeKind::Supersedes),
        ),
        a.superseded_by matches Some(r) ==> adr_edges(acc, a, scheme).contains(
            (scheme_display(scheme, r@), scheme_display(scheme, adr_ref(a)), EdgeKind::Supersedes),
        ),
        forall|k: int| 0 <= k < a.depends_on.len() ==> adr_edges(acc, a, scheme).contains(
            (scheme_display(scheme, adr_ref(a)), scheme_display(scheme, (#[trigger] a.depends_on@[k])@), EdgeKind::DependsOn),
        ),
        forall|k: int| 0 <= k < a.refines.len() ==> adr_edges(acc, a, scheme).contains(
            (scheme_display(scheme, adr_ref(a)), scheme_display(scheme, (#[trigger] a.refines@[k])@), EdgeKind::Refines),
        ),
        forall|k: int| 0 <= k < a.relates_to.len() ==> adr_edges(acc, a, scheme).contains(
            (scheme_display(scheme, adr_ref(a)), scheme_display(scheme, (#[trigger] a.relates_to@[k])@), EdgeKind::RelatesTo),
        ),
{
    let from = scheme_display(scheme, adr_ref(a));
    let s1 = match a.supersedes {
        Some(r) => {
            lemma_push_unique(acc, (from, scheme_display(scheme, r@), EdgeKind::Supersedes));
            push_unique_spec(acc, (from, scheme_display(scheme, r@), EdgeKind::Supersedes))
        },
        None => acc,
    };
    let s2 = match a.superseded_by {
        Some(r) => {
            lemma_push_unique(s1, (scheme_display(scheme, r@), from, EdgeKind::Supersedes));
            push_unique_spec(s1, (scheme_display(scheme, r@), from, EdgeKind::Supersedes))
        },
        None => s1,
    };
    let s3 = typed_fold(s2, from, refs_of(a.depends_on@), EdgeKind::DependsOn, scheme);
    let s4 = typed_fold(s3, from, refs_of(a.refines@), EdgeKind::Refines, scheme);
    let s5 = typed_fold(s4, from, refs_of(a.relates_to@), EdgeKind::RelatesTo, scheme);
    lemma_typed_fold(s2, from, refs_of(a.depends_on@), EdgeKind::DependsOn, scheme);
    lemma_typed_fold(s3, from, refs_of(a.refines@), EdgeKind::Refines, scheme);
    lemma_typed_fold(s4, from, refs_of(a.relates_to@), EdgeKind::RelatesTo, scheme);
    lemma_related_fold(s5, from, linked_refs_spec(a.body@, scheme), scheme);
    assert forall|k: int| 0 <= k < a.depends_on.len() implies adr_edges(acc, a, scheme).contains(
        (from, scheme_display(scheme, (#[trigger] a.depends_on@[k])@), EdgeKind::DependsOn),
    ) by {
        assert(refs_of(a.depends_on@)[k] == a.depends_on@[k]@);
    }
    assert forall|k: int| 0 <= k < a.refines.len() implies adr_edges(acc, a, scheme).contains(
        (from, scheme_display(scheme, (#[trigger] a.refines@[k])@), EdgeKind::Refines),
    ) by {
        assert(refs_of(a.refines@)[k] == a.refines@[k]@);
    }
    assert forall|k: int| 0 <= k < a.relates_to.len() implies adr_edges(acc, a, scheme).contains(
        (from, scheme_display(scheme, (#[trigger] a.relates_to@[k])@), EdgeKind::RelatesTo),
    ) by {
        assert(refs_of(a.relates_to@)[k] == a.relates_to@[k]@);
    }
}

proof fn lemma_edges_upto(adrs: Seq<Adr>, n: int, scheme: NamingScheme)
    ensures
        edges_wf(edges_upto(adrs, n, scheme)),
        forall|m: int, x: EdgeT| 0 <= m <= n && edges_upto(adrs, m, scheme).contains(x) ==> edges_upto(adrs, n, scheme).contains(x),
    decreases n,
{
    if n > 0 {
        lemma_edges_upto(adrs, n - 1, scheme);
        lemma_adr_edges(edges_upto(adrs, n - 1, scheme), adrs[n - 1], scheme);
    }
}

/// No edge of the graph repeats, a body link never yields an edge from an ADR
/// to itself, and each ADR's supersession fields show up as edges: `A`
/// supersedes `B` gives `A -> B`, and `A` superseded by `B` gives `B -> A`.
pub proof fn law_graph_edges(adrs: Seq<Adr>, scheme: NamingScheme)
    ensures
        edges_wf(edges_upto(adrs, adrs.len() as int, scheme)),
        forall|i: int| 0 <= i < adrs.len() ==> (#[trigger] adrs[i]).supersedes is Some
            ==> edges_upto(adrs, adrs.len() as int, scheme).contains(
                (scheme_display(scheme, adr_ref(adrs[i])), scheme_display(scheme, adrs[i].supersedes.unwrap()@), EdgeKind::Supersedes),
            ),
        forall|i: int| 0 <= i < adrs.len() ==> (#[trigger] adrs[i]).superseded_by is Some
            ==> edges_upto(adrs, adrs.len() as int, scheme).contains(
                (scheme_display(scheme, adrs[i].superseded_by.unwrap()@), scheme_display(scheme, adr_ref(adrs[i])), EdgeKind::Supersedes),
            ),
{
    let n = adrs.len() as int;
    lemma_edges_upto(adrs, n, scheme);
    assert forall|i: int| 0 <= i < n implies {
        &&& (#[trigger] adrs[i]).supersedes is Some ==> edges_upto(adrs, n, scheme).contains(
            (scheme_display(scheme, adr_ref(adrs[i])), scheme_display(scheme, adrs[i].supersedes.unwrap()@), EdgeKind::Supersedes))
        &&& adrs[i].superseded_by is Some ==> edges_upto(adrs, n, scheme).contains(
            (scheme_display(scheme, adrs[i].superseded_by.unwrap()@), scheme_display(scheme, adr_ref(adrs[i])), EdgeKind::Supersedes))
    } by {
        lemma_adr_edges(edges_upto(adrs, i, scheme), adrs[i], scheme);
        assert(edges_upto(adrs, i + 1, scheme) == adr_edges(edges_upto(adrs, i, scheme), adrs[i], scheme));
    }
}


/// Every typed link shows up as an edge of its kind: an ADR `A` that depends
/// on, refines or relates to `B` gives the edge `A -> B` of that kind, from
/// `A`'s display reference to `B`'s.
pub proof fn law_graph_typed_edges(adrs: Seq<Adr>, scheme: NamingScheme, i: int, k: int)
    requires
        0 <= i < adrs.len(),
    ensures
        0 <= k < adrs[i].depends_on.len() ==> edges_upto(adrs, adrs.len() as int, scheme).contains(
            (scheme_display(scheme, adr_ref(adrs[i])), scheme_display(scheme, adrs[i].depends_on@[k]@), EdgeKind::DependsOn),
        ),
        0 <= k < adrs[i].refines.len() ==> edges_upto(adrs, adrs.len() as int, scheme).contains(
            (scheme_display(scheme, adr_ref(adrs[i])), scheme_display(scheme, adrs[i].refines@[k]@), EdgeKind::Refines),
        ),
        0 <= k < adrs[i].relates_to.len() ==> edges_upto(adrs, adrs.len() as int, scheme).contains(
            (scheme_display(scheme, adr_ref(adrs[i])), scheme_display(scheme, adrs[i].relates_to@[k]@), EdgeKind::RelatesTo),
        ),
{
    let n = adrs.len() as int;
    lemma_edges_upto(adrs, n, scheme);
    lemma_adr_edges(edges_upto(adrs, i, scheme), adrs[i], scheme);
    assert(edges_upto(adrs, i + 1, scheme) == adr_edges(edges_upto(adrs, i, scheme), adrs[i], scheme));
    if 0 <= k < adrs[i].depends_on.len() {
        assert(adr_edges(edges_upto(adrs, i, scheme), adrs[i], scheme).contains(
            (scheme_display(scheme, adr_ref(adrs[i])), scheme_display(scheme, adrs[i].depends_on@[k]@), EdgeKind::DependsOn)));
    }
    if 0 <= k < adrs[i].refines.len() {
        assert(adr_edges(edges_upto(adrs, i, scheme), adrs[i], scheme).contains(
            (scheme_display(scheme, adr_ref(adrs[i])), scheme_display(scheme, adrs[i].refines@[k]@), EdgeKind::Refines)));
    }
    if 0 <= k < adrs[i].relates_to.len() {
        assert(adr_edges(edges_upto(adrs, i, scheme), adrs[i], scheme).contains(
            (scheme_display(scheme, adr_ref(adrs[i])), scheme_display(scheme, adrs[i].relates_to@[k]@), EdgeKind::RelatesTo)));
    }
}

} // verus!
