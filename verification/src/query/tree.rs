//! The graph as a tree for printing: each ADR that has relationships with
//! its outgoing edges, sources in order, and the ADRs that have none.
use vstd::prelude::*;
use super::health::{chars_less, chars_lt, lemma_chars_lt_irreflexive, lemma_chars_lt_total, lemma_chars_lt_transitive};
use super::{edges_v, EdgeT, Graph};
use crate::text::{chars_of, eq_chars, string_of};

verus! {

/// The outgoing edges of one source, by position in the graph's edges.
#[derive(Debug)]
pub struct GraphGroup {
    pub from: String,
    pub edges: Vec<usize>,
}

/// The graph grouped for printing.
#[derive(Debug)]
pub struct GraphTree {
    /// One group per source, ordered by source.
    pub groups: Vec<GraphGroup>,
    /// The positions of the nodes that no edge starts or ends at.
    pub isolated: Vec<usize>,
}

/// The positions, among the first `k` edges, of those leaving `from`.
pub open spec fn edges_from(es: Seq<EdgeT>, from: Seq<char>, k: int) -> Seq<usize>
    decreases k,
{
    if k <= 0 {
        Seq::empty()
    } else if es[k - 1].0 == from {
        edges_from(es, from, k - 1).push((k - 1) as usize)
    } else {
        edges_from(es, from, k - 1)
    }
}

/// Whether some edge starts or ends at `r`.
pub open spec fn connected(es: Seq<EdgeT>, r: Seq<char>) -> bool {
    exists|i: int| 0 <= i < es.len() && (#[trigger] es[i].0 == r || es[i].1 == r)
}

/// The positions, among the first `k` nodes (given by reference), of those
/// no edge touches.
pub open spec fn isolated_upto(refs: Seq<Seq<char>>, es: Seq<EdgeT>, k: int) -> Seq<usize>
    decreases k,
{
    if k <= 0 {
        Seq::empty()
    } else if connected(es, refs[k - 1]) {
        isolated_upto(refs, es, k - 1)
    } else {
        isolated_upto(refs, es, k - 1).push((k - 1) as usize)
    }
}

pub open spec fn froms_of(gs: Seq<GraphGroup>) -> Seq<Seq<char>> {
    gs.map_values(|g: GraphGroup| g.from@)
}

/// The groups of the first `k` edges: sources strictly ordered, each with
/// the edges leaving it in order, one group for every source that occurs.
pub open spec fn grouped(gs: Seq<GraphGroup>, es: Seq<EdgeT>, k: int) -> bool {
    &&& forall|a: int, b: int| 0 <= a < b < gs.len() ==> chars_lt(#[trigger] gs[a].from@, #[trigger] gs[b].from@)
    &&& forall|a: int| 0 <= a < gs.len() ==> #[trigger] gs[a].edges@ == edges_from(es, gs[a].from@, k)
    &&& forall|a: int| 0 <= a < gs.len() ==> (#[trigger] gs[a].edges@).len() > 0
    &&& forall|i: int| #![trigger es[i]] 0 <= i < k ==> exists|a: int| 0 <= a < gs.len() && #[trigger] gs[a].from@ == es[i].0
}

proof fn lemma_edges_from_none(es: Seq<EdgeT>, from: Seq<char>, k: int)
    requires
        0 <= k <= es.len(),
        forall|i: int| 0 <= i < k ==> es[i].0 != from,
    ensures
        edges_from(es, from, k) == Seq::<usize>::empty(),
    decreases k,
{
    if k > 0 {
        lemma_edges_from_none(es, from, k - 1);
    }
}

/// Group the graph for printing: every source with its outgoing edges in
/// order, sources ordered as strings are; then the nodes no edge touches.
pub fn graph_tree(g: &Graph) -> (t: GraphTree)
    ensures
        grouped(t.groups@, edges_v(g.edges@), g.edges.len() as int),
        t.isolated@ == isolated_upto(g.nodes@.map_values(|n: super::GraphNode| n.reference@), edges_v(g.edges@), g.nodes.len() as int),
{
    let ghost es = edges_v(g.edges@);
    let mut groups: Vec<GraphGroup> = Vec::new();
    let mut k: usize = 0;
    while k < g.edges.len()
        invariant
            k <= g.edges.len(),
            es == edges_v(g.edges@),
            grouped(groups@, es, k as int),
        decreases g.edges.len() - k,
    {
        let f = chars_of(g.edges[k].from.as_str());
        assert(f@ == es[k as int].0);
        let mut p: usize = 0;
        let mut found = false;
        while p < groups.len()
            invariant_except_break
                !found,
            invariant
                p <= groups.len(),
                forall|q: int| 0 <= q < p ==> chars_lt(#[trigger] groups@[q].from@, f@),
                found ==> p < groups.len() && groups@[p as int].from@ == f@,
            ensures
                forall|q: int| 0 <= q < p ==> chars_lt(#[trigger] groups@[q].from@, f@),
                found ==> p < groups.len() && groups@[p as int].from@ == f@,
                !found ==> (p == groups.len() || chars_lt(f@, groups@[p as int].from@)),
            decreases groups.len() - p,
        {
            let gf = chars_of(groups[p].from.as_str());
            if eq_chars(&gf, &f) {
                found = true;
                break;
            }
            if !chars_less(&gf, &f) {
                proof {
                    lemma_chars_lt_total(gf@, f@);
                }
                break;
            }
            p = p + 1;
        }
        let ghost old_groups = groups@;
        if found {
            let mut grp = groups.remove(p);
            grp.edges.push(k);
            groups.insert(p, grp);
            proof {
                assert forall|a: int| 0 <= a < groups.len() implies #[trigger] groups@[a].edges@ == edges_from(es, groups@[a].from@, k + 1) by {
                    if a != p {
                        assert(groups@[a] == old_groups[a]);
                        if es[k as int].0 == groups@[a].from@ {
                            lemma_chars_lt_irreflexive(f@);
                            if a < p {
                                lemma_chars_lt_transitive(old_groups[p as int].from@, old_groups[a].from@, old_groups[p as int].from@);
                            } else {
                                lemma_chars_lt_transitive(old_groups[p as int].from@, old_groups[a].from@, old_groups[p as int].from@);
                            }
                        }
                    }
                }
                assert forall|a: int, b: int| 0 <= a < b < groups.len() implies chars_lt(#[trigger] groups@[a].from@, #[trigger] groups@[b].from@) by {
                    assert(groups@[a].from@ == old_groups[a].from@);
                    assert(groups@[b].from@ == old_groups[b].from@);
                }
                assert forall|a: int| 0 <= a < groups.len() implies (#[trigger] groups@[a].edges@).len() > 0 by {
                    if a != p {
                        assert(groups@[a] == old_groups[a]);
                    }
                }
                assert forall|i: int| #![trigger es[i]] 0 <= i < k + 1 implies exists|a: int| 0 <= a < groups.len() && #[trigger] groups@[a].from@ == es[i].0 by {
                    if i < k {
                        let a = choose|a: int| 0 <= a < old_groups.len() && #[trigger] old_groups[a].from@ == es[i].0;
                        assert(groups@[a].from@ == old_groups[a].from@);
                    } else {
                        assert(groups@[p as int].from@ == es[i].0);
                    }
                }
            }
        } else {
            proof {
                assert forall|i: int| 0 <= i < k implies es[i].0 != f@ by {
                    if es[i].0 == f@ {
                        let a = choose|a: int| 0 <= a < old_groups.len() && #[trigger] old_groups[a].from@ == es[i].0;
                        lemma_chars_lt_irreflexive(f@);
                        if a >= p {
                            if a > p {
                                assert(chars_lt(old_groups[p as int].from@, old_groups[a].from@));
                                lemma_chars_lt_transitive(f@, old_groups[p as int].from@, old_groups[a].from@);
                            }
                        }
                    }
                }
                lemma_edges_from_none(es, f@, k as int);
            }
            let mut edges: Vec<usize> = Vec::new();
            edges.push(k);
            groups.insert(p, GraphGroup { from: string_of(&f), edges });
            proof {
                assert(groups@[p as int].edges@ =~= edges_from(es, f@, k + 1));
                assert forall|a: int| 0 <= a < groups.len() implies #[trigger] groups@[a].edges@ == edges_from(es, groups@[a].from@, k + 1) by {
                    if a < p {
                        assert(groups@[a] == old_groups[a]);
                        lemma_chars_lt_irreflexive(f@);
                    } else if a > p {
                        assert(groups@[a] == old_groups[a - 1]);
                        if es[k as int].0 == groups@[a].from@ {
                            lemma_chars_lt_irreflexive(f@);
                            if a - 1 > p {
                                assert(chars_lt(old_groups[p as int].from@, old_groups[a - 1].from@));
                                lemma_chars_lt_transitive(f@, old_groups[p as int].from@, old_groups[a - 1].from@);
                            }
                        }
                    }
                }
                assert forall|a: int, b: int| 0 <= a < b < groups.len() implies chars_lt(#[trigger] groups@[a].from@, #[trigger] groups@[b].from@) by {
                    if a < p && b == p {
                    } else if a < p && b > p {
                        assert(groups@[b] == old_groups[b - 1]);
                        if b - 1 > p {
                            assert(chars_lt(old_groups[p as int].from@, old_groups[b - 1].from@));
                            lemma_chars_lt_transitive(f@, old_groups[p as int].from@, old_groups[b - 1].from@);
                        }
                        lemma_chars_lt_transitive(old_groups[a].from@, f@, old_groups[b - 1].from@);
                    } else if a == p {
                        assert(groups@[b] == old_groups[b - 1]);
                        if b - 1 > p {
                            assert(chars_lt(old_groups[p as int].from@, old_groups[b - 1].from@));
                            lemma_chars_lt_transitive(f@, old_groups[p as int].from@, old_groups[b - 1].from@);
                        }
                    } else if b < p {
                        assert(groups@[a] == old_groups[a]);
                        assert(groups@[b] == old_groups[b]);
                    } else {
                        assert(groups@[a] == old_groups[a - 1]);
                        assert(groups@[b] == old_groups[b - 1]);
                    }
                }
                assert forall|a: int| 0 <= a < groups.len() implies (#[trigger] groups@[a].edges@).len() > 0 by {
                    if a < p {
                        assert(groups@[a] == old_groups[a]);
                    } else if a > p {
                        assert(groups@[a] == old_groups[a - 1]);
                    }
                }
                assert forall|i: int| #![trigger es[i]] 0 <= i < k + 1 implies exists|a: int| 0 <= a < groups.len() && #[trigger] groups@[a].from@ == es[i].0 by {
                    if i < k {
                        let a = choose|a: int| 0 <= a < old_groups.len() && #[trigger] old_groups[a].from@ == es[i].0;
                        if a < p {
                            assert(groups@[a].from@ == old_groups[a].from@);
                        } else {
                            assert(groups@[a + 1].from@ == old_groups[a].from@);
                        }
                    } else {
                        assert(groups@[p as int].from@ == es[i].0);
                    }
                }
            }
        }
        k = k + 1;
    }
    let ghost refs = g.nodes@.map_values(|n: super::GraphNode| n.reference@);
    let mut isolated: Vec<usize> = Vec::new();
    let mut n: usize = 0;
    while n < g.nodes.len()
        invariant
            n <= g.nodes.len(),
            es == edges_v(g.edges@),
            refs == g.nodes@.map_values(|n: super::GraphNode| n.reference@),
            isolated@ == isolated_upto(refs, es, n as int),
        decreases g.nodes.len() - n,
    {
        let r = chars_of(g.nodes[n].reference.as_str());
        assert(r@ == refs[n as int]);
        let mut touched = false;
        let mut i: usize = 0;
        while i < g.edges.len()
            invariant
                i <= g.edges.len(),
                es == edges_v(g.edges@),
                touched ==> connected(es, r@),
                !touched ==> forall|j: int| #![trigger es[j]] 0 <= j < i ==> !(es[j].0 == r@ || es[j].1 == r@),
            decreases g.edges.len() - i,
        {
            let a = chars_of(g.edges[i].from.as_str());
            let b = chars_of(g.edges[i].to.as_str());
            assert(a@ == es[i as int].0 && b@ == es[i as int].1);
            let hit_from = eq_chars(&a, &r);
            let hit_to = eq_chars(&b, &r);
            if hit_from || hit_to {
                assert(es[i as int].0 == r@ || es[i as int].1 == r@);
                touched = true;
            } else {
                assert(!(es[i as int].0 == r@ || es[i as int].1 == r@));
            }
            i = i + 1;
        }
        if !touched {
            isolated.push(n);
        }
        n = n + 1;
    }
    GraphTree { groups, isolated }
}

} // verus!
