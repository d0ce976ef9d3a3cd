use vstd::prelude::*;

use crate::graph::{Graph, GraphModel, lemma_live_indices};
use crate::graph_state::{dense, plain_node, Duplicate};
use crate::serialization::{lemma_dense_edge_indices, lemma_dense_indices, position_of};

verus! {

// ------------------------------------------------------------------
// A graph stored as lists: live nodes in index order, and live edges in index
// order with their endpoints given as positions among the live nodes.
// ------------------------------------------------------------------

/// The payloads of the live nodes of `g`, in index order.
pub open spec fn stored_payloads<N, E>(g: GraphModel<N, E>) -> Seq<N> {
    let ln = g.node_indices();
    Seq::new(ln.len(), |k: int| g.node(ln[k] as int).payload)
}

/// The live edges of `g` in index order, as (source position, target
/// position, payload), positions counted among the live nodes.
pub open spec fn stored_edge_positions<N, E>(g: GraphModel<N, E>) -> Seq<(usize, usize, E)> {
    let ln = g.node_indices();
    let le = g.edge_indices();
    Seq::new(
        le.len(),
        |j: int|
            (
                position_of(ln, g.edge(le[j] as int).source) as usize,
                position_of(ln, g.edge(le[j] as int).target) as usize,
                g.edge(le[j] as int).payload,
            ),
    )
}

/// Every edge of `edges` joins two of the first `n` positions.
pub open spec fn positions_in_range<E>(edges: Seq<(usize, usize, E)>, n: nat) -> bool {
    forall|j: int| 0 <= j < edges.len() ==> (#[trigger] edges[j]).0 < n && edges[j].1 < n
}

/// `m` is the graph built from `nodes` and `edges`: node `k` carries
/// `nodes[k]` and edge `j` is `edges[j]`, with empty labels, nothing
/// selected and no vacant slot.
pub open spec fn loads_dense<N, E>(m: GraphModel<N, E>, nodes: Seq<N>, edges: Seq<(usize, usize, E)>) -> bool {
    &&& m.wf()
    &&& nodes.len() <= usize::MAX
    &&& edges.len() <= usize::MAX
    &&& dense(m, nodes.len(), edges.len())
    &&& forall|k: int| 0 <= k < nodes.len() ==> #[trigger] plain_node(m, k) && m.node(k).payload == nodes[k]
    &&& forall|j: int|
        0 <= j < edges.len() ==> {
            &&& (#[trigger] m.edge(j)).source == edges[j].0
            &&& m.edge(j).target == edges[j].1
            &&& m.edge(j).payload == edges[j].2
            &&& m.edge(j).label@ == Seq::<char>::empty()
        }
}

/// The live edges of `graph` in index order, endpoints as positions among the
/// live nodes.
pub fn edge_positions<N, E: Copy>(graph: &Graph<N, E>) -> (r: Vec<(usize, usize, E)>)
    requires
        graph@.wf(),
    ensures
        r@ == stored_edge_positions(graph@),
        positions_in_range(r@, graph@.node_indices().len()),
{
    let ghost g = graph@;
    let ln = graph.node_indices();
    let le = graph.edge_indices();
    proof {
        graph.lemma_bounds();
        lemma_live_indices(g.nodes);
        lemma_live_indices(g.edges);
    }
    let slots = graph.node_slots();
    let mut pos: Vec<usize> = Vec::new();
    let mut i: usize = 0;
    while i < slots
        invariant
            i <= slots,
            pos@.len() == i,
        decreases slots - i,
    {
        pos.push(0);
        i += 1;
    }
    let mut k: usize = 0;
    while k < ln.len()
        invariant
            g == graph@,
            ln@ == g.node_indices(),
            forall|a: int| 0 <= a < ln@.len() ==> #[trigger] g.is_node(ln@[a] as int),
            forall|a: int, b: int| 0 <= a < b < ln@.len() ==> ln@[a] < ln@[b],
            pos@.len() == g.nodes.len(),
            k <= ln@.len(),
            forall|a: int| 0 <= a < k ==> #[trigger] pos@[ln@[a] as int] == a,
        decreases ln@.len() - k,
    {
        let x = ln[k];
        assert(g.is_node(ln@[k as int] as int));
        pos.set(x, k);
        proof {
            assert forall|a: int| 0 <= a < k + 1 implies #[trigger] pos@[ln@[a] as int] == a by {
                if a < k {
                    assert(ln@[a] < ln@[k as int]);
                }
            }
        }
        k += 1;
    }
    let mut r: Vec<(usize, usize, E)> = Vec::new();
    let mut j: usize = 0;
    while j < le.len()
        invariant
            g == graph@,
            g.wf(),
            ln@ == g.node_indices(),
            le@ == g.edge_indices(),
            forall|a: int| 0 <= a < le@.len() ==> #[trigger] g.is_edge(le@[a] as int),
            forall|x: int| #[trigger] g.is_node(x) ==> ln@.contains(x as usize),
            forall|a: int, b: int| 0 <= a < b < ln@.len() ==> ln@[a] < ln@[b],
            pos@.len() == g.nodes.len(),
            forall|a: int| 0 <= a < ln@.len() ==> #[trigger] pos@[ln@[a] as int] == a,
            j <= le@.len(),
            r@ == stored_edge_positions(g).take(j as int),
            positions_in_range(r@, ln@.len()),
        decreases le@.len() - j,
    {
        let e = le[j];
        assert(g.is_edge(le@[j as int] as int));
        let x = graph.edge(e).unwrap();
        let ghost src = x.source;
        let ghost tgt = x.target;
        let s = pos[x.source];
        let t = pos[x.target];
        proof {
            assert(g.is_node(src as int));
            assert(g.is_node(tgt as int));
            let qs = choose|q: int| 0 <= q < ln@.len() && ln@[q] == src;
            assert(pos@[ln@[qs] as int] == qs);
            let ps = position_of(ln@, src);
            assert(0 <= ps < ln@.len() && ln@[ps] == src);
            if ps != qs {
                if ps < qs {
                    assert(ln@[ps] < ln@[qs]);
                } else {
                    assert(ln@[qs] < ln@[ps]);
                }
            }
            let qt = choose|q: int| 0 <= q < ln@.len() && ln@[q] == tgt;
            assert(pos@[ln@[qt] as int] == qt);
            let pt = position_of(ln@, tgt);
            assert(0 <= pt < ln@.len() && ln@[pt] == tgt);
            if pt != qt {
                if pt < qt {
                    assert(ln@[pt] < ln@[qt]);
                } else {
                    assert(ln@[qt] < ln@[pt]);
                }
            }
        }
        r.push((s, t, x.payload));
        assert(r@ =~= stored_edge_positions(g).take(j + 1));
        j += 1;
    }
    assert(stored_edge_positions(g).take(j as int) =~= stored_edge_positions(g));
    r
}

/// The graph with a node per entry of `nodes` and an edge per entry of
/// `edges`, in order.
pub fn build_dense<N: Duplicate, E: Copy>(nodes: &Vec<N>, edges: &Vec<(usize, usize, E)>) -> (g: Graph<N, E>)
    requires
        positions_in_range(edges@, nodes@.len()),
    ensures
        loads_dense(g@, nodes@, edges@),
{
    let mut g: Graph<N, E> = Graph::new();
    proof {
        assert(g@.insertion =~= Seq::new(0, |i: int| i as usize));
    }
    let mut k: usize = 0;
    while k < nodes.len()
        invariant
            k <= nodes@.len(),
            g@.wf(),
            dense(g@, k as nat, 0),
            forall|a: int| 0 <= a < k ==> #[trigger] plain_node(g@, a) && g@.node(a).payload == nodes@[a],
        decreases nodes@.len() - k,
    {
        let ghost before = g@;
        let payload = nodes[k].duplicate();
        let idx = g.add_node(payload, String::new());
        proof {
            g.lemma_bounds();
            assert(idx == k);
            assert(g@.nodes =~= before.nodes.push(g@.nodes[k as int]));
            assert forall|a: int| 0 <= a < k + 1 implies #[trigger] plain_node(g@, a) && g@.node(a).payload
                == nodes@[a] by {
                if a < k {
                    assert(g@.nodes[a] == before.nodes[a]);
                    assert(plain_node(before, a));
                }
            }
        }
        k += 1;
    }
    let mut j: usize = 0;
    while j < edges.len()
        invariant
            j <= edges@.len(),
            positions_in_range(edges@, nodes@.len()),
            g@.wf(),
            dense(g@, nodes@.len(), j as nat),
            forall|a: int| 0 <= a < nodes@.len() ==> #[trigger] plain_node(g@, a) && g@.node(a).payload == nodes@[a],
            forall|b: int|
                0 <= b < j ==> {
                    &&& (#[trigger] g@.edge(b)).source == edges@[b].0
                    &&& g@.edge(b).target == edges@[b].1
                    &&& g@.edge(b).payload == edges@[b].2
                    &&& g@.edge(b).label@ == Seq::<char>::empty()
                },
        decreases edges@.len() - j,
    {
        let (s, t, w) = edges[j];
        let ghost before = g@;
        let idx = g.add_edge(s, t, w, String::new());
        proof {
            g.lemma_bounds();
            assert(idx == j);
            assert(g@.insertion =~= Seq::new((j + 1) as nat, |i: int| i as usize));
            assert forall|a: int| 0 <= a < nodes@.len() implies #[trigger] plain_node(g@, a) && g@.node(a).payload
                == nodes@[a] by {
                assert(plain_node(before, a));
            }
            assert forall|b: int| 0 <= b < j + 1 implies {
                &&& (#[trigger] g@.edge(b)).source == edges@[b].0
                &&& g@.edge(b).target == edges@[b].1
                &&& g@.edge(b).payload == edges@[b].2
                &&& g@.edge(b).label@ == Seq::<char>::empty()
            } by {
                if b < j {
                    assert(g@.edges[b] == before.edges[b]);
                }
            }
        }
        j += 1;
    }
    proof {
        g.lemma_bounds();
    }
    g
}

/// Storing a graph built from lists gives back those lists.
pub proof fn lemma_stored_after_build<N, E>(m: GraphModel<N, E>, nodes: Seq<N>, edges: Seq<(usize, usize, E)>)
    requires
        loads_dense(m, nodes, edges),
    ensures
        stored_payloads(m) == nodes,
        stored_edge_positions(m) == edges,
{
    let ln = m.node_indices();
    lemma_dense_indices(m, nodes.len());
    let le = m.edge_indices();
    lemma_dense_edge_indices(m, edges.len());
    assert(stored_payloads(m) =~= nodes) by {
        assert forall|k: int| 0 <= k < nodes.len() implies stored_payloads(m)[k] == nodes[k] by {
            assert(ln[k] == k);
            assert(plain_node(m, k));
        }
    }
    assert(stored_edge_positions(m) =~= edges) by {
        assert forall|j: int| 0 <= j < edges.len() implies stored_edge_positions(m)[j] == edges[j] by {
            assert(le[j] == j);
            let x = m.edge(j);
            assert(m.is_edge(j));
            assert(m.is_node(x.source as int));
            assert(m.is_node(x.target as int));
            let ps = position_of(ln, x.source);
            assert(ln[x.source as int] == x.source);
            assert(0 <= ps < ln.len() && ln[ps] == x.source);
            let pt = position_of(ln, x.target);
            assert(ln[x.target as int] == x.target);
            assert(0 <= pt < ln.len() && ln[pt] == x.target);
        }
    }
}

} // verus!
