use vstd::prelude::*;

use crate::graph::{Graph, GraphModel, lemma_live_indices};
use crate::graph_state::{
    dense, Duplicate, HasName, ObservableGraph, ObservableNode, ObservedGraph, ObservedNode,
    StateGraph, StateNode,
};

verus! {

/// `r` is `g` renumbered densely for display: the live nodes of `g` in index
/// order become nodes `0..`, labelled with their names, and the live edges in
/// index order become edges `0..` with empty labels and endpoints renumbered.
pub open spec fn is_display_of<N: HasName, E>(r: GraphModel<N, E>, g: GraphModel<N, E>) -> bool {
    let ln = g.node_indices();
    let le = g.edge_indices();
    &&& r.wf()
    &&& dense(r, ln.len(), le.len())
    &&& forall|k: int|
        0 <= k < ln.len() ==> {
            &&& #[trigger] r.node(k).payload == g.node(ln[k] as int).payload
            &&& r.node(k).label@ == g.node(ln[k] as int).payload.spec_name()
            &&& !r.node(k).selected
        }
    &&& forall|j: int|
        0 <= j < le.len() ==> {
            &&& (#[trigger] r.edge(j)).source < ln.len()
            &&& r.edge(j).target < ln.len()
            &&& ln[r.edge(j).source as int] == g.edge(le[j] as int).source
            &&& ln[r.edge(j).target as int] == g.edge(le[j] as int).target
            &&& r.edge(j).payload == g.edge(le[j] as int).payload
            &&& r.edge(j).label@ == Seq::<char>::empty()
        }
}

/// Builds the display graph of `g`: nodes labelled with their names, edges unlabelled.
pub fn setup_graph_display<N: HasName + Duplicate, E: Copy>(g: &Graph<N, E>) -> (r: Graph<N, E>)
    requires
        g@.wf(),
    ensures
        is_display_of(r@, g@),
{
    let ghost gm = g@;
    let ln = g.node_indices();
    let le = g.edge_indices();
    proof {
        g.lemma_bounds();
        lemma_live_indices(gm.nodes);
        lemma_live_indices(gm.edges);
    }
    let mut r: Graph<N, E> = Graph::new();
    let slots = g.node_slots();
    let mut pos: Vec<usize> = Vec::new();
    let mut i: usize = 0;
    while i < slots
        invariant
            i <= slots,
            pos@.len() == i,
        decreases slots - i,
    {
        pos.push(0);
        i += 1;
    }
    proof {
        assert(r@.insertion =~= Seq::new(0, |i: int| i as usize));
    }
    let mut k: usize = 0;
    while k < ln.len()
        invariant
            gm == g@,
            gm.wf(),
            ln@ == gm.node_indices(),
            forall|a: int| 0 <= a < ln@.len() ==> #[trigger] gm.is_node(ln@[a] as int),
            forall|a: int, b: int| 0 <= a < b < ln@.len() ==> ln@[a] < ln@[b],
            pos@.len() == gm.nodes.len(),
            k <= ln@.len(),
            r@.wf(),
            dense(r@, k as nat, 0),
            forall|a: int|
                0 <= a < k ==> {
                    &&& #[trigger] r@.node(a).payload == gm.node(ln@[a] as int).payload
                    &&& r@.node(a).label@ == gm.node(ln@[a] as int).payload.spec_name()
                    &&& !r@.node(a).selected
                },
            forall|a: int| 0 <= a < k ==> #[trigger] pos@[ln@[a] as int] == a,
        decreases ln@.len() - k,
    {
        let x = ln[k];
        assert(gm.is_node(ln@[k as int] as int));
        let node = g.node(x).unwrap();
        let ghost before = r@;
        let idx = r.add_node(node.payload.duplicate(), node.payload.name());
        pos.set(x, k);
        proof {
            r.lemma_bounds();
            assert(idx == k);
            assert(r@.nodes =~= before.nodes.push(r@.nodes[k as int]));
            assert(r@.insertion =~= Seq::new(0, |i: int| i as usize));
            assert forall|a: int| 0 <= a < k + 1 implies {
                &&& #[trigger] r@.node(a).payload == gm.node(ln@[a] as int).payload
                &&& r@.node(a).label@ == gm.node(ln@[a] as int).payload.spec_name()
                &&& !r@.node(a).selected
            } by {
                if a < k {
                    assert(r@.nodes[a] == before.nodes[a]);
                    assert(before.node(a).payload == gm.node(ln@[a] as int).payload);
                } else {
                    assert(r@.nodes[a] == Some(r@.node(a)));
                    assert(r@.node(a).payload == node.payload);
                    assert(*node == gm.node(x as int));
                    assert(x == ln@[a]);
                }
            }
            assert forall|a: int| 0 <= a < k + 1 implies #[trigger] pos@[ln@[a] as int] == a by {
                if a < k {
                    assert(ln@[a] < ln@[k as int]);
                }
            }
        }
        k += 1;
    }
    let mut j: usize = 0;
    while j < le.len()
        invariant
            gm == g@,
            gm.wf(),
            ln@ == gm.node_indices(),
            le@ == gm.edge_indices(),
            forall|a: int| 0 <= a < ln@.len() ==> #[trigger] gm.is_node(ln@[a] as int),
            forall|a: int| 0 <= a < le@.len() ==> #[trigger] gm.is_edge(le@[a] as int),
            forall|x: int| #[trigger] gm.is_node(x) ==> ln@.contains(x as usize),
            pos@.len() == gm.nodes.len(),
            forall|a: int| 0 <= a < ln@.len() ==> #[trigger] pos@[ln@[a] as int] == a,
            j <= le@.len(),
            r@.wf(),
            dense(r@, ln@.len(), j as nat),
            forall|a: int|
                0 <= a < ln@.len() ==> {
                    &&& #[trigger] r@.node(a).payload == gm.node(ln@[a] as int).payload
                    &&& r@.node(a).label@ == gm.node(ln@[a] as int).payload.spec_name()
                    &&& !r@.node(a).selected
                },
            forall|b: int|
                0 <= b < j ==> {
                    &&& (#[trigger] r@.edge(b)).source < ln@.len()
                    &&& r@.edge(b).target < ln@.len()
                    &&& ln@[r@.edge(b).source as int] == gm.edge(le@[b] as int).source
                    &&& ln@[r@.edge(b).target as int] == gm.edge(le@[b] as int).target
                    &&& r@.edge(b).payload == gm.edge(le@[b] as int).payload
                    &&& r@.edge(b).label@ == Seq::<char>::empty()
                },
        decreases le@.len() - j,
    {
        let e = le[j];
        assert(gm.is_edge(le@[j as int] as int));
        let x = g.edge(e).unwrap();
        let ghost src = x.source;
        let ghost tgt = x.target;
        proof {
            assert(gm.is_node(src as int));
            assert(gm.is_node(tgt as int));
            assert(ln@.contains(src));
            assert(ln@.contains(tgt));
        }
        let s = pos[x.source];
        let t = pos[x.target];
        proof {
            let qs = choose|q: int| 0 <= q < ln@.len() && ln@[q] == src;
            assert(pos@[ln@[qs] as int] == qs);
            let qt = choose|q: int| 0 <= q < ln@.len() && ln@[q] == tgt;
            assert(pos@[ln@[qt] as int] == qt);
            assert(r@.is_node(s as int));
            assert(r@.is_node(t as int));
        }
        let ghost before = r@;
        r.add_edge(s, t, x.payload, String::new());
        proof {
            assert(r@.insertion =~= Seq::new((j + 1) as nat, |i: int| i as usize));
            assert forall|a: int| 0 <= a < ln@.len() implies {
                &&& #[trigger] r@.node(a).payload == gm.node(ln@[a] as int).payload
                &&& r@.node(a).label@ == gm.node(ln@[a] as int).payload.spec_name()
                &&& !r@.node(a).selected
            } by {
                assert(r@.nodes[a] == before.nodes[a]);
                assert(before.node(a).payload == gm.node(ln@[a] as int).payload);
            }
            assert forall|b: int| 0 <= b < j + 1 implies {
                &&& (#[trigger] r@.edge(b)).source < ln@.len()
                &&& r@.edge(b).target < ln@.len()
                &&& ln@[r@.edge(b).source as int] == gm.edge(le@[b] as int).source
                &&& ln@[r@.edge(b).target as int] == gm.edge(le@[b] as int).target
                &&& r@.edge(b).payload == gm.edge(le@[b] as int).payload
                &&& r@.edge(b).label@ == Seq::<char>::empty()
            } by {
                if b < j {
                    assert(r@.edges[b] == before.edges[b]);
                }
            }
        }
        j += 1;
    }
    r
}

/// The display graph of a state graph.
pub fn setup_state_graph_display<W: Copy>(g: &StateGraph<W>) -> (r: StateGraph<W>)
    requires
        g@.wf(),
    ensures
        is_display_of(r@, g@),
{
    setup_graph_display(g)
}

/// The display graph of an observable graph.
pub fn setup_observable_graph_display<W: Copy>(g: &ObservableGraph<W>) -> (r: ObservableGraph<W>)
    requires
        g@.wf(),
    ensures
        is_display_of(r@, g@),
{
    setup_graph_display(g)
}

/// The display graph of an observed graph.
pub fn setup_observed_graph_display<W: Copy>(g: &ObservedGraph<W>) -> (r: ObservedGraph<W>)
    requires
        g@.wf(),
    ensures
        is_display_of(r@, g@),
{
    setup_graph_display(g)
}

/// The edges of `ins` at node `i`, the last of `ins` first: with `incoming`,
/// each edge entering `i` as (its source, its payload); otherwise each edge
/// leaving `i` as (its target, its payload).
pub open spec fn neighbors_in<N, E>(g: GraphModel<N, E>, ins: Seq<usize>, i: usize, incoming: bool) -> Seq<(usize, E)>
    decreases ins.len(),
{
    if ins.len() == 0 {
        Seq::empty()
    } else {
        let e = g.edge(ins.last() as int);
        let rest = neighbors_in(g, ins.drop_last(), i, incoming);
        if incoming && e.target == i {
            seq![(e.source, e.payload)] + rest
        } else if !incoming && e.source == i {
            seq![(e.target, e.payload)] + rest
        } else {
            rest
        }
    }
}

/// The neighbours of node `i` on one side, the most recently added edge first.
pub open spec fn neighbors<N, E>(g: GraphModel<N, E>, i: usize, incoming: bool) -> Seq<(usize, E)> {
    neighbors_in(g, g.insertion, i, incoming)
}

/// `r` lists `ns`, each neighbour named by its node's name.
pub open spec fn names_neighbors<N: HasName, E>(r: Seq<(String, E)>, g: GraphModel<N, E>, ns: Seq<(usize, E)>) -> bool {
    &&& r.len() == ns.len()
    &&& forall|k: int|
        0 <= k < r.len() ==> {
            &&& (#[trigger] r[k]).0@ == g.node(ns[k].0 as int).payload.spec_name()
            &&& r[k].1 == ns[k].1
        }
}

/// The neighbours of node `i` on one side (see `neighbors`), by name, with
/// the payload of the edge that joins them.
pub fn neighbor_names<N: HasName, E: Copy>(graph: &Graph<N, E>, i: usize, incoming: bool) -> (r: Vec<(String, E)>)
    requires
        graph@.wf(),
    ensures
        names_neighbors(r@, graph@, neighbors(graph@, i, incoming)),
{
    let ghost g = graph@;
    let ins = graph.edges_by_insertion();
    let mut r: Vec<(String, E)> = Vec::new();
    let ghost mut gs: Seq<(usize, E)> = Seq::empty();
    let mut k: usize = ins.len();
    assert(ins@.take(k as int) =~= ins@);
    while k > 0
        invariant
            g == graph@,
            g.wf(),
            ins@ == g.insertion,
            k <= ins@.len(),
            neighbors(g, i, incoming) == gs + neighbors_in(g, ins@.take(k as int), i, incoming),
            names_neighbors(r@, g, gs),
        decreases k,
    {
        let ghost before = gs;
        let ghost tk = ins@.take(k as int);
        assert(tk.drop_last() =~= ins@.take(k - 1));
        assert(tk.last() == ins@[k - 1]);
        k -= 1;
        let e = ins[k];
        assert(g.is_edge(g.insertion[k as int] as int));
        let edge = graph.edge(e).unwrap();
        let ghost rest = neighbors_in(g, ins@.take(k as int), i, incoming);
        let other = if incoming { edge.source } else { edge.target };
        if (incoming && edge.target == i) || (!incoming && edge.source == i) {
            let name = match graph.node(other) {
                Some(n) => n.payload.name(),
                None => String::new(),
            };
            r.push((name, edge.payload));
            proof {
                gs = gs.push((other, edge.payload));
                assert(before + (seq![(other, edge.payload)] + rest) =~= gs + rest);
            }
        }
    }
    assert(ins@.take(0) =~= Seq::<usize>::empty());
    assert(gs + Seq::<(usize, E)>::empty() =~= gs);
    r
}

/// The neighbours of node `i`: those with an edge into `i`, then those that an
/// edge from `i` reaches, each by name with the edge's payload, the most
/// recently added edge first.
pub fn get_connections<N: HasName, E: Copy>(graph: &Graph<N, E>, i: usize) -> (r: (Vec<(String, E)>, Vec<(String, E)>))
    requires
        graph@.wf(),
    ensures
        names_neighbors(r.0@, graph@, neighbors(graph@, i, true)),
        names_neighbors(r.1@, graph@, neighbors(graph@, i, false)),
{
    (neighbor_names(graph, i, true), neighbor_names(graph, i, false))
}

} // verus!
