use vstd::prelude::*;

use crate::graph::{Graph, GraphModel, keep, lemma_keep, lemma_live_indices, live_indices, no_dup, occupied};
use crate::graph_state::{
    dense, destination_named, mirrors, plain_node, ObservableGraph, ObservableNode,
    ObservableNodeType, StateGraph, StateNode,
};

verus! {

// ------------------------------------------------------------------
// Serialization structures
// ------------------------------------------------------------------

/// A state as stored in a project file.
pub struct SerializableNode<W> {
    pub name: String,
    pub weight: W,
}

/// An edge as stored in a project file: positions of its endpoints and its weight.
pub struct SerializableEdge<W> {
    pub source: usize,
    pub target: usize,
    pub weight: W,
}

/// The state graph as stored in a project file.
pub struct SerializableGraphState<W> {
    pub nodes: Vec<SerializableNode<W>>,
    pub edges: Vec<SerializableEdge<W>>,
}

/// A Destination node as stored in a project file.
pub struct SerializableDestinationNode {
    pub name: String,
}

/// The observable as stored in a project file. Only Destination nodes are
/// stored; Source nodes are derived from the state graph. An edge's source is
/// a state-graph index and its target a position in `destination_nodes`.
pub struct SerializableObservableState<W> {
    pub destination_nodes: Vec<SerializableDestinationNode>,
    pub edges: Vec<SerializableEdge<W>>,
}

/// A whole project file: the dynamical system and its observable.
pub struct SerializableState<W> {
    pub dynamical_system: SerializableGraphState<W>,
    pub observable: SerializableObservableState<W>,
}

/// The content of a stored state graph: (name, weight) per node and
/// (source, target, weight) per edge.
pub struct SerGraph<W> {
    pub nodes: Seq<(Seq<char>, W)>,
    pub edges: Seq<(usize, usize, W)>,
}

/// The content of a stored observable: Destination names and
/// (state index, destination position, weight) per edge.
pub struct SerObservable<W> {
    pub destinations: Seq<Seq<char>>,
    pub edges: Seq<(usize, usize, W)>,
}

impl<W> View for SerializableGraphState<W> {
    type V = SerGraph<W>;

    open spec fn view(&self) -> SerGraph<W> {
        SerGraph {
            nodes: self.nodes@.map_values(|n: SerializableNode<W>| (n.name@, n.weight)),
            edges: self.edges@.map_values(|e: SerializableEdge<W>| (e.source, e.target, e.weight)),
        }
    }
}

impl<W> View for SerializableObservableState<W> {
    type V = SerObservable<W>;

    open spec fn view(&self) -> SerObservable<W> {
        SerObservable {
            destinations: self.destination_nodes@.map_values(|n: SerializableDestinationNode| n.name@),
            edges: self.edges@.map_values(|e: SerializableEdge<W>| (e.source, e.target, e.weight)),
        }
    }
}

// ------------------------------------------------------------------
// Specifications
// ------------------------------------------------------------------

/// Strictly increasing.
pub open spec fn no_dup_sorted(s: Seq<usize>) -> bool {
    forall|a: int, b: int| 0 <= a < b < s.len() ==> s[a] < s[b]
}

/// Position of `x` in `s`.
pub open spec fn position_of(s: Seq<usize>, x: usize) -> int {
    choose|k: int| 0 <= k < s.len() && s[k] == x
}

/// What saving a state graph stores: live nodes in index order, live edges in
/// index order with endpoints given as positions among the live nodes.
pub open spec fn ser_of_graph<W>(g: GraphModel<StateNode<W>, W>) -> SerGraph<W> {
    let ln = g.node_indices();
    let le = g.edge_indices();
    SerGraph {
        nodes: Seq::new(
            ln.len(),
            |k: int| (g.node(ln[k] as int).payload.name@, g.node(ln[k] as int).payload.weight),
        ),
        edges: Seq::new(
            le.len(),
            |j: int|
                (
                    position_of(ln, g.edge(le[j] as int).source) as usize,
                    position_of(ln, g.edge(le[j] as int).target) as usize,
                    g.edge(le[j] as int).payload,
                ),
        ),
    }
}

/// Every stored edge names stored nodes.
pub open spec fn edges_in_range<W>(s: SerGraph<W>) -> bool {
    forall|j: int|
        0 <= j < s.edges.len() ==> (#[trigger] s.edges[j]).0 < s.nodes.len() && s.edges[j].1
            < s.nodes.len()
}

/// `m` is the graph that loading `s` builds: nodes and edges in stored order,
/// unlabelled and unselected.
pub open spec fn loads_as<W>(m: GraphModel<StateNode<W>, W>, s: SerGraph<W>) -> bool {
    &&& m.wf()
    &&& s.nodes.len() <= usize::MAX
    &&& s.edges.len() <= usize::MAX
    &&& dense(m, s.nodes.len(), s.edges.len())
    &&& forall|k: int|
        0 <= k < s.nodes.len() ==> {
            &&& #[trigger] plain_node(m, k)
            &&& m.node(k).payload.name@ == s.nodes[k].0
            &&& m.node(k).payload.weight == s.nodes[k].1
        }
    &&& forall|j: int|
        0 <= j < s.edges.len() ==> {
            &&& (#[trigger] m.edge(j)).source == s.edges[j].0
            &&& m.edge(j).target == s.edges[j].1
            &&& m.edge(j).payload == s.edges[j].2
            &&& m.edge(j).label@ == Seq::<char>::empty()
        }
}


// ------------------------------------------------------------------
// Observable specifications
// ------------------------------------------------------------------

/// Node `x` of `g` is a Destination.
pub open spec fn is_destination<W>(g: GraphModel<ObservableNode, W>, x: usize) -> bool {
    g.node(x as int).payload.node_type == ObservableNodeType::Destination
}

/// Live Destination nodes of `g` in index order.
pub open spec fn destination_indices<W>(g: GraphModel<ObservableNode, W>) -> Seq<usize> {
    keep(g.node_indices(), |x: usize| is_destination(g, x))
}

/// Edge `e` of `g` is stored: it leaves a Source that names a state and
/// enters a Destination.
pub open spec fn stored_edge<W>(g: GraphModel<ObservableNode, W>, e: usize) -> bool {
    let x = g.edge(e as int);
    &&& g.node(x.source as int).payload.node_type == ObservableNodeType::Source
    &&& g.node(x.source as int).payload.state_node_idx is Some
    &&& is_destination(g, x.target)
}

/// The stored form of the edges `le` of `g`, in order.
pub open spec fn stored_edges<W>(g: GraphModel<ObservableNode, W>, le: Seq<usize>) -> Seq<(usize, usize, W)>
    decreases le.len(),
{
    if le.len() == 0 {
        Seq::empty()
    } else {
        let pre = stored_edges(g, le.drop_last());
        let e = le.last();
        if stored_edge(g, e) {
            let x = g.edge(e as int);
            pre.push(
                (
                    g.node(x.source as int).payload.state_node_idx.unwrap(),
                    position_of(destination_indices(g), x.target) as usize,
                    x.payload,
                ),
            )
        } else {
            pre
        }
    }
}

/// What saving an observable graph stores.
pub open spec fn ser_of_observable<W>(g: GraphModel<ObservableNode, W>) -> SerObservable<W> {
    let d = destination_indices(g);
    SerObservable {
        destinations: Seq::new(d.len(), |k: int| g.node(d[k] as int).payload.name@),
        edges: stored_edges(g, g.edge_indices()),
    }
}

/// Every stored observable edge names a state of `sg` and a stored Destination.
pub open spec fn observable_edges_in_range<W>(s: SerObservable<W>, sg: GraphModel<StateNode<W>, W>) -> bool {
    forall|j: int|
        0 <= j < s.edges.len() ==> (#[trigger] s.edges[j]).0 < sg.node_indices().len() && s.edges[j].1
            < s.destinations.len()
}

/// `m` is the observable graph that loading `s` over `sg` builds: one Source
/// per state of `sg` in index order, then the stored Destinations, then the
/// stored edges in order.
pub open spec fn loads_observable_as<W>(
    m: GraphModel<ObservableNode, W>,
    s: SerObservable<W>,
    sg: GraphModel<StateNode<W>, W>,
) -> bool {
    let ls = sg.node_indices();
    let ns = ls.len();
    let nd = s.destinations.len();
    &&& m.wf()
    &&& ns + nd <= usize::MAX
    &&& s.edges.len() <= usize::MAX
    &&& dense(m, ns + nd, s.edges.len())
    &&& forall|k: int| 0 <= k < ns + nd ==> #[trigger] plain_node(m, k)
    &&& forall|k: int| 0 <= k < ns ==> #[trigger] mirrors(m, k, sg, ls[k])
    &&& forall|d: int| 0 <= d < nd ==> #[trigger] destination_named(m, ns + d, s.destinations[d])
    &&& forall|j: int|
        0 <= j < s.edges.len() ==> {
            &&& (#[trigger] m.edge(j)).source == s.edges[j].0
            &&& m.edge(j).target == ns + s.edges[j].1
            &&& m.edge(j).payload == s.edges[j].2
            &&& m.edge(j).label@ == Seq::<char>::empty()
        }
}

// ------------------------------------------------------------------
// Conversions
// ------------------------------------------------------------------

/// The file content of a state graph.
pub fn graph_to_serializable<W: Copy>(graph: &StateGraph<W>) -> (r: SerializableGraphState<W>)
    requires
        graph@.wf(),
    ensures
        r@ == ser_of_graph(graph@),
{
    let ghost g = graph@;
    let ln = graph.node_indices();
    let le = graph.edge_indices();
    proof {
        graph.lemma_bounds();
        lemma_live_indices(g.nodes);
        lemma_live_indices(g.edges);
    }
    let slots = graph.node_slots();
    let mut pos: Vec<usize> = Vec::new();
    let mut i: usize = 0;
    while i < slots
        invariant
            i <= slots,
            pos@.len() == i,
        decreases slots - i,
    {
        pos.push(0);
        i += 1;
    }
    let mut nodes: Vec<SerializableNode<W>> = Vec::new();
    let mut k: usize = 0;
    while k < ln.len()
        invariant
            g == graph@,
            ln@ == g.node_indices(),
            forall|a: int| 0 <= a < ln@.len() ==> #[trigger] g.is_node(ln@[a] as int),
            forall|a: int, b: int| 0 <= a < b < ln@.len() ==> ln@[a] < ln@[b],
            pos@.len() == g.nodes.len(),
            k <= ln@.len(),
            nodes@.len() == k,
            forall|a: int|
                0 <= a < k ==> (#[trigger] nodes@[a]).name@ == g.node(ln@[a] as int).payload.name@
                    && nodes@[a].weight == g.node(ln@[a] as int).payload.weight,
            forall|a: int| 0 <= a < k ==> #[trigger] pos@[ln@[a] as int] == a,
        decreases ln@.len() - k,
    {
        let x = ln[k];
        assert(g.is_node(ln@[k as int] as int));
        let node = graph.node(x).unwrap();
        nodes.push(SerializableNode { name: node.payload.name.clone(), weight: node.payload.weight });
        pos.set(x, k);
        proof {
            assert forall|a: int| 0 <= a < k + 1 implies #[trigger] pos@[ln@[a] as int] == a by {
                if a < k {
                    assert(ln@[a] < ln@[k as int]);
                }
            }
        }
        k += 1;
    }
    let mut edges: Vec<SerializableEdge<W>> = Vec::new();
    let mut j: usize = 0;
    while j < le.len()
        invariant
            g == graph@,
            g.wf(),
            ln@ == g.node_indices(),
            le@ == g.edge_indices(),
            forall|a: int| 0 <= a < ln@.len() ==> #[trigger] g.is_node(ln@[a] as int),
            forall|a: int| 0 <= a < le@.len() ==> #[trigger] g.is_edge(le@[a] as int),
            forall|x: int| #[trigger] g.is_node(x) ==> ln@.contains(x as usize),
            forall|a: int, b: int| 0 <= a < b < ln@.len() ==> ln@[a] < ln@[b],
            pos@.len() == g.nodes.len(),
            forall|a: int| 0 <= a < ln@.len() ==> #[trigger] pos@[ln@[a] as int] == a,
            j <= le@.len(),
            edges@.len() == j,
            forall|b: int|
                0 <= b < j ==> {
                    &&& (#[trigger] edges@[b]).source as int == position_of(ln@, g.edge(le@[b] as int).source)
                    &&& edges@[b].target as int == position_of(ln@, g.edge(le@[b] as int).target)
                    &&& edges@[b].weight == g.edge(le@[b] as int).payload
                },
        decreases le@.len() - j,
    {
        let e = le[j];
        assert(g.is_edge(le@[j as int] as int));
        let x = graph.edge(e).unwrap();
        let ghost src = x.source;
        let ghost tgt = x.target;
        let s = pos[x.source];
        let t = pos[x.target];
        proof {
            assert(g.is_node(src as int));
            assert(g.is_node(tgt as int));
            let qs = choose|q: int| 0 <= q < ln@.len() && ln@[q] == src;
            assert(pos@[ln@[qs] as int] == qs);
            let ps = position_of(ln@, src);
            assert(0 <= ps < ln@.len() && ln@[ps] == src);
            if ps != qs {
                if ps < qs {
                    assert(ln@[ps] < ln@[qs]);
                } else {
                    assert(ln@[qs] < ln@[ps]);
                }
            }
            let qt = choose|q: int| 0 <= q < ln@.len() && ln@[q] == tgt;
            assert(pos@[ln@[qt] as int] == qt);
            let pt = position_of(ln@, tgt);
            assert(0 <= pt < ln@.len() && ln@[pt] == tgt);
            if pt != qt {
                if pt < qt {
                    assert(ln@[pt] < ln@[qt]);
                } else {
                    assert(ln@[qt] < ln@[pt]);
                }
            }
        }
        edges.push(SerializableEdge { source: s, target: t, weight: x.payload });
        j += 1;
    }
    let r = SerializableGraphState { nodes, edges };
    proof {
        assert(r@.nodes =~= ser_of_graph(g).nodes);
        assert(r@.edges =~= ser_of_graph(g).edges);
    }
    r
}

/// Builds the state graph stored in `state`.
pub fn serializable_to_graph<W: Copy>(state: &SerializableGraphState<W>) -> (g: StateGraph<W>)
    requires
        edges_in_range(state@),
    ensures
        loads_as(g@, state@),
{
    let mut g: StateGraph<W> = Graph::new();
    proof {
        assert(g@.insertion =~= Seq::new(0, |i: int| i as usize));
    }
    let mut k: usize = 0;
    while k < state.nodes.len()
        invariant
            k <= state.nodes@.len(),
            g@.wf(),
            dense(g@, k as nat, 0),
            forall|a: int|
                0 <= a < k ==> {
                    &&& #[trigger] plain_node(g@, a)
                    &&& g@.node(a).payload.name@ == state@.nodes[a].0
                    &&& g@.node(a).payload.weight == state@.nodes[a].1
                },
        decreases state.nodes@.len() - k,
    {
        let n = &state.nodes[k];
        let ghost before = g@;
        let idx = g.add_node(StateNode { name: n.name.clone(), weight: n.weight }, String::new());
        proof {
            g.lemma_bounds();
            assert(idx == k);
            assert(g@.nodes =~= before.nodes.push(g@.nodes[k as int]));
            assert forall|a: int| 0 <= a < k + 1 implies {
                &&& #[trigger] plain_node(g@, a)
                &&& g@.node(a).payload.name@ == state@.nodes[a].0
                &&& g@.node(a).payload.weight == state@.nodes[a].1
            } by {
                if a < k {
                    assert(g@.nodes[a] == before.nodes[a]);
                    assert(plain_node(before, a));
                }
            }
        }
        k += 1;
    }
    let mut j: usize = 0;
    while j < state.edges.len()
        invariant
            j <= state.edges@.len(),
            edges_in_range(state@),
            g@.wf(),
            dense(g@, state.nodes@.len(), j as nat),
            forall|a: int|
                0 <= a < state.nodes@.len() ==> {
                    &&& #[trigger] plain_node(g@, a)
                    &&& g@.node(a).payload.name@ == state@.nodes[a].0
                    &&& g@.node(a).payload.weight == state@.nodes[a].1
                },
            forall|b: int|
                0 <= b < j ==> {
                    &&& (#[trigger] g@.edge(b)).source == state@.edges[b].0
                    &&& g@.edge(b).target == state@.edges[b].1
                    &&& g@.edge(b).payload == state@.edges[b].2
                    &&& g@.edge(b).label@ == Seq::<char>::empty()
                },
        decreases state.edges@.len() - j,
    {
        let e = &state.edges[j];
        assert(state@.edges[j as int] == (e.source, e.target, e.weight));
        let ghost before = g@;
        let idx = g.add_edge(e.source, e.target, e.weight, String::new());
        proof {
            g.lemma_bounds();
            assert(idx == j);
            assert(g@.insertion =~= Seq::new((j + 1) as nat, |i: int| i as usize));
            assert forall|a: int| 0 <= a < state.nodes@.len() implies {
                &&& #[trigger] plain_node(g@, a)
                &&& g@.node(a).payload.name@ == state@.nodes[a].0
                &&& g@.node(a).payload.weight == state@.nodes[a].1
            } by {
                assert(plain_node(before, a));
            }
            assert forall|b: int| 0 <= b < j + 1 implies {
                &&& (#[trigger] g@.edge(b)).source == state@.edges[b].0
                &&& g@.edge(b).target == state@.edges[b].1
                &&& g@.edge(b).payload == state@.edges[b].2
                &&& g@.edge(b).label@ == Seq::<char>::empty()
            } by {
                if b < j {
                    assert(g@.edges[b] == before.edges[b]);
                }
            }
        }
        j += 1;
    }
    proof {
        g.lemma_bounds();
    }
    g
}


/// The file content of an observable graph: its Destination nodes, and the
/// edges from state-backed Source nodes to Destination nodes.
pub fn observable_graph_to_serializable<W: Copy>(graph: &ObservableGraph<W>) -> (r: SerializableObservableState<W>)
    requires
        graph@.wf(),
    ensures
        r@ == ser_of_observable(graph@),
{
    let ghost g = graph@;
    let ghost isd = |x: usize| is_destination(g, x);
    let ln = graph.node_indices();
    let le = graph.edge_indices();
    proof {
        graph.lemma_bounds();
        lemma_live_indices(g.nodes);
        lemma_live_indices(g.edges);
    }
    let slots = graph.node_slots();
    let mut src_state: Vec<Option<usize>> = Vec::new();
    let mut dest_pos: Vec<Option<usize>> = Vec::new();
    let mut i: usize = 0;
    while i < slots
        invariant
            i <= slots,
            src_state@.len() == i,
            dest_pos@.len() == i,
            forall|y: int| 0 <= y < i ==> #[trigger] src_state@[y] is None,
            forall|y: int| 0 <= y < i ==> #[trigger] dest_pos@[y] is None,
        decreases slots - i,
    {
        src_state.push(None);
        dest_pos.push(None);
        i += 1;
    }
    let mut destination_nodes: Vec<SerializableDestinationNode> = Vec::new();
    let mut k: usize = 0;
    while k < ln.len()
        invariant
            g == graph@,
            isd == (|x: usize| is_destination(g, x)),
            ln@ == g.node_indices(),
            no_dup_sorted(ln@),
            g.nodes.len() <= usize::MAX,
            forall|a: int| 0 <= a < ln@.len() ==> #[trigger] g.is_node(ln@[a] as int),
            src_state@.len() == g.nodes.len(),
            dest_pos@.len() == g.nodes.len(),
            k <= ln@.len(),
            forall|y: int|
                0 <= y < g.nodes.len() ==> #[trigger] src_state@[y] == if ln@.take(k as int).contains(
                    y as usize,
                ) && g.node(y).payload.node_type == ObservableNodeType::Source {
                    g.node(y).payload.state_node_idx
                } else {
                    None
                },
            forall|y: int|
                0 <= y < g.nodes.len() ==> (#[trigger] dest_pos@[y] is Some <==> keep(
                    ln@.take(k as int),
                    isd,
                ).contains(y as usize)),
            forall|d: int|
                0 <= d < keep(ln@.take(k as int), isd).len() ==> #[trigger] dest_pos@[keep(
                    ln@.take(k as int),
                    isd,
                )[d] as int] == Some(d as usize),
            destination_nodes@.len() == keep(ln@.take(k as int), isd).len(),
            forall|d: int|
                0 <= d < destination_nodes@.len() ==> (#[trigger] destination_nodes@[d]).name@
                    == g.node(keep(ln@.take(k as int), isd)[d] as int).payload.name@,
        decreases ln@.len() - k,
    {
        let x = ln[k];
        assert(g.is_node(ln@[k as int] as int));
        let node = graph.node(x).unwrap();
        let ghost dk0 = keep(ln@.take(k as int), isd);
        assert(ln@.take(k + 1).drop_last() =~= ln@.take(k as int));
        assert(ln@.take(k + 1).last() == x);
        proof {
            lemma_keep(ln@.take(k as int), isd);
            assert(!ln@.take(k as int).contains(x)) by {
                let t0 = ln@.take(k as int);
                if t0.contains(x) {
                    let q = choose|q: int| 0 <= q < t0.len() && t0[q] == x;
                    assert(ln@[q] < ln@[k as int]);
                }
            }
            let t1 = ln@.take(k + 1);
            let t0 = ln@.take(k as int);
            assert forall|y: int| 0 <= y < g.nodes.len() implies (#[trigger] t1.contains(y as usize)
                <==> (t0.contains(y as usize) || y == x as int)) by {
                if t1.contains(y as usize) {
                    let q = choose|q: int| 0 <= q < t1.len() && t1[q] == y as usize;
                    if q < k {
                        assert(t0[q] == y as usize);
                    }
                }
                if t0.contains(y as usize) {
                    let q = choose|q: int| 0 <= q < t0.len() && t0[q] == y as usize;
                    assert(t1[q] == y as usize);
                }
                if y == x as int {
                    assert(t1[k as int] == x);
                }
            }
        }
        match node.payload.node_type {
            ObservableNodeType::Source => {
                assert(!isd(x));
                assert(keep(ln@.take(k + 1), isd) == dk0);
                match node.payload.state_node_idx {
                    Some(st) => {
                        src_state.set(x, Some(st));
                    },
                    None => {},
                }
            },
            ObservableNodeType::Destination => {
                assert(isd(x));
                assert(keep(ln@.take(k + 1), isd) == dk0.push(x));
                dest_pos.set(x, Some(destination_nodes.len()));
                destination_nodes.push(SerializableDestinationNode { name: node.payload.name.clone() });
                proof {
                    let dk1 = dk0.push(x);
                    assert forall|d: int| 0 <= d < dk1.len() implies #[trigger] dest_pos@[dk1[d] as int] == Some(d as usize) by {
                        if d < dk0.len() {
                            assert(dk0.contains(dk0[d]));
                            assert(dk0[d] != x);
                        }
                    }
                }
            },
        }
        proof {
            let dk1 = keep(ln@.take(k + 1), isd);
            lemma_keep(ln@.take(k + 1), isd);
            assert forall|y: int| 0 <= y < g.nodes.len() implies (#[trigger] dest_pos@[y] is Some <==> dk1.contains(y as usize)) by {
                if y == x as int {
                } else {
                }
            }
            assert forall|d: int| 0 <= d < destination_nodes@.len() implies (#[trigger] destination_nodes@[d]).name@
                == g.node(dk1[d] as int).payload.name@ by {
                if d < dk0.len() {
                    assert(dk1[d] == dk0[d]);
                }
            }
        }
        k += 1;
    }
    assert(ln@.take(k as int) =~= ln@);
    let ghost dk = keep(ln@, isd);
    proof {
        lemma_keep(ln@, isd);
        assert(dk == destination_indices(g));
    }
    let mut edges: Vec<SerializableEdge<W>> = Vec::new();
    let mut j: usize = 0;
    while j < le.len()
        invariant
            g == graph@,
            g.wf(),
            isd == (|x: usize| is_destination(g, x)),
            ln@ == g.node_indices(),
            le@ == g.edge_indices(),
            dk == destination_indices(g),
            dk == keep(ln@, isd),
            no_dup(dk),
            forall|x: usize| #[trigger] dk.contains(x) <==> ln@.contains(x) && isd(x),
            forall|a: int| 0 <= a < le@.len() ==> #[trigger] g.is_edge(le@[a] as int),
            forall|x: int| #[trigger] g.is_node(x) ==> ln@.contains(x as usize),
            src_state@.len() == g.nodes.len(),
            dest_pos@.len() == g.nodes.len(),
            forall|y: int|
                0 <= y < g.nodes.len() ==> #[trigger] src_state@[y] == if ln@.contains(y as usize)
                    && g.node(y).payload.node_type == ObservableNodeType::Source {
                    g.node(y).payload.state_node_idx
                } else {
                    None
                },
            forall|y: int| 0 <= y < g.nodes.len() ==> (#[trigger] dest_pos@[y] is Some <==> dk.contains(y as usize)),
            forall|d: int| 0 <= d < dk.len() ==> #[trigger] dest_pos@[dk[d] as int] == Some(d as usize),
            j <= le@.len(),
            edges@.len() == stored_edges(g, le@.take(j as int)).len(),
            forall|b: int|
                0 <= b < edges@.len() ==> ((#[trigger] edges@[b]).source, edges@[b].target, edges@[b].weight)
                    == stored_edges(g, le@.take(j as int))[b],
        decreases le@.len() - j,
    {
        let e = le[j];
        assert(g.is_edge(le@[j as int] as int));
        let x = graph.edge(e).unwrap();
        assert(le@.take(j + 1).drop_last() =~= le@.take(j as int));
        assert(le@.take(j + 1).last() == e);
        let ghost pre = stored_edges(g, le@.take(j as int));
        proof {
            assert(g.is_node(x.source as int));
            assert(g.is_node(x.target as int));
            assert(ln@.contains(x.source));
            assert(ln@.contains(x.target));
        }
        match src_state[x.source] {
            Some(st) => {
                match dest_pos[x.target] {
                    Some(dp) => {
                        proof {
                            assert(stored_edge(g, e));
                            assert(dk.contains(x.target));
                            let q = choose|q: int| 0 <= q < dk.len() && dk[q] == x.target;
                            assert(dest_pos@[dk[q] as int] == Some(q as usize));
                            let p = position_of(dk, x.target);
                            assert(0 <= p < dk.len() && dk[p] == x.target);
                            assert(p == q);
                        }
                        edges.push(SerializableEdge { source: st, target: dp, weight: x.payload });
                    },
                    None => {
                        assert(!dk.contains(x.target));
                        assert(!stored_edge(g, e));
                    },
                }
            },
            None => {
                assert(!stored_edge(g, e));
            },
        }
        j += 1;
    }
    assert(le@.take(j as int) =~= le@);
    let r = SerializableObservableState { destination_nodes, edges };
    proof {
        assert(r@.destinations =~= ser_of_observable(g).destinations);
        assert(r@.edges =~= ser_of_observable(g).edges);
    }
    r
}

/// Builds the observable graph stored in `state` over the state graph `state_graph`.
pub fn serializable_to_observable_graph<W: Copy>(
    state: &SerializableObservableState<W>,
    state_graph: &StateGraph<W>,
) -> (g: ObservableGraph<W>)
    requires
        state_graph@.wf(),
        observable_edges_in_range(state@, state_graph@),
    ensures
        loads_observable_as(g@, state@, state_graph@),
{
    let ghost sg = state_graph@;
    let mut g: ObservableGraph<W> = Graph::new();
    proof {
        assert(g@.insertion =~= Seq::new(0, |i: int| i as usize));
    }
    let ls = state_graph.node_indices();
    proof {
        state_graph.lemma_bounds();
        lemma_live_indices(sg.nodes);
    }
    let mut source_node_indices: Vec<usize> = Vec::new();
    let mut k: usize = 0;
    while k < ls.len()
        invariant
            sg == state_graph@,
            ls@ == sg.node_indices(),
            forall|a: int| 0 <= a < ls@.len() ==> #[trigger] sg.is_node(ls@[a] as int),
            k <= ls@.len(),
            g@.wf(),
            dense(g@, k as nat, 0),
            source_node_indices@ == Seq::new(k as nat, |i: int| i as usize),
            forall|a: int| 0 <= a < k ==> #[trigger] plain_node(g@, a),
            forall|a: int| 0 <= a < k ==> #[trigger] mirrors(g@, a, sg, ls@[a]),
        decreases ls@.len() - k,
    {
        let x = ls[k];
        assert(sg.is_node(ls@[k as int] as int));
        let node = state_graph.node(x).unwrap();
        let ghost before = g@;
        let obs_idx = g.add_node(
            ObservableNode {
                name: node.payload.name.clone(),
                node_type: ObservableNodeType::Source,
                state_node_idx: Some(x),
            },
            String::new(),
        );
        proof {
            g.lemma_bounds();
            assert(obs_idx == k);
            assert(g@.nodes =~= before.nodes.push(g@.nodes[k as int]));
            assert forall|a: int| 0 <= a < k + 1 implies #[trigger] plain_node(g@, a) by {
                if a < k {
                    assert(g@.nodes[a] == before.nodes[a]);
                    assert(plain_node(before, a));
                }
            }
            assert forall|a: int| 0 <= a < k + 1 implies #[trigger] mirrors(g@, a, sg, ls@[a]) by {
                if a < k {
                    assert(g@.nodes[a] == before.nodes[a]);
                    assert(mirrors(before, a, sg, ls@[a]));
                }
            }
        }
        source_node_indices.push(obs_idx);
        assert(source_node_indices@ =~= Seq::new((k + 1) as nat, |i: int| i as usize));
        k += 1;
    }
    let ns = ls.len();
    let mut dest_node_indices: Vec<usize> = Vec::new();
    let mut d: usize = 0;
    while d < state.destination_nodes.len()
        invariant
            sg == state_graph@,
            ls@ == sg.node_indices(),
            ns == ls@.len(),
            d <= state.destination_nodes@.len(),
            g@.wf(),
            dense(g@, (ns + d) as nat, 0),
            source_node_indices@ == Seq::new(ns as nat, |i: int| i as usize),
            dest_node_indices@ == Seq::new(d as nat, |i: int| (ns + i) as usize),
            forall|a: int| 0 <= a < ns + d ==> #[trigger] plain_node(g@, a),
            forall|a: int| 0 <= a < ns ==> #[trigger] mirrors(g@, a, sg, ls@[a]),
            forall|b: int| 0 <= b < d ==> #[trigger] destination_named(g@, ns + b, state@.destinations[b]),
        decreases state.destination_nodes@.len() - d,
    {
        let dn = &state.destination_nodes[d];
        let ghost before = g@;
        let obs_idx = g.add_node(
            ObservableNode {
                name: dn.name.clone(),
                node_type: ObservableNodeType::Destination,
                state_node_idx: None,
            },
            String::new(),
        );
        proof {
            g.lemma_bounds();
            assert(obs_idx == ns + d);
            assert(g@.nodes =~= before.nodes.push(g@.nodes[ns + d]));
            assert forall|a: int| 0 <= a < ns + d + 1 implies #[trigger] plain_node(g@, a) by {
                if a < ns + d {
                    assert(g@.nodes[a] == before.nodes[a]);
                    assert(plain_node(before, a));
                }
            }
            assert forall|a: int| 0 <= a < ns implies #[trigger] mirrors(g@, a, sg, ls@[a]) by {
                assert(g@.nodes[a] == before.nodes[a]);
                assert(mirrors(before, a, sg, ls@[a]));
            }
            assert forall|b: int| 0 <= b < d + 1 implies #[trigger] destination_named(g@, ns + b, state@.destinations[b]) by {
                if b < d {
                    assert(g@.nodes[ns + b] == before.nodes[ns + b]);
                    assert(destination_named(before, ns + b, state@.destinations[b]));
                }
            }
        }
        dest_node_indices.push(obs_idx);
        assert(dest_node_indices@ =~= Seq::new((d + 1) as nat, |i: int| (ns + i) as usize));
        d += 1;
    }
    let mut j: usize = 0;
    while j < state.edges.len()
        invariant
            sg == state_graph@,
            ls@ == sg.node_indices(),
            ns == ls@.len(),
            d == state.destination_nodes@.len(),
            observable_edges_in_range(state@, sg),
            j <= state.edges@.len(),
            g@.wf(),
            dense(g@, (ns + d) as nat, j as nat),
            source_node_indices@ == Seq::new(ns as nat, |i: int| i as usize),
            dest_node_indices@ == Seq::new(d as nat, |i: int| (ns + i) as usize),
            forall|a: int| 0 <= a < ns + d ==> #[trigger] plain_node(g@, a),
            forall|a: int| 0 <= a < ns ==> #[trigger] mirrors(g@, a, sg, ls@[a]),
            forall|b: int| 0 <= b < d ==> #[trigger] destination_named(g@, ns + b, state@.destinations[b]),
            forall|b: int|
                0 <= b < j ==> {
                    &&& (#[trigger] g@.edge(b)).source == state@.edges[b].0
                    &&& g@.edge(b).target == ns + state@.edges[b].1
                    &&& g@.edge(b).payload == state@.edges[b].2
                    &&& g@.edge(b).label@ == Seq::<char>::empty()
                },
        decreases state.edges@.len() - j,
    {
        let e = &state.edges[j];
        assert(state@.edges[j as int] == (e.source, e.target, e.weight));
        let ghost before = g@;
        let a = source_node_indices[e.source];
        let b = dest_node_indices[e.target];
        let idx = g.add_edge(a, b, e.weight, String::new());
        proof {
            g.lemma_bounds();
            assert(idx == j);
            assert(g@.insertion =~= Seq::new((j + 1) as nat, |i: int| i as usize));
            assert forall|q: int| 0 <= q < ns + d implies #[trigger] plain_node(g@, q) by {
                assert(plain_node(before, q));
            }
            assert forall|q: int| 0 <= q < ns implies #[trigger] mirrors(g@, q, sg, ls@[q]) by {
                assert(mirrors(before, q, sg, ls@[q]));
            }
            assert forall|q: int| 0 <= q < d implies #[trigger] destination_named(g@, ns + q, state@.destinations[q]) by {
                assert(destination_named(before, ns + q, state@.destinations[q]));
            }
            assert forall|q: int| 0 <= q < j + 1 implies {
                &&& (#[trigger] g@.edge(q)).source == state@.edges[q].0
                &&& g@.edge(q).target == ns + state@.edges[q].1
                &&& g@.edge(q).payload == state@.edges[q].2
                &&& g@.edge(q).label@ == Seq::<char>::empty()
            } by {
                if q < j {
                    assert(g@.edges[q] == before.edges[q]);
                }
            }
        }
        j += 1;
    }
    proof {
        g.lemma_bounds();
    }
    g
}

// ------------------------------------------------------------------
// Laws
// ------------------------------------------------------------------

/// Loading a stored state graph and saving it again gives back the same content.
pub proof fn lemma_save_after_load<W>(m: GraphModel<StateNode<W>, W>, s: SerGraph<W>)
    requires
        loads_as(m, s),
    ensures
        ser_of_graph(m) == s,
{
    let ln = m.node_indices();
    lemma_dense_indices(m, s.nodes.len());
    let le = m.edge_indices();
    lemma_dense_edge_indices(m, s.edges.len());
    let r = ser_of_graph(m);
    assert forall|k: int| 0 <= k < s.nodes.len() implies ln[k] == k by {}
    assert(r.nodes =~= s.nodes) by {
        assert forall|k: int| 0 <= k < s.nodes.len() implies r.nodes[k] == s.nodes[k] by {
            assert(plain_node(m, k));
        }
    }
    assert(r.edges =~= s.edges) by {
        assert forall|j: int| 0 <= j < s.edges.len() implies r.edges[j] == s.edges[j] by {
            assert(le[j] == j);
            let x = m.edge(j);
            assert(m.is_edge(j));
            assert(m.is_node(x.source as int));
            assert(m.is_node(x.target as int));
            let ps = position_of(ln, x.source);
            assert(ln[x.source as int] == x.source);
            assert(0 <= ps < ln.len() && ln[ps] == x.source);
            let pt = position_of(ln, x.target);
            assert(ln[x.target as int] == x.target);
            assert(0 <= pt < ln.len() && ln[pt] == x.target);
        }
    }
}

/// Saving a state graph, loading the file and saving again gives the same
/// file: what is stored describes the loaded graph completely.
pub proof fn lemma_save_load_save<W>(g: GraphModel<StateNode<W>, W>, m: GraphModel<StateNode<W>, W>)
    requires
        g.wf(),
        loads_as(m, ser_of_graph(g)),
    ensures
        ser_of_graph(m) == ser_of_graph(g),
{
    lemma_save_after_load(m, ser_of_graph(g));
}


/// Keeping the indices `>= lo` of `0..len` gives `lo..len`.
proof fn lemma_keep_tail(len: nat, lo: nat, p: spec_fn(usize) -> bool)
    requires
        len <= usize::MAX,
        forall|i: usize| i < len ==> (#[trigger] p(i) <==> i >= lo),
    ensures
        keep(Seq::new(len, |i: int| i as usize), p) == Seq::new(
            if len >= lo { (len - lo) as nat } else { 0 },
            |d: int| (lo + d) as usize,
        ),
    decreases len,
{
    let s = Seq::new(len, |i: int| i as usize);
    if len > 0 {
        lemma_keep_tail((len - 1) as nat, lo, p);
        assert(s.drop_last() =~= Seq::new((len - 1) as nat, |i: int| i as usize));
        assert(s.last() == (len - 1) as usize);
        assert(p((len - 1) as usize) <==> len - 1 >= lo);
        assert(keep(s, p) =~= Seq::new(
            if len >= lo { (len - lo) as nat } else { 0 },
            |d: int| (lo + d) as usize,
        ));
    } else {
        assert(keep(s, p) =~= Seq::new(0, |d: int| (lo + d) as usize));
    }
}

/// Loading a stored observable over a state graph numbered `0..n` and saving
/// it again gives back the same content.
pub proof fn lemma_observable_save_after_load<W>(
    m: GraphModel<ObservableNode, W>,
    s: SerObservable<W>,
    sg: GraphModel<StateNode<W>, W>,
)
    requires
        loads_observable_as(m, s, sg),
        observable_edges_in_range(s, sg),
        sg.node_indices() == Seq::new(sg.node_indices().len(), |i: int| i as usize),
    ensures
        ser_of_observable(m) == s,
{
    let ls = sg.node_indices();
    let ns = ls.len();
    let nd = s.destinations.len();
    let n = ns + nd;
    let ne = s.edges.len();
    lemma_dense_indices(m, n);
    lemma_dense_edge_indices(m, ne);
    let isd = |x: usize| is_destination(m, x);
    assert forall|i: usize| i < n implies (#[trigger] isd(i) <==> i >= ns) by {
        if i < ns {
            assert(mirrors(m, i as int, sg, ls[i as int]));
        } else {
            assert(destination_named(m, ns + (i - ns), s.destinations[i - ns]));
        }
    }
    lemma_keep_tail(n, ns, isd);
    let dk = destination_indices(m);
    assert(dk == Seq::new(nd, |d: int| (ns + d) as usize));
    let r = ser_of_observable(m);
    assert(r.destinations =~= s.destinations) by {
        assert forall|d: int| 0 <= d < nd implies r.destinations[d] == s.destinations[d] by {
            assert(destination_named(m, ns + d, s.destinations[d]));
        }
    }
    lemma_stored_prefix(m, s, sg, ne);
    assert(stored_edges(m, m.edge_indices()) == s.edges.take(ne as int));
    assert(s.edges.take(ne as int) =~= s.edges);
    assert(r.edges =~= s.edges);
}

proof fn lemma_stored_prefix<W>(
    m: GraphModel<ObservableNode, W>,
    s: SerObservable<W>,
    sg: GraphModel<StateNode<W>, W>,
    jj: nat,
)
    requires
        loads_observable_as(m, s, sg),
        observable_edges_in_range(s, sg),
        sg.node_indices() == Seq::new(sg.node_indices().len(), |i: int| i as usize),
        destination_indices(m) == Seq::new(s.destinations.len(), |d: int| (sg.node_indices().len() + d) as usize),
        jj <= s.edges.len(),
    ensures
        stored_edges(m, Seq::new(jj, |i: int| i as usize)) == s.edges.take(jj as int),
    decreases jj,
{
    let ls = sg.node_indices();
    let ns = ls.len();
    let le = Seq::new(jj, |i: int| i as usize);
    if jj == 0 {
        assert(stored_edges(m, le) =~= s.edges.take(0));
    } else {
        lemma_stored_prefix(m, s, sg, (jj - 1) as nat);
        assert(le.drop_last() =~= Seq::new((jj - 1) as nat, |i: int| i as usize));
        let e = (jj - 1) as usize;
        assert(le.last() == e);
        let x = m.edge(e as int);
        assert(x.source == s.edges[e as int].0);
        assert(x.target == ns + s.edges[e as int].1);
        let src = x.source;
        assert(src < ns);
        assert(mirrors(m, src as int, sg, ls[src as int]));
        assert(ls[src as int] == src);
        let t = s.edges[e as int].1;
        assert(destination_named(m, ns + t, s.destinations[t as int]));
        assert(stored_edge(m, e));
        let dk = destination_indices(m);
        let p = position_of(dk, x.target);
        assert(dk[t as int] == x.target);
        assert(0 <= p < dk.len() && dk[p] == x.target);
        assert(p == t);
        assert(stored_edges(m, le) =~= s.edges.take(jj as int));
    }
}

/// In a graph without vacant node slots the live node indices are `0..n`.
pub proof fn lemma_dense_indices<N, E>(m: GraphModel<N, E>, n: nat)
    requires
        m.nodes.len() == n,
        n <= usize::MAX,
        forall|i: int| 0 <= i < n ==> #[trigger] m.nodes[i] is Some,
    ensures
        m.node_indices() == Seq::new(n, |i: int| i as usize),
    decreases n,
{
    if n > 0 {
        let p = GraphModel { nodes: m.nodes.drop_last(), ..m };
        assert forall|i: int| 0 <= i < n - 1 implies #[trigger] p.nodes[i] is Some by {
            assert(m.nodes[i] is Some);
        }
        lemma_dense_indices(p, (n - 1) as nat);
        assert(m.nodes[n - 1] is Some);
        assert(m.node_indices() =~= Seq::new(n, |i: int| i as usize));
    } else {
        assert(m.node_indices() =~= Seq::new(n, |i: int| i as usize));
    }
}

/// In a graph without vacant edge slots the live edge indices are `0..n`.
pub proof fn lemma_dense_edge_indices<N, E>(m: GraphModel<N, E>, n: nat)
    requires
        m.edges.len() == n,
        n <= usize::MAX,
        forall|i: int| 0 <= i < n ==> #[trigger] m.edges[i] is Some,
    ensures
        m.edge_indices() == Seq::new(n, |i: int| i as usize),
    decreases n,
{
    if n > 0 {
        let p = GraphModel { edges: m.edges.drop_last(), ..m };
        assert forall|i: int| 0 <= i < n - 1 implies #[trigger] p.edges[i] is Some by {
            assert(m.edges[i] is Some);
        }
        lemma_dense_edge_indices(p, (n - 1) as nat);
        assert(m.edges[n - 1] is Some);
        assert(m.edge_indices() =~= Seq::new(n, |i: int| i as usize));
    } else {
        assert(m.edge_indices() =~= Seq::new(n, |i: int| i as usize));
    }
}


/// Every stored edge, state or observable, names stored nodes: what loading a
/// project file needs.
pub open spec fn project_in_range<W>(dynamical_system: SerGraph<W>, observable: SerObservable<W>) -> bool {
    &&& edges_in_range(dynamical_system)
    &&& forall|j: int|
        0 <= j < observable.edges.len() ==> (#[trigger] observable.edges[j]).0 < dynamical_system.nodes.len()
            && observable.edges[j].1 < observable.destinations.len()
}

/// Whether every stored edge of `state` names stored nodes.
pub fn project_in_range_check<W>(state: &SerializableState<W>) -> (b: bool)
    ensures
        b == project_in_range(state.dynamical_system@, state.observable@),
{
    let n = state.dynamical_system.nodes.len();
    let mut j: usize = 0;
    while j < state.dynamical_system.edges.len()
        invariant
            n == state.dynamical_system@.nodes.len(),
            j <= state.dynamical_system@.edges.len(),
            forall|q: int| 0 <= q < j ==> (#[trigger] state.dynamical_system@.edges[q]).0 < n
                && state.dynamical_system@.edges[q].1 < n,
        decreases state.dynamical_system@.edges.len() - j,
    {
        let e = &state.dynamical_system.edges[j];
        assert(state.dynamical_system@.edges[j as int] == (e.source, e.target, e.weight));
        if e.source >= n || e.target >= n {
            return false;
        }
        j += 1;
    }
    let nd = state.observable.destination_nodes.len();
    let mut k: usize = 0;
    while k < state.observable.edges.len()
        invariant
            n == state.dynamical_system@.nodes.len(),
            nd == state.observable@.destinations.len(),
            edges_in_range(state.dynamical_system@),
            k <= state.observable@.edges.len(),
            forall|q: int| 0 <= q < k ==> (#[trigger] state.observable@.edges[q]).0 < n
                && state.observable@.edges[q].1 < nd,
        decreases state.observable@.edges.len() - k,
    {
        let e = &state.observable.edges[k];
        assert(state.observable@.edges[k as int] == (e.source, e.target, e.weight));
        if e.source >= n || e.target >= nd {
            return false;
        }
        k += 1;
    }
    true
}

/// The file content of a whole project.
pub fn serializable_state_from_graphs<W: Copy>(
    state_graph: &StateGraph<W>,
    observable_graph: &ObservableGraph<W>,
) -> (r: SerializableState<W>)
    requires
        state_graph@.wf(),
        observable_graph@.wf(),
    ensures
        r.dynamical_system@ == ser_of_graph(state_graph@),
        r.observable@ == ser_of_observable(observable_graph@),
{
    SerializableState {
        dynamical_system: graph_to_serializable(state_graph),
        observable: observable_graph_to_serializable(observable_graph),
    }
}

/// The state graph and the observable graph stored in a project file.
pub fn graphs_from_serializable<W: Copy>(state: &SerializableState<W>) -> (r: (StateGraph<W>, ObservableGraph<W>))
    requires
        project_in_range(state.dynamical_system@, state.observable@),
    ensures
        loads_as(r.0@, state.dynamical_system@),
        loads_observable_as(r.1@, state.observable@, r.0@),
{
    let state_graph = serializable_to_graph(&state.dynamical_system);
    proof {
        let g = state_graph@;
        lemma_dense_indices(g, state.dynamical_system@.nodes.len());
        assert(g.node_indices().len() == state.dynamical_system@.nodes.len());
    }
    let observable_graph = serializable_to_observable_graph(&state.observable, &state_graph);
    (state_graph, observable_graph)
}

/// What a stored observable edge says of the live edge `e` of `g` it came
/// from: `e` leaves a Source standing for state `st.0` and enters a
/// Destination stored at position `st.1` under its name, with weight `st.2`.
pub open spec fn stored_from<W>(g: GraphModel<ObservableNode, W>, e: int, st: (usize, usize, W), names: Seq<Seq<char>>) -> bool {
    let x = g.edge(e);
    &&& g.is_edge(e)
    &&& g.node(x.source as int).payload.node_type == ObservableNodeType::Source
    &&& g.node(x.source as int).payload.state_node_idx == Some(st.0)
    &&& g.node(x.target as int).payload.node_type == ObservableNodeType::Destination
    &&& st.1 < names.len()
    &&& names[st.1 as int] == g.node(x.target as int).payload.name@
    &&& st.2 == x.payload
}

proof fn lemma_stored_edges_origin<W>(g: GraphModel<ObservableNode, W>, le: Seq<usize>, j: int)
    requires
        g.wf(),
        g.nodes.len() <= usize::MAX,
        forall|k: int| 0 <= k < le.len() ==> #[trigger] g.is_edge(le[k] as int),
        0 <= j < stored_edges(g, le).len(),
    ensures
        exists|e: int| stored_from(g, e, #[trigger] stored_edges(g, le)[j], ser_of_observable(g).destinations),
    decreases le.len(),
{
    let pre = stored_edges(g, le.drop_last());
    if j < pre.len() {
        assert forall|k: int| 0 <= k < le.drop_last().len() implies #[trigger] g.is_edge(le.drop_last()[k] as int) by {
            assert(g.is_edge(le[k] as int));
        }
        lemma_stored_edges_origin(g, le.drop_last(), j);
        assert(stored_edges(g, le)[j] == pre[j]);
    } else {
        let e = le.last();
        assert(g.is_edge(le[le.len() - 1] as int));
        let x = g.edge(e as int);
        let isd = |y: usize| is_destination(g, y);
        let d = keep(g.node_indices(), isd);
        lemma_keep(g.node_indices(), isd);
        lemma_live_indices(g.nodes);
        assert(d == destination_indices(g));
        assert(g.is_node(x.target as int));
        assert(live_indices(g.nodes).contains(x.target as int as usize));
        assert(g.node_indices().contains(x.target));
        assert(d.contains(x.target));
        let p = position_of(d, x.target);
        assert(0 <= p < d.len() && d[p] == x.target);
        let names = ser_of_observable(g).destinations;
        assert(names[p] == g.node(d[p] as int).payload.name@);
        assert(stored_from(g, e as int, stored_edges(g, le)[j], names));
    }
}

/// Stored observable edge `j` of `g` comes from some live edge of `g`, as
/// `stored_from` describes.
pub open spec fn has_origin<W>(g: GraphModel<ObservableNode, W>, j: int) -> bool {
    exists|e: int| stored_from(g, e, ser_of_observable(g).edges[j], ser_of_observable(g).destinations)
}

/// Saving an observable stores each edge by the state its Source stands for,
/// not by the Source's own index in the observable graph: every stored edge
/// comes from a live edge that leaves a Source standing for the stored state
/// and enters a Destination stored, under its name, at the stored position,
/// with the edge's weight.
pub proof fn lemma_saved_observable_edges<W>(graph: &ObservableGraph<W>)
    requires
        graph@.wf(),
    ensures
        forall|j: int| 0 <= j < ser_of_observable(graph@).edges.len() ==> #[trigger] has_origin(graph@, j),
{
    let g = graph@;
    graph.lemma_bounds();
    lemma_live_indices(g.edges);
    assert forall|j: int| 0 <= j < ser_of_observable(g).edges.len() implies #[trigger] has_origin(g, j) by {
        assert forall|k: int| 0 <= k < g.edge_indices().len() implies #[trigger] g.is_edge(g.edge_indices()[k] as int) by {
            assert(occupied(g.edges, live_indices(g.edges)[k] as int));
        }
        lemma_stored_edges_origin(g, g.edge_indices(), j);
        assert(ser_of_observable(g).edges == stored_edges(g, g.edge_indices()));
        let e = choose|e: int| stored_from(g, e, stored_edges(g, g.edge_indices())[j], ser_of_observable(g).destinations);
        assert(stored_from(g, e, ser_of_observable(g).edges[j], ser_of_observable(g).destinations));
    }
}

} // verus!
