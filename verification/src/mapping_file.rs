use vstd::prelude::*;

use crate::graph::{Graph, GraphModel};
use crate::graph_state::{dense, plain_edge, plain_node};
use crate::mapping::{MappingGraph, MappingNodeData, NodeData, NodeType, SystemGraph};
use crate::topology::{
    build_dense, edge_positions, lemma_stored_after_build, loads_dense, positions_in_range, stored_edge_positions,
    stored_payloads,
};
use crate::graph::lemma_live_indices;

verus! {

// ------------------------------------------------------------------
// Files of the unweighted editor: nodes in index order, edges in index order
// with endpoints given as positions among the stored nodes.
// ------------------------------------------------------------------

/// A state as stored in a file.
pub struct SerializableNode {
    pub name: String,
}

/// An edge as stored in a file: the positions of its endpoints.
pub struct SerializableEdge {
    pub source: usize,
    pub target: usize,
}

/// The dynamical system as stored in a file.
pub struct SerializableGraphState {
    pub nodes: Vec<SerializableNode>,
    pub edges: Vec<SerializableEdge>,
}

/// A mapping node as stored in a file.
pub struct SerializableMappingNode {
    pub name: String,
    pub node_type: NodeType,
}

/// The mapping as stored in a file: all its nodes, Sources and Destinations.
pub struct SerializableObservableState {
    pub nodes: Vec<SerializableMappingNode>,
    pub edges: Vec<SerializableEdge>,
}

/// A whole file: the dynamical system and its mapping.
pub struct SerializableState {
    pub dynamical_system: SerializableGraphState,
    pub observable: SerializableObservableState,
}

/// The endpoints of stored edges.
pub open spec fn edge_ends(edges: Seq<SerializableEdge>) -> Seq<(usize, usize)> {
    edges.map_values(|e: SerializableEdge| (e.source, e.target))
}

impl View for SerializableGraphState {
    type V = (Seq<Seq<char>>, Seq<(usize, usize)>);

    open spec fn view(&self) -> (Seq<Seq<char>>, Seq<(usize, usize)>) {
        (self.nodes@.map_values(|n: SerializableNode| n.name@), edge_ends(self.edges@))
    }
}

impl View for SerializableObservableState {
    type V = (Seq<(Seq<char>, NodeType)>, Seq<(usize, usize)>);

    open spec fn view(&self) -> (Seq<(Seq<char>, NodeType)>, Seq<(usize, usize)>) {
        (self.nodes@.map_values(|n: SerializableMappingNode| (n.name@, n.node_type)), edge_ends(self.edges@))
    }
}

/// Stored edges without their (unit) payloads.
pub open spec fn unweighted(edges: Seq<(usize, usize, ())>) -> Seq<(usize, usize)> {
    edges.map_values(|e: (usize, usize, ())| (e.0, e.1))
}

/// The names of states.
pub open spec fn state_names(s: Seq<NodeData>) -> Seq<Seq<char>> {
    s.map_values(|n: NodeData| n.name@)
}

/// The name and kind of mapping nodes.
pub open spec fn mapping_entries(s: Seq<MappingNodeData>) -> Seq<(Seq<char>, NodeType)> {
    s.map_values(|n: MappingNodeData| (n.name@, n.node_type))
}

/// What saving the system stores: the names of the live nodes in index
/// order, and the live edges in index order as positions among them.
pub open spec fn stored_system(g: GraphModel<NodeData, ()>) -> (Seq<Seq<char>>, Seq<(usize, usize)>) {
    (state_names(stored_payloads(g)), unweighted(stored_edge_positions(g)))
}

/// What saving a mapping stores: name and kind of every live node in index
/// order, and the live edges in index order as positions among them.
pub open spec fn stored_mapping(g: GraphModel<MappingNodeData, ()>) -> (Seq<(Seq<char>, NodeType)>, Seq<(usize, usize)>) {
    (mapping_entries(stored_payloads(g)), unweighted(stored_edge_positions(g)))
}

/// Every stored edge joins two of the first `n` stored nodes.
pub open spec fn ends_in_range(edges: Seq<(usize, usize)>, n: nat) -> bool {
    forall|j: int| 0 <= j < edges.len() ==> (#[trigger] edges[j]).0 < n && edges[j].1 < n
}

/// `m` is what loading `s` builds: a node per stored name and an edge per
/// stored edge, in order, unlabelled, unselected, without vacant slots.
pub open spec fn loads_system(m: GraphModel<NodeData, ()>, s: (Seq<Seq<char>>, Seq<(usize, usize)>)) -> bool {
    &&& m.wf()
    &&& s.0.len() <= usize::MAX
    &&& s.1.len() <= usize::MAX
    &&& dense(m, s.0.len(), s.1.len())
    &&& forall|k: int| 0 <= k < s.0.len() ==> #[trigger] plain_node(m, k)
    &&& forall|k: int| 0 <= k < s.0.len() ==> (#[trigger] m.node(k)).payload.name@ == s.0[k]
    &&& forall|j: int| 0 <= j < s.1.len() ==> #[trigger] plain_edge(m, j, s.1[j].0, s.1[j].1)
}

/// `m` is what loading the mapping `s` builds.
pub open spec fn loads_mapping(m: GraphModel<MappingNodeData, ()>, s: (Seq<(Seq<char>, NodeType)>, Seq<(usize, usize)>)) -> bool {
    &&& m.wf()
    &&& s.0.len() <= usize::MAX
    &&& s.1.len() <= usize::MAX
    &&& dense(m, s.0.len(), s.1.len())
    &&& forall|k: int| 0 <= k < s.0.len() ==> #[trigger] plain_node(m, k)
    &&& forall|k: int|
        0 <= k < s.0.len() ==> (#[trigger] m.node(k)).payload.name@ == s.0[k].0 && m.node(k).payload.node_type
            == s.0[k].1
    &&& forall|j: int| 0 <= j < s.1.len() ==> #[trigger] plain_edge(m, j, s.1[j].0, s.1[j].1)
}

/// The stored edges of a graph.
fn stored_edges_of<N>(graph: &Graph<N, ()>) -> (r: Vec<SerializableEdge>)
    requires
        graph@.wf(),
    ensures
        edge_ends(r@) == unweighted(stored_edge_positions(graph@)),
{
    let pos = edge_positions(graph);
    let mut r: Vec<SerializableEdge> = Vec::new();
    let mut j: usize = 0;
    while j < pos.len()
        invariant
            j <= pos@.len(),
            pos@ == stored_edge_positions(graph@),
            edge_ends(r@) == unweighted(pos@.take(j as int)),
        decreases pos@.len() - j,
    {
        let s = pos[j].0;
        let t = pos[j].1;
        let ghost pre = r@;
        r.push(SerializableEdge { source: s, target: t });
        proof {
            assert(pos@.take(j + 1) =~= pos@.take(j as int).push(pos@[j as int]));
            assert(r@ =~= pre.push(SerializableEdge { source: s, target: t }));
            assert(edge_ends(r@) =~= edge_ends(pre).push((s, t)));
            assert(unweighted(pos@.take(j + 1)) =~= unweighted(pos@.take(j as int)).push((s, t)));
        }
        j += 1;
    }
    assert(pos@.take(j as int) =~= pos@);
    r
}

/// The file content of the system.
pub fn graph_to_serializable(graph: &SystemGraph) -> (r: SerializableGraphState)
    requires
        graph@.wf(),
    ensures
        r@ == stored_system(graph@),
{
    let ghost g = graph@;
    let ln = graph.node_indices();
    proof {
        graph.lemma_bounds();
        lemma_live_indices(g.nodes);
    }
    let mut nodes: Vec<SerializableNode> = Vec::new();
    let mut k: usize = 0;
    while k < ln.len()
        invariant
            g == graph@,
            ln@ == g.node_indices(),
            forall|a: int| 0 <= a < ln@.len() ==> #[trigger] g.is_node(ln@[a] as int),
            k <= ln@.len(),
            nodes@.len() == k,
            forall|a: int| 0 <= a < k ==> (#[trigger] nodes@[a]).name@ == g.node(ln@[a] as int).payload.name@,
        decreases ln@.len() - k,
    {
        let x = ln[k];
        assert(g.is_node(ln@[k as int] as int));
        let node = graph.node(x).unwrap();
        nodes.push(SerializableNode { name: node.payload.name.clone() });
        k += 1;
    }
    let edges = stored_edges_of(graph);
    let r = SerializableGraphState { nodes, edges };
    assert(r@.0 =~= stored_system(g).0);
    r
}

/// The file content of a mapping.
pub fn mapping_graph_to_serializable(graph: &MappingGraph) -> (r: SerializableObservableState)
    requires
        graph@.wf(),
    ensures
        r@ == stored_mapping(graph@),
{
    let ghost g = graph@;
    let ln = graph.node_indices();
    proof {
        graph.lemma_bounds();
        lemma_live_indices(g.nodes);
    }
    let mut nodes: Vec<SerializableMappingNode> = Vec::new();
    let mut k: usize = 0;
    while k < ln.len()
        invariant
            g == graph@,
            ln@ == g.node_indices(),
            forall|a: int| 0 <= a < ln@.len() ==> #[trigger] g.is_node(ln@[a] as int),
            k <= ln@.len(),
            nodes@.len() == k,
            forall|a: int|
                0 <= a < k ==> (#[trigger] nodes@[a]).name@ == g.node(ln@[a] as int).payload.name@ && nodes@[a].node_type
                    == g.node(ln@[a] as int).payload.node_type,
        decreases ln@.len() - k,
    {
        let x = ln[k];
        assert(g.is_node(ln@[k as int] as int));
        let node = graph.node(x).unwrap();
        nodes.push(SerializableMappingNode { name: node.payload.name.clone(), node_type: node.payload.node_type });
        k += 1;
    }
    let edges = stored_edges_of(graph);
    let r = SerializableObservableState { nodes, edges };
    assert(r@.0 =~= stored_mapping(g).0);
    r
}

/// The stored edges with unit payloads.
fn edge_triples(edges: &Vec<SerializableEdge>) -> (r: Vec<(usize, usize, ())>)
    ensures
        unweighted(r@) == edge_ends(edges@),
        r@.len() == edges@.len(),
{
    let mut r: Vec<(usize, usize, ())> = Vec::new();
    let mut j: usize = 0;
    while j < edges.len()
        invariant
            j <= edges@.len(),
            r@.len() == j,
            unweighted(r@) == edge_ends(edges@).take(j as int),
        decreases edges@.len() - j,
    {
        r.push((edges[j].source, edges[j].target, ()));
        assert(unweighted(r@) =~= edge_ends(edges@).take(j + 1));
        j += 1;
    }
    assert(edge_ends(edges@).take(j as int) =~= edge_ends(edges@));
    r
}

/// Builds the system stored in `state`.
pub fn serializable_to_graph(state: &SerializableGraphState) -> (g: SystemGraph)
    requires
        ends_in_range(state@.1, state@.0.len()),
    ensures
        loads_system(g@, state@),
{
    let mut payloads: Vec<NodeData> = Vec::new();
    let mut k: usize = 0;
    while k < state.nodes.len()
        invariant
            k <= state.nodes@.len(),
            payloads@.len() == k,
            forall|a: int| 0 <= a < k ==> (#[trigger] payloads@[a]).name@ == state@.0[a],
        decreases state.nodes@.len() - k,
    {
        payloads.push(NodeData { name: state.nodes[k].name.clone() });
        k += 1;
    }
    let edges = edge_triples(&state.edges);
    proof {
        assert forall|j: int| 0 <= j < edges@.len() implies (#[trigger] edges@[j]).0 < payloads@.len() && edges@[j].1
            < payloads@.len() by {
            assert(unweighted(edges@)[j] == state@.1[j]);
        }
    }
    let g = build_dense(&payloads, &edges);
    proof {
        assert forall|j: int| 0 <= j < state@.1.len() implies #[trigger] plain_edge(g@, j, state@.1[j].0, state@.1[j].1) by {
            assert(unweighted(edges@)[j] == state@.1[j]);
            assert(g@.edge(j).source == edges@[j].0);
        }
        assert forall|a: int| 0 <= a < state@.0.len() implies (#[trigger] g@.node(a)).payload.name@ == state@.0[a] by {
            assert(plain_node(g@, a));
        }
    }
    g
}

/// Builds the mapping stored in `state`.
pub fn serializable_to_mapping_graph(state: &SerializableObservableState) -> (g: MappingGraph)
    requires
        ends_in_range(state@.1, state@.0.len()),
    ensures
        loads_mapping(g@, state@),
{
    let mut payloads: Vec<MappingNodeData> = Vec::new();
    let mut k: usize = 0;
    while k < state.nodes.len()
        invariant
            k <= state.nodes@.len(),
            payloads@.len() == k,
            forall|a: int|
                0 <= a < k ==> (#[trigger] payloads@[a]).name@ == state@.0[a].0 && payloads@[a].node_type
                    == state@.0[a].1,
        decreases state.nodes@.len() - k,
    {
        let n = &state.nodes[k];
        payloads.push(MappingNodeData { name: n.name.clone(), node_type: n.node_type });
        k += 1;
    }
    let edges = edge_triples(&state.edges);
    proof {
        assert forall|j: int| 0 <= j < edges@.len() implies (#[trigger] edges@[j]).0 < payloads@.len() && edges@[j].1
            < payloads@.len() by {
            assert(unweighted(edges@)[j] == state@.1[j]);
        }
    }
    let g = build_dense(&payloads, &edges);
    proof {
        assert forall|j: int| 0 <= j < state@.1.len() implies #[trigger] plain_edge(g@, j, state@.1[j].0, state@.1[j].1) by {
            assert(unweighted(edges@)[j] == state@.1[j]);
            assert(g@.edge(j).source == edges@[j].0);
        }
        assert forall|a: int| 0 <= a < state@.0.len() implies (#[trigger] g@.node(a)).payload.name@ == state@.0[a].0
            && g@.node(a).payload.node_type == state@.0[a].1 by {
            assert(plain_node(g@, a));
        }
    }
    g
}

/// The list form of a loaded graph: its payloads and its edges.
proof fn lemma_loaded_lists<N>(m: GraphModel<N, ()>, n: nat, ends: Seq<(usize, usize)>)
    requires
        m.wf(),
        n <= usize::MAX,
        ends.len() <= usize::MAX,
        dense(m, n, ends.len()),
        forall|k: int| 0 <= k < n ==> #[trigger] plain_node(m, k),
        forall|j: int| 0 <= j < ends.len() ==> #[trigger] plain_edge(m, j, ends[j].0, ends[j].1),
    ensures
        stored_payloads(m) == Seq::new(n, |k: int| m.node(k).payload),
        unweighted(stored_edge_positions(m)) == ends,
{
    let nodes = Seq::new(n, |k: int| m.node(k).payload);
    let edges = Seq::new(ends.len(), |j: int| (ends[j].0, ends[j].1, ()));
    assert forall|j: int| 0 <= j < edges.len() implies {
        &&& (#[trigger] m.edge(j)).source == edges[j].0
        &&& m.edge(j).target == edges[j].1
        &&& m.edge(j).payload == edges[j].2
        &&& m.edge(j).label@ == Seq::<char>::empty()
    } by {
        assert(plain_edge(m, j, ends[j].0, ends[j].1));
    }
    assert(loads_dense(m, nodes, edges));
    lemma_stored_after_build(m, nodes, edges);
    assert(unweighted(edges) =~= ends);
}

/// Saving a loaded system gives back the file it was loaded from.
pub proof fn lemma_system_save_after_load(m: GraphModel<NodeData, ()>, s: (Seq<Seq<char>>, Seq<(usize, usize)>))
    requires
        loads_system(m, s),
    ensures
        stored_system(m) == s,
{
    lemma_loaded_lists(m, s.0.len(), s.1);
    assert(stored_system(m).0 =~= s.0) by {
        assert forall|k: int| 0 <= k < s.0.len() implies stored_system(m).0[k] == s.0[k] by {
            assert(m.node(k).payload.name@ == s.0[k]);
        }
    }
}

/// Saving a loaded mapping gives back the file it was loaded from.
pub proof fn lemma_mapping_save_after_load(
    m: GraphModel<MappingNodeData, ()>,
    s: (Seq<(Seq<char>, NodeType)>, Seq<(usize, usize)>),
)
    requires
        loads_mapping(m, s),
    ensures
        stored_mapping(m) == s,
{
    lemma_loaded_lists(m, s.0.len(), s.1);
    assert(stored_mapping(m).0 =~= s.0) by {
        assert forall|k: int| 0 <= k < s.0.len() implies stored_mapping(m).0[k] == s.0[k] by {
            assert(m.node(k).payload.name@ == s.0[k].0 && m.node(k).payload.node_type == s.0[k].1);
        }
    }
}

/// Every edge of a saved graph names saved nodes, so a saved file loads.
pub proof fn lemma_saved_in_range<N>(g: GraphModel<N, ()>)
    requires
        g.wf(),
        g.nodes.len() <= usize::MAX,
        g.edges.len() <= usize::MAX,
    ensures
        ends_in_range(unweighted(stored_edge_positions(g)), stored_payloads(g).len()),
{
    let ln = g.node_indices();
    let le = g.edge_indices();
    lemma_live_indices(g.nodes);
    lemma_live_indices(g.edges);
    let e = unweighted(stored_edge_positions(g));
    assert forall|j: int| 0 <= j < e.len() implies (#[trigger] e[j]).0 < stored_payloads(g).len() && e[j].1
        < stored_payloads(g).len() by {
        let x = g.edge(le[j] as int);
        assert(g.is_edge(le[j] as int));
        assert(g.is_node(x.source as int) && g.is_node(x.target as int));
        let si = x.source as int;
        let ti = x.target as int;
        assert(crate::graph::occupied(g.nodes, si));
        assert(crate::graph::occupied(g.nodes, ti));
        assert(crate::graph::live_indices(g.nodes).contains(si as usize));
        assert(crate::graph::live_indices(g.nodes).contains(ti as usize));
        let ps = crate::serialization::position_of(ln, x.source);
        let pt = crate::serialization::position_of(ln, x.target);
        assert(0 <= ps < ln.len());
        assert(0 <= pt < ln.len());
    }
}

} // verus!
