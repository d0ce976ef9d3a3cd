use vstd::prelude::*;

use crate::graph::{Graph, GraphModel, Node, lemma_live_indices, lemma_with_node_frame, lemma_without_node_frame};
use crate::graph_state::{dense, plain_edge, plain_node, Duplicate, HasName, ObservableNodeType};
use crate::graph_view::{neighbor_names, neighbors, setup_graph_display, is_display_of};
use crate::heatmap::{
    all_nodes, by_name, collect_names, entries_view, lemma_pairs_complete, lemma_pairs_increasing, lemma_pairs_members,
    lemma_sorted_collection, pairs_of, sorted_pairs, split_pairs, zip_columns,
};
use crate::store::{lists_name, name_listed};
use crate::names::{indices_increasing, sort_by_name};
use crate::interaction::edge_to_delete;
use crate::actions::adds_edge;
use vstd::string::StringExecFns;

verus! {

// ------------------------------------------------------------------
// The unweighted editor: a dynamical system and a mapping of its states onto
// the values of an observable, both plain directed graphs.
// ------------------------------------------------------------------

/// A state of the unweighted dynamical system.
pub struct NodeData {
    pub name: String,
}

impl HasName for NodeData {
    open spec fn spec_name(&self) -> Seq<char> {
        self.name@
    }

    fn name(&self) -> (r: String) {
        self.name.clone()
    }
}

impl Duplicate for NodeData {
    fn duplicate(&self) -> (r: Self) {
        NodeData { name: self.name.clone() }
    }
}

/// Kind of a node in a mapping graph.
#[derive(Clone, Copy, PartialEq, Eq, Debug, Structural)]
pub enum NodeType {
    Source,
    Destination,
}

/// A node of a mapping graph: a name and a kind.
pub struct MappingNodeData {
    pub name: String,
    pub node_type: NodeType,
}

impl HasName for MappingNodeData {
    open spec fn spec_name(&self) -> Seq<char> {
        self.name@
    }

    fn name(&self) -> (r: String) {
        self.name.clone()
    }
}

impl Duplicate for MappingNodeData {
    fn duplicate(&self) -> (r: Self) {
        MappingNodeData { name: self.name.clone(), node_type: self.node_type }
    }
}

/// A node of an observable as stored with its kind.
pub struct SerializableObservableNode {
    pub name: String,
    pub node_type: ObservableNodeType,
}

/// The unweighted dynamical system.
pub type SystemGraph = Graph<NodeData, ()>;

/// The mapping of states (Source nodes) onto values (Destination nodes).
pub type MappingGraph = Graph<MappingNodeData, ()>;

// ------------------------------------------------------------------
// Example graphs
// ------------------------------------------------------------------

/// The example system: Node 0 -> Node 1 -> Node 2 -> Node 0.
pub open spec fn is_example_system(m: GraphModel<NodeData, ()>) -> bool {
    &&& m.wf()
    &&& dense(m, 3, 3)
    &&& forall|i: int| 0 <= i < 3 ==> #[trigger] plain_node(m, i)
    &&& m.node(0).payload.name@ == "Node 0"@
    &&& m.node(1).payload.name@ == "Node 1"@
    &&& m.node(2).payload.name@ == "Node 2"@
    &&& plain_edge(m, 0, 0, 1)
    &&& plain_edge(m, 1, 1, 2)
    &&& plain_edge(m, 2, 2, 0)
}

/// The example dynamical system used when no file is loaded.
pub fn generate_graph() -> (g: SystemGraph)
    ensures
        is_example_system(g@),
{
    let mut g: SystemGraph = Graph::new();
    let a = g.add_node(NodeData { name: String::from_str("Node 0") }, String::new());
    let b = g.add_node(NodeData { name: String::from_str("Node 1") }, String::new());
    let c = g.add_node(NodeData { name: String::from_str("Node 2") }, String::new());
    g.add_edge(a, b, (), String::new());
    g.add_edge(b, c, (), String::new());
    g.add_edge(c, a, (), String::new());
    proof {
        assert(g@.insertion =~= Seq::new(3, |i: int| i as usize));
    }
    g
}

/// Node `k` of `m` is a node of kind `t` called `name`.
pub open spec fn mapping_node_is(m: GraphModel<MappingNodeData, ()>, k: int, name: Seq<char>, t: NodeType) -> bool {
    &&& m.node(k).payload.name@ == name
    &&& m.node(k).payload.node_type == t
}

/// The example mapping over `sg`: a Source per state of `sg` in index order,
/// named as it, then Destinations "Value 0" and "Value 1", and no edge.
pub open spec fn is_example_mapping(m: GraphModel<MappingNodeData, ()>, sg: GraphModel<NodeData, ()>) -> bool {
    let live = sg.node_indices();
    let n = live.len();
    &&& m.wf()
    &&& dense(m, n + 2, 0)
    &&& forall|i: int| 0 <= i < n + 2 ==> #[trigger] plain_node(m, i)
    &&& forall|k: int|
        0 <= k < n ==> #[trigger] mapping_node_is(m, k, sg.node(live[k] as int).payload.name@, NodeType::Source)
    &&& mapping_node_is(m, n as int, "Value 0"@, NodeType::Destination)
    &&& mapping_node_is(m, n + 1 as int, "Value 1"@, NodeType::Destination)
}

/// The example mapping: every state as a Source, two Destinations, no edge.
pub fn generate_mapping_graph(source_graph: &SystemGraph) -> (g: MappingGraph)
    requires
        source_graph@.wf(),
    ensures
        is_example_mapping(g@, source_graph@),
{
    let mut g: MappingGraph = Graph::new();
    let idxs = source_graph.node_indices();
    let ghost sg = source_graph@;
    proof {
        source_graph.lemma_bounds();
        lemma_live_indices(sg.nodes);
        assert(g@.insertion =~= Seq::new(0, |i: int| i as usize));
    }
    let mut k: usize = 0;
    while k < idxs.len()
        invariant
            idxs@ == sg.node_indices(),
            sg == source_graph@,
            forall|j: int| 0 <= j < idxs@.len() ==> #[trigger] sg.is_node(idxs@[j] as int),
            k <= idxs@.len(),
            g@.wf(),
            dense(g@, k as nat, 0),
            forall|i: int| 0 <= i < k ==> #[trigger] plain_node(g@, i),
            forall|j: int|
                0 <= j < k ==> #[trigger] mapping_node_is(
                    g@,
                    j,
                    sg.node(idxs@[j] as int).payload.name@,
                    NodeType::Source,
                ),
        decreases idxs@.len() - k,
    {
        let x = idxs[k];
        assert(sg.is_node(idxs@[k as int] as int));
        let node = source_graph.node(x).unwrap();
        let ghost before = g@;
        g.add_node(MappingNodeData { name: node.payload.name.clone(), node_type: NodeType::Source }, String::new());
        proof {
            assert forall|i: int| 0 <= i < k + 1 implies #[trigger] plain_node(g@, i) by {
                if i < k {
                    assert(plain_node(before, i));
                }
            }
            assert forall|j: int| 0 <= j < k + 1 implies #[trigger] mapping_node_is(
                g@,
                j,
                sg.node(idxs@[j] as int).payload.name@,
                NodeType::Source,
            ) by {
                if j < k {
                    assert(mapping_node_is(before, j, sg.node(idxs@[j] as int).payload.name@, NodeType::Source));
                }
            }
        }
        k += 1;
    }
    let ghost after_loop = g@;
    let v0 = g.add_node(
        MappingNodeData { name: String::from_str("Value 0"), node_type: NodeType::Destination },
        String::new(),
    );
    let ghost mid = g@;
    assert(v0 == k);
    assert(mid.nodes =~= after_loop.nodes.push(mid.nodes[k as int]));
    let v1 = g.add_node(
        MappingNodeData { name: String::from_str("Value 1"), node_type: NodeType::Destination },
        String::new(),
    );
    proof {
        g.lemma_bounds();
        assert(v1 == k + 1);
        assert(g@.nodes =~= mid.nodes.push(g@.nodes[k + 1]));
        assert forall|i: int| 0 <= i < k + 2 implies #[trigger] plain_node(g@, i) by {
            if i < k {
                assert(plain_node(after_loop, i));
            }
        }
        assert forall|j: int| 0 <= j < k implies #[trigger] mapping_node_is(
            g@,
            j,
            sg.node(idxs@[j] as int).payload.name@,
            NodeType::Source,
        ) by {
            assert(mapping_node_is(after_loop, j, sg.node(idxs@[j] as int).payload.name@, NodeType::Source));
        }
    }
    g
}

/// The display graph of the system: nodes labelled with their names, edges unlabelled.
pub fn setup_graph(g: &SystemGraph) -> (r: SystemGraph)
    requires
        g@.wf(),
    ensures
        is_display_of(r@, g@),
{
    setup_graph_display(g)
}

/// The display graph of a mapping.
pub fn setup_mapping_graph(g: &MappingGraph) -> (r: MappingGraph)
    requires
        g@.wf(),
    ensures
        is_display_of(r@, g@),
{
    setup_graph_display(g)
}

// ------------------------------------------------------------------
// Adjacency heatmaps
// ------------------------------------------------------------------

/// `m[y][x]` tells whether an edge leads from `cols[x]` to `rows[y]`.
pub open spec fn adjacency<N, E>(m: Seq<Vec<bool>>, g: GraphModel<N, E>, rows: Seq<usize>, cols: Seq<usize>) -> bool {
    &&& m.len() == rows.len()
    &&& forall|y: int| 0 <= y < rows.len() ==> (#[trigger] m[y])@.len() == cols.len()
    &&& forall|y: int, x: int|
        0 <= y < rows.len() && 0 <= x < cols.len() ==> (#[trigger] m[y]@[x]) == g.has_edge(cols[x], rows[y])
}

/// The adjacency matrix of `rows` against `cols`.
fn adjacency_matrix<N, E>(g: &Graph<N, E>, rows: &Vec<usize>, cols: &Vec<usize>) -> (m: Vec<Vec<bool>>)
    requires
        g@.wf(),
    ensures
        adjacency(m@, g@, rows@, cols@),
{
    let mut m: Vec<Vec<bool>> = Vec::new();
    let mut y: usize = 0;
    while y < rows.len()
        invariant
            g@.wf(),
            y <= rows@.len(),
            m@.len() == y,
            forall|a: int| 0 <= a < y ==> (#[trigger] m@[a])@.len() == cols@.len(),
            forall|a: int, x: int|
                0 <= a < y && 0 <= x < cols@.len() ==> (#[trigger] m@[a]@[x]) == g@.has_edge(cols@[x], rows@[a]),
        decreases rows@.len() - y,
    {
        let mut row: Vec<bool> = Vec::new();
        let mut x: usize = 0;
        while x < cols.len()
            invariant
                g@.wf(),
                y < rows@.len(),
                x <= cols@.len(),
                row@.len() == x,
                forall|b: int| 0 <= b < x ==> row@[b] == g@.has_edge(cols@[b], rows@[y as int]),
            decreases cols@.len() - x,
        {
            let found = g.find_edge(cols[x], rows[y]).is_some();
            row.push(found);
            x += 1;
        }
        m.push(row);
        y += 1;
    }
    m
}

/// `idx` gives the nodes behind the labels of `r`: the labels sorted by name
/// (ties by index) on both axes, and `r.2[y][x]` telling whether an edge
/// leads from node `idx[x]` to node `idx[y]`.
pub open spec fn square_axes<N, E>(
    r: (Vec<String>, Vec<String>, Vec<Vec<bool>>),
    g: GraphModel<N, E>,
    nodes: Seq<(usize, Seq<char>)>,
    idx: Seq<usize>,
) -> bool {
    &&& sorted_pairs(zip_columns(idx, r.0@), nodes)
    &&& idx.len() == r.0@.len()
    &&& r.1@ == r.0@
    &&& adjacency(r.2@, g, idx, idx)
}

/// `r` is the adjacency heatmap of `nodes` (pairs of index and name) in `g`:
/// empty when there is no node, else laid out as `square_axes` says.
pub open spec fn is_square_heatmap<N, E>(
    r: (Vec<String>, Vec<String>, Vec<Vec<bool>>),
    g: GraphModel<N, E>,
    nodes: Seq<(usize, Seq<char>)>,
) -> bool {
    &&& nodes.len() == 0 ==> r.0@.len() == 0 && r.1@.len() == 0 && r.2@.len() == 0
    &&& nodes.len() > 0 ==> exists|idx: Seq<usize>| #[trigger] square_axes(r, g, nodes, idx)
}

/// The adjacency heatmap of the system: every node against every node,
/// sorted by name; `matrix[y][x]` tells whether an edge leads from `x` to `y`.
pub fn build_heatmap_data(g: &SystemGraph) -> (r: (Vec<String>, Vec<String>, Vec<Vec<bool>>))
    requires
        g@.wf(),
    ensures
        is_square_heatmap(r, g@, pairs_of(g@, g@.node_indices(), all_nodes(), by_name())),
{
    let items = collect_names(g);
    let ghost items_v = items@;
    let nodes = sort_by_name(items);
    proof {
        g.lemma_bounds();
        lemma_sorted_collection(g@, all_nodes(), by_name(), items_v, nodes@);
    }
    if nodes.len() == 0 {
        return (Vec::new(), Vec::new(), Vec::new());
    }
    let (idx, labels) = split_pairs(&nodes);
    let (_, labels2) = split_pairs(&nodes);
    proof {
        assert(labels2@ =~= labels@) by {
            assert forall|a: int| 0 <= a < labels@.len() implies labels2@[a] == labels@[a] by {
                assert(zip_columns(idx@, labels2@)[a] == zip_columns(idx@, labels@)[a]);
            }
        }
    }
    let matrix = adjacency_matrix(g, &idx, &idx);
    proof {
        let p = pairs_of(g@, g@.node_indices(), all_nodes(), by_name());
        assert(sorted_pairs(zip_columns(idx@, labels@), p));
        assert(p.len() > 0);
        assert(square_axes((labels, labels2, matrix), g@, p, idx@));
    }
    (labels, labels2, matrix)
}

/// Mapping nodes of kind `k`.
pub open spec fn mapping_kind_is(k: NodeType) -> spec_fn(Node<MappingNodeData>) -> bool {
    |n: Node<MappingNodeData>| n.payload.node_type == k
}

/// (index, name) of every live node of kind `kind`, in index order.
fn collect_mapping_kind(g: &MappingGraph, kind: NodeType) -> (r: Vec<(usize, String)>)
    requires
        g@.wf(),
    ensures
        entries_view(r@) == pairs_of(g@, g@.node_indices(), mapping_kind_is(kind), by_name()),
        indices_increasing(r@),
{
    let ln = g.node_indices();
    let ghost gm = g@;
    proof {
        g.lemma_bounds();
        lemma_live_indices(gm.nodes);
        lemma_pairs_increasing(gm, ln@, mapping_kind_is(kind), by_name());
    }
    let mut r: Vec<(usize, String)> = Vec::new();
    let mut k: usize = 0;
    while k < ln.len()
        invariant
            gm == g@,
            ln@ == gm.node_indices(),
            forall|a: int| 0 <= a < ln@.len() ==> #[trigger] gm.is_node(ln@[a] as int),
            k <= ln@.len(),
            entries_view(r@) == pairs_of(gm, ln@.take(k as int), mapping_kind_is(kind), by_name()),
        decreases ln@.len() - k,
    {
        let x = ln[k];
        assert(gm.is_node(ln@[k as int] as int));
        assert(ln@.take(k + 1).drop_last() =~= ln@.take(k as int));
        assert(ln@.take(k + 1).last() == x);
        let node = g.node(x).unwrap();
        let ghost pre = r@;
        if node.payload.node_type == kind {
            r.push((x, node.payload.name.clone()));
            assert(entries_view(r@) =~= entries_view(pre).push((x, by_name::<MappingNodeData>()(gm.node(x as int)))));
        }
        k += 1;
    }
    assert(ln@.take(k as int) =~= ln@);
    proof {
        assert forall|a: int, b: int| 0 <= a < b < r@.len() implies r@[a].0 < r@[b].0 by {
            assert(entries_view(r@)[a].0 == r@[a].0);
            assert(entries_view(r@)[b].0 == r@[b].0);
        }
    }
    r
}

/// `xs` and `ys` give the Source and Destination nodes behind the labels of
/// `r`: each axis sorted by name (ties by index), and `r.2[y][x]` telling
/// whether Source `xs[x]` maps to Destination `ys[y]`.
pub open spec fn mapping_axes(
    r: (Vec<String>, Vec<String>, Vec<Vec<bool>>),
    g: GraphModel<MappingNodeData, ()>,
    xs: Seq<usize>,
    ys: Seq<usize>,
) -> bool {
    &&& sorted_pairs(zip_columns(xs, r.0@), pairs_of(g, g.node_indices(), mapping_kind_is(NodeType::Source), by_name()))
    &&& sorted_pairs(
        zip_columns(ys, r.1@),
        pairs_of(g, g.node_indices(), mapping_kind_is(NodeType::Destination), by_name()),
    )
    &&& xs.len() == r.0@.len()
    &&& ys.len() == r.1@.len()
    &&& adjacency(r.2@, g, ys, xs)
}

/// `r` is the heatmap of a mapping graph `g`: Source nodes along x and
/// Destination nodes along y, empty when either kind has no node, else laid
/// out as `mapping_axes` says.
pub open spec fn is_mapping_heatmap(r: (Vec<String>, Vec<String>, Vec<Vec<bool>>), g: GraphModel<MappingNodeData, ()>) -> bool {
    let src = pairs_of(g, g.node_indices(), mapping_kind_is(NodeType::Source), by_name());
    let dst = pairs_of(g, g.node_indices(), mapping_kind_is(NodeType::Destination), by_name());
    &&& (src.len() == 0 || dst.len() == 0) ==> r.0@.len() == 0 && r.1@.len() == 0 && r.2@.len() == 0
    &&& (src.len() > 0 && dst.len() > 0) ==> exists|xs: Seq<usize>, ys: Seq<usize>| #[trigger] mapping_axes(r, g, xs, ys)
}

/// The heatmap of the mapping: Sources along x, Destinations along y.
pub fn build_mapping_heatmap_data(g: &MappingGraph) -> (r: (Vec<String>, Vec<String>, Vec<Vec<bool>>))
    requires
        g@.wf(),
    ensures
        is_mapping_heatmap(r, g@),
{
    let src_items = collect_mapping_kind(g, NodeType::Source);
    let dst_items = collect_mapping_kind(g, NodeType::Destination);
    let ghost src_v = src_items@;
    let ghost dst_v = dst_items@;
    let sources = sort_by_name(src_items);
    let dests = sort_by_name(dst_items);
    proof {
        g.lemma_bounds();
        lemma_sorted_collection(g@, mapping_kind_is(NodeType::Source), by_name(), src_v, sources@);
        lemma_sorted_collection(g@, mapping_kind_is(NodeType::Destination), by_name(), dst_v, dests@);
    }
    if sources.len() == 0 || dests.len() == 0 {
        return (Vec::new(), Vec::new(), Vec::new());
    }
    let (x_idx, x_labels) = split_pairs(&sources);
    let (y_idx, y_labels) = split_pairs(&dests);
    let matrix = adjacency_matrix(g, &y_idx, &x_idx);
    proof {
        let src = pairs_of(g@, g@.node_indices(), mapping_kind_is(NodeType::Source), by_name());
        let dst = pairs_of(g@, g@.node_indices(), mapping_kind_is(NodeType::Destination), by_name());
        assert(sorted_pairs(zip_columns(x_idx@, x_labels@), src));
        assert(sorted_pairs(zip_columns(y_idx@, y_labels@), dst));
        assert(src.len() > 0 && dst.len() > 0);
        assert(mapping_axes((x_labels, y_labels, matrix), g@, x_idx@, y_idx@));
    }
    (x_labels, y_labels, matrix)
}

// ------------------------------------------------------------------
// Connections and edge editing
// ------------------------------------------------------------------

/// The names of the nodes with an edge into node `i` and of those that an
/// edge from `i` reaches, the most recently added edge first.
pub fn get_node_connections(g: &SystemGraph, i: usize) -> (r: (Vec<String>, Vec<String>))
    requires
        g@.wf(),
    ensures
        r.0@.len() == neighbors(g@, i, true).len(),
        forall|k: int| 0 <= k < r.0@.len() ==> (#[trigger] r.0@[k])@ == g@.node(neighbors(g@, i, true)[k].0 as int).payload.name@,
        r.1@.len() == neighbors(g@, i, false).len(),
        forall|k: int| 0 <= k < r.1@.len() ==> (#[trigger] r.1@[k])@ == g@.node(neighbors(g@, i, false)[k].0 as int).payload.name@,
{
    let incoming = neighbor_names(g, i, true);
    let outgoing = neighbor_names(g, i, false);
    (names_only(incoming), names_only(outgoing))
}

/// Renames state `i`, label included; nothing happens if there is no such state.
pub fn set_node_name(g: &mut SystemGraph, i: usize, name: String)
    requires
        old(g)@.wf(),
    ensures
        final(g)@.wf(),
        final(g)@ == old(g)@.with_node_payload(i, NodeData { name }).with_label(i, name),
{
    g.set_node_payload(i, NodeData { name: name.clone() });
    g.set_node_label(i, name);
}

/// The names of (name, payload) pairs.
fn names_only(v: Vec<(String, ())>) -> (r: Vec<String>)
    ensures
        r@.len() == v@.len(),
        forall|k: int| 0 <= k < r@.len() ==> (#[trigger] r@[k]) == v@[k].0,
{
    let mut r: Vec<String> = Vec::new();
    let mut k: usize = 0;
    while k < v.len()
        invariant
            k <= v@.len(),
            r@.len() == k,
            forall|a: int| 0 <= a < k ==> (#[trigger] r@[a]) == v@[a].0,
        decreases v@.len() - k,
    {
        r.push(v[k].0.clone());
        k += 1;
    }
    r
}

/// Completes a drag in the system: adds an unlabelled edge from `s` to `t`
/// unless the drag ended on the node it started from.
pub fn add_system_edge(g: &mut SystemGraph, s: usize, t: usize) -> (r: Option<usize>)
    requires
        old(g)@.wf(),
        old(g)@.is_node(s as int),
        old(g)@.is_node(t as int),
    ensures
        final(g)@.wf(),
        s != t ==> r == Some(old(g)@.next_edge_index()) && adds_edge(old(g)@, final(g)@, s, t, ()),
        s == t ==> r is None && final(g)@ == old(g)@,
{
    if s == t {
        return None;
    }
    proof {
        g.lemma_bounds();
    }
    let label = String::new();
    let ghost l = label;
    let e = g.add_edge(s, t, (), label);
    assert(l@ == Seq::<char>::empty() && g@ == old(g)@.with_edge(s, t, (), l));
    Some(e)
}

/// A mapping edge may only go from a Source node to a different, Destination node.
pub open spec fn mapping_edge_allowed(g: GraphModel<MappingNodeData, ()>, s: usize, t: usize) -> bool {
    &&& s != t
    &&& g.is_node(s as int) && g.node(s as int).payload.node_type == NodeType::Source
    &&& g.is_node(t as int) && g.node(t as int).payload.node_type == NodeType::Destination
}

/// Completes a drag in the mapping: adds an unlabelled edge from `s` to `t`
/// where `mapping_edge_allowed`, and ignores the attempt otherwise.
pub fn add_mapping_edge(g: &mut MappingGraph, s: usize, t: usize) -> (r: Option<usize>)
    requires
        old(g)@.wf(),
    ensures
        final(g)@.wf(),
        mapping_edge_allowed(old(g)@, s, t) ==> r == Some(old(g)@.next_edge_index()) && adds_edge(
            old(g)@,
            final(g)@,
            s,
            t,
            (),
        ),
        !mapping_edge_allowed(old(g)@, s, t) ==> r is None && final(g)@ == old(g)@,
{
    if s == t {
        return None;
    }
    let ok = match (g.node(s), g.node(t)) {
        (Some(a), Some(b)) => a.payload.node_type == NodeType::Source && b.payload.node_type == NodeType::Destination,
        _ => false,
    };
    if !ok {
        return None;
    }
    proof {
        g.lemma_bounds();
    }
    let label = String::new();
    let ghost l = label;
    let e = g.add_edge(s, t, (), label);
    assert(l@ == Seq::<char>::empty() && g@ == old(g)@.with_edge(s, t, (), l));
    Some(e)
}

/// Two-click deletion: a click outside a drag while exactly one edge is
/// selected removes that edge.
pub fn delete_clicked_edge<N, E, P>(g: &mut Graph<N, E>, clicked: bool, dragging_from: &Option<(usize, P)>)
    requires
        old(g)@.wf(),
    ensures
        final(g)@.wf(),
        final(g)@ == match edge_to_delete(clicked, *dragging_from, old(g)@.selected_edges) {
            Some(e) => old(g)@.without_edge(e),
            None => old(g)@,
        },
{
    if clicked && dragging_from.is_none() {
        let n = g.selected_edges().len();
        if n == 1 {
            let e = g.selected_edges()[0];
            g.remove_edge(e);
        }
    }
}

// ------------------------------------------------------------------
// Keeping the Source nodes in step with the system
// ------------------------------------------------------------------

/// (index, name) of the states, in index order.
pub open spec fn system_pairs(t: GraphModel<NodeData, ()>) -> Seq<(usize, Seq<char>)> {
    pairs_of(t, t.node_indices(), all_nodes(), by_name())
}

/// (index, name) of the Source nodes of a mapping, in index order.
pub open spec fn mapping_source_pairs(s: GraphModel<MappingNodeData, ()>) -> Seq<(usize, Seq<char>)> {
    pairs_of(s, s.node_indices(), mapping_kind_is(NodeType::Source), by_name())
}

/// Node `y` is a live Source named `nm`.
pub open spec fn is_source_called(g: GraphModel<MappingNodeData, ()>, y: int, nm: Seq<char>) -> bool {
    &&& g.is_node(y)
    &&& g.node(y).payload.node_type == NodeType::Source
    &&& g.node(y).payload.name@ == nm
}

/// `g` after adding, for each state among `ln` in turn whose name no pair of
/// `src` has, a Source node with its name, labelled with it.
pub open spec fn add_missing_mapping_sources(
    g: GraphModel<MappingNodeData, ()>,
    t: GraphModel<NodeData, ()>,
    ln: Seq<usize>,
    src: Seq<(usize, Seq<char>)>,
) -> GraphModel<MappingNodeData, ()>
    decreases ln.len(),
{
    if ln.len() == 0 {
        g
    } else {
        let g1 = add_missing_mapping_sources(g, t, ln.drop_last(), src);
        let i = ln.last();
        let nm = t.node(i as int).payload.name;
        if lists_name(src, nm@) {
            g1
        } else {
            g1.with_node(MappingNodeData { name: nm, node_type: NodeType::Source }, nm)
        }
    }
}

/// `g` after removing, for each pair of `src` in turn whose name no pair of
/// `names` has, the node it indexes.
pub open spec fn remove_stale_mapping_sources(
    g: GraphModel<MappingNodeData, ()>,
    src: Seq<(usize, Seq<char>)>,
    names: Seq<(usize, Seq<char>)>,
) -> GraphModel<MappingNodeData, ()>
    decreases src.len(),
{
    if src.len() == 0 {
        g
    } else {
        let g1 = remove_stale_mapping_sources(g, src.drop_last(), names);
        if lists_name(names, src.last().1) {
            g1
        } else {
            g1.without_node(src.last().0)
        }
    }
}

/// The mapping `s` brought in step with the system `t`.
pub open spec fn synced_mapping(t: GraphModel<NodeData, ()>, s: GraphModel<MappingNodeData, ()>) -> GraphModel<MappingNodeData, ()> {
    remove_stale_mapping_sources(
        add_missing_mapping_sources(s, t, t.node_indices(), mapping_source_pairs(s)),
        mapping_source_pairs(s),
        system_pairs(t),
    )
}

/// Brings the mapping in step with the system: a Source node is added,
/// labelled with its name, for each state whose name no Source has, and each
/// Source whose name no state has is removed with its edges. Afterwards the
/// Source names are exactly the state names, and the Destination nodes are
/// untouched.
#[verifier::spinoff_prover]
#[verifier::rlimit(30)]
pub fn sync_source_nodes(system: &SystemGraph, mapping: &mut MappingGraph)
    requires
        system@.wf(),
        old(mapping)@.wf(),
    ensures
        final(mapping)@.wf(),
        final(mapping)@ == synced_mapping(system@, old(mapping)@),
        forall|y: int|
            final(mapping)@.is_node(y) && #[trigger] final(mapping)@.node(y).payload.node_type == NodeType::Source
                ==> lists_name(system_pairs(system@), final(mapping)@.node(y).payload.name@),
        forall|i: int|
            #[trigger] system@.is_node(i) ==> exists|y: int|
                #[trigger] is_source_called(final(mapping)@, y, system@.node(i).payload.name@),
        forall|y: int|
            (#[trigger] final(mapping)@.is_node(y) && final(mapping)@.node(y).payload.node_type == NodeType::Destination)
                <==> (old(mapping)@.is_node(y) && old(mapping)@.node(y).payload.node_type == NodeType::Destination),
        forall|y: int|
            final(mapping)@.is_node(y) && final(mapping)@.node(y).payload.node_type == NodeType::Destination
                ==> #[trigger] final(mapping)@.node(y) == old(mapping)@.node(y),
{
    let ghost t = system@;
    let ghost s = mapping@;
    let dyn_nodes = collect_names(system);
    let source_nodes = collect_mapping_kind(mapping, NodeType::Source);
    let ghost dynp = entries_view(dyn_nodes@);
    let ghost srcp = entries_view(source_nodes@);
    let ln = system.node_indices();
    proof {
        system.lemma_bounds();
        mapping.lemma_bounds();
        lemma_live_indices(t.nodes);
        lemma_live_indices(s.nodes);
        lemma_pairs_members(t, ln@, all_nodes(), by_name());
        lemma_pairs_members(s, s.node_indices(), mapping_kind_is(NodeType::Source), by_name());
        lemma_pairs_increasing(s, s.node_indices(), mapping_kind_is(NodeType::Source), by_name());
        lemma_pairs_complete(s, s.node_indices(), mapping_kind_is(NodeType::Source), by_name());
        assert(dynp == system_pairs(t));
        assert(srcp == mapping_source_pairs(s));
        assert(forall|k: int| 0 <= k < ln@.len() ==> #[trigger] all_nodes::<NodeData>()(t.node(ln@[k] as int)));
        assert forall|p: int| 0 <= p < srcp.len() implies #[trigger] s.is_node(srcp[p].0 as int) by {
            let ls = s.node_indices();
            assert(ls.contains(srcp[p].0));
            let j = choose|j: int| 0 <= j < ls.len() && ls[j] == srcp[p].0;
            assert(crate::graph::occupied(s.nodes, ls[j] as int));
        }
    }
    // Add a Source for each state whose name no Source has.
    let ghost mut wit: Seq<int> = Seq::empty();
    let mut k: usize = 0;
    while k < ln.len()
        invariant
            t == system@,
            t.wf(),
            s.wf(),
            ln@ == t.node_indices(),
            forall|q: int| 0 <= q < ln@.len() ==> #[trigger] t.is_node(ln@[q] as int),
            dynp == system_pairs(t),
            dynp.len() == ln@.len(),
            forall|q: int| 0 <= q < ln@.len() ==> #[trigger] dynp[q].0 == ln@[q],
            forall|q: int| 0 <= q < dynp.len() ==> (#[trigger] dynp[q]).1 == t.node(dynp[q].0 as int).payload.name@,
            srcp == entries_view(source_nodes@),
            srcp == mapping_source_pairs(s),
            forall|p: int| 0 <= p < srcp.len() ==> #[trigger] s.is_node(srcp[p].0 as int),
            forall|p: int|
                0 <= p < srcp.len() ==> (#[trigger] srcp[p]).1 == s.node(srcp[p].0 as int).payload.name@
                    && s.node(srcp[p].0 as int).payload.node_type == NodeType::Source,
            k <= ln@.len(),
            mapping@.wf(),
            mapping@ == add_missing_mapping_sources(s, t, ln@.take(k as int), srcp),
            forall|y: int| #[trigger] s.is_node(y) ==> mapping@.is_node(y) && mapping@.node(y) == s.node(y),
            forall|y: int|
                #[trigger] mapping@.is_node(y) && !s.is_node(y) ==> mapping@.node(y).payload.node_type
                    == NodeType::Source && lists_name(dynp, mapping@.node(y).payload.name@),
            wit.len() == k,
            forall|q: int| 0 <= q < k ==> #[trigger] is_source_called(mapping@, wit[q], dynp[q].1),
        decreases ln@.len() - k,
    {
        let i = ln[k];
        assert(t.is_node(ln@[k as int] as int));
        let node = system.node(i).unwrap();
        let ghost g0 = mapping@;
        let ghost nm = t.node(i as int).payload.name;
        assert(ln@.take(k + 1).drop_last() =~= ln@.take(k as int));
        assert(ln@.take(k + 1).last() == i);
        assert(dynp[k as int].1 == nm@);
        let listed = name_listed(&source_nodes, &node.payload.name);
        if !listed {
            let payload = MappingNodeData { name: node.payload.name.clone(), node_type: NodeType::Source };
            proof {
                mapping.lemma_bounds();
                lemma_with_node_frame(g0, payload, nm);
            }
            let y = mapping.add_node(payload, node.payload.name.clone());
            proof {
                let g1 = mapping@;
                assert(is_source_called(g1, y as int, dynp[k as int].1));
                assert forall|q: int| 0 <= q < k implies #[trigger] is_source_called(g1, wit[q], dynp[q].1) by {
                    assert(is_source_called(g0, wit[q], dynp[q].1));
                    assert(g0.is_node(wit[q]));
                }
                wit = wit.push(y as int);
                assert forall|z: int| #[trigger] g1.is_node(z) && !s.is_node(z) implies g1.node(z).payload.node_type
                    == NodeType::Source && lists_name(dynp, g1.node(z).payload.name@) by {
                    if z != y as int {
                        assert(g0.is_node(z));
                    } else {
                        assert(dynp[k as int].1 == g1.node(z).payload.name@);
                    }
                }
            }
        } else {
            proof {
                let q0 = choose|q0: int| 0 <= q0 < srcp.len() && #[trigger] srcp[q0].1 == nm@;
                let z = srcp[q0].0 as int;
                assert(s.is_node(z));
                assert(is_source_called(mapping@, z, dynp[k as int].1));
                wit = wit.push(z);
            }
        }
        k += 1;
    }
    assert(ln@.take(k as int) =~= ln@);
    let ghost gadd = mapping@;
    // Remove each Source whose name no state has.
    let mut q: usize = 0;
    while q < source_nodes.len()
        invariant
            t == system@,
            s.wf(),
            dynp == entries_view(dyn_nodes@),
            dynp == system_pairs(t),
            srcp == entries_view(source_nodes@),
            srcp == mapping_source_pairs(s),
            forall|p: int| 0 <= p < srcp.len() ==> #[trigger] s.is_node(srcp[p].0 as int),
            forall|p: int|
                0 <= p < srcp.len() ==> (#[trigger] srcp[p]).1 == s.node(srcp[p].0 as int).payload.name@
                    && s.node(srcp[p].0 as int).payload.node_type == NodeType::Source,
            q <= srcp.len(),
            gadd == add_missing_mapping_sources(s, t, t.node_indices(), srcp),
            ln@ == t.node_indices(),
            dynp.len() == ln@.len(),
            forall|p: int| 0 <= p < ln@.len() ==> #[trigger] dynp[p].0 == ln@[p],
            forall|p: int| 0 <= p < dynp.len() ==> (#[trigger] dynp[p]).1 == t.node(dynp[p].0 as int).payload.name@,
            wit.len() == ln@.len(),
            forall|p: int| 0 <= p < ln@.len() ==> #[trigger] is_source_called(gadd, wit[p], dynp[p].1),
            forall|y: int|
                #[trigger] gadd.is_node(y) && !s.is_node(y) ==> gadd.node(y).payload.node_type == NodeType::Source
                    && lists_name(dynp, gadd.node(y).payload.name@),
            forall|y: int| #[trigger] s.is_node(y) ==> gadd.is_node(y) && gadd.node(y) == s.node(y),
            mapping@.wf(),
            mapping@ == remove_stale_mapping_sources(gadd, srcp.take(q as int), dynp),
            forall|y: int| #[trigger] mapping@.is_node(y) ==> gadd.is_node(y) && mapping@.node(y) == gadd.node(y),
            forall|y: int|
                gadd.is_node(y) && !(#[trigger] mapping@.is_node(y)) ==> s.is_node(y) && s.node(y).payload.node_type
                    == NodeType::Source && !lists_name(dynp, s.node(y).payload.name@),
            forall|p: int|
                0 <= p < q && !lists_name(dynp, (#[trigger] srcp[p]).1) ==> !mapping@.is_node(srcp[p].0 as int),
        decreases srcp.len() - q,
    {
        let x = source_nodes[q].0;
        let ghost g0 = mapping@;
        assert(srcp.take(q + 1).drop_last() =~= srcp.take(q as int));
        assert(srcp.take(q + 1).last() == srcp[q as int]);
        assert(srcp[q as int].0 == x);
        let listed = name_listed(&dyn_nodes, &source_nodes[q].1);
        if !listed {
            mapping.remove_node(x);
            proof {
                lemma_without_node_frame(g0, x);
                assert(s.is_node(x as int));
            }
        }
        q += 1;
    }
    assert(srcp.take(q as int) =~= srcp);
    proof {
        let r = mapping@;
        lemma_live_indices(t.nodes);
        lemma_live_indices(s.nodes);
        lemma_pairs_members(t, ln@, all_nodes(), by_name());
        lemma_pairs_complete(s, s.node_indices(), mapping_kind_is(NodeType::Source), by_name());
        assert forall|y: int| r.is_node(y) && #[trigger] r.node(y).payload.node_type == NodeType::Source implies lists_name(
            dynp,
            r.node(y).payload.name@,
        ) by {
            assert(gadd.is_node(y));
            if s.is_node(y) {
                if !lists_name(dynp, r.node(y).payload.name@) {
                    assert(s.node(y).payload.node_type == NodeType::Source);
                    assert(mapping_kind_is(NodeType::Source)(s.node(y)));
                    assert(s.node_indices().contains(y as usize));
                    let k0 = choose|k0: int| 0 <= k0 < s.node_indices().len() && s.node_indices()[k0] == y as usize;
                    assert(mapping_kind_is(NodeType::Source)(s.node(s.node_indices()[k0] as int)));
                    assert(srcp.contains((y as usize, by_name::<MappingNodeData>()(s.node(y)))));
                    let p = choose|p: int|
                        0 <= p < srcp.len() && srcp[p] == (y as usize, by_name::<MappingNodeData>()(s.node(y)));
                    assert(!r.is_node(srcp[p].0 as int));
                }
            }
        }
        assert forall|i: int| #[trigger] t.is_node(i) implies exists|y: int|
            #[trigger] is_source_called(r, y, t.node(i).payload.name@) by {
            assert(t.node_indices().contains(i as usize));
            assert(ln@.contains(i as usize));
            let k0 = choose|k0: int| 0 <= k0 < ln@.len() && ln@[k0] == i as usize;
            assert(dynp[k0].0 == i as usize);
            let y = wit[k0];
            assert(is_source_called(gadd, y, dynp[k0].1));
            if !r.is_node(y) {
                assert(lists_name(dynp, dynp[k0].1));
            }
            assert(is_source_called(r, y, t.node(i).payload.name@));
        }
        assert forall|y: int|
            (#[trigger] r.is_node(y) && r.node(y).payload.node_type == NodeType::Destination) <==> (s.is_node(y)
                && s.node(y).payload.node_type == NodeType::Destination) by {
            if s.is_node(y) && s.node(y).payload.node_type == NodeType::Destination {
                assert(gadd.is_node(y));
                if !r.is_node(y) {
                    assert(s.node(y).payload.node_type == NodeType::Source);
                }
                assert(r.node(y) == gadd.node(y));
            }
            if r.is_node(y) && r.node(y).payload.node_type == NodeType::Destination {
                assert(gadd.is_node(y));
                assert(r.node(y) == gadd.node(y));
                if !s.is_node(y) {
                    assert(gadd.node(y).payload.node_type == NodeType::Source);
                }
                assert(gadd.node(y) == s.node(y));
            }
        }
    }
}

} // verus!
