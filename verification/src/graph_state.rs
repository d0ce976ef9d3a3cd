use vstd::prelude::*;
use vstd::string::StringExecFns;
use vstd::std_specs::convert::FromSpec;

use crate::graph::{Graph, GraphModel, live_indices, lemma_live_indices};

verus! {

/// Types that carry a display name.
pub trait HasName {
    spec fn spec_name(&self) -> Seq<char>;

    fn name(&self) -> (r: String)
        ensures
            r@ == self.spec_name(),
    ;
}

/// Types whose values can be copied with a proof that the copy is equal.
pub trait Duplicate: Sized {
    fn duplicate(&self) -> (r: Self)
        ensures
            r == *self,
    ;
}

// ------------------------------------------------------------------
// State graph
// ------------------------------------------------------------------

/// A state of the dynamical system, with its (unnormalised) weight.
pub struct StateNode<W> {
    pub name: String,
    pub weight: W,
}

impl<W> HasName for StateNode<W> {
    open spec fn spec_name(&self) -> Seq<char> {
        self.name@
    }

    fn name(&self) -> (r: String) {
        self.name.clone()
    }
}

impl<W: Copy> Duplicate for StateNode<W> {
    fn duplicate(&self) -> (r: Self) {
        StateNode { name: self.name.clone(), weight: self.weight }
    }
}

/// States connected by weighted transitions.
pub type StateGraph<W> = Graph<StateNode<W>, W>;

// ------------------------------------------------------------------
// Observable graph
// ------------------------------------------------------------------

/// Kind of a node in the observable graph.
#[derive(Clone, Copy, PartialEq, Eq, Debug, Structural)]
pub enum ObservableNodeType {
    Source,
    Destination,
}

/// A node of the observable graph: a Source mirrors a state, a Destination is
/// a value of the observable.
pub struct ObservableNode {
    pub name: String,
    pub node_type: ObservableNodeType,
    /// The state-graph node a Source node stands for; `None` for Destination nodes.
    pub state_node_idx: Option<usize>,
}

impl HasName for ObservableNode {
    open spec fn spec_name(&self) -> Seq<char> {
        self.name@
    }

    fn name(&self) -> (r: String) {
        self.name.clone()
    }
}

impl Duplicate for ObservableNode {
    fn duplicate(&self) -> (r: Self) {
        ObservableNode {
            name: self.name.clone(),
            node_type: self.node_type,
            state_node_idx: self.state_node_idx,
        }
    }
}

/// Sources connected to destinations by weighted observation edges.
pub type ObservableGraph<W> = Graph<ObservableNode, W>;

// ------------------------------------------------------------------
// Observed graph
// ------------------------------------------------------------------

/// A node of the observed graph: one value of the observable.
pub struct ObservedNode<W> {
    pub name: String,
    /// The Destination node of the observable graph this node stands for.
    pub observable_node_idx: usize,
    pub weight: W,
}

impl<W> HasName for ObservedNode<W> {
    open spec fn spec_name(&self) -> Seq<char> {
        self.name@
    }

    fn name(&self) -> (r: String) {
        self.name.clone()
    }
}

impl<W: Copy> Duplicate for ObservedNode<W> {
    fn duplicate(&self) -> (r: Self) {
        ObservedNode {
            name: self.name.clone(),
            observable_node_idx: self.observable_node_idx,
            weight: self.weight,
        }
    }
}

/// The induced dynamics between observable values.
pub type ObservedGraph<W> = Graph<ObservedNode<W>, W>;


/// A graph model with no vacant slot, no selection and the given number of
/// nodes and edges, whose edges were added in index order.
pub open spec fn dense<N, E>(m: GraphModel<N, E>, n: nat, e: nat) -> bool {
    &&& m.nodes.len() == n
    &&& m.edges.len() == e
    &&& forall|i: int| 0 <= i < n ==> #[trigger] m.nodes[i] is Some
    &&& forall|i: int| 0 <= i < e ==> #[trigger] m.edges[i] is Some
    &&& m.free_nodes.len() == 0
    &&& m.free_edges.len() == 0
    &&& m.insertion == Seq::new(e, |i: int| i as usize)
    &&& m.selected_edges.len() == 0
}

/// Node `i` of `m` is unselected and carries an empty label.
pub open spec fn plain_node<N, E>(m: GraphModel<N, E>, i: int) -> bool {
    &&& !m.node(i).selected
    &&& m.node(i).label@ == Seq::<char>::empty()
}

/// Edge `e` of `m` goes from `a` to `b` and carries an empty label.
pub open spec fn plain_edge<N, E>(m: GraphModel<N, E>, e: int, a: usize, b: usize) -> bool {
    &&& m.edge(e).source == a
    &&& m.edge(e).target == b
    &&& m.edge(e).label@ == Seq::<char>::empty()
}

/// The value `W::from(k)` when `W` follows its conversion specification.
pub open spec fn from_u8<W: From<u8>>(w: W, k: u8) -> bool {
    W::obeys_from_spec() ==> w == W::from_spec(k)
}

/// The three-state example system: State 1 -> State 2 (1), State 2 -> State 1 (2),
/// State 2 -> State 3 (1), State 3 -> State 1 (1), with node weights 1, 3 and 2.
pub open spec fn is_default_state_graph<W: From<u8>>(m: GraphModel<StateNode<W>, W>) -> bool {
    &&& m.wf()
    &&& dense(m, 3, 4)
    &&& forall|i: int| 0 <= i < 3 ==> #[trigger] plain_node(m, i)
    &&& m.node(0).payload.name@ == "State 1"@
    &&& m.node(1).payload.name@ == "State 2"@
    &&& m.node(2).payload.name@ == "State 3"@
    &&& from_u8(m.node(0).payload.weight, 1)
    &&& from_u8(m.node(1).payload.weight, 3)
    &&& from_u8(m.node(2).payload.weight, 2)
    &&& plain_edge(m, 0, 0, 1) && from_u8(m.edge(0).payload, 1)
    &&& plain_edge(m, 1, 1, 0) && from_u8(m.edge(1).payload, 2)
    &&& plain_edge(m, 2, 1, 2) && from_u8(m.edge(2).payload, 1)
    &&& plain_edge(m, 3, 2, 0) && from_u8(m.edge(3).payload, 1)
}

/// The example state graph used when no project is loaded.
pub fn default_state_graph<W: From<u8>>() -> (g: StateGraph<W>)
    ensures
        is_default_state_graph(g@),
{
    let mut g: StateGraph<W> = Graph::new();
    let s_1 = g.add_node(
        StateNode { name: String::from_str("State 1"), weight: W::from(1u8) },
        String::new(),
    );
    let s_2 = g.add_node(
        StateNode { name: String::from_str("State 2"), weight: W::from(3u8) },
        String::new(),
    );
    let s_3 = g.add_node(
        StateNode { name: String::from_str("State 3"), weight: W::from(2u8) },
        String::new(),
    );
    g.add_edge(s_1, s_2, W::from(1u8), String::new());
    g.add_edge(s_2, s_1, W::from(2u8), String::new());
    g.add_edge(s_2, s_3, W::from(1u8), String::new());
    g.add_edge(s_3, s_1, W::from(1u8), String::new());
    proof {
        assert(g@.insertion =~= Seq::new(4, |i: int| i as usize));
    }
    g
}

/// Node `k` of `m` is the Source node mirroring state node `state_idx` of `sg`.
pub open spec fn mirrors<W>(
    m: GraphModel<ObservableNode, W>,
    k: int,
    sg: GraphModel<StateNode<W>, W>,
    state_idx: usize,
) -> bool {
    &&& m.node(k).payload.name@ == sg.node(state_idx as int).payload.name@
    &&& m.node(k).payload.node_type == ObservableNodeType::Source
    &&& m.node(k).payload.state_node_idx == Some(state_idx)
}

/// Node `k` of `m` is a Destination node called `name`.
pub open spec fn destination_named<W>(m: GraphModel<ObservableNode, W>, k: int, name: Seq<char>) -> bool {
    &&& m.node(k).payload.name@ == name
    &&& m.node(k).payload.node_type == ObservableNodeType::Destination
    &&& m.node(k).payload.state_node_idx is None
}

/// The example observable over `sg`: one Source per state (in index order),
/// then Destinations "Value 0" and "Value 1", and no mapping between them yet.
pub open spec fn is_default_observable_graph<W>(
    m: GraphModel<ObservableNode, W>,
    sg: GraphModel<StateNode<W>, W>,
) -> bool {
    let live = sg.node_indices();
    let n = live.len();
    &&& m.wf()
    &&& dense(m, n + 2, 0)
    &&& forall|i: int| 0 <= i < n + 2 ==> #[trigger] plain_node(m, i)
    &&& forall|k: int| 0 <= k < n ==> #[trigger] mirrors(m, k, sg, live[k])
    &&& destination_named(m, n as int, "Value 0"@)
    &&& destination_named(m, n + 1 as int, "Value 1"@)
}

/// The example observable graph over a state graph: its states as Sources,
/// two Destinations, and no edge.
pub fn default_observable_graph<W>(source_graph: &StateGraph<W>) -> (g: ObservableGraph<W>)
    requires
        source_graph@.wf(),
    ensures
        is_default_observable_graph(g@, source_graph@),
{
    let mut g: ObservableGraph<W> = Graph::new();
    let idxs = source_graph.node_indices();
    let ghost sg = source_graph@;
    proof {
        source_graph.lemma_bounds();
        lemma_live_indices(sg.nodes);
        assert(g@.insertion =~= Seq::new(0, |i: int| i as usize));
    }
    let mut k: usize = 0;
    while k < idxs.len()
        invariant
            idxs@ == sg.node_indices(),
            sg == source_graph@,
            forall|j: int| 0 <= j < idxs@.len() ==> #[trigger] sg.is_node(idxs@[j] as int),
            k <= idxs@.len(),
            g@.wf(),
            dense(g@, k as nat, 0),
            forall|i: int| 0 <= i < k ==> #[trigger] plain_node(g@, i),
            forall|j: int| 0 <= j < k ==> #[trigger] mirrors(g@, j, sg, idxs@[j]),
        decreases idxs@.len() - k,
    {
        let state_idx = idxs[k];
        assert(sg.is_node(idxs@[k as int] as int));
        let node = source_graph.node(state_idx).unwrap();
        let ghost before = g@;
        g.add_node(
            ObservableNode {
                name: node.payload.name.clone(),
                node_type: ObservableNodeType::Source,
                state_node_idx: Some(state_idx),
            },
            String::new(),
        );
        proof {
            assert forall|i: int| 0 <= i < k + 1 implies #[trigger] plain_node(g@, i) by {
                if i < k {
                    assert(plain_node(before, i));
                }
            }
            assert forall|j: int| 0 <= j < k + 1 implies #[trigger] mirrors(g@, j, sg, idxs@[j]) by {
                if j < k {
                    assert(mirrors(before, j, sg, idxs@[j]));
                }
            }
        }
        k += 1;
    }
    let ghost after_loop = g@;
    let t_1 = g.add_node(
        ObservableNode {
            name: String::from_str("Value 0"),
            node_type: ObservableNodeType::Destination,
            state_node_idx: None,
        },
        String::new(),
    );
    let ghost mid = g@;
    assert(t_1 == k);
    assert(mid.nodes =~= after_loop.nodes.push(mid.nodes[k as int]));
    let t_2 = g.add_node(
        ObservableNode {
            name: String::from_str("Value 1"),
            node_type: ObservableNodeType::Destination,
            state_node_idx: None,
        },
        String::new(),
    );
    let ghost before_edges = g@;
    proof {
        g.lemma_bounds();
    }
    assert(t_2 == k + 1);
    assert(before_edges.nodes =~= mid.nodes.push(before_edges.nodes[k + 1]));
    proof {
        assert(g@.insertion =~= Seq::new(0, |i: int| i as usize));
        assert forall|i: int| 0 <= i < k + 2 implies #[trigger] plain_node(g@, i) by {
            if i < k {
                assert(plain_node(after_loop, i));
                assert(before_edges.nodes[i] == after_loop.nodes[i]);
            }
        }
        assert forall|j: int| 0 <= j < k implies #[trigger] mirrors(g@, j, sg, idxs@[j]) by {
            assert(mirrors(after_loop, j, sg, idxs@[j]));
            assert(before_edges.nodes[j] == after_loop.nodes[j]);
        }
    }
    g
}


// ------------------------------------------------------------------
// Statistics errors
// ------------------------------------------------------------------

/// Why the statistics of the dynamics could not be computed.
#[derive(Clone, Copy, PartialEq, Eq, Debug, Structural)]
pub enum StatisticsError {
    /// The state graph has no state.
    EmptyStateGraph,
    /// The distribution over states could not be built.
    ProbError(crate::prob::BuildError),
    /// A transition matrix could not be built.
    MarkovError(crate::markov::BuildError),
}

impl StatisticsError {
    /// The text shown for this error.
    pub open spec fn spec_message(self) -> Seq<char> {
        match self {
            StatisticsError::EmptyStateGraph => "state graph is empty"@,
            StatisticsError::ProbError(e) => "probability construction failed: "@ + e.spec_message(),
            StatisticsError::MarkovError(e) => "markov construction failed: "@ + e.spec_message(),
        }
    }

    /// The text shown for this error.
    pub fn message(&self) -> (r: String)
        ensures
            r@ == self.spec_message(),
    {
        match self {
            StatisticsError::EmptyStateGraph => String::from_str("state graph is empty"),
            StatisticsError::ProbError(e) => {
                let inner = e.message();
                String::from_str("probability construction failed: ").concat(inner.as_str())
            },
            StatisticsError::MarkovError(e) => {
                let inner = e.message();
                String::from_str("markov construction failed: ").concat(inner.as_str())
            },
        }
    }
}

impl From<crate::prob::BuildError> for StatisticsError {
    fn from(e: crate::prob::BuildError) -> (r: Self) {
        StatisticsError::ProbError(e)
    }
}

impl vstd::std_specs::convert::FromSpecImpl<crate::prob::BuildError> for StatisticsError {
    open spec fn obeys_from_spec() -> bool {
        true
    }

    open spec fn from_spec(e: crate::prob::BuildError) -> Self {
        StatisticsError::ProbError(e)
    }
}

impl From<crate::markov::BuildError> for StatisticsError {
    fn from(e: crate::markov::BuildError) -> (r: Self) {
        StatisticsError::MarkovError(e)
    }
}

impl vstd::std_specs::convert::FromSpecImpl<crate::markov::BuildError> for StatisticsError {
    open spec fn obeys_from_spec() -> bool {
        true
    }

    open spec fn from_spec(e: crate::markov::BuildError) -> Self {
        StatisticsError::MarkovError(e)
    }
}

} // verus!
