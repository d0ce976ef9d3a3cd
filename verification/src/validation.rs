use vstd::prelude::*;

use crate::graph::{live_indices, GraphModel, lemma_live_indices};
use crate::graph_state::{ObservableGraph, ObservableNode, ObservableNodeType, StateGraph, StateNode};

verus! {

/// A connectivity problem in the state graph.
pub enum StateValidationIssue {
    NoOutgoingEdges { node: usize, name: String },
    NoIncomingEdges { node: usize, name: String },
}

/// A connectivity problem in the observable graph.
pub enum ObservableValidationIssue {
    SourceNoOutgoingEdges { node: usize, name: String },
    DestinationNoIncomingEdges { node: usize, name: String },
}

/// Content of a validation issue: whether it is the first kind
/// (no outgoing edges), the node, and its name.
pub type IssueView = (bool, usize, Seq<char>);

impl View for StateValidationIssue {
    type V = IssueView;

    open spec fn view(&self) -> IssueView {
        match self {
            StateValidationIssue::NoOutgoingEdges { node, name } => (true, *node, name@),
            StateValidationIssue::NoIncomingEdges { node, name } => (false, *node, name@),
        }
    }
}

impl View for ObservableValidationIssue {
    type V = IssueView;

    open spec fn view(&self) -> IssueView {
        match self {
            ObservableValidationIssue::SourceNoOutgoingEdges { node, name } => (true, *node, name@),
            ObservableValidationIssue::DestinationNoIncomingEdges { node, name } => (false, *node, name@),
        }
    }
}


impl StateValidationIssue {
    /// The text shown for this issue: "<name> has no outgoing edges" or
    /// "<name> has no incoming edges".
    pub fn message(&self) -> (r: String)
        ensures
            r@ == self@.2 + if self@.0 {
                " has no outgoing edges"@
            } else {
                " has no incoming edges"@
            },
    {
        match self {
            StateValidationIssue::NoOutgoingEdges { name, .. } => {
                name.clone().concat(" has no outgoing edges")
            },
            StateValidationIssue::NoIncomingEdges { name, .. } => {
                name.clone().concat(" has no incoming edges")
            },
        }
    }
}

impl ObservableValidationIssue {
    /// The text shown for this issue: "<name> has no outgoing edges" or
    /// "<name> has no incoming edges".
    pub fn message(&self) -> (r: String)
        ensures
            r@ == self@.2 + if self@.0 {
                " has no outgoing edges"@
            } else {
                " has no incoming edges"@
            },
    {
        match self {
            ObservableValidationIssue::SourceNoOutgoingEdges { name, .. } => {
                name.clone().concat(" has no outgoing edges")
            },
            ObservableValidationIssue::DestinationNoIncomingEdges { name, .. } => {
                name.clone().concat(" has no incoming edges")
            },
        }
    }
}

/// The issues of the state graph for the nodes `ln`, in order: for each node
/// first a missing outgoing edge, then a missing incoming edge.
pub open spec fn state_issues<W>(g: GraphModel<StateNode<W>, W>, ln: Seq<usize>) -> Seq<IssueView>
    decreases ln.len(),
{
    if ln.len() == 0 {
        Seq::empty()
    } else {
        let a = ln.last();
        let name = g.node(a as int).payload.name@;
        let pre = state_issues(g, ln.drop_last());
        let pre1 = if !g.has_outgoing(a) { pre.push((true, a, name)) } else { pre };
        if !g.has_incoming(a) { pre1.push((false, a, name)) } else { pre1 }
    }
}

/// The issues of the observable graph for the nodes `ln`, in order: a Source
/// without outgoing edge, a Destination without incoming edge.
pub open spec fn observable_issues<W>(g: GraphModel<ObservableNode, W>, ln: Seq<usize>) -> Seq<IssueView>
    decreases ln.len(),
{
    if ln.len() == 0 {
        Seq::empty()
    } else {
        let a = ln.last();
        let p = g.node(a as int).payload;
        let pre = observable_issues(g, ln.drop_last());
        match p.node_type {
            ObservableNodeType::Source => if !g.has_outgoing(a) {
                pre.push((true, a, p.name@))
            } else {
                pre
            },
            ObservableNodeType::Destination => if !g.has_incoming(a) {
                pre.push((false, a, p.name@))
            } else {
                pre
            },
        }
    }
}

/// Checks that every state has an outgoing and an incoming edge.
pub fn validate_state_graph<W>(graph: &StateGraph<W>) -> (errors: Vec<StateValidationIssue>)
    requires
        graph@.wf(),
    ensures
        errors@.map_values(|i: StateValidationIssue| i@) == state_issues(graph@, graph@.node_indices()),
{
    let ghost g = graph@;
    let ln = graph.node_indices();
    proof {
        graph.lemma_bounds();
        lemma_live_indices(g.nodes);
    }
    let mut errors: Vec<StateValidationIssue> = Vec::new();
    let mut k: usize = 0;
    while k < ln.len()
        invariant
            g == graph@,
            ln@ == g.node_indices(),
            forall|a: int| 0 <= a < ln@.len() ==> #[trigger] g.is_node(ln@[a] as int),
            k <= ln@.len(),
            errors@.map_values(|i: StateValidationIssue| i@) == state_issues(g, ln@.take(k as int)),
        decreases ln@.len() - k,
    {
        let node_idx = ln[k];
        assert(g.is_node(ln@[k as int] as int));
        assert(ln@.take(k + 1).drop_last() =~= ln@.take(k as int));
        assert(ln@.take(k + 1).last() == node_idx);
        let node = graph.node(node_idx).unwrap();
        let ghost pre = errors@.map_values(|i: StateValidationIssue| i@);
        if !graph.has_outgoing(node_idx) {
            errors.push(
                StateValidationIssue::NoOutgoingEdges { node: node_idx, name: node.payload.name.clone() },
            );
            assert(errors@.map_values(|i: StateValidationIssue| i@) =~= pre.push((true, node_idx, node.payload.name@)));
        }
        let ghost pre1 = errors@.map_values(|i: StateValidationIssue| i@);
        if !graph.has_incoming(node_idx) {
            errors.push(
                StateValidationIssue::NoIncomingEdges { node: node_idx, name: node.payload.name.clone() },
            );
            assert(errors@.map_values(|i: StateValidationIssue| i@) =~= pre1.push((false, node_idx, node.payload.name@)));
        }
        k += 1;
    }
    assert(ln@.take(k as int) =~= ln@);
    errors
}

/// Checks that every Source has an outgoing edge and every Destination an incoming one.
pub fn validate_observable_graph<W>(graph: &ObservableGraph<W>) -> (errors: Vec<ObservableValidationIssue>)
    requires
        graph@.wf(),
    ensures
        errors@.map_values(|i: ObservableValidationIssue| i@) == observable_issues(graph@, graph@.node_indices()),
{
    let ghost g = graph@;
    let ln = graph.node_indices();
    proof {
        graph.lemma_bounds();
        lemma_live_indices(g.nodes);
    }
    let mut errors: Vec<ObservableValidationIssue> = Vec::new();
    let mut k: usize = 0;
    while k < ln.len()
        invariant
            g == graph@,
            ln@ == g.node_indices(),
            forall|a: int| 0 <= a < ln@.len() ==> #[trigger] g.is_node(ln@[a] as int),
            k <= ln@.len(),
            errors@.map_values(|i: ObservableValidationIssue| i@) == observable_issues(g, ln@.take(k as int)),
        decreases ln@.len() - k,
    {
        let node_idx = ln[k];
        assert(g.is_node(ln@[k as int] as int));
        assert(ln@.take(k + 1).drop_last() =~= ln@.take(k as int));
        assert(ln@.take(k + 1).last() == node_idx);
        let node = graph.node(node_idx).unwrap();
        let ghost pre = errors@.map_values(|i: ObservableValidationIssue| i@);
        match node.payload.node_type {
            ObservableNodeType::Source => {
                if !graph.has_outgoing(node_idx) {
                    errors.push(
                        ObservableValidationIssue::SourceNoOutgoingEdges {
                            node: node_idx,
                            name: node.payload.name.clone(),
                        },
                    );
                    assert(errors@.map_values(|i: ObservableValidationIssue| i@) =~= pre.push(
                        (true, node_idx, node.payload.name@),
                    ));
                }
            },
            ObservableNodeType::Destination => {
                if !graph.has_incoming(node_idx) {
                    errors.push(
                        ObservableValidationIssue::DestinationNoIncomingEdges {
                            node: node_idx,
                            name: node.payload.name.clone(),
                        },
                    );
                    assert(errors@.map_values(|i: ObservableValidationIssue| i@) =~= pre.push(
                        (false, node_idx, node.payload.name@),
                    ));
                }
            },
        }
        k += 1;
    }
    assert(ln@.take(k as int) =~= ln@);
    errors
}

// ------------------------------------------------------------------
// Laws of validation
// ------------------------------------------------------------------

proof fn lemma_push_contains<T>(s: Seq<T>, x: T, y: T)
    ensures
        s.push(x).contains(y) <==> s.contains(y) || x == y,
{
    if s.contains(y) {
        let k = choose|k: int| 0 <= k < s.len() && s[k] == y;
        assert(s.push(x)[k] == y);
    }
    if x == y {
        assert(s.push(x)[s.len() as int] == y);
    }
    if s.push(x).contains(y) && x != y {
        let k = choose|k: int| 0 <= k < s.len() + 1 && s.push(x)[k] == y;
        assert(s[k] == y);
    }
}

/// The issue (`flag`, `a`, name of `a`) is among the state issues for the
/// nodes `ln` exactly when `a` is one of them and no live edge leaves it
/// (`flag`) or enters it (not `flag`).
proof fn lemma_state_issues_contain<W>(g: GraphModel<StateNode<W>, W>, ln: Seq<usize>, flag: bool, a: usize)
    ensures
        state_issues(g, ln).contains((flag, a, g.node(a as int).payload.name@)) <==> ln.contains(a) && (if flag {
            forall|e: int| g.is_edge(e) ==> g.edge(e).source != a
        } else {
            forall|e: int| g.is_edge(e) ==> g.edge(e).target != a
        }),
    decreases ln.len(),
{
    let issue = (flag, a, g.node(a as int).payload.name@);
    if ln.len() > 0 {
        let q = ln.drop_last();
        let l = ln.last();
        lemma_state_issues_contain(g, q, flag, a);
        assert(ln =~= q.push(l));
        lemma_push_contains(q, l, a);
        let name = g.node(l as int).payload.name@;
        let pre = state_issues(g, q);
        let x1 = (true, l, name);
        let x2 = (false, l, name);
        let pre1 = if !g.has_outgoing(l) { pre.push(x1) } else { pre };
        lemma_push_contains(pre, x1, issue);
        lemma_push_contains(pre1, x2, issue);
        assert(state_issues(g, ln) == if !g.has_incoming(l) { pre1.push(x2) } else { pre1 });
    }
}

/// The state check reports that a state has no outgoing edges exactly when
/// it is a live state and no live edge leaves it, and that it has no incoming
/// edges exactly when no live edge enters it; an edge from a state to itself
/// counts both as leaving and as entering it.
pub proof fn lemma_state_validation_reports<W>(graph: &StateGraph<W>, a: usize)
    requires
        graph@.wf(),
    ensures
        state_issues(graph@, graph@.node_indices()).contains((true, a, graph@.node(a as int).payload.name@))
            <==> graph@.is_node(a as int) && forall|e: int| graph@.is_edge(e) ==> graph@.edge(e).source != a,
        state_issues(graph@, graph@.node_indices()).contains((false, a, graph@.node(a as int).payload.name@))
            <==> graph@.is_node(a as int) && forall|e: int| graph@.is_edge(e) ==> graph@.edge(e).target != a,
{
    let g = graph@;
    graph.lemma_bounds();
    lemma_live_indices(g.nodes);
    lemma_state_issues_contain(g, g.node_indices(), true, a);
    lemma_state_issues_contain(g, g.node_indices(), false, a);
    if g.node_indices().contains(a) {
        let k = choose|k: int| 0 <= k < g.node_indices().len() && g.node_indices()[k] == a;
        assert(g.is_node(g.node_indices()[k] as int));
    }
    if g.is_node(a as int) {
        assert(live_indices(g.nodes).contains(a as int as usize));
    }
    assert(g.node_indices().contains(a) <==> g.is_node(a as int));
}

/// The issue (`flag`, `a`, name of `a`) is among the observable issues for
/// the nodes `ln` exactly when `a` is one of them and is a Source that no
/// live edge leaves (`flag`) or a Destination that no live edge enters.
proof fn lemma_observable_issues_contain<W>(g: GraphModel<ObservableNode, W>, ln: Seq<usize>, flag: bool, a: usize)
    ensures
        observable_issues(g, ln).contains((flag, a, g.node(a as int).payload.name@)) <==> ln.contains(a) && (if flag {
            g.node(a as int).payload.node_type == ObservableNodeType::Source && forall|e: int|
                g.is_edge(e) ==> g.edge(e).source != a
        } else {
            g.node(a as int).payload.node_type == ObservableNodeType::Destination && forall|e: int|
                g.is_edge(e) ==> g.edge(e).target != a
        }),
    decreases ln.len(),
{
    let issue = (flag, a, g.node(a as int).payload.name@);
    if ln.len() > 0 {
        let q = ln.drop_last();
        let l = ln.last();
        lemma_observable_issues_contain(g, q, flag, a);
        assert(ln =~= q.push(l));
        lemma_push_contains(q, l, a);
        let p = g.node(l as int).payload;
        let pre = observable_issues(g, q);
        lemma_push_contains(pre, (true, l, p.name@), issue);
        lemma_push_contains(pre, (false, l, p.name@), issue);
    }
}

/// The observable check reports a Source exactly when no live edge leaves
/// it, and a Destination exactly when no live edge enters it.
pub proof fn lemma_observable_validation_reports<W>(graph: &ObservableGraph<W>, a: usize)
    requires
        graph@.wf(),
    ensures
        observable_issues(graph@, graph@.node_indices()).contains((true, a, graph@.node(a as int).payload.name@))
            <==> graph@.is_node(a as int) && graph@.node(a as int).payload.node_type == ObservableNodeType::Source
            && forall|e: int| graph@.is_edge(e) ==> graph@.edge(e).source != a,
        observable_issues(graph@, graph@.node_indices()).contains((false, a, graph@.node(a as int).payload.name@))
            <==> graph@.is_node(a as int) && graph@.node(a as int).payload.node_type
            == ObservableNodeType::Destination && forall|e: int| graph@.is_edge(e) ==> graph@.edge(e).target != a,
{
    let g = graph@;
    graph.lemma_bounds();
    lemma_live_indices(g.nodes);
    lemma_observable_issues_contain(g, g.node_indices(), true, a);
    lemma_observable_issues_contain(g, g.node_indices(), false, a);
    if g.node_indices().contains(a) {
        let k = choose|k: int| 0 <= k < g.node_indices().len() && g.node_indices()[k] == a;
        assert(g.is_node(g.node_indices()[k] as int));
    }
    if g.is_node(a as int) {
        assert(live_indices(g.nodes).contains(a as int as usize));
    }
    assert(g.node_indices().contains(a) <==> g.is_node(a as int));
}

} // verus!
