use vstd::prelude::*;

use crate::graph::{lemma_same_label, lemma_with_edge_frame, Graph, GraphModel, Node};
use crate::graph_state::{ObservableGraph, ObservableNode, ObservableNodeType, StateGraph, StateNode};
use crate::store::{
    ActiveTab, EditMode, ObservableGraphStore, StateGraphStore, Store,
};
use crate::versioned::next_version;

verus! {

#[verifier::external_type_specification]
#[verifier::external_body]
pub struct ExPathBuf(std::path::PathBuf);

// ------------------------------------------------------------------
// Actions and effects
// ------------------------------------------------------------------

/// What the user asks the editor to do. `W` is the weight type, `P` a screen
/// position and `C` a change of a layout setting.
pub enum Action<W, P, C> {
    /// Adds a state, and a Source node mirroring it.
    AddStateNode { name: String, weight: W },
    /// Removes a state, and the first Source node mirroring it.
    RemoveStateNode { node_idx: usize },
    /// Renames a state and the first Source node mirroring it.
    RenameStateNode { node_idx: usize, new_name: String },
    /// Starts editing the weight of a state.
    UpdateStateNodeWeightEditor { node_idx: usize, value: String },
    /// Sets the weight of a state.
    UpdateStateNodeWeight { node_idx: usize, new_weight: W },
    /// Starts editing the label of a state.
    UpdateStateNodeLabelEditor { node_idx: usize, value: String },
    /// Selects a state alone, or deselects it.
    SelectStateNode { node_idx: usize, selected: bool },
    /// Adds a transition unless one already joins the two states.
    AddStateEdge { source_idx: usize, target_idx: usize, weight: W },
    /// Removes a transition.
    RemoveStateEdgeByIndex { edge_idx: usize },
    /// A weight entered in the state heatmap; `None` stands for a zero weight,
    /// which removes the transition.
    UpdateStateEdgeWeightFromHeatmap { source_idx: usize, target_idx: usize, new_weight: Option<W> },
    /// Adds a Destination node.
    AddObservableDestinationNode { name: String },
    /// Removes a node of the observable graph.
    RemoveObservableDestinationNode { node_idx: usize },
    /// Starts editing the label of a Destination node.
    UpdateObservableDestinationNodeLabelEditor { node_idx: usize, value: String },
    /// Renames a node of the observable graph.
    RenameObservableDestinationNode { node_idx: usize, new_name: String },
    /// Selects a node of the observable graph alone, or deselects it.
    SelectObservableNode { node_idx: usize, selected: bool },
    /// Records a selection request for the observed graph.
    SelectObservedNode { node_idx: usize, selected: bool },
    /// Adds an edge from a Source node to a Destination node.
    AddObservableEdge { source_idx: usize, target_idx: usize, weight: W },
    /// Removes an edge of the observable graph.
    RemoveObservableEdgeByIndex { edge_idx: usize },
    /// A weight entered in the observable heatmap; `None` stands for a zero
    /// weight, which removes the edge.
    UpdateObservableEdgeWeightFromHeatmap { source_idx: usize, target_idx: usize, new_weight: Option<W> },
    /// Switches between editing nodes and editing edges.
    SetEditMode { mode: EditMode },
    /// Switches tabs.
    SetActiveTab { tab: ActiveTab },
    /// Changes a layout setting of a tab.
    UpdateLayoutSetting { tab: ActiveTab, change: C },
    /// Clears the edge selection of the state graph.
    ClearEdgeSelections,
    /// Clears the edge selection of the observable graph.
    ClearObservableEdgeSelections,
    /// Starts (or ends) dragging a new edge from a node.
    SetDraggingFrom { node_idx: Option<usize>, position: Option<P> },
    /// Whether a drag has started.
    SetDragStarted { started: bool },
    /// The heatmap cell under the pointer.
    SetHeatmapHoveredCell { cell: Option<(usize, usize)> },
    /// The heatmap cell being edited.
    SetHeatmapEditingCell { cell: Option<(usize, usize)> },
    /// The text typed in the heatmap cell.
    SetHeatmapEditBuffer { buffer: String },
    /// Saves the project.
    SaveToFile { path: std::path::PathBuf },
    /// Loads a project.
    LoadFromFile { path: std::path::PathBuf },
    /// Clears the error message.
    ClearErrorMessage,
}

/// Work that the reducer hands to the outside: file access.
pub enum Effect {
    /// Save the current project to `path`.
    SaveToFile { path: std::path::PathBuf },
    /// Load a project from `path`.
    LoadFromFile { path: std::path::PathBuf },
}

/// Layout settings to which a change of type `C` applies. The settings hold
/// floating-point values, so what a change does to them is not stated here:
/// the reducer only promises that nothing else changes.
pub trait ApplyLayoutChange<C> {
    /// Applies `change` to the settings of `tab`.
    fn apply_change(&mut self, tab: ActiveTab, change: C);
}

/// No settings: a change leaves nothing to apply.
impl<C> ApplyLayoutChange<C> for () {
    fn apply_change(&mut self, _tab: ActiveTab, _change: C) {
    }
}

// ------------------------------------------------------------------
// Graph transformations
// ------------------------------------------------------------------

/// Node `x` is a Source mirroring state `i`.
pub open spec fn is_source_for<W>(g: GraphModel<ObservableNode, W>, x: usize, i: usize) -> bool {
    &&& g.node(x as int).payload.node_type == ObservableNodeType::Source
    &&& g.node(x as int).payload.state_node_idx == Some(i)
}

/// The first of `ln` that is a Source mirroring state `i`.
pub open spec fn first_source_for<W>(g: GraphModel<ObservableNode, W>, ln: Seq<usize>, i: usize) -> Option<usize>
    decreases ln.len(),
{
    if ln.len() == 0 {
        None
    } else if is_source_for(g, ln[0], i) {
        Some(ln[0])
    } else {
        first_source_for(g, ln.drop_first(), i)
    }
}

/// The live Source node of lowest index that mirrors state `i`.
pub open spec fn source_of<W>(g: GraphModel<ObservableNode, W>, i: usize) -> Option<usize> {
    first_source_for(g, g.node_indices(), i)
}

/// Node `x` is live and of kind `k`.
pub open spec fn has_kind<W>(g: GraphModel<ObservableNode, W>, x: usize, k: ObservableNodeType) -> bool {
    g.is_node(x as int) && g.node(x as int).payload.node_type == k
}

/// `g` with state `i` (if live) renamed to `name`, label included.
pub open spec fn renamed_state<W>(g: GraphModel<StateNode<W>, W>, i: usize, name: String) -> GraphModel<StateNode<W>, W> {
    g.with_node_value(
        i,
        Node {
            payload: StateNode { name, weight: g.node(i as int).payload.weight },
            label: name,
            selected: g.node(i as int).selected,
        },
    )
}

/// `g` with the weight of state `i` (if live) set to `w`.
pub open spec fn reweighted_state<W>(g: GraphModel<StateNode<W>, W>, i: usize, w: W) -> GraphModel<StateNode<W>, W> {
    g.with_node_payload(i, StateNode { name: g.node(i as int).payload.name, weight: w })
}

/// `g` with observable node `x` (if live) renamed to `name`, label included.
pub open spec fn renamed_observable<W>(g: GraphModel<ObservableNode, W>, x: usize, name: String) -> GraphModel<ObservableNode, W> {
    g.with_node_value(
        x,
        Node {
            payload: ObservableNode {
                name,
                node_type: g.node(x as int).payload.node_type,
                state_node_idx: g.node(x as int).payload.state_node_idx,
            },
            label: name,
            selected: g.node(x as int).selected,
        },
    )
}

/// `g` with every live node deselected but `i`, which is selected if live.
pub open spec fn only_selected<N, E>(g: GraphModel<N, E>, i: usize) -> GraphModel<N, E> {
    GraphModel {
        nodes: Seq::new(
            g.nodes.len(),
            |y: int|
                match g.nodes[y] {
                    Some(n) => Some(Node { payload: n.payload, label: n.label, selected: y == i }),
                    None => None,
                },
        ),
        ..g
    }
}

/// `g` after selecting node `i` alone (`selected`) or deselecting it.
pub open spec fn with_selection<N, E>(g: GraphModel<N, E>, i: usize, selected: bool) -> GraphModel<N, E> {
    if selected {
        only_selected(g, i)
    } else {
        g.with_selected(i, false)
    }
}

/// `g` with no edge selected.
pub open spec fn without_edge_selection<N, E>(g: GraphModel<N, E>) -> GraphModel<N, E> {
    GraphModel { selected_edges: Seq::empty(), ..g }
}

/// `h` is `g` with an unlabelled edge from `a` to `b` of weight `w` added.
pub open spec fn adds_edge<N, E>(g: GraphModel<N, E>, h: GraphModel<N, E>, a: usize, b: usize, w: E) -> bool {
    exists|label: String| label@ == Seq::<char>::empty() && h == g.with_edge(a, b, w, label)
}

// ------------------------------------------------------------------
// Store transitions
// ------------------------------------------------------------------

/// `t` differs from `s` at most in the state graph.
pub open spec fn same_but_state<W, P, V, L>(s: Store<W, P, V, L>, t: Store<W, P, V, L>) -> bool {
    &&& t.state == (StateGraphStore { graph: t.state.graph, ..s.state })
    &&& t == (Store { state: t.state, ..s })
}

/// `t` differs from `s` at most in the observable graph.
pub open spec fn same_but_observable<W, P, V, L>(s: Store<W, P, V, L>, t: Store<W, P, V, L>) -> bool {
    &&& t.observable == (ObservableGraphStore { graph: t.observable.graph, ..s.observable })
    &&& t == (Store { observable: t.observable, ..s })
}

/// `t` differs from `s` at most in the two graphs.
pub open spec fn same_but_graphs<W, P, V, L>(s: Store<W, P, V, L>, t: Store<W, P, V, L>) -> bool {
    &&& t.state == (StateGraphStore { graph: t.state.graph, ..s.state })
    &&& t.observable == (ObservableGraphStore { graph: t.observable.graph, ..s.observable })
    &&& t == (Store { state: t.state, observable: t.observable, ..s })
}

/// The state graph of `t` is at the version after that of `s`.
pub open spec fn state_bumped<W, P, V, L>(s: Store<W, P, V, L>, t: Store<W, P, V, L>) -> bool {
    t.state.graph.spec_version() == next_version(s.state.graph.spec_version())
}

/// The observable graph of `t` is at the version after that of `s`.
pub open spec fn observable_bumped<W, P, V, L>(s: Store<W, P, V, L>, t: Store<W, P, V, L>) -> bool {
    t.observable.graph.spec_version() == next_version(s.observable.graph.spec_version())
}

/// The state graph of `t` is two versions past that of `s`: one write
/// access adds a node, a second one sets its label.
pub open spec fn state_bumped_twice<W, P, V, L>(s: Store<W, P, V, L>, t: Store<W, P, V, L>) -> bool {
    t.state.graph.spec_version() == next_version(next_version(s.state.graph.spec_version()))
}

/// The observable graph of `t` is two versions past that of `s`.
pub open spec fn observable_bumped_twice<W, P, V, L>(s: Store<W, P, V, L>, t: Store<W, P, V, L>) -> bool {
    t.observable.graph.spec_version() == next_version(next_version(s.observable.graph.spec_version()))
}

/// `t` is `s` with both graphs replaced, each two versions on (a node added, then labelled).
pub open spec fn both_added<W, P, V, L>(
    s: Store<W, P, V, L>,
    t: Store<W, P, V, L>,
    gs: GraphModel<StateNode<W>, W>,
    go: GraphModel<ObservableNode, W>,
) -> bool {
    &&& same_but_graphs(s, t)
    &&& state_bumped_twice(s, t)
    &&& observable_bumped_twice(s, t)
    &&& t.state.graph.value()@ == gs
    &&& t.observable.graph.value()@ == go
}

/// `t` is `s` with the observable graph replaced by `g`, two versions on.
pub open spec fn observable_added<W, P, V, L>(
    s: Store<W, P, V, L>,
    t: Store<W, P, V, L>,
    g: GraphModel<ObservableNode, W>,
) -> bool {
    &&& same_but_observable(s, t)
    &&& observable_bumped_twice(s, t)
    &&& t.observable.graph.value()@ == g
}

/// `t` is `s` with the state graph replaced by `g` at the next version.
pub open spec fn state_becomes<W, P, V, L>(
    s: Store<W, P, V, L>,
    t: Store<W, P, V, L>,
    g: GraphModel<StateNode<W>, W>,
) -> bool {
    &&& same_but_state(s, t)
    &&& state_bumped(s, t)
    &&& t.state.graph.value()@ == g
}

/// `t` is `s` with the observable graph replaced by `g` at the next version.
pub open spec fn observable_becomes<W, P, V, L>(
    s: Store<W, P, V, L>,
    t: Store<W, P, V, L>,
    g: GraphModel<ObservableNode, W>,
) -> bool {
    &&& same_but_observable(s, t)
    &&& observable_bumped(s, t)
    &&& t.observable.graph.value()@ == g
}

/// `t` is `s` with both graphs replaced, each at its next version.
pub open spec fn both_become<W, P, V, L>(
    s: Store<W, P, V, L>,
    t: Store<W, P, V, L>,
    gs: GraphModel<StateNode<W>, W>,
    go: GraphModel<ObservableNode, W>,
) -> bool {
    &&& same_but_graphs(s, t)
    &&& state_bumped(s, t)
    &&& observable_bumped(s, t)
    &&& t.state.graph.value()@ == gs
    &&& t.observable.graph.value()@ == go
}


// ------------------------------------------------------------------
// Handlers
// ------------------------------------------------------------------

/// The live Source node of lowest index that mirrors state `i`.
pub fn find_source_node<W>(g: &ObservableGraph<W>, i: usize) -> (r: Option<usize>)
    ensures
        r == source_of(g@, i),
        r matches Some(x) ==> g@.is_node(x as int) && is_source_for(g@, x, i),
{
    let ln = g.node_indices();
    let ghost all = ln@;
    proof {
        g.lemma_bounds();
        crate::graph::lemma_live_indices(g@.nodes);
    }
    let mut k: usize = 0;
    assert(all.skip(0) =~= all);
    while k < ln.len()
        invariant
            all == ln@,
            all == g@.node_indices(),
            forall|q: int| 0 <= q < all.len() ==> #[trigger] g@.is_node(all[q] as int),
            k <= all.len(),
            source_of(g@, i) == first_source_for(g@, all.skip(k as int), i),
        decreases all.len() - k,
    {
        let x = ln[k];
        assert(g@.is_node(all[k as int] as int));
        assert(all.skip(k as int)[0] == x);
        assert(all.skip(k as int).drop_first() =~= all.skip(k + 1));
        let node = g.node(x).unwrap();
        if node.payload.node_type == ObservableNodeType::Source && node.payload.state_node_idx == Some(i) {
            return Some(x);
        }
        k += 1;
    }
    None
}

impl<W: Copy, P, V: Copy, L> Store<W, P, V, L> {
    fn add_state_node(&mut self, name: String, weight: W)
        requires
            old(self).wf(),
        ensures
            final(self).wf(),
            both_added(
                *old(self),
                *final(self),
                old(self).state.graph.value()@.with_node(StateNode { name, weight }, name),
                old(self).observable.graph.value()@.with_node(
                    ObservableNode {
                        name,
                        node_type: ObservableNodeType::Source,
                        state_node_idx: Some(old(self).state.graph.value()@.next_node_index()),
                    },
                    name,
                ),
            ),
    {
        let state_idx = self.state.graph.get_mut().add_node(StateNode { name: name.clone(), weight }, name.clone());
        proof {
            lemma_same_label(self.state.graph.value()@, state_idx);
        }
        self.state.graph.get_mut().set_node_label(state_idx, name.clone());
        let payload = ObservableNode {
            name: name.clone(),
            node_type: ObservableNodeType::Source,
            state_node_idx: Some(state_idx),
        };
        let source_idx = self.observable.graph.get_mut().add_node(payload, name.clone());
        proof {
            lemma_same_label(self.observable.graph.value()@, source_idx);
        }
        self.observable.graph.get_mut().set_node_label(source_idx, name);
    }
}


/// Selects node `i` alone: every other node is deselected, `i` (if live) selected.
fn select_only<N, E>(g: &mut Graph<N, E>, i: usize)
    requires
        old(g)@.wf(),
    ensures
        final(g)@.wf(),
        final(g)@ == only_selected(old(g)@, i),
{
    let ghost g0 = g@;
    let slots = g.node_slots();
    let mut y: usize = 0;
    while y < slots
        invariant
            slots == g0.nodes.len(),
            y <= slots,
            g@.wf(),
            g@ == (GraphModel { nodes: g@.nodes, ..g0 }),
            g@.nodes.len() == g0.nodes.len(),
            forall|z: int|
                0 <= z < g0.nodes.len() ==> #[trigger] g@.nodes[z] == if z < y && z != i {
                    match g0.nodes[z] {
                        Some(n) => Some(Node { payload: n.payload, label: n.label, selected: false }),
                        None => None,
                    }
                } else {
                    g0.nodes[z]
                },
        decreases slots - y,
    {
        if y != i {
            let ghost before = g@;
            g.set_node_selected(y, false);
            proof {
                assert forall|z: int| 0 <= z < g0.nodes.len() implies #[trigger] g@.nodes[z] == if z < y + 1 && z != i {
                    match g0.nodes[z] {
                        Some(n) => Some(Node { payload: n.payload, label: n.label, selected: false }),
                        None => None,
                    }
                } else {
                    g0.nodes[z]
                } by {
                    if z != y as int {
                        assert(before.nodes[z] == g@.nodes[z]);
                    }
                }
            }
        }
        y += 1;
    }
    let ghost mid = g@;
    g.set_node_selected(i, true);
    assert(g@.nodes =~= only_selected(g0, i).nodes);
}

impl<W: Copy, P, V: Copy, L> Store<W, P, V, L> {
    fn remove_state_node(&mut self, i: usize)
        requires
            old(self).wf(),
        ensures
            final(self).wf(),
            match source_of(old(self).observable.graph.value()@, i) {
                Some(x) => both_become(
                    *old(self),
                    *final(self),
                    old(self).state.graph.value()@.without_node(i),
                    old(self).observable.graph.value()@.without_node(x),
                ),
                None => state_becomes(*old(self), *final(self), old(self).state.graph.value()@.without_node(i)),
            },
    {
        self.state.graph.get_mut().remove_node(i);
        let src = find_source_node(self.observable.graph.get(), i);
        match src {
            Some(x) => {
                self.observable.graph.get_mut().remove_node(x);
            },
            None => {},
        }
    }

    fn rename_state_node(&mut self, i: usize, new_name: String)
        requires
            old(self).wf(),
        ensures
            final(self).wf(),
            match source_of(old(self).observable.graph.value()@, i) {
                Some(x) => both_become(
                    *old(self),
                    *final(self),
                    renamed_state(old(self).state.graph.value()@, i, new_name),
                    renamed_observable(old(self).observable.graph.value()@, x, new_name),
                ),
                None => state_becomes(*old(self), *final(self), renamed_state(old(self).state.graph.value()@, i, new_name)),
            },
    {
        let ghost s0 = self.state.graph.value()@;
        {
            let g = self.state.graph.get_mut();
            match g.node(i) {
                Some(n) => {
                    let w = n.payload.weight;
                    g.set_node_payload(i, StateNode { name: new_name.clone(), weight: w });
                    g.set_node_label(i, new_name.clone());
                    assert(g@.nodes =~= renamed_state(s0, i, new_name).nodes);
                },
                None => {},
            }
        }
        let src = find_source_node(self.observable.graph.get(), i);
        match src {
            Some(x) => {
                let ghost o0 = self.observable.graph.value()@;
                let g = self.observable.graph.get_mut();
                let n = g.node(x).unwrap();
                let payload = ObservableNode {
                    name: new_name.clone(),
                    node_type: n.payload.node_type,
                    state_node_idx: n.payload.state_node_idx,
                };
                g.set_node_payload(x, payload);
                g.set_node_label(x, new_name);
                assert(g@.nodes =~= renamed_observable(o0, x, new_name).nodes);
            },
            None => {},
        }
    }

    fn update_state_node_weight(&mut self, i: usize, new_weight: W)
        requires
            old(self).wf(),
        ensures
            final(self).wf(),
            state_becomes(*old(self), *final(self), reweighted_state(old(self).state.graph.value()@, i, new_weight)),
    {
        let g = self.state.graph.get_mut();
        match g.node(i) {
            Some(n) => {
                let name = n.payload.name.clone();
                g.set_node_payload(i, StateNode { name, weight: new_weight });
            },
            None => {},
        }
    }

    fn select_state_node(&mut self, i: usize, selected: bool)
        requires
            old(self).wf(),
        ensures
            final(self).wf(),
            state_becomes(*old(self), *final(self), with_selection(old(self).state.graph.value()@, i, selected)),
    {
        let g = self.state.graph.get_mut();
        if selected {
            select_only(g, i);
        } else {
            g.set_node_selected(i, false);
        }
    }

    fn add_state_edge(&mut self, a: usize, b: usize, weight: W)
        requires
            old(self).wf(),
            old(self).state.graph.value()@.latest_edge(a, b) is Some || (old(self).state.graph.value()@.is_node(a as int)
                && old(self).state.graph.value()@.is_node(b as int)),
        ensures
            final(self).wf(),
            old(self).state.graph.value()@.latest_edge(a, b) is Some ==> *final(self) == *old(self),
            old(self).state.graph.value()@.latest_edge(a, b) is None ==> {
                &&& same_but_state(*old(self), *final(self))
                &&& state_bumped(*old(self), *final(self))
                &&& adds_edge(old(self).state.graph.value()@, final(self).state.graph.value()@, a, b, weight)
            },
    {
        if self.state.graph.get().find_edge(a, b).is_some() {
            return;
        }
        let label = String::new();
        let ghost lbl = label;
        let ghost g0 = self.state.graph.value()@;
        self.state.graph.get_mut().add_edge(a, b, weight, label);
        assert(self.state.graph.value()@ == g0.with_edge(a, b, weight, lbl));
    }

    fn remove_state_edge(&mut self, e: usize)
        requires
            old(self).wf(),
        ensures
            final(self).wf(),
            state_becomes(*old(self), *final(self), old(self).state.graph.value()@.without_edge(e)),
    {
        self.state.graph.get_mut().remove_edge(e);
    }

    fn update_state_edge_weight_from_heatmap(&mut self, a: usize, b: usize, new_weight: Option<W>)
        requires
            old(self).wf(),
            new_weight is Some ==> old(self).state.graph.value()@.latest_edge(a, b) is Some || (
            old(self).state.graph.value()@.is_node(a as int) && old(self).state.graph.value()@.is_node(b as int)),
        ensures
            final(self).wf(),
            match (old(self).state.graph.value()@.latest_edge(a, b), new_weight) {
                (Some(e), None) => state_becomes(*old(self), *final(self), old(self).state.graph.value()@.without_edge(e)),
                (None, None) => *final(self) == *old(self),
                (Some(e), Some(w)) => state_becomes(
                    *old(self),
                    *final(self),
                    old(self).state.graph.value()@.with_edge_payload(e, w),
                ),
                (None, Some(w)) => {
                    &&& same_but_state(*old(self), *final(self))
                    &&& state_bumped(*old(self), *final(self))
                    &&& adds_edge(old(self).state.graph.value()@, final(self).state.graph.value()@, a, b, w)
                },
            },
    {
        let found = self.state.graph.get().find_edge(a, b);
        match new_weight {
            None => match found {
                Some(e) => {
                    self.state.graph.get_mut().remove_edge(e);
                },
                None => {},
            },
            Some(w) => match found {
                Some(e) => {
                    self.state.graph.get_mut().set_edge_payload(e, w);
                },
                None => {
                    let label = String::new();
                    let ghost lbl = label;
                    let ghost g0 = self.state.graph.value()@;
                    self.state.graph.get_mut().add_edge(a, b, w, label);
                    assert(self.state.graph.value()@ == g0.with_edge(a, b, w, lbl));
                },
            },
        }
    }

    fn add_observable_destination_node(&mut self, name: String)
        requires
            old(self).wf(),
        ensures
            final(self).wf(),
            observable_added(
                *old(self),
                *final(self),
                old(self).observable.graph.value()@.with_node(
                    ObservableNode { name, node_type: ObservableNodeType::Destination, state_node_idx: None },
                    name,
                ),
            ),
    {
        let payload = ObservableNode {
            name: name.clone(),
            node_type: ObservableNodeType::Destination,
            state_node_idx: None,
        };
        let idx = self.observable.graph.get_mut().add_node(payload, name.clone());
        proof {
            lemma_same_label(self.observable.graph.value()@, idx);
        }
        self.observable.graph.get_mut().set_node_label(idx, name);
    }

    fn remove_observable_node(&mut self, i: usize)
        requires
            old(self).wf(),
        ensures
            final(self).wf(),
            observable_becomes(*old(self), *final(self), old(self).observable.graph.value()@.without_node(i)),
    {
        self.observable.graph.get_mut().remove_node(i);
    }

    fn rename_observable_node(&mut self, i: usize, new_name: String)
        requires
            old(self).wf(),
        ensures
            final(self).wf(),
            observable_becomes(*old(self), *final(self), renamed_observable(old(self).observable.graph.value()@, i, new_name)),
    {
        let ghost o0 = self.observable.graph.value()@;
        let g = self.observable.graph.get_mut();
        match g.node(i) {
            Some(n) => {
                let payload = ObservableNode {
                    name: new_name.clone(),
                    node_type: n.payload.node_type,
                    state_node_idx: n.payload.state_node_idx,
                };
                g.set_node_payload(i, payload);
                g.set_node_label(i, new_name);
                assert(g@.nodes =~= renamed_observable(o0, i, new_name).nodes);
            },
            None => {},
        }
    }

    fn select_observable_node(&mut self, i: usize, selected: bool)
        requires
            old(self).wf(),
        ensures
            final(self).wf(),
            observable_becomes(*old(self), *final(self), with_selection(old(self).observable.graph.value()@, i, selected)),
    {
        let g = self.observable.graph.get_mut();
        if selected {
            select_only(g, i);
        } else {
            g.set_node_selected(i, false);
        }
    }

    fn add_observable_edge(&mut self, a: usize, b: usize, weight: W)
        requires
            old(self).wf(),
        ensures
            final(self).wf(),
            ({
                let o = old(self).observable.graph.value()@;
                if has_kind(o, a, ObservableNodeType::Source) && has_kind(o, b, ObservableNodeType::Destination) {
                    &&& same_but_observable(*old(self), *final(self))
                    &&& observable_bumped(*old(self), *final(self))
                    &&& adds_edge(o, final(self).observable.graph.value()@, a, b, weight)
                } else {
                    *final(self) == *old(self)
                }
            }),
    {
        let ok = match self.observable.graph.get().node(a) {
            Some(sa) => sa.payload.node_type == ObservableNodeType::Source && match self.observable.graph.get().node(b) {
                Some(sb) => sb.payload.node_type == ObservableNodeType::Destination,
                None => false,
            },
            None => false,
        };
        if ok {
            let label = String::new();
            let ghost lbl = label;
            let ghost g0 = self.observable.graph.value()@;
            self.observable.graph.get_mut().add_edge(a, b, weight, label);
            assert(self.observable.graph.value()@ == g0.with_edge(a, b, weight, lbl));
        }
    }

    fn remove_observable_edge(&mut self, e: usize)
        requires
            old(self).wf(),
        ensures
            final(self).wf(),
            observable_becomes(*old(self), *final(self), old(self).observable.graph.value()@.without_edge(e)),
    {
        self.observable.graph.get_mut().remove_edge(e);
    }

    fn update_observable_edge_weight_from_heatmap(&mut self, a: usize, b: usize, new_weight: Option<W>)
        requires
            old(self).wf(),
        ensures
            final(self).wf(),
            ({
                let o = old(self).observable.graph.value()@;
                match (o.latest_edge(a, b), new_weight) {
                    (Some(e), None) => observable_becomes(*old(self), *final(self), o.without_edge(e)),
                    (None, None) => *final(self) == *old(self),
                    (Some(e), Some(w)) => observable_becomes(*old(self), *final(self), o.with_edge_payload(e, w)),
                    (None, Some(w)) => if has_kind(o, a, ObservableNodeType::Source) && has_kind(
                        o,
                        b,
                        ObservableNodeType::Destination,
                    ) {
                        &&& same_but_observable(*old(self), *final(self))
                        &&& observable_bumped(*old(self), *final(self))
                        &&& adds_edge(o, final(self).observable.graph.value()@, a, b, w)
                    } else {
                        *final(self) == *old(self)
                    },
                }
            }),
    {
        let found = self.observable.graph.get().find_edge(a, b);
        match new_weight {
            None => match found {
                Some(e) => {
                    self.observable.graph.get_mut().remove_edge(e);
                },
                None => {},
            },
            Some(w) => match found {
                Some(e) => {
                    self.observable.graph.get_mut().set_edge_payload(e, w);
                },
                None => {
                    self.add_observable_edge(a, b, w);
                },
            },
        }
    }

    fn set_edit_mode(&mut self, mode: EditMode)
        requires
            old(self).wf(),
        ensures
            final(self).wf(),
            mode != EditMode::EdgeEditor ==> {
                &&& final(self).state == (StateGraphStore { graph: final(self).state.graph, ..old(self).state })
                &&& final(self).observable == (ObservableGraphStore { graph: final(self).observable.graph, ..old(self).observable })
                &&& *final(self) == (Store {
                    state: final(self).state,
                    observable: final(self).observable,
                    mode,
                    prev_mode: old(self).mode,
                    ..*old(self)
                })
                &&& state_bumped(*old(self), *final(self))
                &&& observable_bumped(*old(self), *final(self))
                &&& final(self).state.graph.value()@ == without_edge_selection(old(self).state.graph.value()@)
                &&& final(self).observable.graph.value()@ == without_edge_selection(old(self).observable.graph.value()@)
            },
            mode == EditMode::EdgeEditor ==> *final(self) == (Store { mode, prev_mode: old(self).mode, ..*old(self) }),
    {
        self.prev_mode = self.mode;
        self.mode = mode;
        if mode != EditMode::EdgeEditor {
            self.state.graph.get_mut().set_selected_edges(Vec::new());
            self.observable.graph.get_mut().set_selected_edges(Vec::new());
        }
    }

    fn clear_edge_selections(&mut self)
        requires
            old(self).wf(),
        ensures
            final(self).wf(),
            state_becomes(*old(self), *final(self), without_edge_selection(old(self).state.graph.value()@)),
    {
        self.state.graph.get_mut().set_selected_edges(Vec::new());
    }

    fn clear_observable_edge_selections(&mut self)
        requires
            old(self).wf(),
        ensures
            final(self).wf(),
            observable_becomes(*old(self), *final(self), without_edge_selection(old(self).observable.graph.value()@)),
    {
        self.observable.graph.get_mut().set_selected_edges(Vec::new());
    }
}


// ------------------------------------------------------------------
// The reducer
// ------------------------------------------------------------------

/// `action` can be applied to `s` without failing: an edge that has to be
/// added joins two live states.
pub open spec fn update_ok<W, P, V, L, C>(s: Store<W, P, V, L>, action: Action<W, P, C>) -> bool {
    let g = s.state.graph.value()@;
    match action {
        Action::AddStateEdge { source_idx, target_idx, .. } => g.latest_edge(source_idx, target_idx) is Some || (
        g.is_node(source_idx as int) && g.is_node(target_idx as int)),
        Action::UpdateStateEdgeWeightFromHeatmap { source_idx, target_idx, new_weight } => new_weight is Some ==> (
        g.latest_edge(source_idx, target_idx) is Some || (g.is_node(source_idx as int) && g.is_node(
            target_idx as int,
        ))),
        _ => true,
    }
}

/// Applying `action` to `s` gives the store `t` and the effects `effects`.
pub open spec fn updated<W, P, V, L, C>(
    s: Store<W, P, V, L>,
    action: Action<W, P, C>,
    t: Store<W, P, V, L>,
    effects: Seq<Effect>,
) -> bool {
    let sg = s.state.graph.value()@;
    let og = s.observable.graph.value()@;
    &&& t.wf()
    &&& match action {
        Action::SaveToFile { path } => effects == seq![Effect::SaveToFile { path }],
        Action::LoadFromFile { path } => effects == seq![Effect::LoadFromFile { path }],
        _ => effects.len() == 0,
    }
    &&& match action {
        Action::AddStateNode { name, weight } => both_added(
            s,
            t,
            sg.with_node(StateNode { name, weight }, name),
            og.with_node(
                ObservableNode {
                    name,
                    node_type: ObservableNodeType::Source,
                    state_node_idx: Some(sg.next_node_index()),
                },
                name,
            ),
        ),
        Action::RemoveStateNode { node_idx } => match source_of(og, node_idx) {
            Some(x) => both_become(s, t, sg.without_node(node_idx), og.without_node(x)),
            None => state_becomes(s, t, sg.without_node(node_idx)),
        },
        Action::RenameStateNode { node_idx, new_name } => match source_of(og, node_idx) {
            Some(x) => both_become(
                s,
                t,
                renamed_state(sg, node_idx, new_name),
                renamed_observable(og, x, new_name),
            ),
            None => state_becomes(s, t, renamed_state(sg, node_idx, new_name)),
        },
        Action::UpdateStateNodeWeightEditor { node_idx, value } => {
            &&& t == (Store { weight_editor: t.weight_editor, ..s })
            &&& t.weight_editor@ == (Some(node_idx), value@)
        },
        Action::UpdateStateNodeWeight { node_idx, new_weight } => state_becomes(
            s,
            t,
            reweighted_state(sg, node_idx, new_weight),
        ),
        Action::UpdateStateNodeLabelEditor { node_idx, value } => {
            &&& t == (Store { label_editor: t.label_editor, ..s })
            &&& t.label_editor@ == (Some(node_idx), value@)
        },
        Action::SelectStateNode { node_idx, selected } => state_becomes(s, t, with_selection(sg, node_idx, selected)),
        Action::AddStateEdge { source_idx, target_idx, weight } => if sg.latest_edge(source_idx, target_idx) is Some {
            t == s
        } else {
            &&& same_but_state(s, t)
            &&& state_bumped(s, t)
            &&& adds_edge(sg, t.state.graph.value()@, source_idx, target_idx, weight)
        },
        Action::RemoveStateEdgeByIndex { edge_idx } => state_becomes(s, t, sg.without_edge(edge_idx)),
        Action::UpdateStateEdgeWeightFromHeatmap { source_idx, target_idx, new_weight } => match (
            sg.latest_edge(source_idx, target_idx),
            new_weight,
        ) {
            (Some(e), None) => state_becomes(s, t, sg.without_edge(e)),
            (None, None) => t == s,
            (Some(e), Some(w)) => state_becomes(s, t, sg.with_edge_payload(e, w)),
            (None, Some(w)) => {
                &&& same_but_state(s, t)
                &&& state_bumped(s, t)
                &&& adds_edge(sg, t.state.graph.value()@, source_idx, target_idx, w)
            },
        },
        Action::AddObservableDestinationNode { name } => observable_added(
            s,
            t,
            og.with_node(ObservableNode { name, node_type: ObservableNodeType::Destination, state_node_idx: None }, name),
        ),
        Action::RemoveObservableDestinationNode { node_idx } => observable_becomes(s, t, og.without_node(node_idx)),
        Action::UpdateObservableDestinationNodeLabelEditor { node_idx, value } => {
            &&& t == (Store { label_editor: t.label_editor, ..s })
            &&& t.label_editor@ == (Some(node_idx), value@)
        },
        Action::RenameObservableDestinationNode { node_idx, new_name } => observable_becomes(
            s,
            t,
            renamed_observable(og, node_idx, new_name),
        ),
        Action::SelectObservableNode { node_idx, selected } => observable_becomes(
            s,
            t,
            with_selection(og, node_idx, selected),
        ),
        Action::SelectObservedNode { node_idx, selected } => t == (Store {
            observed_node_selection: Some((node_idx, selected)),
            ..s
        }),
        Action::AddObservableEdge { source_idx, target_idx, weight } => if has_kind(
            og,
            source_idx,
            ObservableNodeType::Source,
        ) && has_kind(og, target_idx, ObservableNodeType::Destination) {
            &&& same_but_observable(s, t)
            &&& observable_bumped(s, t)
            &&& adds_edge(og, t.observable.graph.value()@, source_idx, target_idx, weight)
        } else {
            t == s
        },
        Action::RemoveObservableEdgeByIndex { edge_idx } => observable_becomes(s, t, og.without_edge(edge_idx)),
        Action::UpdateObservableEdgeWeightFromHeatmap { source_idx, target_idx, new_weight } => match (
            og.latest_edge(source_idx, target_idx),
            new_weight,
        ) {
            (Some(e), None) => observable_becomes(s, t, og.without_edge(e)),
            (None, None) => t == s,
            (Some(e), Some(w)) => observable_becomes(s, t, og.with_edge_payload(e, w)),
            (None, Some(w)) => if has_kind(og, source_idx, ObservableNodeType::Source) && has_kind(
                og,
                target_idx,
                ObservableNodeType::Destination,
            ) {
                &&& same_but_observable(s, t)
                &&& observable_bumped(s, t)
                &&& adds_edge(og, t.observable.graph.value()@, source_idx, target_idx, w)
            } else {
                t == s
            },
        },
        Action::SetEditMode { mode } => if mode != EditMode::EdgeEditor {
            &&& t.state == (StateGraphStore { graph: t.state.graph, ..s.state })
            &&& t.observable == (ObservableGraphStore { graph: t.observable.graph, ..s.observable })
            &&& t == (Store { state: t.state, observable: t.observable, mode, prev_mode: s.mode, ..s })
            &&& state_bumped(s, t)
            &&& observable_bumped(s, t)
            &&& t.state.graph.value()@ == without_edge_selection(sg)
            &&& t.observable.graph.value()@ == without_edge_selection(og)
        } else {
            t == (Store { mode, prev_mode: s.mode, ..s })
        },
        Action::SetActiveTab { tab } => t == (Store { active_tab: tab, ..s }),
        Action::UpdateLayoutSetting { .. } => t == (Store { layout_settings: t.layout_settings, ..s }),
        Action::ClearEdgeSelections => state_becomes(s, t, without_edge_selection(sg)),
        Action::ClearObservableEdgeSelections => observable_becomes(s, t, without_edge_selection(og)),
        Action::SetDraggingFrom { node_idx, position } => t == (Store {
            dragging_from: match (node_idx, position) {
                (Some(i), Some(p)) => Some((i, p)),
                _ => None,
            },
            ..s
        }),
        Action::SetDragStarted { started } => t == (Store { drag_started: started, ..s }),
        Action::SetHeatmapHoveredCell { cell } => t == (Store { heatmap_hovered_cell: cell, ..s }),
        Action::SetHeatmapEditingCell { cell } => t == (Store { heatmap_editing_cell: cell, ..s }),
        Action::SetHeatmapEditBuffer { buffer } => t == (Store { heatmap_edit_buffer: buffer, ..s }),
        Action::SaveToFile { .. } => t == s,
        Action::LoadFromFile { .. } => t == s,
        Action::ClearErrorMessage => t == (Store { error_message: None, ..s }),
    }
}

/// Applies one action to the store; returns the effects to run outside.
pub fn update<W: Copy, P, V: Copy, L: ApplyLayoutChange<C>, C>(store: &mut Store<W, P, V, L>, action: Action<W, P, C>) -> (r: Vec<Effect>)
    requires
        old(store).wf(),
        update_ok(*old(store), action),
    ensures
        updated(*old(store), action, *final(store), r@),
{
    match action {
        Action::AddStateNode { name, weight } => {
            store.add_state_node(name, weight);
            Vec::new()
        },
        Action::RemoveStateNode { node_idx } => {
            store.remove_state_node(node_idx);
            Vec::new()
        },
        Action::RenameStateNode { node_idx, new_name } => {
            store.rename_state_node(node_idx, new_name);
            Vec::new()
        },
        Action::UpdateStateNodeWeightEditor { node_idx, value } => {
            store.weight_editor.focus(node_idx, value);
            Vec::new()
        },
        Action::UpdateStateNodeWeight { node_idx, new_weight } => {
            store.update_state_node_weight(node_idx, new_weight);
            Vec::new()
        },
        Action::UpdateStateNodeLabelEditor { node_idx, value } => {
            store.label_editor.focus(node_idx, value);
            Vec::new()
        },
        Action::SelectStateNode { node_idx, selected } => {
            store.select_state_node(node_idx, selected);
            Vec::new()
        },
        Action::AddStateEdge { source_idx, target_idx, weight } => {
            store.add_state_edge(source_idx, target_idx, weight);
            Vec::new()
        },
        Action::RemoveStateEdgeByIndex { edge_idx } => {
            store.remove_state_edge(edge_idx);
            Vec::new()
        },
        Action::UpdateStateEdgeWeightFromHeatmap { source_idx, target_idx, new_weight } => {
            store.update_state_edge_weight_from_heatmap(source_idx, target_idx, new_weight);
            Vec::new()
        },
        Action::AddObservableDestinationNode { name } => {
            store.add_observable_destination_node(name);
            Vec::new()
        },
        Action::RemoveObservableDestinationNode { node_idx } => {
            store.remove_observable_node(node_idx);
            Vec::new()
        },
        Action::UpdateObservableDestinationNodeLabelEditor { node_idx, value } => {
            store.label_editor.focus(node_idx, value);
            Vec::new()
        },
        Action::RenameObservableDestinationNode { node_idx, new_name } => {
            store.rename_observable_node(node_idx, new_name);
            Vec::new()
        },
        Action::SelectObservableNode { node_idx, selected } => {
            store.select_observable_node(node_idx, selected);
            Vec::new()
        },
        Action::SelectObservedNode { node_idx, selected } => {
            store.observed_node_selection = Some((node_idx, selected));
            Vec::new()
        },
        Action::AddObservableEdge { source_idx, target_idx, weight } => {
            store.add_observable_edge(source_idx, target_idx, weight);
            Vec::new()
        },
        Action::RemoveObservableEdgeByIndex { edge_idx } => {
            store.remove_observable_edge(edge_idx);
            Vec::new()
        },
        Action::UpdateObservableEdgeWeightFromHeatmap { source_idx, target_idx, new_weight } => {
            store.update_observable_edge_weight_from_heatmap(source_idx, target_idx, new_weight);
            Vec::new()
        },
        Action::SetEditMode { mode } => {
            store.set_edit_mode(mode);
            Vec::new()
        },
        Action::SetActiveTab { tab } => {
            store.active_tab = tab;
            Vec::new()
        },
        Action::UpdateLayoutSetting { tab, change } => {
            store.layout_settings.apply_change(tab, change);
            Vec::new()
        },
        Action::ClearEdgeSelections => {
            store.clear_edge_selections();
            Vec::new()
        },
        Action::ClearObservableEdgeSelections => {
            store.clear_observable_edge_selections();
            Vec::new()
        },
        Action::SetDraggingFrom { node_idx, position } => {
            store.dragging_from = match (node_idx, position) {
                (Some(i), Some(p)) => Some((i, p)),
                _ => None,
            };
            Vec::new()
        },
        Action::SetDragStarted { started } => {
            store.drag_started = started;
            Vec::new()
        },
        Action::SetHeatmapHoveredCell { cell } => {
            store.heatmap_hovered_cell = cell;
            Vec::new()
        },
        Action::SetHeatmapEditingCell { cell } => {
            store.heatmap_editing_cell = cell;
            Vec::new()
        },
        Action::SetHeatmapEditBuffer { buffer } => {
            store.heatmap_edit_buffer = buffer;
            Vec::new()
        },
        Action::SaveToFile { path } => {
            let mut effects: Vec<Effect> = Vec::new();
            effects.push(Effect::SaveToFile { path });
            effects
        },
        Action::LoadFromFile { path } => {
            let mut effects: Vec<Effect> = Vec::new();
            effects.push(Effect::LoadFromFile { path });
            effects
        },
        Action::ClearErrorMessage => {
            store.error_message = None;
            Vec::new()
        },
    }
}


/// Whether `action` can be applied to `store` without failing (see `update_ok`).
pub fn action_ok<W: Copy, P, V: Copy, L, C>(store: &Store<W, P, V, L>, action: &Action<W, P, C>) -> (r: bool)
    requires
        store.wf(),
    ensures
        r == update_ok(*store, *action),
{
    let g = store.state.graph.get();
    match action {
        Action::AddStateEdge { source_idx, target_idx, .. } => {
            g.find_edge(*source_idx, *target_idx).is_some() || (g.node(*source_idx).is_some() && g.node(
                *target_idx,
            ).is_some())
        },
        Action::UpdateStateEdgeWeightFromHeatmap { source_idx, target_idx, new_weight } => {
            new_weight.is_none() || g.find_edge(*source_idx, *target_idx).is_some() || (g.node(
                *source_idx,
            ).is_some() && g.node(*target_idx).is_some())
        },
        _ => true,
    }
}

// ------------------------------------------------------------------
// Laws of the reducer
// ------------------------------------------------------------------

/// `h` is `g` with one more edge, from `a` to `b` of weight `w`, in the slot
/// that was free next: `find_edge(a, b)` answers it, and every edge of `g`
/// stays as it was.
pub open spec fn one_edge_added<N, E>(g: GraphModel<N, E>, h: GraphModel<N, E>, a: usize, b: usize, w: E) -> bool {
    let e = g.next_edge_index() as int;
    &&& !g.is_edge(e)
    &&& h.is_edge(e)
    &&& h.edge(e).source == a
    &&& h.edge(e).target == b
    &&& h.edge(e).payload == w
    &&& h.latest_edge(a, b) == Some(e as usize)
    &&& forall|x: int| #[trigger] g.is_edge(x) ==> h.is_edge(x) && h.edge(x) == g.edge(x)
    &&& forall|x: int| #[trigger] h.is_edge(x) ==> x == e || g.is_edge(x)
    &&& h.nodes == g.nodes
}

proof fn lemma_adds_edge_is_one_edge<N, E>(g: GraphModel<N, E>, h: GraphModel<N, E>, a: usize, b: usize, w: E)
    requires
        g.wf(),
        g.edges.len() <= usize::MAX,
        adds_edge(g, h, a, b, w),
    ensures
        one_edge_added(g, h, a, b, w),
{
    let label = choose|label: String| label@ == Seq::<char>::empty() && h == g.with_edge(a, b, w, label);
    lemma_with_edge_frame(g, a, b, w, label);
}

/// Drawing a state edge from `a` to `b` where there is none yet adds exactly
/// that edge, with weight `w`, for any two states, `a == b` (a state that
/// stays where it is) included: afterwards `find_edge(a, b)` finds it, every
/// other edge is kept, the state graph moves to its next version, nothing
/// else changes and no effect is asked for.
pub proof fn lemma_add_state_edge_adds<W: Copy, P, V: Copy, L, C>(
    s: Store<W, P, V, L>,
    a: usize,
    b: usize,
    w: W,
    t: Store<W, P, V, L>,
    effects: Seq<Effect>,
)
    requires
        s.wf(),
        s.state.graph.value()@.latest_edge(a, b) is None,
        updated(s, Action::<W, P, C>::AddStateEdge { source_idx: a, target_idx: b, weight: w }, t, effects),
    ensures
        one_edge_added(s.state.graph.value()@, t.state.graph.value()@, a, b, w),
        t.state.graph.spec_version() == next_version(s.state.graph.spec_version()),
        t.observable == s.observable,
        effects.len() == 0,
{
    s.state.graph.value().lemma_bounds();
    lemma_adds_edge_is_one_edge(s.state.graph.value()@, t.state.graph.value()@, a, b, w);
}

/// A weight typed into an empty heatmap cell of the state graph adds the
/// edge from `a` to `b` with that weight, for any two states, a loop included.
pub proof fn lemma_heatmap_weight_adds_state_edge<W: Copy, P, V: Copy, L, C>(
    s: Store<W, P, V, L>,
    a: usize,
    b: usize,
    w: W,
    t: Store<W, P, V, L>,
    effects: Seq<Effect>,
)
    requires
        s.wf(),
        s.state.graph.value()@.latest_edge(a, b) is None,
        updated(
            s,
            Action::<W, P, C>::UpdateStateEdgeWeightFromHeatmap { source_idx: a, target_idx: b, new_weight: Some(w) },
            t,
            effects,
        ),
    ensures
        one_edge_added(s.state.graph.value()@, t.state.graph.value()@, a, b, w),
        t.state.graph.spec_version() == next_version(s.state.graph.spec_version()),
        t.observable == s.observable,
        effects.len() == 0,
{
    s.state.graph.value().lemma_bounds();
    lemma_adds_edge_is_one_edge(s.state.graph.value()@, t.state.graph.value()@, a, b, w);
}

} // verus!
