use vstd::prelude::*;

use crate::actions::{has_kind, Action};
use crate::graph::{keep, lemma_live_indices, GraphModel};
use crate::graph_state::{ObservableGraph, ObservableNode, ObservableNodeType};
use crate::observed::{dest_pred, observed_destinations};
use crate::store::{EditMode, Store};
use crate::text::{decimal, push_decimal};
use vstd::string::StringExecFns;

verus! {

/// What the pointer did on the canvas in one frame.
pub struct PointerInput<P> {
    /// The primary button went down.
    pub pressed: bool,
    /// The primary button is held.
    pub down: bool,
    /// The primary button went up.
    pub released: bool,
    /// The primary button was clicked.
    pub clicked: bool,
    /// The pointer moved farther than the drag threshold.
    pub moved: bool,
    /// Where the press happened, if anywhere on the canvas.
    pub press_pos: Option<P>,
    /// Where the pointer is, if over the canvas.
    pub hover_pos: Option<P>,
    /// The node under the pointer.
    pub hovered_node: Option<usize>,
}

/// The drag state after this frame's press and move: a press on a node starts
/// a possible drag from it, and a move while the button is held makes it a drag.
pub open spec fn pressed_state<P>(dragging_from: Option<(usize, P)>, started: bool, input: PointerInput<P>) -> (
    Option<(usize, P)>,
    bool,
) {
    let (from, s) = if input.pressed && input.hovered_node is Some && input.press_pos is Some {
        (Some((input.hovered_node.unwrap(), input.press_pos.unwrap())), false)
    } else {
        (dragging_from, started)
    };
    (from, if input.down && from is Some && input.moved { true } else { s })
}

/// The preview arrow of a drag, from where it started to the pointer.
pub open spec fn preview_arrow<P>(dragging_from: Option<(usize, P)>, started: bool, input: PointerInput<P>) -> Option<(P, P)> {
    if started && dragging_from is Some && input.hover_pos is Some {
        Some((dragging_from.unwrap().1, input.hover_pos.unwrap()))
    } else {
        None
    }
}

/// The edge that a release completes: from the node the drag started at to
/// the node under the pointer.
pub open spec fn released_edge<P>(dragging_from: Option<(usize, P)>, started: bool, input: PointerInput<P>) -> Option<(usize, usize)> {
    if input.released && started && dragging_from is Some && input.hovered_node is Some {
        Some((dragging_from.unwrap().0, input.hovered_node.unwrap()))
    } else {
        None
    }
}

/// The actions that end a drag: nothing dragged, no drag started.
pub open spec fn drag_reset<W, P, C>() -> Seq<Action<W, P, C>> {
    seq![
        Action::SetDraggingFrom { node_idx: None, position: None },
        Action::SetDragStarted { started: false },
    ]
}

/// What a frame dispatches in the state graph: on release, the completed edge
/// (if any) with weight `weight`, then the end of the drag.
pub open spec fn state_drag_actions<W, P, C>(
    dragging_from: Option<(usize, P)>,
    started: bool,
    input: PointerInput<P>,
    weight: W,
) -> Seq<Action<W, P, C>> {
    if !input.released {
        Seq::empty()
    } else {
        match released_edge(dragging_from, started, input) {
            Some((s, t)) => seq![Action::AddStateEdge { source_idx: s, target_idx: t, weight }] + drag_reset(),
            None => drag_reset(),
        }
    }
}

/// An edge of the observable graph may only go from a Source node to a
/// different, Destination node.
pub open spec fn observable_edge_allowed<W>(g: GraphModel<ObservableNode, W>, s: usize, t: usize) -> bool {
    s != t && has_kind(g, s, ObservableNodeType::Source) && has_kind(g, t, ObservableNodeType::Destination)
}

/// What a frame dispatches in the observable graph: as in the state graph, but
/// the completed edge only where `observable_edge_allowed`.
pub open spec fn observable_drag_actions<W, P, C>(
    g: GraphModel<ObservableNode, W>,
    dragging_from: Option<(usize, P)>,
    started: bool,
    input: PointerInput<P>,
    weight: W,
) -> Seq<Action<W, P, C>> {
    if !input.released {
        Seq::empty()
    } else {
        match released_edge(dragging_from, started, input) {
            Some((s, t)) => if observable_edge_allowed(g, s, t) {
                seq![Action::AddObservableEdge { source_idx: s, target_idx: t, weight }] + drag_reset()
            } else {
                drag_reset()
            },
            None => drag_reset(),
        }
    }
}

/// Applies this frame's press and move to the store's drag state.
fn start_drag<W, P: Copy, V, L>(store: &mut Store<W, P, V, L>, input: &PointerInput<P>)
    ensures
        (final(store).dragging_from, final(store).drag_started) == pressed_state(
            old(store).dragging_from,
            old(store).drag_started,
            *input,
        ),
        *final(store) == (Store {
            dragging_from: final(store).dragging_from,
            drag_started: final(store).drag_started,
            ..*old(store)
        }),
{
    if input.pressed {
        match (input.hovered_node, input.press_pos) {
            (Some(h), Some(p)) => {
                store.dragging_from = Some((h, p));
                store.drag_started = false;
            },
            _ => {},
        }
    }
    if input.down && store.dragging_from.is_some() && input.moved {
        store.drag_started = true;
    }
}

/// The preview arrow of the store's drag.
fn arrow_of<W, P: Copy, V, L>(store: &Store<W, P, V, L>, input: &PointerInput<P>) -> (r: Option<(P, P)>)
    ensures
        r == preview_arrow(store.dragging_from, store.drag_started, *input),
{
    if store.drag_started {
        match (store.dragging_from, input.hover_pos) {
            (Some((_, from)), Some(to)) => Some((from, to)),
            _ => None,
        }
    } else {
        None
    }
}

/// One frame of drawing an edge in the state graph: updates the drag state in
/// the store, and returns the preview arrow and the actions to dispatch.
pub fn handle_edge_creation<W: Copy, P: Copy, V, L, C>(
    store: &mut Store<W, P, V, L>,
    input: &PointerInput<P>,
    weight: W,
) -> (r: (Option<(P, P)>, Vec<Action<W, P, C>>))
    ensures
        (final(store).dragging_from, final(store).drag_started) == pressed_state(
            old(store).dragging_from,
            old(store).drag_started,
            *input,
        ),
        *final(store) == (Store {
            dragging_from: final(store).dragging_from,
            drag_started: final(store).drag_started,
            ..*old(store)
        }),
        r.0 == preview_arrow(final(store).dragging_from, final(store).drag_started, *input),
        r.1@ == state_drag_actions::<W, P, C>(final(store).dragging_from, final(store).drag_started, *input, weight),
{
    start_drag(store, input);
    let arrow = arrow_of(store, input);
    let mut actions: Vec<Action<W, P, C>> = Vec::new();
    if input.released {
        if store.drag_started {
            match (store.dragging_from, input.hovered_node) {
                (Some((s, _)), Some(t)) => {
                    actions.push(Action::AddStateEdge { source_idx: s, target_idx: t, weight });
                },
                _ => {},
            }
        }
        actions.push(Action::SetDraggingFrom { node_idx: None, position: None });
        actions.push(Action::SetDragStarted { started: false });
    }
    (arrow, actions)
}

/// One frame of drawing an edge for an editor that keeps its own drag state:
/// the drag state afterwards (cleared on release), the preview arrow, and the
/// edge that a release completes, if any.
pub fn drag_frame<P: Copy>(dragging_from: Option<(usize, P)>, started: bool, input: &PointerInput<P>) -> (r: (
    Option<(usize, P)>,
    bool,
    Option<(P, P)>,
    Option<(usize, usize)>,
))
    ensures
        ({
            let (from, st) = pressed_state(dragging_from, started, *input);
            &&& r.2 == preview_arrow(from, st, *input)
            &&& r.3 == released_edge(from, st, *input)
            &&& input.released ==> r.0 is None && !r.1
            &&& !input.released ==> r.0 == from && r.1 == st
        }),
{
    let mut from = dragging_from;
    let mut st = started;
    if input.pressed {
        match (input.hovered_node, input.press_pos) {
            (Some(h), Some(p)) => {
                from = Some((h, p));
                st = false;
            },
            _ => {},
        }
    }
    if input.down && from.is_some() && input.moved {
        st = true;
    }
    let arrow = if st {
        match (from, input.hover_pos) {
            (Some((_, a)), Some(b)) => Some((a, b)),
            _ => None,
        }
    } else {
        None
    };
    if input.released {
        let completed = match (from, input.hovered_node) {
            (Some((s, _)), Some(t)) => if st {
                Some((s, t))
            } else {
                None
            },
            _ => None,
        };
        (None, false, arrow, completed)
    } else {
        (from, st, arrow, None)
    }
}

/// Whether an edge may join `s` to `t` in the observable graph.
pub fn observable_edge_ok<W>(g: &ObservableGraph<W>, s: usize, t: usize) -> (r: bool)
    ensures
        r == observable_edge_allowed(g@, s, t),
{
    if s == t {
        return false;
    }
    match (g.node(s), g.node(t)) {
        (Some(a), Some(b)) => a.payload.node_type == ObservableNodeType::Source && b.payload.node_type
            == ObservableNodeType::Destination,
        _ => false,
    }
}

/// One frame of drawing an edge in the observable graph: as in the state
/// graph, but a completed drag adds an edge only from a Source node to a
/// different, Destination node; other attempts are ignored.
pub fn handle_observable_edge_creation<W: Copy, P: Copy, V, L, C>(
    store: &mut Store<W, P, V, L>,
    input: &PointerInput<P>,
    weight: W,
) -> (r: (Option<(P, P)>, Vec<Action<W, P, C>>))
    ensures
        (final(store).dragging_from, final(store).drag_started) == pressed_state(
            old(store).dragging_from,
            old(store).drag_started,
            *input,
        ),
        *final(store) == (Store {
            dragging_from: final(store).dragging_from,
            drag_started: final(store).drag_started,
            ..*old(store)
        }),
        r.0 == preview_arrow(final(store).dragging_from, final(store).drag_started, *input),
        r.1@ == observable_drag_actions::<W, P, C>(
            old(store).observable.graph.value()@,
            final(store).dragging_from,
            final(store).drag_started,
            *input,
            weight,
        ),
{
    start_drag(store, input);
    let arrow = arrow_of(store, input);
    let mut actions: Vec<Action<W, P, C>> = Vec::new();
    if input.released {
        if store.drag_started {
            match (store.dragging_from, input.hovered_node) {
                (Some((s, _)), Some(t)) => {
                    if observable_edge_ok(store.observable.graph.get(), s, t) {
                        actions.push(Action::AddObservableEdge { source_idx: s, target_idx: t, weight });
                    }
                },
                _ => {},
            }
        }
        actions.push(Action::SetDraggingFrom { node_idx: None, position: None });
        actions.push(Action::SetDragStarted { started: false });
    }
    (arrow, actions)
}

/// The edge that a click deletes: the one selected edge, when the click is
/// not part of a drag.
pub open spec fn edge_to_delete<P>(clicked: bool, dragging_from: Option<(usize, P)>, selected: Seq<usize>) -> Option<usize> {
    if clicked && dragging_from is None && selected.len() == 1 {
        Some(selected[0])
    } else {
        None
    }
}

/// Two-click deletion in the state graph: a click while exactly one edge is
/// selected removes that edge.
pub fn handle_edge_deletion<W, P, V, L, C>(store: &Store<W, P, V, L>, clicked: bool) -> (r: Vec<Action<W, P, C>>)
    ensures
        r@ == match edge_to_delete(clicked, store.dragging_from, store.state.graph.value()@.selected_edges) {
            Some(e) => seq![Action::<W, P, C>::RemoveStateEdgeByIndex { edge_idx: e }],
            None => Seq::<Action<W, P, C>>::empty(),
        },
{
    let mut actions: Vec<Action<W, P, C>> = Vec::new();
    if clicked && store.dragging_from.is_none() {
        let selected = store.state.graph.get().selected_edges();
        if selected.len() == 1 {
            actions.push(Action::RemoveStateEdgeByIndex { edge_idx: selected[0] });
        }
    }
    actions
}

/// Two-click deletion in the observable graph.
pub fn handle_observable_edge_deletion<W, P, V, L, C>(store: &Store<W, P, V, L>, clicked: bool) -> (r: Vec<Action<W, P, C>>)
    ensures
        r@ == match edge_to_delete(clicked, store.dragging_from, store.observable.graph.value()@.selected_edges) {
            Some(e) => seq![Action::<W, P, C>::RemoveObservableEdgeByIndex { edge_idx: e }],
            None => Seq::<Action<W, P, C>>::empty(),
        },
{
    let mut actions: Vec<Action<W, P, C>> = Vec::new();
    if clicked && store.dragging_from.is_none() {
        let selected = store.observable.graph.get().selected_edges();
        if selected.len() == 1 {
            actions.push(Action::RemoveObservableEdgeByIndex { edge_idx: selected[0] });
        }
    }
    actions
}

/// The selection requests of a click on a node's toggle: a selected node is
/// deselected; otherwise every other node of `all` is deselected, in order,
/// and then the node is selected.
pub open spec fn selection_requests(node_idx: usize, is_selected: bool, all: Seq<usize>) -> Seq<(usize, bool)> {
    if is_selected {
        seq![(node_idx, false)]
    } else {
        all.filter(others_than(node_idx)).map_values(deselected()).push((node_idx, true))
    }
}

/// The predicate "is not node `n`".
pub open spec fn others_than(n: usize) -> spec_fn(usize) -> bool {
    |x: usize| x != n
}

/// A deselection request for a node.
pub open spec fn deselected() -> spec_fn(usize) -> (usize, bool) {
    |x: usize| (x, false)
}

/// The (node, selected) requests of a click on a node's selection toggle.
pub fn selection_widget(node_idx: usize, is_selected: bool, all: &Vec<usize>) -> (r: Vec<(usize, bool)>)
    ensures
        r@ == selection_requests(node_idx, is_selected, all@),
{
    let mut r: Vec<(usize, bool)> = Vec::new();
    if is_selected {
        r.push((node_idx, false));
        return r;
    }
    let mut k: usize = 0;
    while k < all.len()
        invariant
            k <= all@.len(),
            r@ == all@.take(k as int).filter(others_than(node_idx)).map_values(deselected()),
        decreases all@.len() - k,
    {
        let x = all[k];
        proof {
            let f = others_than(node_idx);
            assert(all@.take(k + 1).drop_last() =~= all@.take(k as int));
            assert(all@.take(k + 1).last() == x);
            all@.take(k as int).lemma_filter_push(x, f);
            assert(all@.take(k as int).push(x) =~= all@.take(k + 1));
        }
        if x != node_idx {
            r.push((x, false));
        }
        assert(r@ =~= all@.take(k + 1).filter(others_than(node_idx)).map_values(deselected()));
        k += 1;
    }
    assert(all@.take(all@.len() as int) =~= all@);
    r.push((node_idx, true));
    r
}


// ------------------------------------------------------------------
// Edit mode and default names
// ------------------------------------------------------------------

/// The edit mode a frame asks for: edges while Ctrl is held, nodes otherwise.
pub open spec fn desired_mode(ctrl_pressed: bool) -> EditMode {
    if ctrl_pressed {
        EditMode::EdgeEditor
    } else {
        EditMode::NodeEditor
    }
}

/// The mode switch a frame dispatches: the desired mode, where it differs
/// from the current one.
pub fn mode_switch(current: EditMode, ctrl_pressed: bool) -> (r: Option<EditMode>)
    ensures
        r == if desired_mode(ctrl_pressed) != current {
            Some(desired_mode(ctrl_pressed))
        } else {
            None
        },
{
    let desired = if ctrl_pressed {
        EditMode::EdgeEditor
    } else {
        EditMode::NodeEditor
    };
    if desired != current {
        Some(desired)
    } else {
        None
    }
}

/// Name given to a state added by the "Add Node" button: "State " and one
/// more than the number of states already there.
pub fn new_state_name(node_count: usize) -> (r: String)
    requires
        node_count < usize::MAX,
    ensures
        r@ == "State "@ + decimal(node_count as nat + 1),
{
    let mut r = String::from_str("State ");
    proof {
        reveal_strlit("State ");
    }
    push_decimal(&mut r, node_count + 1);
    r
}

/// Name given to a value added by the "Add Value" button: "Value " and the
/// number of Destinations already there.
pub fn new_value_name<W>(g: &ObservableGraph<W>) -> (r: String)
    requires
        g@.wf(),
    ensures
        r@ == "Value "@ + decimal(observed_destinations(g@).len()),
{
    let idxs = g.node_indices();
    let ghost all = idxs@;
    let ghost p = dest_pred(g@);
    proof {
        g.lemma_bounds();
        lemma_live_indices(g@.nodes);
        assert(all.take(0) =~= Seq::<usize>::empty());
    }
    let mut count: usize = 0;
    let mut k: usize = 0;
    while k < idxs.len()
        invariant
            all == idxs@,
            all == g@.node_indices(),
            p == dest_pred(g@),
            forall|q: int| 0 <= q < all.len() ==> #[trigger] g@.is_node(all[q] as int),
            k <= all.len(),
            count == keep(all.take(k as int), p).len(),
            count <= k,
        decreases all.len() - k,
    {
        let x = idxs[k];
        assert(g@.is_node(x as int));
        assert(all.take(k + 1).drop_last() =~= all.take(k as int));
        assert(all.take(k + 1).last() == x);
        let node = g.node(x).unwrap();
        if node.payload.node_type == ObservableNodeType::Destination {
            count += 1;
        }
        k += 1;
    }
    assert(all.take(all.len() as int) =~= all);
    let mut r = String::from_str("Value ");
    proof {
        reveal_strlit("Value ");
    }
    push_decimal(&mut r, count);
    r
}

} // verus!
