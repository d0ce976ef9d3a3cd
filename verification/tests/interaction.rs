use micro_macro::actions::Action;
use micro_macro::graph::Graph;
use micro_macro::graph_state::{
    default_observable_graph, default_state_graph, ObservableGraph, ObservableNode, ObservableNodeType, StateGraph,
};
use micro_macro::graph_view::get_connections;
use micro_macro::interaction::{
    drag_frame, handle_edge_creation, handle_edge_deletion, handle_observable_edge_creation,
    handle_observable_edge_deletion, mode_switch, new_state_name, new_value_name, observable_edge_ok,
    selection_widget, PointerInput,
};
use micro_macro::store::{EditMode, Store};

type TestStore = Store<f64, (f32, f32), (), ()>;
type TestAction = Action<f64, (f32, f32), u8>;

fn example_store() -> TestStore {
    let s: StateGraph<f64> = default_state_graph();
    let o: ObservableGraph<f64> = default_observable_graph(&s);
    Store::new(s, o, Graph::new(), (), (), ())
}

fn idle() -> PointerInput<(f32, f32)> {
    PointerInput {
        pressed: false,
        down: false,
        released: false,
        clicked: false,
        moved: false,
        press_pos: None,
        hover_pos: None,
        hovered_node: None,
    }
}

#[test]
fn press_move_release_draws_a_state_edge() {
    let mut store = example_store();
    let press = PointerInput { pressed: true, down: true, press_pos: Some((1.0, 2.0)), hovered_node: Some(0), ..idle() };
    let (arrow, actions): (_, Vec<TestAction>) = handle_edge_creation(&mut store, &press, 1.0);
    assert_eq!(store.dragging_from, Some((0, (1.0, 2.0))));
    assert!(!store.drag_started);
    assert!(arrow.is_none() && actions.is_empty());

    let drag = PointerInput { down: true, moved: true, hover_pos: Some((5.0, 6.0)), ..idle() };
    let (arrow, actions): (_, Vec<TestAction>) = handle_edge_creation(&mut store, &drag, 1.0);
    assert!(store.drag_started);
    assert_eq!(arrow, Some(((1.0, 2.0), (5.0, 6.0))));
    assert!(actions.is_empty());

    let release = PointerInput { released: true, hover_pos: Some((9.0, 9.0)), hovered_node: Some(2), ..idle() };
    let (_, actions): (_, Vec<TestAction>) = handle_edge_creation(&mut store, &release, 1.0);
    assert_eq!(actions.len(), 3);
    assert!(matches!(actions[0], Action::AddStateEdge { source_idx: 0, target_idx: 2, weight } if weight == 1.0));
    assert!(matches!(actions[1], Action::SetDraggingFrom { node_idx: None, position: None }));
    assert!(matches!(actions[2], Action::SetDragStarted { started: false }));
}

#[test]
fn release_without_drag_only_resets() {
    let mut store = example_store();
    let press = PointerInput { pressed: true, down: true, press_pos: Some((1.0, 2.0)), hovered_node: Some(0), ..idle() };
    let _: (_, Vec<TestAction>) = handle_edge_creation(&mut store, &press, 1.0);
    let release = PointerInput { released: true, hovered_node: Some(1), ..idle() };
    let (_, actions): (_, Vec<TestAction>) = handle_edge_creation(&mut store, &release, 1.0);
    assert_eq!(actions.len(), 2);
    assert!(matches!(actions[0], Action::SetDraggingFrom { .. }));
}

#[test]
fn observable_drags_need_source_then_destination() {
    let store = example_store();
    let o = store.observable.graph.get();
    assert!(observable_edge_ok(o, 0, 3));
    assert!(!observable_edge_ok(o, 3, 0));
    assert!(!observable_edge_ok(o, 0, 1));
    assert!(!observable_edge_ok(o, 3, 3));

    let mut store = example_store();
    store.dragging_from = Some((3, (0.0, 0.0)));
    store.drag_started = true;
    let release = PointerInput { released: true, hovered_node: Some(0), ..idle() };
    let (_, actions): (_, Vec<TestAction>) = handle_observable_edge_creation(&mut store, &release, 1.0);
    assert_eq!(actions.len(), 2);

    store.dragging_from = Some((1, (0.0, 0.0)));
    store.drag_started = true;
    let release = PointerInput { released: true, hovered_node: Some(4), ..idle() };
    let (_, actions): (_, Vec<TestAction>) = handle_observable_edge_creation(&mut store, &release, 1.0);
    assert_eq!(actions.len(), 3);
    assert!(matches!(actions[0], Action::AddObservableEdge { source_idx: 1, target_idx: 4, .. }));
}

#[test]
fn second_click_deletes_the_selected_edge() {
    let mut store = example_store();
    let none: Vec<TestAction> = handle_edge_deletion(&store, true);
    assert!(none.is_empty());
    store.state.graph.get_mut().set_selected_edges(vec![2]);
    let one: Vec<TestAction> = handle_edge_deletion(&store, true);
    assert!(matches!(one[0], Action::RemoveStateEdgeByIndex { edge_idx: 2 }));
    let no_click: Vec<TestAction> = handle_edge_deletion(&store, false);
    assert!(no_click.is_empty());
    store.observable.graph.get_mut().set_selected_edges(vec![0, 1]);
    let two: Vec<TestAction> = handle_observable_edge_deletion(&store, true);
    assert!(two.is_empty());
}

#[test]
fn drag_frame_clears_on_release() {
    let press = PointerInput { pressed: true, down: true, press_pos: Some((1.0, 1.0)), hovered_node: Some(4), ..idle() };
    let (from, started, arrow, edge) = drag_frame(None, false, &press);
    assert_eq!(from, Some((4, (1.0, 1.0))));
    assert!(!started && arrow.is_none() && edge.is_none());
    let release = PointerInput { released: true, hovered_node: Some(7), ..idle() };
    let (from, started, _, edge) = drag_frame(from, true, &release);
    assert_eq!(from, None);
    assert!(!started);
    assert_eq!(edge, Some((4, 7)));
}

#[test]
fn selecting_deselects_the_others_first() {
    assert_eq!(selection_widget(2, false, &vec![0, 2, 5]), vec![(0, false), (5, false), (2, true)]);
    assert_eq!(selection_widget(2, true, &vec![0, 2, 5]), vec![(2, false)]);
}

#[test]
fn connections_carry_weights() {
    let s: StateGraph<f64> = default_state_graph();
    // State 2 (index 1): in from State 1 (1.0); out to State 1 (2.0) and State 3 (1.0), newest first.
    let (incoming, outgoing) = get_connections(&s, 1);
    assert_eq!(incoming, vec![("State 1".to_string(), 1.0)]);
    assert_eq!(outgoing, vec![("State 3".to_string(), 1.0), ("State 1".to_string(), 2.0)]);
}

#[test]
fn ctrl_selects_edge_mode() {
    assert_eq!(mode_switch(EditMode::NodeEditor, true), Some(EditMode::EdgeEditor));
    assert_eq!(mode_switch(EditMode::EdgeEditor, true), None);
    assert_eq!(mode_switch(EditMode::EdgeEditor, false), Some(EditMode::NodeEditor));
    assert_eq!(mode_switch(EditMode::NodeEditor, false), None);
}

#[test]
fn default_names_of_new_nodes() {
    assert_eq!(new_state_name(3), "State 4");
    assert_eq!(new_state_name(0), "State 1");
    assert_eq!(new_state_name(9), "State 10");
    let s: StateGraph<f64> = default_state_graph();
    let mut o: ObservableGraph<f64> = default_observable_graph(&s);
    assert_eq!(new_value_name(&o), "Value 2");
    o.add_node(
        ObservableNode { name: "Extra".to_string(), node_type: ObservableNodeType::Destination, state_node_idx: None },
        "Extra".to_string(),
    );
    assert_eq!(new_value_name(&o), "Value 3");
    o.remove_node(0);
    assert_eq!(new_value_name(&o), "Value 3");
    let empty: ObservableGraph<f64> = Graph::new();
    assert_eq!(new_value_name(&empty), "Value 0");
}
