use micro_macro::graph::Graph;
use micro_macro::graph_state::{
    default_observable_graph, default_state_graph, ObservableGraph, ObservableNode, ObservableNodeType,
    ObservedGraph, StateGraph, StateNode,
};
use micro_macro::store::{
    collect_state_node_weights, default_graphs, sync_source_nodes_display, ActiveTab, EditMode, LayoutReset,
    NumberEditor, ObservedGraphStore, StateGraphStore, Store, StringEditor, MAX_VALIDATION_EVENTS,
};

type TestStore = Store<f64, (f32, f32), (), ()>;

fn example_store() -> TestStore {
    let s: StateGraph<f64> = default_state_graph();
    let o: ObservableGraph<f64> = default_observable_graph(&s);
    Store::new(s, o, Graph::new(), (), (), ())
}

/// The example observable with the example mapping: state 0 -> Value 0 (1),
/// state 1 -> Value 0 (2), state 1 -> Value 1 (1), state 2 -> Value 1 (1).
fn mapped_observable(s: &StateGraph<f64>) -> ObservableGraph<f64> {
    let mut o: ObservableGraph<f64> = default_observable_graph(s);
    o.add_edge(0, 3, 1.0, String::new());
    o.add_edge(1, 3, 2.0, String::new());
    o.add_edge(1, 4, 1.0, String::new());
    o.add_edge(2, 4, 1.0, String::new());
    o
}

fn source_names(g: &ObservableGraph<f64>) -> Vec<String> {
    let mut names: Vec<String> = g
        .node_indices()
        .into_iter()
        .map(|i| g.node(i).unwrap())
        .filter(|n| n.payload.node_type == ObservableNodeType::Source)
        .map(|n| n.payload.name.clone())
        .collect();
    names.sort();
    names
}

#[test]
fn sync_adds_missing_and_removes_stale_sources() {
    let mut s: StateGraph<f64> = default_state_graph();
    let o = mapped_observable(&s);
    s.remove_node(0);
    s.add_node(StateNode { name: "State 9".to_string(), weight: 1.0 }, String::new());
    let synced = sync_source_nodes_display(&s, &o);
    assert_eq!(source_names(&synced), vec!["State 2", "State 3", "State 9"]);
    // The new Source mirrors the new state and is labelled with its name.
    let new_source = synced
        .node_indices()
        .into_iter()
        .map(|i| synced.node(i).unwrap())
        .find(|n| n.payload.name == "State 9")
        .unwrap();
    assert_eq!(new_source.payload.state_node_idx, Some(0));
    assert_eq!(new_source.label, "State 9");
    // Destinations are untouched.
    assert_eq!(synced.node(3).unwrap().payload.name, "Value 0");
    assert_eq!(synced.node(4).unwrap().payload.name, "Value 1");
    // Removing "State 1"'s source also removed its edge to Value 0.
    assert_eq!(synced.edge_count(), 3);
}

#[test]
fn sync_is_stable_when_in_step() {
    let s: StateGraph<f64> = default_state_graph();
    let o = mapped_observable(&s);
    let synced = sync_source_nodes_display(&s, &o);
    assert_eq!(synced.node_indices(), o.node_indices());
    assert_eq!(synced.edge_count(), 4);
}

#[test]
fn store_sync_marks_observed_dirty() {
    let mut store = example_store();
    let v = store.observable.graph.version();
    store.state.graph.get_mut().add_node(StateNode { name: "New".to_string(), weight: 1.0 }, String::new());
    store.sync_source_nodes();
    assert_eq!(store.observable.graph.version(), v + 1);
    assert!(store.observed.observed_graph_dirty);
    assert_eq!(source_names(store.observable.graph.get()).len(), 4);
    store.ensure_observed_graph_fresh();
    assert!(!store.observed.observed_graph_dirty);
}

#[test]
fn new_store_defaults() {
    let store = example_store();
    assert_eq!(store.mode, EditMode::NodeEditor);
    assert_eq!(store.prev_mode, EditMode::NodeEditor);
    assert_eq!(store.active_tab, ActiveTab::DynamicalSystem);
    assert!(store.dragging_from.is_none());
    assert!(store.error_message.is_none());
    assert_eq!(store.validation_error_key(), (0, 0));
    assert!(*store.state.label_visibility.get());
}

#[test]
fn validation_messages_keep_the_last_fifty() {
    let mut store = example_store();
    for i in 0..55 {
        store.push_state_validation_error(format!("message {}", i));
    }
    let msgs = store.validation_event_messages_state();
    assert_eq!(msgs.len(), MAX_VALIDATION_EVENTS);
    assert_eq!(msgs[0], "message 5");
    assert_eq!(msgs[49], "message 54");
    assert_eq!(store.validation_error_key(), (55, 0));
    assert!(store.validation_event_messages_observable().is_empty());
}

#[test]
fn state_node_name_falls_back_to_index() {
    let store = example_store();
    assert_eq!(store.state_node_name(1), "State 2");
    assert_eq!(store.state_node_name(7), "Node 7");
    assert_eq!(store.state_node_name(1234), "Node 1234");
}

#[test]
fn node_weights_sorted_by_name() {
    let mut g: StateGraph<f64> = Graph::new();
    g.add_node(StateNode { name: "b".to_string(), weight: 2.0 }, String::new());
    g.add_node(StateNode { name: "a".to_string(), weight: 1.0 }, String::new());
    g.add_node(StateNode { name: "b".to_string(), weight: 3.0 }, String::new());
    let w = collect_state_node_weights(&g);
    assert_eq!(w, vec![("a".to_string(), 1.0), ("b".to_string(), 2.0), ("b".to_string(), 3.0)]);
}

#[test]
fn layout_reset_runs_once_per_key() {
    let mut reset: LayoutReset<u64> = LayoutReset::new();
    let mut runs = 0;
    reset.run_if_layout_changed(1, || runs += 1);
    reset.run_if_layout_changed(1, || runs += 1);
    reset.run_if_layout_changed(2, || runs += 1);
    assert_eq!(runs, 2);
}

#[test]
fn graph_store_layout_follows_versions() {
    let s: StateGraph<f64> = default_state_graph();
    let mut store: StateGraphStore<f64, ()> = StateGraphStore::new(s, ());
    let mut runs = 0;
    store.run_if_layout_changed(|| runs += 1);
    store.run_if_layout_changed(|| runs += 1);
    assert_eq!(runs, 1);
    store.label_visibility.set(false);
    store.run_if_layout_changed(|| runs += 1);
    assert_eq!(runs, 2);
    let key = store.version_key();
    assert_eq!((key.graph, key.circular_visuals, key.label_visibility), (0, 0, 1));

    let mut observed: ObservedGraphStore<()> = ObservedGraphStore::new(());
    observed.run_if_layout_changed(3, || runs += 1);
    observed.run_if_layout_changed(3, || runs += 1);
    observed.run_if_layout_changed(4, || runs += 1);
    assert_eq!(runs, 4);
    observed.mark_dirty();
    assert!(observed.observed_graph_dirty);
    observed.mark_fresh();
    assert!(!observed.observed_graph_dirty);
}

#[test]
fn editors_remember_focus() {
    let mut n = NumberEditor::new();
    assert_eq!(n.node(), None);
    assert_eq!(n.value(), "");
    n.focus(3, "0.25".to_string());
    assert_eq!(n.node(), Some(3));
    assert_eq!(n.value(), "0.25");
    let mut s = StringEditor::new();
    s.focus(1, "x".to_string());
    assert_eq!((s.node(), s.value()), (Some(1), "x".to_string()));
}

#[test]
fn default_graphs_are_labelled() {
    let (s, o): (StateGraph<f64>, ObservableGraph<f64>) = default_graphs();
    assert_eq!(s.node(0).unwrap().label, "State 1");
    assert_eq!(o.node(4).unwrap().label, "Value 1");
    assert_eq!(o.node_count(), 5);
    let observed: ObservedGraph<f64> = Graph::new();
    assert_eq!(observed.node_count(), 0);
}

#[test]
fn observable_store_push_and_heatmaps() {
    let mut store = example_store();
    store.observable.push_validation_error("x".to_string());
    assert_eq!(store.validation_event_messages_observable(), &vec!["x".to_string()]);
    let (x, _, _, _, _) = store.state_heatmap_uncached();
    assert_eq!(x.len(), 3);
    let (x, y, _, _, _) = store.observable_heatmap_uncached();
    assert_eq!((x.len(), y.len()), (3, 2));
    let w = store.state_node_weight_stats();
    assert_eq!(w[1], ("State 2".to_string(), 3.0));
    let o: ObservableNode = ObservableNode {
        name: "d".to_string(),
        node_type: ObservableNodeType::Destination,
        state_node_idx: None,
    };
    assert_eq!(o.node_type, ObservableNodeType::Destination);
}
