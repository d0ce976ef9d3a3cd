use micro_macro::actions::{action_ok, find_source_node, update, Action, Effect};
use micro_macro::graph::Graph;
use micro_macro::graph_state::{default_observable_graph, default_state_graph, ObservableGraph, ObservableNodeType, StateGraph};
use micro_macro::state::State;
use micro_macro::store::{ActiveTab, EditMode, Store};
use std::path::PathBuf;

type TestStore = Store<f64, (f32, f32), (), ()>;
type TestAction = Action<f64, (f32, f32), u8>;

fn example_store() -> TestStore {
    let s: StateGraph<f64> = default_state_graph();
    let o: ObservableGraph<f64> = default_observable_graph(&s);
    Store::new(s, o, Graph::new(), (), (), ())
}

fn apply(store: &mut TestStore, action: TestAction) -> Vec<Effect> {
    assert!(action_ok(store, &action));
    update(store, action)
}

#[test]
fn adding_a_state_adds_its_source() {
    let mut store = example_store();
    let effects = apply(&mut store, Action::AddStateNode { name: "Extra".to_string(), weight: 4.0 });
    assert!(effects.is_empty());
    let s = store.state.graph.get();
    assert_eq!(s.node(3).unwrap().payload.name, "Extra");
    assert_eq!(s.node(3).unwrap().label, "Extra");
    assert_eq!(s.node(3).unwrap().payload.weight, 4.0);
    let o = store.observable.graph.get();
    let src = o.node(5).unwrap();
    assert_eq!(src.payload.node_type, ObservableNodeType::Source);
    assert_eq!(src.payload.state_node_idx, Some(3));
    assert_eq!(src.label, "Extra");
    // one write access adds the node, a second one labels it
    assert_eq!(store.state.graph.version(), 2);
    assert_eq!(store.observable.graph.version(), 2);
}

#[test]
fn removing_a_state_removes_its_source() {
    let mut store = example_store();
    assert_eq!(find_source_node(store.observable.graph.get(), 1), Some(1));
    apply(&mut store, Action::RemoveStateNode { node_idx: 1 });
    assert!(store.state.graph.get().node(1).is_none());
    assert!(store.observable.graph.get().node(1).is_none());
    assert_eq!(store.state.graph.get().edge_count(), 1);
    assert_eq!(find_source_node(store.observable.graph.get(), 1), None);
}

#[test]
fn renaming_a_state_renames_its_source() {
    let mut store = example_store();
    apply(&mut store, Action::RenameStateNode { node_idx: 2, new_name: "Third".to_string() });
    assert_eq!(store.state.graph.get().node(2).unwrap().payload.name, "Third");
    assert_eq!(store.state.graph.get().node(2).unwrap().label, "Third");
    assert_eq!(store.observable.graph.get().node(2).unwrap().payload.name, "Third");
    assert_eq!(store.observable.graph.get().node(2).unwrap().label, "Third");
}

#[test]
fn state_edges_are_not_duplicated() {
    let mut store = example_store();
    let before = store.state.graph.version();
    apply(&mut store, Action::AddStateEdge { source_idx: 0, target_idx: 1, weight: 9.0 });
    assert_eq!(store.state.graph.version(), before);
    assert_eq!(store.state.graph.get().edge_count(), 4);
    apply(&mut store, Action::AddStateEdge { source_idx: 0, target_idx: 2, weight: 9.0 });
    assert_eq!(store.state.graph.get().edge_count(), 5);
    assert_eq!(store.state.graph.get().edge(4).unwrap().label, "");
}

#[test]
fn edge_to_a_missing_state_is_not_ok() {
    let store = example_store();
    let bad: TestAction = Action::AddStateEdge { source_idx: 0, target_idx: 8, weight: 1.0 };
    assert!(!action_ok(&store, &bad));
    let zero: TestAction = Action::UpdateStateEdgeWeightFromHeatmap { source_idx: 0, target_idx: 8, new_weight: None };
    assert!(action_ok(&store, &zero));
}

#[test]
fn heatmap_edits_update_add_and_remove() {
    let mut store = example_store();
    apply(&mut store, Action::UpdateStateEdgeWeightFromHeatmap { source_idx: 0, target_idx: 1, new_weight: Some(0.5) });
    assert_eq!(store.state.graph.get().edge(0).unwrap().payload, 0.5);
    apply(&mut store, Action::UpdateStateEdgeWeightFromHeatmap { source_idx: 2, target_idx: 2, new_weight: Some(0.7) });
    assert_eq!(store.state.graph.get().find_edge(2, 2), Some(4));
    apply(&mut store, Action::UpdateStateEdgeWeightFromHeatmap { source_idx: 0, target_idx: 1, new_weight: None });
    assert_eq!(store.state.graph.get().find_edge(0, 1), None);
    let v = store.state.graph.version();
    apply(&mut store, Action::UpdateStateEdgeWeightFromHeatmap { source_idx: 0, target_idx: 1, new_weight: None });
    assert_eq!(store.state.graph.version(), v);
}

#[test]
fn observable_edges_need_source_and_destination() {
    let mut store = example_store();
    let before = store.observable.graph.get().edge_count();
    apply(&mut store, Action::AddObservableEdge { source_idx: 3, target_idx: 4, weight: 1.0 });
    assert_eq!(store.observable.graph.get().edge_count(), before);
    apply(&mut store, Action::AddObservableEdge { source_idx: 0, target_idx: 4, weight: 1.0 });
    assert_eq!(store.observable.graph.get().edge_count(), before + 1);
    apply(&mut store, Action::UpdateObservableEdgeWeightFromHeatmap { source_idx: 2, target_idx: 3, new_weight: Some(2.0) });
    assert_eq!(store.observable.graph.get().find_edge(2, 3).map(|e| store.observable.graph.get().edge(e).unwrap().payload), Some(2.0));
    apply(&mut store, Action::UpdateObservableEdgeWeightFromHeatmap { source_idx: 4, target_idx: 0, new_weight: Some(2.0) });
    assert_eq!(store.observable.graph.get().find_edge(4, 0), None);
}

#[test]
fn destination_nodes_and_selection() {
    let mut store = example_store();
    let v = store.observable.graph.version();
    apply(&mut store, Action::AddObservableDestinationNode { name: "Value 2".to_string() });
    assert_eq!(store.observable.graph.version(), v + 2);
    let o = store.observable.graph.get();
    assert_eq!(o.node(5).unwrap().label, "Value 2");
    assert_eq!(o.node(5).unwrap().payload.node_type, ObservableNodeType::Destination);
    assert_eq!(o.node(5).unwrap().payload.state_node_idx, None);
    apply(&mut store, Action::RenameObservableDestinationNode { node_idx: 5, new_name: "Value Z".to_string() });
    assert_eq!(store.observable.graph.get().node(5).unwrap().label, "Value Z");
    apply(&mut store, Action::SelectObservableNode { node_idx: 5, selected: true });
    apply(&mut store, Action::SelectObservableNode { node_idx: 3, selected: true });
    assert!(!store.observable.graph.get().node(5).unwrap().selected);
    assert!(store.observable.graph.get().node(3).unwrap().selected);
    apply(&mut store, Action::SelectObservableNode { node_idx: 3, selected: false });
    assert!(!store.observable.graph.get().node(3).unwrap().selected);
    apply(&mut store, Action::RemoveObservableDestinationNode { node_idx: 5 });
    assert!(store.observable.graph.get().node(5).is_none());
}

#[test]
fn state_selection_and_weights() {
    let mut store = example_store();
    apply(&mut store, Action::SelectStateNode { node_idx: 0, selected: true });
    apply(&mut store, Action::SelectStateNode { node_idx: 2, selected: true });
    let s = store.state.graph.get();
    assert!(!s.node(0).unwrap().selected && s.node(2).unwrap().selected);
    apply(&mut store, Action::UpdateStateNodeWeight { node_idx: 1, new_weight: 0.125 });
    assert_eq!(store.state.graph.get().node(1).unwrap().payload.weight, 0.125);
    apply(&mut store, Action::UpdateStateNodeWeightEditor { node_idx: 1, value: "0.1".to_string() });
    assert_eq!(store.weight_editor.value(), "0.1");
    apply(&mut store, Action::UpdateStateNodeLabelEditor { node_idx: 2, value: "abc".to_string() });
    assert_eq!(store.label_editor.node(), Some(2));
}

#[test]
fn leaving_the_edge_editor_clears_edge_selections() {
    let mut store = example_store();
    store.state.graph.get_mut().set_selected_edges(vec![1]);
    apply(&mut store, Action::SetEditMode { mode: EditMode::EdgeEditor });
    assert_eq!(store.state.graph.get().selected_edges(), &vec![1]);
    apply(&mut store, Action::SetEditMode { mode: EditMode::NodeEditor });
    assert!(store.state.graph.get().selected_edges().is_empty());
    assert_eq!(store.prev_mode, EditMode::EdgeEditor);
    store.state.graph.get_mut().set_selected_edges(vec![2]);
    apply(&mut store, Action::ClearEdgeSelections);
    assert!(store.state.graph.get().selected_edges().is_empty());
}

#[test]
fn ui_actions_set_fields() {
    let mut store = example_store();
    apply(&mut store, Action::SetActiveTab { tab: ActiveTab::ObservedDynamics });
    apply(&mut store, Action::SetDraggingFrom { node_idx: Some(2), position: Some((1.0, 2.0)) });
    apply(&mut store, Action::SetDragStarted { started: true });
    apply(&mut store, Action::SetHeatmapHoveredCell { cell: Some((1, 1)) });
    apply(&mut store, Action::SetHeatmapEditingCell { cell: Some((0, 1)) });
    apply(&mut store, Action::SetHeatmapEditBuffer { buffer: "3.5".to_string() });
    apply(&mut store, Action::SelectObservedNode { node_idx: 4, selected: true });
    assert_eq!(store.active_tab, ActiveTab::ObservedDynamics);
    assert_eq!(store.dragging_from, Some((2, (1.0, 2.0))));
    assert!(store.drag_started);
    assert_eq!(store.heatmap_hovered_cell, Some((1, 1)));
    assert_eq!(store.heatmap_editing_cell, Some((0, 1)));
    assert_eq!(store.heatmap_edit_buffer, "3.5");
    assert_eq!(store.observed_node_selection, Some((4, true)));
    apply(&mut store, Action::SetDraggingFrom { node_idx: Some(2), position: None });
    assert_eq!(store.dragging_from, None);
    store.error_message = Some("e".to_string());
    apply(&mut store, Action::ClearErrorMessage);
    assert!(store.error_message.is_none());
}

#[test]
fn only_file_actions_become_effects() {
    let mut store = example_store();
    let effects = apply(&mut store, Action::SaveToFile { path: PathBuf::from("a.json") });
    assert!(matches!(&effects[..], [Effect::SaveToFile { path }] if path == &PathBuf::from("a.json")));
    let effects = apply(&mut store, Action::LoadFromFile { path: PathBuf::from("b.json") });
    assert!(matches!(&effects[..], [Effect::LoadFromFile { .. }]));
    let v = store.state.graph.version();
    let effects = apply(&mut store, Action::UpdateLayoutSetting { tab: ActiveTab::ObservableEditor, change: 7 });
    assert!(effects.is_empty());
    assert_eq!(store.state.graph.version(), v);
    let effects = apply(&mut store, Action::RemoveStateEdgeByIndex { edge_idx: 0 });
    assert!(effects.is_empty());
    apply(&mut store, Action::AddObservableEdge { source_idx: 0, target_idx: 3, weight: 1.0 });
    apply(&mut store, Action::AddObservableEdge { source_idx: 1, target_idx: 3, weight: 1.0 });
    apply(&mut store, Action::RemoveObservableEdgeByIndex { edge_idx: 0 });
    apply(&mut store, Action::ClearObservableEdgeSelections);
    assert_eq!(store.observable.graph.get().edge_count(), 1);
}

#[test]
fn state_applies_queued_actions_in_order() {
    let mut state: State<f64, (f32, f32), (), (), u8, ()> = State::new(example_store(), ());
    state.dispatch(Action::AddStateNode { name: "X".to_string(), weight: 1.0 });
    state.dispatch(Action::SaveToFile { path: PathBuf::from("x.json") });
    state.dispatch(Action::RenameStateNode { node_idx: 3, new_name: "Y".to_string() });
    state.store.mark_observed_graph_dirty();
    state.flush_actions();
    assert_eq!(state.store.state.graph.get().node(3).unwrap().payload.name, "Y");
    assert!(!state.store.observed.observed_graph_dirty);
    let effects = state.take_effects();
    assert_eq!(effects.len(), 1);
    assert!(state.take_effects().is_empty());
}

/// Settings that record the changes applied to them.
struct RecordedSettings(Vec<(ActiveTab, u8)>);

impl micro_macro::actions::ApplyLayoutChange<u8> for RecordedSettings {
    fn apply_change(&mut self, tab: ActiveTab, change: u8) {
        self.0.push((tab, change));
    }
}

#[test]
fn layout_changes_apply_in_place_without_effects() {
    let s: StateGraph<f64> = default_state_graph();
    let o: ObservableGraph<f64> = default_observable_graph(&s);
    let mut store: Store<f64, (f32, f32), (), RecordedSettings> =
        Store::new(s, o, Graph::new(), RecordedSettings(Vec::new()), (), ());
    let action: Action<f64, (f32, f32), u8> = Action::UpdateLayoutSetting { tab: ActiveTab::ObservedDynamics, change: 3 };
    assert!(action_ok(&store, &action));
    let effects = update(&mut store, action);
    assert!(effects.is_empty());
    assert_eq!(store.layout_settings.0, vec![(ActiveTab::ObservedDynamics, 3)]);
    assert_eq!(store.state.graph.version(), 0);
}
