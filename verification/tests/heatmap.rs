use micro_macro::cache::Order;
use micro_macro::graph::Graph;
use micro_macro::graph_state::{
    default_observable_graph, default_state_graph, ObservableGraph, ObservableNode, ObservableNodeType,
    StateGraph, StateNode,
};
use micro_macro::heatmap::{
    compute_generic_heatmap_data, compute_observable_heatmap_data, handle_edit_event, next_edit_cell,
    BufferChange, EditEvent, SourceAxis,
};

/// The example observable with the example mapping: state 0 -> Value 0 (1),
/// state 1 -> Value 0 (2), state 1 -> Value 1 (1), state 2 -> Value 1 (1).
fn mapped_observable(s: &StateGraph<f64>) -> ObservableGraph<f64> {
    let mut o: ObservableGraph<f64> = default_observable_graph(s);
    o.add_edge(0, 3, 1.0, String::new());
    o.add_edge(1, 3, 2.0, String::new());
    o.add_edge(1, 4, 1.0, String::new());
    o.add_edge(2, 4, 1.0, String::new());
    o
}

#[test]
fn state_heatmap_of_the_example_system() {
    let g: StateGraph<f64> = default_state_graph();
    let (x_labels, y_labels, matrix, x_idx, y_idx) = compute_generic_heatmap_data(&g);
    assert_eq!(x_labels, vec!["State 1", "State 2", "State 3"]);
    assert_eq!(y_labels, x_labels);
    assert_eq!(x_idx, vec![0, 1, 2]);
    assert_eq!(y_idx, x_idx);
    // Row = source, column = target.
    assert_eq!(matrix[0], vec![None, Some(1.0), None]);
    assert_eq!(matrix[1], vec![Some(2.0), None, Some(1.0)]);
    assert_eq!(matrix[2], vec![Some(1.0), None, None]);
}

#[test]
fn heatmap_rows_follow_names_not_indices() {
    let mut g: StateGraph<f64> = Graph::new();
    let z = g.add_node(StateNode { name: "Zed".to_string(), weight: 1.0 }, String::new());
    let a = g.add_node(StateNode { name: "Alpha".to_string(), weight: 1.0 }, String::new());
    g.add_edge(z, a, 4.0, String::new());
    g.add_edge(z, a, 6.0, String::new());
    let (x_labels, _, matrix, x_idx, _) = compute_generic_heatmap_data(&g);
    assert_eq!(x_labels, vec!["Alpha", "Zed"]);
    assert_eq!(x_idx, vec![1, 0]);
    // Row "Zed" (source), column "Alpha" (target): the edge added last wins.
    assert_eq!(matrix[1][0], Some(6.0));
    assert_eq!(matrix[0][1], None);
}

#[test]
fn empty_graph_gives_empty_heatmap() {
    let g: StateGraph<f64> = Graph::new();
    let (x, y, m, xi, yi) = compute_generic_heatmap_data(&g);
    assert!(x.is_empty() && y.is_empty() && m.is_empty() && xi.is_empty() && yi.is_empty());
}

#[test]
fn observable_heatmap_has_sources_along_x() {
    let s: StateGraph<f64> = default_state_graph();
    let o = mapped_observable(&s);
    let (x_labels, y_labels, matrix, x_idx, y_idx) = compute_observable_heatmap_data(&o);
    assert_eq!(x_labels, vec!["State 1", "State 2", "State 3"]);
    assert_eq!(y_labels, vec!["Value 0", "Value 1"]);
    assert_eq!(x_idx, vec![0, 1, 2]);
    assert_eq!(y_idx, vec![3, 4]);
    assert_eq!(matrix, vec![vec![Some(1.0), Some(2.0), None], vec![None, Some(1.0), Some(1.0)]]);
}

#[test]
fn default_observable_has_no_mapping_yet() {
    let s: StateGraph<f64> = default_state_graph();
    let o: ObservableGraph<f64> = default_observable_graph(&s);
    assert_eq!(o.node_count(), 5);
    assert_eq!(o.edge_count(), 0);
    let (_, _, matrix, _, _) = compute_observable_heatmap_data(&o);
    assert!(matrix.iter().all(|row| row.iter().all(|c| c.is_none())));
}

#[test]
fn observable_heatmap_without_destinations_is_empty() {
    let mut o: ObservableGraph<f64> = Graph::new();
    o.add_node(
        ObservableNode { name: "S".to_string(), node_type: ObservableNodeType::Source, state_node_idx: Some(0) },
        String::new(),
    );
    let (x, y, m, _, _) = compute_observable_heatmap_data(&o);
    assert!(x.is_empty() && y.is_empty() && m.is_empty());
}

#[test]
fn tab_moves_right_then_down() {
    assert_eq!(next_edit_cell(0, 1, 3, 3), (1, 1));
    assert_eq!(next_edit_cell(2, 0, 3, 3), (0, 1));
    assert_eq!(next_edit_cell(2, 1, 3, 3), (0, 2));
    // After the last cell of the last row, editing stays on that row.
    assert_eq!(next_edit_cell(2, 2, 3, 3), (0, 2));
}

#[test]
fn edit_events() {
    let xs = vec![30, 40];
    let ys = vec![7, 8, 9];
    let (cell, buf, change) = handle_edit_event(1, 2, &xs, &ys, SourceAxis::Rows, EditEvent::Enter, Some(0.5));
    assert_eq!(cell, None);
    assert_eq!(buf, BufferChange::Clear);
    let c = change.unwrap();
    // In the state heatmap the row's node is the source, the column's node the target.
    assert_eq!((c.source_idx, c.target_idx, c.new_weight), (9, 40, 0.5));
    // In the observable heatmap the column (a Source) is the source.
    let (_, _, change) = handle_edit_event(1, 2, &xs, &ys, SourceAxis::Columns, EditEvent::Enter, Some(0.5));
    let c = change.unwrap();
    assert_eq!((c.source_idx, c.target_idx), (40, 9));

    let (cell, buf, change) = handle_edit_event(1, 1, &xs, &ys, SourceAxis::Rows, EditEvent::Tab, None::<f64>);
    assert_eq!(cell, Some((0, 2)));
    assert_eq!(buf, BufferChange::LoadCell(0, 2));
    assert!(change.is_none());

    let (cell, buf, change) = handle_edit_event(0, 0, &xs, &ys, SourceAxis::Rows, EditEvent::Escape, Some(1.0));
    assert_eq!((cell, buf), (None, BufferChange::Clear));
    assert!(change.is_none());

    let (cell, buf, _) = handle_edit_event(0, 1, &xs, &ys, SourceAxis::Rows, EditEvent::Idle, Some(1.0));
    assert_eq!((cell, buf), (Some((0, 1)), BufferChange::Keep));
}

#[test]
fn order_is_alphabetical_by_label() {
    let mut g: Graph<u8, f64> = Graph::new();
    g.add_node(0, "b".to_string());
    g.add_node(1, "a".to_string());
    g.add_node(2, "b".to_string());
    g.add_node(3, "B".to_string());
    let order = Order::alphabetical(&g);
    assert_eq!(order.0, vec![3, 1, 0, 2]);
}
