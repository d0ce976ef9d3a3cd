use micro_macro::graph_state::{default_observable_graph, default_state_graph, ObservableGraph, StateGraph};
use micro_macro::observed::{calculate_observed_graph, calculate_observed_graph_from_observable_display, ObservedStatistics};

fn example() -> ObservableGraph<f64> {
    let s: StateGraph<f64> = default_state_graph();
    let mut o: ObservableGraph<f64> = default_observable_graph(&s);
    o.add_edge(0, 3, 1.0, String::new());
    o.add_edge(1, 4, 1.0, String::new());
    o
}

#[test]
fn skeleton_has_one_node_per_destination() {
    let o = example();
    let g = calculate_observed_graph_from_observable_display(&o);
    assert_eq!(g.node_indices(), vec![0, 1]);
    assert_eq!(g.node(0).unwrap().payload.name, "Value 0");
    assert_eq!(g.node(0).unwrap().payload.observable_node_idx, 3);
    assert_eq!(g.node(1).unwrap().payload.observable_node_idx, 4);
    assert_eq!(g.node(1).unwrap().payload.weight, 0.0);
    assert_eq!(g.edge_count(), 0);
}

#[test]
fn without_statistics_weights_are_zero() {
    let o = example();
    let g = calculate_observed_graph(&o, &None);
    assert_eq!(g.node(0).unwrap().label, "Value 0");
    assert_eq!(g.node(0).unwrap().payload.weight, 0.0);
    assert_eq!(g.edge_count(), 0);
}

#[test]
fn statistics_set_weights_and_edges() {
    let o = example();
    let stats = ObservedStatistics {
        node_weights: vec![(4, 0.6), (3, 0.4)],
        transitions: vec![(3, 3, 0.5), (3, 4, 0.5), (4, 3, 1.0), (4, 99, 0.25)],
    };
    let g = calculate_observed_graph(&o, &Some(stats));
    assert_eq!(g.node(0).unwrap().payload.weight, 0.4);
    assert_eq!(g.node(1).unwrap().payload.weight, 0.6);
    assert_eq!(g.node(1).unwrap().label, "Value 1");
    assert_eq!(g.edge_count(), 3);
    let e = g.edge(2).unwrap();
    assert_eq!((e.source, e.target, e.payload), (1, 0, 1.0));
    assert_eq!(e.label, "");
    assert_eq!(g.find_edge(0, 1), Some(1));
}

#[test]
fn missing_weight_stays_zero() {
    let o = example();
    let stats = ObservedStatistics { node_weights: vec![(3, 1.0)], transitions: vec![] };
    let g = calculate_observed_graph(&o, &Some(stats));
    assert_eq!(g.node(0).unwrap().payload.weight, 1.0);
    assert_eq!(g.node(1).unwrap().payload.weight, 0.0);
}
