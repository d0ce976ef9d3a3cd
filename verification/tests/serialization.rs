use micro_macro::graph::Graph;
use micro_macro::graph_state::{ObservableGraph, ObservableNode, ObservableNodeType, StateGraph, StateNode};
use micro_macro::graph_view::{setup_observable_graph_display, setup_state_graph_display};
use micro_macro::serialization::{
    graph_to_serializable, graphs_from_serializable, observable_graph_to_serializable,
    project_in_range_check, serializable_state_from_graphs, serializable_to_graph,
    serializable_to_observable_graph, SerializableDestinationNode, SerializableEdge,
    SerializableGraphState, SerializableNode, SerializableObservableState, SerializableState,
};

fn create_test_graphs() -> (StateGraph<f64>, ObservableGraph<f64>) {
    let mut state_graph: StateGraph<f64> = Graph::new();
    let a = state_graph.add_node(StateNode { name: "A".to_string(), weight: 1.0 }, String::new());
    let b = state_graph.add_node(StateNode { name: "B".to_string(), weight: 1.0 }, String::new());
    let c = state_graph.add_node(StateNode { name: "C".to_string(), weight: 1.0 }, String::new());
    state_graph.add_edge(a, b, 1.0, String::new());
    state_graph.add_edge(b, c, 2.0, String::new());
    state_graph.add_edge(c, a, 3.0, String::new());

    let mut obs_graph: ObservableGraph<f64> = Graph::new();
    let mut source_indices = Vec::new();
    for state_idx in state_graph.node_indices() {
        let name = state_graph.node(state_idx).unwrap().payload.name.clone();
        let obs_idx = obs_graph.add_node(
            ObservableNode { name, node_type: ObservableNodeType::Source, state_node_idx: Some(state_idx) },
            String::new(),
        );
        source_indices.push(obs_idx);
    }
    let dest1 = obs_graph.add_node(
        ObservableNode { name: "Value X".to_string(), node_type: ObservableNodeType::Destination, state_node_idx: None },
        String::new(),
    );
    let dest2 = obs_graph.add_node(
        ObservableNode { name: "Value Y".to_string(), node_type: ObservableNodeType::Destination, state_node_idx: None },
        String::new(),
    );
    obs_graph.add_edge(source_indices[0], dest1, 1.5, String::new());
    obs_graph.add_edge(source_indices[1], dest2, 2.5, String::new());
    obs_graph.add_edge(source_indices[2], dest1, 3.5, String::new());
    (state_graph, obs_graph)
}

fn assert_serializable_states_equal(state1: &SerializableState<f64>, state2: &SerializableState<f64>) {
    assert_eq!(
        state1.dynamical_system.nodes.len(),
        state2.dynamical_system.nodes.len(),
        "StateGraph node count mismatch"
    );
    for (n1, n2) in state1.dynamical_system.nodes.iter().zip(&state2.dynamical_system.nodes) {
        assert_eq!(n1.name, n2.name, "StateGraph node name mismatch");
    }
    assert_eq!(
        state1.dynamical_system.edges.len(),
        state2.dynamical_system.edges.len(),
        "StateGraph edge count mismatch"
    );
    for (e1, e2) in state1.dynamical_system.edges.iter().zip(&state2.dynamical_system.edges) {
        assert_eq!(e1.source, e2.source, "StateGraph edge source mismatch");
        assert_eq!(e1.target, e2.target, "StateGraph edge target mismatch");
        assert!((e1.weight - e2.weight).abs() < 0.001, "StateGraph edge weight mismatch");
    }
    assert_eq!(
        state1.observable.destination_nodes.len(),
        state2.observable.destination_nodes.len(),
        "ObservableGraph destination node count mismatch"
    );
    for (n1, n2) in state1.observable.destination_nodes.iter().zip(&state2.observable.destination_nodes) {
        assert_eq!(n1.name, n2.name, "ObservableGraph destination node name mismatch");
    }
    assert_eq!(
        state1.observable.edges.len(),
        state2.observable.edges.len(),
        "ObservableGraph edge count mismatch"
    );
    for (e1, e2) in state1.observable.edges.iter().zip(&state2.observable.edges) {
        assert_eq!(e1.source, e2.source, "ObservableGraph edge source mismatch");
        assert_eq!(e1.target, e2.target, "ObservableGraph edge target mismatch");
        assert!((e1.weight - e2.weight).abs() < 0.001, "ObservableGraph edge weight mismatch");
    }
}

fn copy_state(s: &SerializableState<f64>) -> SerializableState<f64> {
    SerializableState {
        dynamical_system: SerializableGraphState {
            nodes: s
                .dynamical_system
                .nodes
                .iter()
                .map(|n| SerializableNode { name: n.name.clone(), weight: n.weight })
                .collect(),
            edges: s
                .dynamical_system
                .edges
                .iter()
                .map(|e| SerializableEdge { source: e.source, target: e.target, weight: e.weight })
                .collect(),
        },
        observable: SerializableObservableState {
            destination_nodes: s
                .observable
                .destination_nodes
                .iter()
                .map(|n| SerializableDestinationNode { name: n.name.clone() })
                .collect(),
            edges: s
                .observable
                .edges
                .iter()
                .map(|e| SerializableEdge { source: e.source, target: e.target, weight: e.weight })
                .collect(),
        },
    }
}

#[test]
fn test_serialization_round_trip() {
    let (state_graph, obs_graph) = create_test_graphs();

    for idx in obs_graph.node_indices() {
        let node = obs_graph.node(idx).unwrap();
        if node.payload.node_type == ObservableNodeType::Source {
            assert!(obs_graph.has_outgoing(idx), "Source node {:?} has no outgoing edges", node.payload.name);
        }
    }

    let state_display = setup_state_graph_display(&state_graph);
    let obs_display = setup_observable_graph_display(&obs_graph);
    let saved_state = SerializableState {
        dynamical_system: graph_to_serializable(&state_display),
        observable: observable_graph_to_serializable(&obs_display),
    };

    // What a file written from `saved_state` and read back holds.
    let loaded_state = copy_state(&saved_state);
    assert_serializable_states_equal(&saved_state, &loaded_state);

    assert!(project_in_range_check(&loaded_state));
    let loaded_state_graph = serializable_to_graph(&loaded_state.dynamical_system);
    let loaded_obs_graph = serializable_to_observable_graph(&loaded_state.observable, &loaded_state_graph);

    let loaded_state_display = setup_state_graph_display(&loaded_state_graph);
    let loaded_obs_display = setup_observable_graph_display(&loaded_obs_graph);
    let reloaded_state = SerializableState {
        dynamical_system: graph_to_serializable(&loaded_state_display),
        observable: observable_graph_to_serializable(&loaded_obs_display),
    };
    assert_serializable_states_equal(&loaded_state, &reloaded_state);
}

#[test]
fn saved_state_graph_renumbers_live_nodes() {
    let mut g: StateGraph<f64> = Graph::new();
    let a = g.add_node(StateNode { name: "A".to_string(), weight: 2.0 }, String::new());
    let b = g.add_node(StateNode { name: "B".to_string(), weight: 3.0 }, String::new());
    let c = g.add_node(StateNode { name: "C".to_string(), weight: 5.0 }, String::new());
    g.add_edge(a, c, 0.25, String::new());
    g.add_edge(c, a, 0.75, String::new());
    g.remove_node(b);
    let s = graph_to_serializable(&g);
    assert_eq!(s.nodes.len(), 2);
    assert_eq!(s.nodes[0].name, "A");
    assert_eq!(s.nodes[0].weight, 2.0);
    assert_eq!(s.nodes[1].name, "C");
    assert_eq!(s.nodes[1].weight, 5.0);
    assert_eq!(s.edges.len(), 2);
    assert_eq!((s.edges[0].source, s.edges[0].target), (0, 1));
    assert_eq!((s.edges[1].source, s.edges[1].target), (1, 0));
    assert_eq!(s.edges[1].weight, 0.75);
}

#[test]
fn saved_observable_keeps_only_destinations_and_state_backed_edges() {
    let (state_graph, obs_graph) = create_test_graphs();
    let s = serializable_state_from_graphs(&state_graph, &obs_graph);
    assert_eq!(s.dynamical_system.nodes.len(), 3);
    assert_eq!(s.observable.destination_nodes.len(), 2);
    assert_eq!(s.observable.destination_nodes[0].name, "Value X");
    assert_eq!(s.observable.destination_nodes[1].name, "Value Y");
    let edges: Vec<(usize, usize, f64)> =
        s.observable.edges.iter().map(|e| (e.source, e.target, e.weight)).collect();
    assert_eq!(edges, vec![(0, 0, 1.5), (1, 1, 2.5), (2, 0, 3.5)]);
}

#[test]
fn loading_builds_sources_then_destinations() {
    let (state_graph, obs_graph) = create_test_graphs();
    let s = serializable_state_from_graphs(&state_graph, &obs_graph);
    let (sg, og) = graphs_from_serializable(&s);
    assert_eq!(sg.node_count(), 3);
    assert_eq!(og.node_count(), 5);
    assert_eq!(og.node(0).unwrap().payload.node_type, ObservableNodeType::Source);
    assert_eq!(og.node(0).unwrap().payload.state_node_idx, Some(0));
    assert_eq!(og.node(3).unwrap().payload.name, "Value X");
    assert_eq!(og.node(4).unwrap().payload.node_type, ObservableNodeType::Destination);
    let e = og.edge(1).unwrap();
    assert_eq!((e.source, e.target, e.payload), (1, 4, 2.5));
}

#[test]
fn out_of_range_edges_are_detected() {
    let bad = SerializableState {
        dynamical_system: SerializableGraphState {
            nodes: vec![SerializableNode { name: "A".to_string(), weight: 1.0 }],
            edges: vec![SerializableEdge { source: 0, target: 1, weight: 1.0 }],
        },
        observable: SerializableObservableState { destination_nodes: vec![], edges: vec![] },
    };
    assert!(!project_in_range_check(&bad));
    let bad_obs = SerializableState {
        dynamical_system: SerializableGraphState {
            nodes: vec![SerializableNode { name: "A".to_string(), weight: 1.0 }],
            edges: vec![],
        },
        observable: SerializableObservableState {
            destination_nodes: vec![SerializableDestinationNode { name: "X".to_string() }],
            edges: vec![SerializableEdge { source: 0, target: 1, weight: 1.0 }],
        },
    };
    assert!(!project_in_range_check(&bad_obs));
}
