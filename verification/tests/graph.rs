use micro_macro::graph::Graph;
use micro_macro::graph_state::{StateGraph, StateNode};

fn three_nodes() -> Graph<u32, f64> {
    let mut g: Graph<u32, f64> = Graph::new();
    g.add_node(10, "a".to_string());
    g.add_node(11, "b".to_string());
    g.add_node(12, "c".to_string());
    g
}

#[test]
fn nodes_get_consecutive_indices() {
    let g = three_nodes();
    assert_eq!(g.node_indices(), vec![0, 1, 2]);
    assert_eq!(g.node(1).unwrap().payload, 11);
    assert_eq!(g.node(1).unwrap().label, "b");
    assert!(!g.node(1).unwrap().selected);
    assert!(g.node(3).is_none());
    assert_eq!(g.node_count(), 3);
}

#[test]
fn removed_slots_are_reused_most_recent_first() {
    let mut g = three_nodes();
    assert!(g.remove_node(0).is_some());
    assert!(g.remove_node(2).is_some());
    assert_eq!(g.node_indices(), vec![1]);
    assert_eq!(g.add_node(20, String::new()), 2);
    assert_eq!(g.add_node(21, String::new()), 0);
    assert_eq!(g.add_node(22, String::new()), 3);
    assert_eq!(g.node_slots(), 4);
}

#[test]
fn removing_a_node_removes_its_edges() {
    let mut g = three_nodes();
    let e0 = g.add_edge(0, 1, 1.0, String::new());
    let e1 = g.add_edge(1, 2, 2.0, String::new());
    let e2 = g.add_edge(2, 0, 3.0, String::new());
    assert_eq!((e0, e1, e2), (0, 1, 2));
    let removed = g.remove_node(1).unwrap();
    assert_eq!(removed.payload, 11);
    assert_eq!(g.edge_indices(), vec![2]);
    assert_eq!(g.edge_count(), 1);
    assert!(!g.has_outgoing(0));
    assert!(g.has_incoming(0));
    // The freed edges come back newest first.
    assert_eq!(g.add_edge(0, 2, 4.0, String::new()), 0);
    assert_eq!(g.add_edge(2, 2, 5.0, String::new()), 1);
}

#[test]
fn find_edge_gives_the_most_recent_edge() {
    let mut g = three_nodes();
    g.add_edge(0, 1, 1.0, String::new());
    g.add_edge(1, 0, 2.0, String::new());
    let newer = g.add_edge(0, 1, 3.0, String::new());
    assert_eq!(g.find_edge(0, 1), Some(newer));
    assert_eq!(g.find_edge(1, 0), Some(1));
    assert_eq!(g.find_edge(2, 0), None);
    g.remove_edge(newer);
    assert_eq!(g.find_edge(0, 1), Some(0));
}

#[test]
fn missing_items_are_reported() {
    let mut g = three_nodes();
    assert!(g.remove_edge(5).is_none());
    assert!(g.remove_node(9).is_none());
    assert!(!g.set_node_label(7, "x".to_string()));
    assert!(!g.set_edge_payload(0, 1.0));
    assert!(g.set_node_label(2, "z".to_string()));
    assert_eq!(g.node(2).unwrap().label, "z");
    assert!(g.set_node_selected(2, true));
    assert!(g.node(2).unwrap().selected);
    assert!(g.set_node_payload(2, 99));
    assert_eq!(g.node(2).unwrap().payload, 99);
}

#[test]
fn edge_payload_and_selection() {
    let mut g = three_nodes();
    let e = g.add_edge(0, 2, 1.0, "w".to_string());
    assert!(g.set_edge_payload(e, 7.5));
    let x = g.edge(e).unwrap();
    assert_eq!((x.source, x.target, x.payload), (0, 2, 7.5));
    assert_eq!(x.label, "w");
    g.set_selected_edges(vec![e]);
    assert_eq!(g.selected_edges(), &vec![e]);
}

#[test]
fn duplicate_copies_everything() {
    let mut g: StateGraph<f64> = Graph::new();
    for name in ["a", "b", "c"] {
        g.add_node(StateNode { name: name.to_string(), weight: 1.0 }, name.to_string());
    }
    g.add_edge(0, 1, 1.0, String::new());
    g.remove_node(2);
    let h = g.duplicate();
    assert_eq!(h.node_indices(), g.node_indices());
    assert_eq!(h.edge_indices(), g.edge_indices());
    assert_eq!(h.node(1).unwrap().label, "b");
    let mut h2 = h.duplicate();
    assert_eq!(h2.add_node(StateNode { name: "d".to_string(), weight: 2.0 }, String::new()), 2);
}

#[test]
fn removing_a_node_frees_its_edges_neighbour_by_neighbour() {
    let mut g: Graph<u8, ()> = Graph::new();
    for k in 0..3u8 {
        g.add_node(k, String::new());
    }
    g.add_edge(0, 1, (), String::new()); // 0
    g.add_edge(2, 0, (), String::new()); // 1
    g.add_edge(0, 2, (), String::new()); // 2
    g.add_edge(1, 0, (), String::new()); // 3
    g.remove_node(0);
    // Neighbour 2 first (0 -> 2, then 2 -> 0), then neighbour 1 (0 -> 1, then
    // 1 -> 0); the slot freed last is reused first.
    let reused: Vec<usize> = (0..4).map(|_| g.add_edge(1, 2, (), String::new())).collect();
    assert_eq!(reused, vec![3, 0, 1, 2]);
}
