use micro_macro::mapping::{
    add_mapping_edge, add_system_edge, build_heatmap_data, build_mapping_heatmap_data, delete_clicked_edge,
    generate_graph, generate_mapping_graph, get_node_connections, set_node_name, setup_graph, setup_mapping_graph,
    sync_source_nodes, MappingGraph, MappingNodeData, NodeData, NodeType, SystemGraph,
};
use micro_macro::mapping_file::{
    graph_to_serializable, mapping_graph_to_serializable, serializable_to_graph, serializable_to_mapping_graph,
};

fn names_of_kind(g: &MappingGraph, kind: NodeType) -> Vec<String> {
    let mut names: Vec<String> = g
        .node_indices()
        .into_iter()
        .map(|i| g.node(i).unwrap())
        .filter(|n| n.payload.node_type == kind)
        .map(|n| n.payload.name.clone())
        .collect();
    names.sort();
    names
}

#[test]
fn example_system_is_a_three_cycle() {
    let g = generate_graph();
    assert_eq!(g.node_count(), 3);
    assert_eq!(g.node(0).unwrap().payload.name, "Node 0");
    assert_eq!(g.node(2).unwrap().payload.name, "Node 2");
    assert_eq!(g.edge_count(), 3);
    let e = g.edge(2).unwrap();
    assert_eq!((e.source, e.target), (2, 0));
}

#[test]
fn example_mapping_mirrors_states_and_has_two_values() {
    let g = generate_graph();
    let m = generate_mapping_graph(&g);
    assert_eq!(names_of_kind(&m, NodeType::Source), vec!["Node 0", "Node 1", "Node 2"]);
    assert_eq!(names_of_kind(&m, NodeType::Destination), vec!["Value 0", "Value 1"]);
    assert_eq!(m.edge_count(), 0);
    assert_eq!(m.node(3).unwrap().payload.name, "Value 0");
}

#[test]
fn display_graphs_label_nodes_with_names() {
    let g = setup_graph(&generate_graph());
    assert_eq!(g.node(1).unwrap().label, "Node 1");
    assert_eq!(g.edge(0).unwrap().label, "");
    let m = setup_mapping_graph(&generate_mapping_graph(&g));
    assert_eq!(m.node(4).unwrap().label, "Value 1");
}

#[test]
fn system_heatmap_has_targets_as_rows() {
    let g = generate_graph();
    let (x, y, m) = build_heatmap_data(&g);
    assert_eq!(x, vec!["Node 0", "Node 1", "Node 2"]);
    assert_eq!(y, x);
    // Node 0 -> Node 1 is row 1, column 0.
    assert!(m[1][0]);
    assert!(m[2][1]);
    assert!(m[0][2]);
    assert!(!m[0][1]);
    assert!(!m[1][1]);
}

#[test]
fn empty_system_heatmap_is_empty() {
    let g: SystemGraph = micro_macro::graph::Graph::new();
    let (x, y, m) = build_heatmap_data(&g);
    assert!(x.is_empty() && y.is_empty() && m.is_empty());
}

#[test]
fn heatmap_sorts_by_name() {
    let mut g: SystemGraph = micro_macro::graph::Graph::new();
    let b = g.add_node(NodeData { name: "b".to_string() }, String::new());
    let a = g.add_node(NodeData { name: "a".to_string() }, String::new());
    g.add_edge(b, a, (), String::new());
    let (x, _, m) = build_heatmap_data(&g);
    assert_eq!(x, vec!["a", "b"]);
    // b -> a: column of b (1), row of a (0).
    assert!(m[0][1]);
    assert!(!m[1][0]);
}

#[test]
fn mapping_edges_only_from_source_to_destination() {
    let g = generate_graph();
    let mut m = generate_mapping_graph(&g);
    assert_eq!(add_mapping_edge(&mut m, 0, 3), Some(0));
    assert_eq!(add_mapping_edge(&mut m, 3, 0), None);
    assert_eq!(add_mapping_edge(&mut m, 0, 1), None);
    assert_eq!(add_mapping_edge(&mut m, 3, 4), None);
    assert_eq!(add_mapping_edge(&mut m, 3, 3), None);
    assert_eq!(add_mapping_edge(&mut m, 0, 9), None);
    assert_eq!(m.edge_count(), 1);
    assert_eq!(m.edge(0).unwrap().label, "");
    let (x, y, h) = build_mapping_heatmap_data(&m);
    assert_eq!(x, vec!["Node 0", "Node 1", "Node 2"]);
    assert_eq!(y, vec!["Value 0", "Value 1"]);
    assert!(h[0][0]);
    assert!(!h[1][0]);
    assert!(!h[0][1]);
}

#[test]
fn mapping_heatmap_is_empty_without_destinations() {
    let mut m: MappingGraph = micro_macro::graph::Graph::new();
    m.add_node(MappingNodeData { name: "s".to_string(), node_type: NodeType::Source }, String::new());
    let (x, y, h) = build_mapping_heatmap_data(&m);
    assert!(x.is_empty() && y.is_empty() && h.is_empty());
}

#[test]
fn system_edges_skip_self_drags() {
    let mut g = generate_graph();
    assert_eq!(add_system_edge(&mut g, 1, 1), None);
    assert_eq!(add_system_edge(&mut g, 1, 0), Some(3));
    assert_eq!(g.edge_count(), 4);
}

#[test]
fn connections_list_newest_edge_first() {
    let mut g = generate_graph();
    let (incoming, outgoing) = get_node_connections(&g, 0);
    assert_eq!(incoming, vec!["Node 2"]);
    assert_eq!(outgoing, vec!["Node 1"]);
    add_system_edge(&mut g, 1, 0);
    let (incoming, _) = get_node_connections(&g, 0);
    assert_eq!(incoming, vec!["Node 1", "Node 2"]);
}

#[test]
fn sync_follows_the_system() {
    let mut g = generate_graph();
    let mut m = generate_mapping_graph(&g);
    add_mapping_edge(&mut m, 1, 3);
    g.remove_node(1);
    g.add_node(NodeData { name: "Node 9".to_string() }, String::new());
    sync_source_nodes(&g, &mut m);
    assert_eq!(names_of_kind(&m, NodeType::Source), vec!["Node 0", "Node 2", "Node 9"]);
    assert_eq!(names_of_kind(&m, NodeType::Destination), vec!["Value 0", "Value 1"]);
    // The edge of the removed Source went with it.
    assert_eq!(m.edge_count(), 0);
    // Syncing again changes nothing.
    let before = m.node_count();
    sync_source_nodes(&g, &mut m);
    assert_eq!(m.node_count(), before);
}

#[test]
fn click_deletes_the_one_selected_edge() {
    let mut g = generate_graph();
    g.set_selected_edges(vec![1]);
    delete_clicked_edge(&mut g, true, &Some((0usize, ())));
    assert_eq!(g.edge_count(), 3);
    delete_clicked_edge(&mut g, false, &None::<(usize, ())>);
    assert_eq!(g.edge_count(), 3);
    delete_clicked_edge(&mut g, true, &None::<(usize, ())>);
    assert_eq!(g.edge_count(), 2);
    assert!(g.edge(1).is_none());
}

#[test]
fn files_round_trip() {
    let mut g = generate_graph();
    g.remove_node(0);
    let mut m = generate_mapping_graph(&g);
    add_mapping_edge(&mut m, 0, 2);
    let sg = graph_to_serializable(&g);
    assert_eq!(sg.nodes.len(), 2);
    assert_eq!(sg.nodes[0].name, "Node 1");
    assert_eq!(sg.edges.len(), 1);
    assert_eq!((sg.edges[0].source, sg.edges[0].target), (0, 1));
    let loaded = serializable_to_graph(&sg);
    assert_eq!(loaded.node(1).unwrap().payload.name, "Node 2");
    let again = graph_to_serializable(&loaded);
    assert_eq!(again.nodes.len(), sg.nodes.len());
    assert_eq!((again.edges[0].source, again.edges[0].target), (0, 1));

    let sm = mapping_graph_to_serializable(&m);
    assert_eq!(sm.nodes.len(), 4);
    assert_eq!(sm.nodes[2].node_type, NodeType::Destination);
    let lm = serializable_to_mapping_graph(&sm);
    assert_eq!(lm.node(2).unwrap().payload.name, "Value 0");
    assert_eq!(lm.edge(0).unwrap().target, 2);
}

#[test]
fn renaming_sets_name_and_label() {
    let mut g = generate_graph();
    set_node_name(&mut g, 1, "Middle".to_string());
    assert_eq!(g.node(1).unwrap().payload.name, "Middle");
    assert_eq!(g.node(1).unwrap().label, "Middle");
    set_node_name(&mut g, 7, "Nobody".to_string());
    assert_eq!(g.node_count(), 3);
}
