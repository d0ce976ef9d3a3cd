use micro_macro::graph::Graph;
use micro_macro::graph_state::{default_state_graph, ObservableNodeType, StateGraph, StatisticsError, StateNode};
use micro_macro::ix_map::IxMap;
use micro_macro::names::compare_names;
use micro_macro::node_shapes::{should_show_label, LabelSide};
use micro_macro::text::push_decimal;
use micro_macro::validation::{validate_observable_graph, validate_state_graph};
use micro_macro::versioned::{Memoized, Versioned};
use micro_macro::{markov, prob};

#[test]
fn ix_map_lookups() {
    let m = IxMap::from_distinct_sorted(vec![2usize, 5, 9]);
    assert_eq!(m.len(), 3);
    assert!(!m.is_empty());
    assert_eq!(m.index_of(&5), Some(1));
    assert_eq!(m.index_of(&4), None);
    assert_eq!(m.value_of(2), Some(&9));
    assert_eq!(m.value_of(3), None);
    assert_eq!(m.iter(), vec![(0, &2), (1, &5), (2, &9)]);
    assert!(IxMap::<usize>::from_distinct_sorted(vec![]).is_empty());
}

#[test]
fn ix_map_with_string_labels() {
    let m = IxMap::from_distinct_sorted(vec!["alice", "bob", "chico"]);
    assert_eq!(m.len(), 3);
    assert!(!m.is_empty());
    assert_eq!(m.index_of(&"bob"), Some(1));
    assert_eq!(m.index_of(&"alice"), Some(0));
    assert_eq!(m.index_of(&"chico"), Some(2));
    assert_eq!(m.index_of(&"dave"), None);
    assert_eq!(m.index_of(&"b"), None);
    assert_eq!(m.value_of(2), Some(&"chico"));
    assert_eq!(m.value_of(3), None);
    let owned = IxMap::from_distinct_sorted(vec!["Alpha".to_string(), "Zed".to_string(), "alpha".to_string()]);
    assert_eq!(owned.index_of(&"Zed".to_string()), Some(1));
    assert_eq!(owned.index_of(&"alpha".to_string()), Some(2));
    assert_eq!(owned.index_of(&"Beta".to_string()), None);
    assert_eq!(owned.iter()[0], (0, &"Alpha".to_string()));
    for i in 0..owned.len() {
        assert_eq!(owned.index_of(owned.value_of(i).unwrap()), Some(i));
    }
}

#[test]
fn versioned_counts_writes() {
    let mut v = Versioned::new(3);
    assert_eq!(v.version(), 0);
    assert_eq!(*v.get(), 3);
    *v.get_mut() += 1;
    v.set(10);
    assert_eq!(*v.get(), 10);
    assert_eq!(v.version(), 2);
}

#[test]
fn memoized_recomputes_only_on_new_key() {
    let mut m = Memoized::new(|s: &(u64, u64)| s.0, |s: &(u64, u64)| s.0 * 100 + s.1);
    assert_eq!(*m.get(&(1, 2)), 102);
    assert_eq!(*m.get(&(1, 7)), 102);
    assert_eq!(m.version(), 1);
    assert_eq!(*m.get(&(2, 7)), 207);
    assert_eq!(m.version(), 2);
    *m.get_mut(&(2, 0)) = 5;
    assert_eq!(*m.get(&(2, 1)), 5);
}

#[test]
fn names_compare_like_strings() {
    assert_eq!(compare_names(&"a".to_string(), &"b".to_string()), Some(true));
    assert_eq!(compare_names(&"b".to_string(), &"ab".to_string()), Some(false));
    assert_eq!(compare_names(&"ab".to_string(), &"ab".to_string()), None);
    assert_eq!(compare_names(&"a".to_string(), &"ab".to_string()), Some(true));
}

#[test]
fn validation_reports_missing_edges() {
    let mut g: StateGraph<f64> = default_state_graph();
    assert!(validate_state_graph(&g).is_empty());
    g.add_node(StateNode { name: "Lonely".to_string(), weight: 1.0 }, String::new());
    let issues = validate_state_graph(&g);
    let msgs: Vec<String> = issues.iter().map(|i| i.message()).collect();
    assert_eq!(msgs, vec!["Lonely has no outgoing edges", "Lonely has no incoming edges"]);
    let mut o = micro_macro::graph_state::default_observable_graph(&default_state_graph::<f64>());
    // With no mapping yet, every Source and every Destination is reported.
    assert_eq!(validate_observable_graph(&o).len(), 5);
    o.add_edge(0, 3, 1.0, String::new());
    o.add_edge(1, 4, 1.0, String::new());
    o.add_edge(2, 4, 1.0, String::new());
    assert!(validate_observable_graph(&o).is_empty());
}

#[test]
fn error_messages() {
    assert_eq!(prob::BuildError::ZeroSum.message(), "vector has sum zero");
    assert_eq!(markov::BuildError::EmptyRow.message(), "a row has zero total weight");
    assert_eq!(StatisticsError::EmptyStateGraph.message(), "state graph is empty");
    let e: StatisticsError = prob::BuildError::Empty.into();
    assert_eq!(e.message(), "probability construction failed: vector is empty");
    let e: StatisticsError = markov::BuildError::EmptyMatrix.into();
    assert_eq!(e, StatisticsError::MarkovError(markov::BuildError::EmptyMatrix));
    assert_eq!(e.message(), "markov construction failed: matrix has zero size");
}

#[test]
fn label_side_and_visibility() {
    assert_eq!(LabelSide::from_node(ObservableNodeType::Source), LabelSide::Left);
    assert_eq!(LabelSide::from_node(ObservableNodeType::Destination), LabelSide::Right);
    assert!(should_show_label(false, false, true, false));
    assert!(!should_show_label(false, false, false, false));
    assert!(should_show_label(true, false, false, false));
}

#[test]
fn decimal_text() {
    let mut s = String::from("n=");
    push_decimal(&mut s, 0);
    push_decimal(&mut s, 907);
    assert_eq!(s, "n=0907");
    let g: Graph<u8, u8> = Graph::new();
    assert_eq!(g.node_count(), 0);
}
