pub mod ix_map;
pub mod versioned;
pub mod graph;
pub mod graph_state;
pub mod graph_view;
pub mod serialization;
pub mod validation;
pub mod names;
pub mod heatmap;
pub mod cache;
pub mod store;
pub mod text;
pub mod actions;
pub mod state;
pub mod observed;
pub mod prob;
pub mod markov;
pub mod node_shapes;
pub mod mapping;
pub mod interaction;
pub mod topology;
pub mod mapping_file;
