[package]
name = "micro_macro"
version = "0.1.0"
edition = "2021"
publish = false

[dependencies]
serde = { version = "=1.0.229", features = ["derive"] }
serde_json = "=1.0.154"
petgraph = "=0.8.3"
egui_graphs = "=0.32.0"
ndarray = "*"
sprs = "*"
num-traits = "*"
