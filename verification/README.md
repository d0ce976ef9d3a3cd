# micro_macro

An editor for a discrete dynamical system (a weighted directed graph of
states), an observable on it (a bipartite graph from states to values), and
the dynamics that the observable sees.

`src/` is the verified library:

- `graph` — a directed graph with stable indices, whose freed slots are
  reused most recent first; its model is `GraphModel`. It is the library's
  own type, generic in node and weight types, because the contents of an
  outside generic collection cannot be named generically in a contract and
  the weights of the editor are floating point. Its index behaviour follows
  petgraph's `StableGraph` as the editor drives it through egui_graphs:
  slot reuse, newest-first adjacency, which edge `find_edge` returns, and the
  order in which removing a node frees its edges.
- `graph_state`, `graph_view`, `serialization`, `topology` — the state,
  observable and observed graphs, their display form and their file form.
- `heatmap`, `names`, `cache`, `validation` — the derived views: adjacency
  heatmaps sorted by name, node orders, connectivity warnings. The state and
  observed heatmaps have edge sources as rows and targets as columns; the
  observable heatmap has Sources along x (columns) and Destinations along y
  (rows).
- `store`, `actions`, `state`, `interaction`, `versioned` — the editor state,
  the reducer that applies user actions to it, pointer handling, the edit
  mode and the default names of new nodes, and versioned and memoized values.
- `observed` — the observed graph built from statistics of the dynamics.
- `mapping`, `mapping_file` — the unweighted editor: a system and a mapping
  of its states onto values.
- `prob`, `markov`, `ix_map` — the checks that decide whether a distribution
  or a kernel can be built, and label maps over any ordered label type
  (`Label`, implemented for `usize`, `String` and `&str`).

`app/` is a command-line front end: it reads and writes project files,
applies layout-setting changes, computes the probability statistics
(floating point), prints what the editor's panels show, and edits a project
with commands read from standard input.
