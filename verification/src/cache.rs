use vstd::prelude::*;

use crate::graph::{Graph, GraphModel, Node, lemma_live_indices};
use crate::heatmap::{
    all_nodes, by_label, collect_labels, lemma_pairs_members, lemma_sorted_collection, pairs_of,
    sorted_pairs, split_pairs, zip_columns,
};
use crate::names::{entry_lt, entry_view, sort_by_name};

verus! {

/// The label order of node indices: by display label, ties by index.
pub open spec fn label_ordered<N, E>(g: GraphModel<N, E>, idx: Seq<usize>) -> bool {
    forall|a: int, b: int|
        0 <= a < b < idx.len() ==> entry_lt(
            (idx[a], g.node(idx[a] as int).label@),
            (idx[b], g.node(idx[b] as int).label@),
        )
}

/// Node ordering for the circular layout.
pub struct Order(pub Vec<usize>);

impl Order {
    /// Every live node of `graph` once, sorted by display label and then by index.
    pub fn alphabetical<N, E>(graph: &Graph<N, E>) -> (r: Self)
        requires
            graph@.wf(),
        ensures
            r.0@.len() == graph@.node_indices().len(),
            forall|a: int| 0 <= a < r.0@.len() ==> #[trigger] graph@.is_node(r.0@[a] as int),
            forall|i: int| #[trigger] graph@.is_node(i) ==> r.0@.contains(i as usize),
            forall|a: int, b: int| 0 <= a < b < r.0@.len() ==> r.0@[a] != r.0@[b],
            label_ordered(graph@, r.0@),
    {
        let items = collect_labels(graph);
        let ghost items_v = items@;
        let nodes = sort_by_name(items);
        let ghost gm = graph@;
        let ghost ln = gm.node_indices();
        let ghost pairs = pairs_of(gm, ln, all_nodes(), by_label());
        proof {
            graph.lemma_bounds();
            lemma_live_indices(gm.nodes);
            lemma_sorted_collection(gm, all_nodes(), by_label(), items_v, nodes@);
            lemma_pairs_members(gm, ln, all_nodes(), by_label());
        }
        let (idx, labels) = split_pairs(&nodes);
        proof {
            let ev = crate::heatmap::entries_view(nodes@);
            assert forall|a: int| 0 <= a < nodes@.len() implies #[trigger] nodes@[a].1@ == gm.node(
                nodes@[a].0 as int,
            ).label@ by {
                assert(ev[a] == entry_view(nodes@[a]));
                assert(ev.contains(ev[a]));
                assert(pairs.contains(ev[a]));
                let t = choose|t: int| 0 <= t < pairs.len() && pairs[t] == ev[a];
            }
            assert forall|a: int| 0 <= a < idx@.len() implies idx@[a] == nodes@[a].0 by {
                assert(zip_columns(idx@, labels@)[a] == nodes@[a]);
            }
            assert forall|a: int, b: int| 0 <= a < b < idx@.len() implies entry_lt(
                (idx@[a], gm.node(idx@[a] as int).label@),
                (idx@[b], gm.node(idx@[b] as int).label@),
            ) by {
                assert(entry_lt(entry_view(nodes@[a]), entry_view(nodes@[b])));
                assert(nodes@[a].1@ == gm.node(nodes@[a].0 as int).label@);
                assert(nodes@[b].1@ == gm.node(nodes@[b].0 as int).label@);
            }
            // pairs_of with the trivial filter lists every live node
            assert(pairs.len() == ln.len());
            assert forall|i: int| #[trigger] gm.is_node(i) implies idx@.contains(i as usize) by {
                assert(ln.contains(i as usize));
                let q = choose|q: int| 0 <= q < ln.len() && ln[q] == i as usize;
                assert(pairs[q].0 == i as usize);
                assert(pairs.contains(pairs[q]));
                assert(ev.contains(pairs[q]));
                let a = choose|a: int| 0 <= a < ev.len() && ev[a] == pairs[q];
                assert(idx@[a] == i as usize);
            }
        }
        Order(idx)
    }
}

} // verus!
