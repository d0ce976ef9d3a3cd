use vstd::prelude::*;
use vstd::std_specs::cmp::PartialEqSpec;

use crate::graph::{GraphModel, lemma_live_indices, lemma_with_node_frame, lemma_without_node_frame};
use crate::graph_state::{
    ObservableGraph, ObservableNode, ObservableNodeType, ObservedGraph, StateGraph, StateNode,
};
use crate::heatmap::{
    all_nodes, by_name, collect_kind, collect_names, compute_generic_heatmap_data,
    compute_observable_heatmap_data, entries_view, is_generic_heatmap, is_observable_heatmap, kind_is,
    lemma_pairs_complete, lemma_pairs_increasing, lemma_pairs_members, lemma_sorted_collection,
    pairs_of, split_pairs, zip_columns, HeatmapData,
};
use crate::names::{entry_lt, entry_view, sort_by_name};
use crate::text::{decimal, push_decimal};
use crate::versioned::{next_version, Versioned};
use crate::graph_state::{default_observable_graph, default_state_graph, is_default_observable_graph, is_default_state_graph};
use crate::graph_view::{is_display_of, setup_observable_graph_display, setup_state_graph_display};
use crate::serialization::{graphs_from_serializable, lemma_dense_indices, loads_as, loads_observable_as, project_in_range, SerializableState};
use vstd::string::StringExecFns;

verus! {

// ------------------------------------------------------------------
// Keeping the Source nodes in step with the state graph
// ------------------------------------------------------------------

/// Some pair among `pairs` has the name `nm`.
pub open spec fn lists_name(pairs: Seq<(usize, Seq<char>)>, nm: Seq<char>) -> bool {
    exists|k: int| 0 <= k < pairs.len() && #[trigger] pairs[k].1 == nm
}

/// (index, name) of the state nodes, in index order.
pub open spec fn state_pairs<W>(t: GraphModel<StateNode<W>, W>) -> Seq<(usize, Seq<char>)> {
    pairs_of(t, t.node_indices(), all_nodes(), by_name())
}

/// (index, name) of the Source nodes, in index order.
pub open spec fn source_pairs<W>(s: GraphModel<ObservableNode, W>) -> Seq<(usize, Seq<char>)> {
    pairs_of(s, s.node_indices(), kind_is(ObservableNodeType::Source), by_name())
}

/// Node `y` is a live Source named `nm`.
pub open spec fn is_source_named<W>(g: GraphModel<ObservableNode, W>, y: int, nm: Seq<char>) -> bool {
    &&& g.is_node(y)
    &&& g.node(y).payload.node_type == ObservableNodeType::Source
    &&& g.node(y).payload.name@ == nm
}

/// The Source node that mirrors state node `i`.
pub open spec fn mirror_source<W>(t: GraphModel<StateNode<W>, W>, i: usize) -> ObservableNode {
    ObservableNode {
        name: t.node(i as int).payload.name,
        node_type: ObservableNodeType::Source,
        state_node_idx: Some(i),
    }
}

/// `g` after adding, for each state node among `ln` in turn whose name no pair
/// of `src` has, a Source node that mirrors it, labelled with its name.
pub open spec fn add_missing_sources<W>(
    g: GraphModel<ObservableNode, W>,
    t: GraphModel<StateNode<W>, W>,
    ln: Seq<usize>,
    src: Seq<(usize, Seq<char>)>,
) -> GraphModel<ObservableNode, W>
    decreases ln.len(),
{
    if ln.len() == 0 {
        g
    } else {
        let g1 = add_missing_sources(g, t, ln.drop_last(), src);
        let i = ln.last();
        if lists_name(src, t.node(i as int).payload.name@) {
            g1
        } else {
            g1.with_node(mirror_source(t, i), t.node(i as int).payload.name)
        }
    }
}

/// `g` after removing, for each pair of `src` in turn whose name no pair of
/// `names` has, the node it indexes.
pub open spec fn remove_stale_sources<W>(
    g: GraphModel<ObservableNode, W>,
    src: Seq<(usize, Seq<char>)>,
    names: Seq<(usize, Seq<char>)>,
) -> GraphModel<ObservableNode, W>
    decreases src.len(),
{
    if src.len() == 0 {
        g
    } else {
        let g1 = remove_stale_sources(g, src.drop_last(), names);
        if lists_name(names, src.last().1) {
            g1
        } else {
            g1.without_node(src.last().0)
        }
    }
}

/// The observable graph `s` brought in step with the state graph `t`.
pub open spec fn synced_sources<W>(
    t: GraphModel<StateNode<W>, W>,
    s: GraphModel<ObservableNode, W>,
) -> GraphModel<ObservableNode, W> {
    remove_stale_sources(
        add_missing_sources(s, t, t.node_indices(), source_pairs(s)),
        source_pairs(s),
        state_pairs(t),
    )
}

/// Whether some pair of `pairs` has the name of `name`.
pub(crate) fn name_listed(pairs: &Vec<(usize, String)>, name: &String) -> (b: bool)
    ensures
        b == lists_name(entries_view(pairs@), name@),
{
    let mut k: usize = 0;
    while k < pairs.len()
        invariant
            k <= pairs@.len(),
            forall|q: int| 0 <= q < k ==> (#[trigger] entries_view(pairs@)[q]).1 != name@,
        decreases pairs@.len() - k,
    {
        if pairs[k].1 == *name {
            assert(entries_view(pairs@)[k as int].1 == name@);
            return true;
        }
        k += 1;
    }
    false
}

/// The observable graph brought in step with the state graph: a Source node is
/// added, labelled with its name, for each state whose name no Source has, and
/// each Source whose name no state has is removed with its edges.
/// Afterwards the Source names are exactly the state names, and the
/// Destination nodes are those of `observable_graph`.
#[verifier::spinoff_prover]
#[verifier::rlimit(30)]
pub fn sync_source_nodes_display<W: Copy>(
    state_graph: &StateGraph<W>,
    observable_graph: &ObservableGraph<W>,
) -> (r: ObservableGraph<W>)
    requires
        state_graph@.wf(),
        observable_graph@.wf(),
    ensures
        r@.wf(),
        r@ == synced_sources(state_graph@, observable_graph@),
        forall|y: int|
            r@.is_node(y) && #[trigger] r@.node(y).payload.node_type == ObservableNodeType::Source
                ==> lists_name(state_pairs(state_graph@), r@.node(y).payload.name@),
        forall|i: int|
            #[trigger] state_graph@.is_node(i) ==> exists|y: int|
                #[trigger] is_source_named(r@, y, state_graph@.node(i).payload.name@),
        forall|y: int|
            (#[trigger] r@.is_node(y) && r@.node(y).payload.node_type == ObservableNodeType::Destination)
                <==> (observable_graph@.is_node(y) && observable_graph@.node(y).payload.node_type
                == ObservableNodeType::Destination),
        forall|y: int|
            r@.is_node(y) && r@.node(y).payload.node_type == ObservableNodeType::Destination
                ==> #[trigger] r@.node(y) == observable_graph@.node(y),
{
    let ghost t = state_graph@;
    let ghost s = observable_graph@;
    let mut synced = observable_graph.duplicate();
    let dyn_nodes = collect_names(state_graph);
    let source_nodes = collect_kind(observable_graph, ObservableNodeType::Source, false);
    let ghost dynp = entries_view(dyn_nodes@);
    let ghost srcp = entries_view(source_nodes@);
    let ln = state_graph.node_indices();
    proof {
        state_graph.lemma_bounds();
        observable_graph.lemma_bounds();
        lemma_live_indices(t.nodes);
        lemma_live_indices(s.nodes);
        lemma_pairs_members(t, ln@, all_nodes(), by_name());
        lemma_pairs_members(s, s.node_indices(), kind_is(ObservableNodeType::Source), by_name());
        lemma_pairs_increasing(s, s.node_indices(), kind_is(ObservableNodeType::Source), by_name());
        lemma_pairs_complete(s, s.node_indices(), kind_is(ObservableNodeType::Source), by_name());
        assert(dynp == state_pairs(t));
        assert(srcp == source_pairs(s));
        assert(forall|k: int| 0 <= k < ln@.len() ==> #[trigger] all_nodes::<StateNode<W>>()(t.node(ln@[k] as int)));
        assert forall|p: int| 0 <= p < srcp.len() implies #[trigger] s.is_node(srcp[p].0 as int) by {
            let ls = s.node_indices();
            assert(ls.contains(srcp[p].0));
            let j = choose|j: int| 0 <= j < ls.len() && ls[j] == srcp[p].0;
            assert(crate::graph::occupied(s.nodes, ls[j] as int));
        }
    }
    // Add a Source for each state whose name no Source has.
    let ghost mut wit: Seq<int> = Seq::empty();
    let mut k: usize = 0;
    while k < ln.len()
        invariant
            t == state_graph@,
            s == observable_graph@,
            t.wf(),
            s.wf(),
            ln@ == t.node_indices(),
            forall|q: int| 0 <= q < ln@.len() ==> #[trigger] t.is_node(ln@[q] as int),
            dynp == state_pairs(t),
            dynp.len() == ln@.len(),
            forall|q: int| 0 <= q < ln@.len() ==> #[trigger] dynp[q].0 == ln@[q],
            forall|q: int| 0 <= q < dynp.len() ==> (#[trigger] dynp[q]).1 == t.node(dynp[q].0 as int).payload.name@,
            srcp == entries_view(source_nodes@),
            srcp == source_pairs(s),
            forall|p: int| 0 <= p < srcp.len() ==> #[trigger] s.is_node(srcp[p].0 as int),
            forall|p: int|
                0 <= p < srcp.len() ==> (#[trigger] srcp[p]).1 == s.node(srcp[p].0 as int).payload.name@
                    && s.node(srcp[p].0 as int).payload.node_type == ObservableNodeType::Source,
            k <= ln@.len(),
            synced@.wf(),
            synced@ == add_missing_sources(s, t, ln@.take(k as int), srcp),
            forall|y: int| #[trigger] s.is_node(y) ==> synced@.is_node(y) && synced@.node(y) == s.node(y),
            forall|y: int|
                #[trigger] synced@.is_node(y) && !s.is_node(y) ==> synced@.node(y).payload.node_type
                    == ObservableNodeType::Source && lists_name(dynp, synced@.node(y).payload.name@),
            wit.len() == k,
            forall|q: int| 0 <= q < k ==> #[trigger] is_source_named(synced@, wit[q], dynp[q].1),
        decreases ln@.len() - k,
    {
        let i = ln[k];
        assert(t.is_node(ln@[k as int] as int));
        let node = state_graph.node(i).unwrap();
        let ghost g0 = synced@;
        let ghost nm = t.node(i as int).payload.name;
        assert(ln@.take(k + 1).drop_last() =~= ln@.take(k as int));
        assert(ln@.take(k + 1).last() == i);
        assert(dynp[k as int].1 == nm@);
        let listed = name_listed(&source_nodes, &node.payload.name);
        if !listed {
            let payload = ObservableNode {
                name: node.payload.name.clone(),
                node_type: ObservableNodeType::Source,
                state_node_idx: Some(i),
            };
            proof {
                synced.lemma_bounds();
                lemma_with_node_frame(g0, payload, nm);
            }
            let y = synced.add_node(payload, node.payload.name.clone());
            proof {
                let g1 = synced@;
                assert(is_source_named(g1, y as int, dynp[k as int].1));
                assert forall|q: int| 0 <= q < k implies #[trigger] is_source_named(g1, wit[q], dynp[q].1) by {
                    assert(is_source_named(g0, wit[q], dynp[q].1));
                    assert(g0.is_node(wit[q]));
                }
                wit = wit.push(y as int);
                assert forall|z: int| #[trigger] g1.is_node(z) && !s.is_node(z) implies g1.node(z).payload.node_type
                    == ObservableNodeType::Source && lists_name(dynp, g1.node(z).payload.name@) by {
                    if z != y as int {
                        assert(g0.is_node(z));
                    } else {
                        assert(dynp[k as int].1 == g1.node(z).payload.name@);
                    }
                }
            }
        } else {
            proof {
                let q0 = choose|q0: int| 0 <= q0 < srcp.len() && #[trigger] srcp[q0].1 == nm@;
                let z = srcp[q0].0 as int;
                assert(s.is_node(z));
                assert(is_source_named(synced@, z, dynp[k as int].1));
                wit = wit.push(z);
            }
        }
        k += 1;
    }
    assert(ln@.take(k as int) =~= ln@);
    let ghost gadd = synced@;
    // Remove each Source whose name no state has.
    let mut q: usize = 0;
    while q < source_nodes.len()
        invariant
            t == state_graph@,
            s == observable_graph@,
            s.wf(),
            dynp == entries_view(dyn_nodes@),
            dynp == state_pairs(t),
            srcp == entries_view(source_nodes@),
            srcp == source_pairs(s),
            forall|p: int| 0 <= p < srcp.len() ==> #[trigger] s.is_node(srcp[p].0 as int),
            forall|p: int|
                0 <= p < srcp.len() ==> (#[trigger] srcp[p]).1 == s.node(srcp[p].0 as int).payload.name@
                    && s.node(srcp[p].0 as int).payload.node_type == ObservableNodeType::Source,
            q <= srcp.len(),
            gadd == add_missing_sources(s, t, t.node_indices(), srcp),
            ln@ == t.node_indices(),
            dynp.len() == ln@.len(),
            forall|p: int| 0 <= p < ln@.len() ==> #[trigger] dynp[p].0 == ln@[p],
            forall|p: int| 0 <= p < dynp.len() ==> (#[trigger] dynp[p]).1 == t.node(dynp[p].0 as int).payload.name@,
            wit.len() == ln@.len(),
            forall|p: int| 0 <= p < ln@.len() ==> #[trigger] is_source_named(gadd, wit[p], dynp[p].1),
            forall|y: int|
                #[trigger] gadd.is_node(y) && !s.is_node(y) ==> gadd.node(y).payload.node_type
                    == ObservableNodeType::Source && lists_name(dynp, gadd.node(y).payload.name@),
            forall|y: int| #[trigger] s.is_node(y) ==> gadd.is_node(y) && gadd.node(y) == s.node(y),
            synced@.wf(),
            synced@ == remove_stale_sources(gadd, srcp.take(q as int), dynp),
            forall|y: int| #[trigger] synced@.is_node(y) ==> gadd.is_node(y) && synced@.node(y) == gadd.node(y),
            forall|y: int|
                gadd.is_node(y) && !(#[trigger] synced@.is_node(y)) ==> s.is_node(y) && s.node(y).payload.node_type
                    == ObservableNodeType::Source && !lists_name(dynp, s.node(y).payload.name@),
            forall|p: int|
                0 <= p < q && !lists_name(dynp, (#[trigger] srcp[p]).1) ==> !synced@.is_node(srcp[p].0 as int),
        decreases srcp.len() - q,
    {
        let x = source_nodes[q].0;
        let ghost g0 = synced@;
        assert(srcp.take(q + 1).drop_last() =~= srcp.take(q as int));
        assert(srcp.take(q + 1).last() == srcp[q as int]);
        assert(srcp[q as int].0 == x);
        let listed = name_listed(&dyn_nodes, &source_nodes[q].1);
        if !listed {
            synced.remove_node(x);
            proof {
                lemma_without_node_frame(g0, x);
                assert(s.is_node(x as int));
            }
        }
        q += 1;
    }
    assert(srcp.take(q as int) =~= srcp);
    proof {
        let r = synced@;
        lemma_live_indices(t.nodes);
        lemma_live_indices(s.nodes);
        lemma_pairs_members(t, ln@, all_nodes(), by_name());
        lemma_pairs_complete(s, s.node_indices(), kind_is(ObservableNodeType::Source), by_name());
        assert forall|y: int| r.is_node(y) && #[trigger] r.node(y).payload.node_type == ObservableNodeType::Source
            implies lists_name(dynp, r.node(y).payload.name@) by {
            assert(gadd.is_node(y));
            if s.is_node(y) {
                if !lists_name(dynp, r.node(y).payload.name@) {
                    assert(s.node(y).payload.node_type == ObservableNodeType::Source);
                    assert(kind_is(ObservableNodeType::Source)(s.node(y)));
                    assert(s.node_indices().contains(y as usize));
                    let k0 = choose|k0: int| 0 <= k0 < s.node_indices().len() && s.node_indices()[k0] == y as usize;
                    assert(kind_is(ObservableNodeType::Source)(s.node(s.node_indices()[k0] as int)));
                    assert(srcp.contains((y as usize, by_name::<ObservableNode>()(s.node(y)))));
                    let p = choose|p: int| 0 <= p < srcp.len() && srcp[p] == (y as usize, by_name::<ObservableNode>()(s.node(y)));
                    assert(!r.is_node(srcp[p].0 as int));
                }
            }
        }
        assert forall|i: int| #[trigger] t.is_node(i) implies exists|y: int| #[trigger] is_source_named(r, y, t.node(i).payload.name@) by {
            assert(t.node_indices().contains(i as usize));
            assert(ln@.contains(i as usize));
            let k0 = choose|k0: int| 0 <= k0 < ln@.len() && ln@[k0] == i as usize;
            assert(dynp[k0].0 == i as usize);
            let y = wit[k0];
            assert(is_source_named(gadd, y, dynp[k0].1));
            if !r.is_node(y) {
                assert(lists_name(dynp, dynp[k0].1));
            }
            assert(is_source_named(r, y, t.node(i).payload.name@));
        }
        assert forall|y: int|
            (#[trigger] synced@.is_node(y) && synced@.node(y).payload.node_type == ObservableNodeType::Destination)
                <==> (observable_graph@.is_node(y) && observable_graph@.node(y).payload.node_type
                == ObservableNodeType::Destination) by {
            if s.is_node(y) && s.node(y).payload.node_type == ObservableNodeType::Destination {
                assert(gadd.is_node(y));
                if !r.is_node(y) {
                    assert(s.node(y).payload.node_type == ObservableNodeType::Source);
                }
                assert(r.node(y) == gadd.node(y));
            }
            if r.is_node(y) && r.node(y).payload.node_type == ObservableNodeType::Destination {
                assert(gadd.is_node(y));
                assert(r.node(y) == gadd.node(y));
                if !s.is_node(y) {
                    assert(gadd.node(y).payload.node_type == ObservableNodeType::Source);
                }
                assert(gadd.node(y) == s.node(y));
            }
        }
    }
    synced
}


// ------------------------------------------------------------------
// Editor modes and layout resets
// ------------------------------------------------------------------

/// Whether the canvas edits nodes or edges.
#[derive(Clone, Copy, PartialEq, Eq, Debug, Structural)]
pub enum EditMode {
    NodeEditor,
    EdgeEditor,
}

/// The tab shown.
#[derive(Clone, Copy, PartialEq, Eq, Debug, Structural)]
pub enum ActiveTab {
    DynamicalSystem,
    ObservableEditor,
    ObservedDynamics,
}

/// Tracks when a layout must be reset: it remembers the last version key it
/// acknowledged and runs the reset when a different key comes.
pub struct LayoutReset<K> {
    last_acked: Option<K>,
}

impl<K: PartialEq> LayoutReset<K> {
    /// The last key acknowledged.
    pub closed spec fn acked(&self) -> Option<K> {
        self.last_acked
    }

    /// Whether `key` differs from the last key acknowledged.
    pub open spec fn changes(&self, key: K) -> bool {
        match self.acked() {
            Some(k) => !k.eq_spec(&key),
            None => true,
        }
    }

    /// No key acknowledged yet.
    pub fn new() -> (r: Self)
        ensures
            r.acked() is None,
    {
        LayoutReset { last_acked: None }
    }

    /// Runs `f` and acknowledges `current_key` when it differs from the last
    /// key acknowledged; otherwise does nothing.
    pub fn run_if_layout_changed<F: FnOnce()>(&mut self, current_key: K, f: F)
        requires
            call_requires(f, ()),
        ensures
            K::obeys_eq_spec() && old(self).changes(current_key) ==> final(self).acked() == Some(current_key)
                && call_ensures(f, (), ()),
            K::obeys_eq_spec() && !old(self).changes(current_key) ==> final(self).acked() == old(self).acked(),
            final(self).acked() == old(self).acked() || final(self).acked() == Some(current_key),
            old(self).acked() is None ==> final(self).acked() == Some(current_key) && call_ensures(f, (), ()),
    {
        let changed = match &self.last_acked {
            Some(k) => *k != current_key,
            None => true,
        };
        if changed {
            f();
            self.last_acked = Some(current_key);
        }
    }
}

/// Version key of the state tab: the versions of what its layout depends on.
#[derive(Clone, Copy, Debug)]
pub struct StateVersionKey {
    pub graph: u64,
    pub circular_visuals: u64,
    pub label_visibility: u64,
}

impl PartialEq for StateVersionKey {
    fn eq(&self, other: &Self) -> (r: bool) {
        self.graph == other.graph && self.circular_visuals == other.circular_visuals && self.label_visibility == other.label_visibility
    }
}

impl vstd::std_specs::cmp::PartialEqSpecImpl for StateVersionKey {
    open spec fn obeys_eq_spec() -> bool {
        true
    }

    open spec fn eq_spec(&self, other: &Self) -> bool {
        self.graph == other.graph && self.circular_visuals == other.circular_visuals && self.label_visibility == other.label_visibility
    }
}

/// Version key of the observable tab.
#[derive(Clone, Copy, Debug)]
pub struct ObservableVersionKey {
    pub graph: u64,
    pub bipartite_visuals: u64,
    pub label_visibility: u64,
}

impl PartialEq for ObservableVersionKey {
    fn eq(&self, other: &Self) -> (r: bool) {
        self.graph == other.graph && self.bipartite_visuals == other.bipartite_visuals && self.label_visibility == other.label_visibility
    }
}

impl vstd::std_specs::cmp::PartialEqSpecImpl for ObservableVersionKey {
    open spec fn obeys_eq_spec() -> bool {
        true
    }

    open spec fn eq_spec(&self, other: &Self) -> bool {
        self.graph == other.graph && self.bipartite_visuals == other.bipartite_visuals && self.label_visibility == other.label_visibility
    }
}

/// Version key of the observed tab.
#[derive(Clone, Copy, Debug)]
pub struct ObservedVersionKey {
    pub graph: u64,
    pub circular_visuals: u64,
    pub label_visibility: u64,
}

impl PartialEq for ObservedVersionKey {
    fn eq(&self, other: &Self) -> (r: bool) {
        self.graph == other.graph && self.circular_visuals == other.circular_visuals && self.label_visibility == other.label_visibility
    }
}

impl vstd::std_specs::cmp::PartialEqSpecImpl for ObservedVersionKey {
    open spec fn obeys_eq_spec() -> bool {
        true
    }

    open spec fn eq_spec(&self, other: &Self) -> bool {
        self.graph == other.graph && self.circular_visuals == other.circular_visuals && self.label_visibility == other.label_visibility
    }
}


// ------------------------------------------------------------------
// Editors
// ------------------------------------------------------------------

/// The node whose weight is being typed, and the text typed so far.
pub struct NumberEditor {
    node: Option<usize>,
    value: String,
}

impl View for NumberEditor {
    type V = (Option<usize>, Seq<char>);

    closed spec fn view(&self) -> (Option<usize>, Seq<char>) {
        (self.node, self.value@)
    }
}

impl NumberEditor {
    /// No node, empty text.
    pub fn new() -> (r: Self)
        ensures
            r@ == (None::<usize>, Seq::<char>::empty()),
    {
        NumberEditor { node: None, value: String::new() }
    }

    /// The node being edited.
    pub fn node(&mut self) -> (r: Option<usize>)
        ensures
            r == old(self)@.0,
            final(self)@ == old(self)@,
    {
        self.node
    }

    /// The text typed so far.
    pub fn value(&mut self) -> (r: String)
        ensures
            r@ == old(self)@.1,
            final(self)@ == old(self)@,
    {
        self.value.clone()
    }

    /// Starts editing `node` with the text `value`.
    pub fn focus(&mut self, node: usize, value: String)
        ensures
            final(self)@ == (Some(node), value@),
    {
        self.node = Some(node);
        self.value = value;
    }
}

/// The node whose label is being typed, and the text typed so far.
pub struct StringEditor {
    node: Option<usize>,
    value: String,
}

impl View for StringEditor {
    type V = (Option<usize>, Seq<char>);

    closed spec fn view(&self) -> (Option<usize>, Seq<char>) {
        (self.node, self.value@)
    }
}

impl StringEditor {
    /// No node, empty text.
    pub fn new() -> (r: Self)
        ensures
            r@ == (None::<usize>, Seq::<char>::empty()),
    {
        StringEditor { node: None, value: String::new() }
    }

    /// The node being edited.
    pub fn node(&self) -> (r: Option<usize>)
        ensures
            r == self@.0,
    {
        self.node
    }

    /// The text typed so far.
    pub fn value(&self) -> (r: String)
        ensures
            r@ == self@.1,
    {
        self.value.clone()
    }

    /// Starts editing `node` with the text `value`.
    pub fn focus(&mut self, node: usize, value: String)
        ensures
            final(self)@ == (Some(node), value@),
    {
        self.node = Some(node);
        self.value = value;
    }
}

// ------------------------------------------------------------------
// Validation messages
// ------------------------------------------------------------------

/// How many validation messages a graph store keeps.
pub const MAX_VALIDATION_EVENTS: usize = 50;

/// The last `n` items of `s`, or all of them when there are fewer.
pub open spec fn keep_last<T>(s: Seq<T>, n: nat) -> Seq<T> {
    if s.len() > n {
        s.skip(s.len() - n)
    } else {
        s
    }
}

/// `events` with `message` appended, keeping the last `MAX_VALIDATION_EVENTS`.
fn appended_capped(events: &Vec<String>, message: String) -> (r: Vec<String>)
    ensures
        r@ == keep_last(events@.push(message), MAX_VALIDATION_EVENTS as nat),
{
    let n = events.len();
    let start: usize = if n >= MAX_VALIDATION_EVENTS { n - (MAX_VALIDATION_EVENTS - 1) } else { 0 };
    let mut r: Vec<String> = Vec::new();
    let mut k: usize = start;
    while k < n
        invariant
            start <= k <= n,
            n == events@.len(),
            r@ == events@.subrange(start as int, k as int),
        decreases n - k,
    {
        r.push(events[k].clone());
        assert(events@.subrange(start as int, k + 1) =~= events@.subrange(start as int, k as int).push(events@[k as int]));
        k += 1;
    }
    let ghost pre = r@;
    r.push(message);
    assert(r@ =~= keep_last(events@.push(message), MAX_VALIDATION_EVENTS as nat));
    r
}

// ------------------------------------------------------------------
// Graph stores
// ------------------------------------------------------------------

/// The state graph with what its tab displays.
pub struct StateGraphStore<W, V> {
    pub graph: Versioned<StateGraph<W>>,
    pub circular_visuals: Versioned<V>,
    pub label_visibility: Versioned<bool>,
    pub validation_events: Versioned<Vec<String>>,
    pub layout_reset: LayoutReset<StateVersionKey>,
}

impl<W, V> StateGraphStore<W, V> {
    /// The key last acknowledged by the layout reset.
    pub open spec fn layout_acked(&self) -> Option<StateVersionKey> {
        self.layout_reset.acked()
    }

    /// The current version key.
    pub open spec fn key(&self) -> StateVersionKey {
        StateVersionKey {
            graph: self.graph.spec_version(),
            circular_visuals: self.circular_visuals.spec_version(),
            label_visibility: self.label_visibility.spec_version(),
        }
    }

    /// A store at version 0 throughout, labels shown, no message, no layout acknowledged.
    pub fn new(graph: StateGraph<W>, circular_visuals: V) -> (r: Self)
        ensures
            r.graph.value() == graph,
            r.circular_visuals.value() == circular_visuals,
            r.label_visibility.value(),
            r.validation_events.value()@.len() == 0,
            r.graph.spec_version() == 0,
            r.circular_visuals.spec_version() == 0,
            r.label_visibility.spec_version() == 0,
            r.validation_events.spec_version() == 0,
            r.layout_acked() is None,
    {
        StateGraphStore {
            graph: Versioned::new(graph),
            circular_visuals: Versioned::new(circular_visuals),
            label_visibility: Versioned::new(true),
            validation_events: Versioned::new(Vec::new()),
            layout_reset: LayoutReset::new(),
        }
    }

    /// The versions of the graph, the visuals and the label visibility.
    pub fn version_key(&self) -> (r: StateVersionKey)
        ensures
            r == self.key(),
    {
        StateVersionKey {
            graph: self.graph.version(),
            circular_visuals: self.circular_visuals.version(),
            label_visibility: self.label_visibility.version(),
        }
    }

    /// Runs `f` when the version key differs from the one last acknowledged,
    /// and then acknowledges it.
    pub fn run_if_layout_changed<F: FnOnce()>(&mut self, f: F)
        requires
            call_requires(f, ()),
        ensures
            old(self).layout_acked() != Some(old(self).key()) ==> final(self).layout_acked() == Some(old(self).key())
                && call_ensures(f, (), ()),
            old(self).layout_acked() == Some(old(self).key()) ==> final(self).layout_acked() == old(self).layout_acked(),
            final(self).graph == old(self).graph,
            final(self).circular_visuals == old(self).circular_visuals,
            final(self).label_visibility == old(self).label_visibility,
            final(self).validation_events == old(self).validation_events,
    {
        let key = self.version_key();
        self.layout_reset.run_if_layout_changed(key, f);
    }

    /// Appends a validation message, keeping the last `MAX_VALIDATION_EVENTS`.
    pub fn push_validation_error(&mut self, message: String)
        ensures
            final(self).validation_events.value()@ == keep_last(
                old(self).validation_events.value()@.push(message),
                MAX_VALIDATION_EVENTS as nat,
            ),
            final(self).validation_events.spec_version() == next_version(old(self).validation_events.spec_version()),
            final(self).graph == old(self).graph,
            final(self).circular_visuals == old(self).circular_visuals,
            final(self).label_visibility == old(self).label_visibility,
            final(self).layout_acked() == old(self).layout_acked(),
    {
        let events = appended_capped(self.validation_events.get(), message);
        self.validation_events.set(events);
    }

    /// The validation messages kept.
    pub fn validation_event_messages(&self) -> (r: &Vec<String>)
        ensures
            *r == self.validation_events.value(),
    {
        self.validation_events.get()
    }
}

/// The observable graph with what its tab displays.
pub struct ObservableGraphStore<W, V> {
    pub graph: Versioned<ObservableGraph<W>>,
    pub bipartite_visuals: Versioned<V>,
    pub label_visibility: Versioned<bool>,
    pub validation_events: Versioned<Vec<String>>,
    pub layout_reset: LayoutReset<ObservableVersionKey>,
}

impl<W, V> ObservableGraphStore<W, V> {
    /// The key last acknowledged by the layout reset.
    pub open spec fn layout_acked(&self) -> Option<ObservableVersionKey> {
        self.layout_reset.acked()
    }

    /// The current version key.
    pub open spec fn key(&self) -> ObservableVersionKey {
        ObservableVersionKey {
            graph: self.graph.spec_version(),
            bipartite_visuals: self.bipartite_visuals.spec_version(),
            label_visibility: self.label_visibility.spec_version(),
        }
    }

    /// A store at version 0 throughout, labels shown, no message, no layout acknowledged.
    pub fn new(graph: ObservableGraph<W>, bipartite_visuals: V) -> (r: Self)
        ensures
            r.graph.value() == graph,
            r.bipartite_visuals.value() == bipartite_visuals,
            r.label_visibility.value(),
            r.validation_events.value()@.len() == 0,
            r.graph.spec_version() == 0,
            r.bipartite_visuals.spec_version() == 0,
            r.label_visibility.spec_version() == 0,
            r.validation_events.spec_version() == 0,
            r.layout_acked() is None,
    {
        ObservableGraphStore {
            graph: Versioned::new(graph),
            bipartite_visuals: Versioned::new(bipartite_visuals),
            label_visibility: Versioned::new(true),
            validation_events: Versioned::new(Vec::new()),
            layout_reset: LayoutReset::new(),
        }
    }

    /// The versions of the graph, the visuals and the label visibility.
    pub fn version_key(&self) -> (r: ObservableVersionKey)
        ensures
            r == self.key(),
    {
        ObservableVersionKey {
            graph: self.graph.version(),
            bipartite_visuals: self.bipartite_visuals.version(),
            label_visibility: self.label_visibility.version(),
        }
    }

    /// Runs `f` when the version key differs from the one last acknowledged,
    /// and then acknowledges it.
    pub fn run_if_layout_changed<F: FnOnce()>(&mut self, f: F)
        requires
            call_requires(f, ()),
        ensures
            old(self).layout_acked() != Some(old(self).key()) ==> final(self).layout_acked() == Some(old(self).key())
                && call_ensures(f, (), ()),
            old(self).layout_acked() == Some(old(self).key()) ==> final(self).layout_acked() == old(self).layout_acked(),
            final(self).graph == old(self).graph,
            final(self).bipartite_visuals == old(self).bipartite_visuals,
            final(self).label_visibility == old(self).label_visibility,
            final(self).validation_events == old(self).validation_events,
    {
        let key = self.version_key();
        self.layout_reset.run_if_layout_changed(key, f);
    }

    /// Appends a validation message, keeping the last `MAX_VALIDATION_EVENTS`.
    pub fn push_validation_error(&mut self, message: String)
        ensures
            final(self).validation_events.value()@ == keep_last(
                old(self).validation_events.value()@.push(message),
                MAX_VALIDATION_EVENTS as nat,
            ),
            final(self).validation_events.spec_version() == next_version(old(self).validation_events.spec_version()),
            final(self).graph == old(self).graph,
            final(self).bipartite_visuals == old(self).bipartite_visuals,
            final(self).label_visibility == old(self).label_visibility,
            final(self).layout_acked() == old(self).layout_acked(),
    {
        let events = appended_capped(self.validation_events.get(), message);
        self.validation_events.set(events);
    }

    /// The validation messages kept.
    pub fn validation_event_messages(&self) -> (r: &Vec<String>)
        ensures
            *r == self.validation_events.value(),
    {
        self.validation_events.get()
    }
}

/// What the observed tab displays; the observed graph itself is computed on demand.
pub struct ObservedGraphStore<V> {
    pub circular_visuals: Versioned<V>,
    pub label_visibility: Versioned<bool>,
    pub layout_reset: LayoutReset<ObservedVersionKey>,
    pub observed_graph_dirty: bool,
}

impl<V> ObservedGraphStore<V> {
    /// The key last acknowledged by the layout reset.
    pub open spec fn layout_acked(&self) -> Option<ObservedVersionKey> {
        self.layout_reset.acked()
    }

    /// The version key for an observed graph at `observed_graph_version`.
    pub open spec fn key(&self, observed_graph_version: u64) -> ObservedVersionKey {
        ObservedVersionKey {
            graph: observed_graph_version,
            circular_visuals: self.circular_visuals.spec_version(),
            label_visibility: self.label_visibility.spec_version(),
        }
    }

    /// A store at version 0 throughout, labels shown, not dirty, no layout acknowledged.
    pub fn new(circular_visuals: V) -> (r: Self)
        ensures
            r.circular_visuals.value() == circular_visuals,
            r.label_visibility.value(),
            r.circular_visuals.spec_version() == 0,
            r.label_visibility.spec_version() == 0,
            !r.observed_graph_dirty,
            r.layout_acked() is None,
    {
        ObservedGraphStore {
            circular_visuals: Versioned::new(circular_visuals),
            label_visibility: Versioned::new(true),
            layout_reset: LayoutReset::new(),
            observed_graph_dirty: false,
        }
    }

    /// The observed graph version with the versions of the visuals and the label visibility.
    pub fn version_key(&self, observed_graph_version: u64) -> (r: ObservedVersionKey)
        ensures
            r == self.key(observed_graph_version),
    {
        ObservedVersionKey {
            graph: observed_graph_version,
            circular_visuals: self.circular_visuals.version(),
            label_visibility: self.label_visibility.version(),
        }
    }

    /// Runs `f` when the version key differs from the one last acknowledged,
    /// and then acknowledges it.
    pub fn run_if_layout_changed<F: FnOnce()>(&mut self, observed_graph_version: u64, f: F)
        requires
            call_requires(f, ()),
        ensures
            old(self).layout_acked() != Some(old(self).key(observed_graph_version)) ==> final(self).layout_acked()
                == Some(old(self).key(observed_graph_version)) && call_ensures(f, (), ()),
            old(self).layout_acked() == Some(old(self).key(observed_graph_version)) ==> final(self).layout_acked()
                == old(self).layout_acked(),
            final(self).circular_visuals == old(self).circular_visuals,
            final(self).label_visibility == old(self).label_visibility,
            final(self).observed_graph_dirty == old(self).observed_graph_dirty,
    {
        let key = self.version_key(observed_graph_version);
        self.layout_reset.run_if_layout_changed(key, f);
    }

    /// Marks the observed graph as out of date.
    pub fn mark_dirty(&mut self)
        ensures
            final(self).observed_graph_dirty,
            final(self).circular_visuals == old(self).circular_visuals,
            final(self).label_visibility == old(self).label_visibility,
            final(self).layout_acked() == old(self).layout_acked(),
    {
        self.observed_graph_dirty = true;
    }

    /// Marks the observed graph as up to date.
    pub fn mark_fresh(&mut self)
        ensures
            !final(self).observed_graph_dirty,
            final(self).circular_visuals == old(self).circular_visuals,
            final(self).label_visibility == old(self).label_visibility,
            final(self).layout_acked() == old(self).layout_acked(),
    {
        self.observed_graph_dirty = false;
    }
}


// ------------------------------------------------------------------
// Store
// ------------------------------------------------------------------

/// Everything the editor holds: the three graph stores and the UI state.
/// `W` is the weight type, `P` a screen position, `V` the visual parameters
/// of a layout and `L` the layout settings.
pub struct Store<W, P, V, L> {
    pub state: StateGraphStore<W, V>,
    pub observable: ObservableGraphStore<W, V>,
    pub observed: ObservedGraphStore<V>,
    pub mode: EditMode,
    pub prev_mode: EditMode,
    pub active_tab: ActiveTab,
    pub dragging_from: Option<(usize, P)>,
    pub drag_started: bool,
    pub layout_settings: L,
    pub heatmap_hovered_cell: Option<(usize, usize)>,
    pub heatmap_editing_cell: Option<(usize, usize)>,
    pub heatmap_edit_buffer: String,
    pub weight_editor: NumberEditor,
    pub label_editor: StringEditor,
    pub observed_node_selection: Option<(usize, bool)>,
    pub error_message: Option<String>,
}

/// (name, weight) of the state nodes, sorted by name, ties by index.
pub open spec fn weights_by_name<W>(g: GraphModel<StateNode<W>, W>, r: Seq<(String, W)>) -> bool {
    exists|idx: Seq<usize>|
        {
            &&& #[trigger] idx.len() == r.len()
            &&& idx.len() == g.node_indices().len()
            &&& forall|a: int| 0 <= a < idx.len() ==> #[trigger] g.is_node(idx[a] as int)
            &&& forall|i: int| #[trigger] g.is_node(i) ==> idx.contains(i as usize)
            &&& forall|a: int, b: int| 0 <= a < b < idx.len() ==> entry_lt(
                (idx[a], g.node(idx[a] as int).payload.name@),
                (idx[b], g.node(idx[b] as int).payload.name@),
            )
            &&& forall|a: int|
                0 <= a < idx.len() ==> (#[trigger] r[a]).0@ == g.node(idx[a] as int).payload.name@ && r[a].1
                    == g.node(idx[a] as int).payload.weight
        }
}

/// (name, weight) of each state node, sorted by name (ties by index). The
/// weights are as stored, not normalised.
pub fn collect_state_node_weights<W: Copy>(graph: &StateGraph<W>) -> (r: Vec<(String, W)>)
    requires
        graph@.wf(),
    ensures
        weights_by_name(graph@, r@),
{
    let items = collect_names(graph);
    let ghost items_v = items@;
    let nodes = sort_by_name(items);
    let ghost gm = graph@;
    let ghost ln = gm.node_indices();
    let ghost pairs = pairs_of(gm, ln, all_nodes(), by_name());
    proof {
        graph.lemma_bounds();
        lemma_live_indices(gm.nodes);
        lemma_sorted_collection(gm, all_nodes(), by_name(), items_v, nodes@);
        lemma_pairs_members(gm, ln, all_nodes(), by_name());
        let ev = entries_view(nodes@);
        assert forall|a: int| 0 <= a < nodes@.len() implies #[trigger] nodes@[a].1@ == gm.node(
            nodes@[a].0 as int,
        ).payload.name@ by {
            assert(ev[a] == entry_view(nodes@[a]));
            assert(ev.contains(ev[a]));
            assert(pairs.contains(ev[a]));
            let t = choose|t: int| 0 <= t < pairs.len() && pairs[t] == ev[a];
        }
    }
    let mut r: Vec<(String, W)> = Vec::new();
    let mut k: usize = 0;
    while k < nodes.len()
        invariant
            gm == graph@,
            k <= nodes@.len(),
            r@.len() == k,
            forall|a: int| 0 <= a < nodes@.len() ==> #[trigger] gm.is_node(nodes@[a].0 as int),
            forall|a: int| 0 <= a < k ==> (#[trigger] r@[a]).0 == nodes@[a].1 && r@[a].1 == gm.node(
                nodes@[a].0 as int,
            ).payload.weight,
        decreases nodes@.len() - k,
    {
        let i = nodes[k].0;
        assert(gm.is_node(nodes@[k as int].0 as int));
        let w = graph.node(i).unwrap().payload.weight;
        r.push((nodes[k].1.clone(), w));
        k += 1;
    }
    proof {
        let idx = Seq::new(nodes@.len(), |a: int| nodes@[a].0);
        let ev = entries_view(nodes@);
        assert(pairs.len() == ln.len());
        assert forall|i: int| #[trigger] gm.is_node(i) implies idx.contains(i as usize) by {
            assert(ln.contains(i as usize));
            let q = choose|q: int| 0 <= q < ln.len() && ln[q] == i as usize;
            assert(pairs[q].0 == i as usize);
            assert(pairs.contains(pairs[q]));
            assert(ev.contains(pairs[q]));
            let a = choose|a: int| 0 <= a < ev.len() && ev[a] == pairs[q];
            assert(idx[a] == i as usize);
        }
        assert forall|a: int, b: int| 0 <= a < b < idx.len() implies entry_lt(
            (idx[a], gm.node(idx[a] as int).payload.name@),
            (idx[b], gm.node(idx[b] as int).payload.name@),
        ) by {
            assert(entry_lt(entry_view(nodes@[a]), entry_view(nodes@[b])));
            assert(nodes@[a].1@ == gm.node(nodes@[a].0 as int).payload.name@);
            assert(nodes@[b].1@ == gm.node(nodes@[b].0 as int).payload.name@);
        }
        assert forall|a: int| 0 <= a < idx.len() implies (#[trigger] r@[a]).0@ == gm.node(idx[a] as int).payload.name@
            && r@[a].1 == gm.node(idx[a] as int).payload.weight by {
            assert(nodes@[a].1@ == gm.node(nodes@[a].0 as int).payload.name@);
        }
        assert(idx.len() == r@.len());
    }
    r
}

impl<W, P, V, L> Store<W, P, V, L> {
    /// Both graphs are well formed.
    pub open spec fn wf(&self) -> bool {
        &&& self.state.graph.value()@.wf()
        &&& self.observable.graph.value()@.wf()
    }
}

impl<W: Copy, P, V: Copy, L> Store<W, P, V, L> {

    /// A store for the given graphs and settings, in the node editor on the
    /// dynamical-system tab, with nothing dragged, hovered, edited or selected.
    pub fn new(
        state_graph: StateGraph<W>,
        observable_graph: ObservableGraph<W>,
        observed_graph: ObservedGraph<W>,
        layout_settings: L,
        circular_visuals: V,
        bipartite_visuals: V,
    ) -> (r: Self)
        ensures
            r.state.graph.value() == state_graph,
            r.state.circular_visuals.value() == circular_visuals,
            r.state.label_visibility.value(),
            r.state.validation_events.value()@.len() == 0,
            r.state.graph.spec_version() == 0,
            r.state.circular_visuals.spec_version() == 0,
            r.state.label_visibility.spec_version() == 0,
            r.state.validation_events.spec_version() == 0,
            r.state.layout_acked() is None,
            r.observable.graph.value() == observable_graph,
            r.observable.bipartite_visuals.value() == bipartite_visuals,
            r.observable.label_visibility.value(),
            r.observable.validation_events.value()@.len() == 0,
            r.observable.graph.spec_version() == 0,
            r.observable.bipartite_visuals.spec_version() == 0,
            r.observable.label_visibility.spec_version() == 0,
            r.observable.validation_events.spec_version() == 0,
            r.observable.layout_acked() is None,
            r.observed.circular_visuals.value() == circular_visuals,
            r.observed.label_visibility.value(),
            r.observed.circular_visuals.spec_version() == 0,
            r.observed.label_visibility.spec_version() == 0,
            !r.observed.observed_graph_dirty,
            r.observed.layout_acked() is None,
            r.mode == EditMode::NodeEditor,
            r.prev_mode == EditMode::NodeEditor,
            r.active_tab == ActiveTab::DynamicalSystem,
            r.dragging_from is None,
            !r.drag_started,
            r.layout_settings == layout_settings,
            r.heatmap_hovered_cell is None,
            r.heatmap_editing_cell is None,
            r.heatmap_edit_buffer@.len() == 0,
            r.weight_editor@ == (None::<usize>, Seq::<char>::empty()),
            r.label_editor@ == (None::<usize>, Seq::<char>::empty()),
            r.observed_node_selection is None,
            r.error_message is None,
    {
        Store {
            state: StateGraphStore::new(state_graph, circular_visuals),
            observable: ObservableGraphStore::new(observable_graph, bipartite_visuals),
            observed: ObservedGraphStore::new(circular_visuals),
            mode: EditMode::NodeEditor,
            prev_mode: EditMode::NodeEditor,
            active_tab: ActiveTab::DynamicalSystem,
            dragging_from: None,
            drag_started: false,
            layout_settings,
            heatmap_hovered_cell: None,
            heatmap_editing_cell: None,
            heatmap_edit_buffer: String::new(),
            weight_editor: NumberEditor::new(),
            label_editor: StringEditor::new(),
            observed_node_selection: None,
            error_message: None,
        }
    }

    /// Brings the Source nodes of the observable graph in step with the state
    /// graph (see `sync_source_nodes_display`) and marks the observed graph dirty.
    pub fn sync_source_nodes(&mut self)
        requires
            old(self).wf(),
        ensures
            final(self).wf(),
            final(self).observable.graph.value()@ == synced_sources(
                old(self).state.graph.value()@,
                old(self).observable.graph.value()@,
            ),
            final(self).observable.graph.spec_version() == next_version(old(self).observable.graph.spec_version()),
            final(self).observable == (ObservableGraphStore { graph: final(self).observable.graph, ..old(self).observable }),
            final(self).observed.observed_graph_dirty,
            final(self).observed == (ObservedGraphStore { observed_graph_dirty: true, ..old(self).observed }),
            *final(self) == (Store { observable: final(self).observable, observed: final(self).observed, ..*old(self) }),
    {
        let synced = sync_source_nodes_display(self.state.graph.get(), self.observable.graph.get());
        self.observable.graph.set(synced);
        self.mark_observed_graph_dirty();
    }

    /// Marks the observed graph as up to date.
    pub fn recompute_observed_graph(&mut self)
        ensures
            *final(self) == (Store {
                observed: ObservedGraphStore { observed_graph_dirty: false, ..old(self).observed },
                ..*old(self)
            }),
    {
        self.observed.mark_fresh();
    }

    /// Marks the observed graph as out of date.
    pub fn mark_observed_graph_dirty(&mut self)
        ensures
            *final(self) == (Store {
                observed: ObservedGraphStore { observed_graph_dirty: true, ..old(self).observed },
                ..*old(self)
            }),
    {
        self.observed.mark_dirty();
    }

    /// Makes sure the observed graph is marked up to date.
    pub fn ensure_observed_graph_fresh(&mut self)
        ensures
            *final(self) == (Store {
                observed: ObservedGraphStore { observed_graph_dirty: false, ..old(self).observed },
                ..*old(self)
            }),
    {
        if self.observed.observed_graph_dirty {
            self.recompute_observed_graph();
        }
    }

    /// The heatmap of the state graph.
    pub fn state_heatmap_uncached(&self) -> (r: HeatmapData<W>)
        requires
            self.wf(),
        ensures
            is_generic_heatmap(r, self.state.graph.value()@),
    {
        compute_generic_heatmap_data(self.state.graph.get())
    }

    /// The heatmap of the observable graph.
    pub fn observable_heatmap_uncached(&self) -> (r: HeatmapData<W>)
        requires
            self.wf(),
        ensures
            is_observable_heatmap(r, self.observable.graph.value()@),
    {
        compute_observable_heatmap_data(self.observable.graph.get())
    }

    /// The heatmap of an observed graph.
    pub fn observed_heatmap_from_graph(&self, observed: &ObservedGraph<W>) -> (r: HeatmapData<W>)
        requires
            observed@.wf(),
        ensures
            is_generic_heatmap(r, observed@),
    {
        compute_generic_heatmap_data(observed)
    }

    /// (name, weight) of each state node, sorted by name.
    pub fn state_node_weight_stats(&self) -> (r: Vec<(String, W)>)
        requires
            self.wf(),
        ensures
            weights_by_name(self.state.graph.value()@, r@),
    {
        collect_state_node_weights(self.state.graph.get())
    }

    /// The name of state node `node_idx`, or "Node <index>" when there is no such node.
    pub fn state_node_name(&self, node_idx: usize) -> (r: String)
        ensures
            r@ == if self.state.graph.value()@.is_node(node_idx as int) {
                self.state.graph.value()@.node(node_idx as int).payload.name@
            } else {
                "Node "@ + decimal(node_idx as nat)
            },
    {
        match self.state.graph.get().node(node_idx) {
            Some(node) => node.payload.name.clone(),
            None => {
                let mut text = String::from_str("Node ");
                proof {
                    reveal_strlit("Node ");
                }
                push_decimal(&mut text, node_idx);
                text
            },
        }
    }

    /// The validation messages of the state graph.
    pub fn validation_event_messages_state(&self) -> (r: &Vec<String>)
        ensures
            *r == self.state.validation_events.value(),
    {
        self.state.validation_event_messages()
    }

    /// The validation messages of the observable graph.
    pub fn validation_event_messages_observable(&self) -> (r: &Vec<String>)
        ensures
            *r == self.observable.validation_events.value(),
    {
        self.observable.validation_event_messages()
    }

    /// The versions of both lists of validation messages.
    pub fn validation_error_key(&self) -> (r: (u64, u64))
        ensures
            r == (self.state.validation_events.spec_version(), self.observable.validation_events.spec_version()),
    {
        (self.state.validation_events.version(), self.observable.validation_events.version())
    }

    /// Appends a validation message for the state graph.
    pub fn push_state_validation_error(&mut self, message: String)
        ensures
            final(self).state.validation_events.value()@ == keep_last(
                old(self).state.validation_events.value()@.push(message),
                MAX_VALIDATION_EVENTS as nat,
            ),
            final(self).state.validation_events.spec_version() == next_version(
                old(self).state.validation_events.spec_version(),
            ),
            final(self).state == (StateGraphStore { validation_events: final(self).state.validation_events, ..old(self).state }),
            *final(self) == (Store { state: final(self).state, ..*old(self) }),
    {
        self.state.push_validation_error(message);
    }
}


/// The display graphs of the example system and its example observable.
pub fn default_graphs<W: Copy + From<u8>>() -> (r: (StateGraph<W>, ObservableGraph<W>))
    ensures
        exists|sg: GraphModel<StateNode<W>, W>, og: GraphModel<ObservableNode, W>|
            #[trigger] is_default_state_graph(sg) && #[trigger] is_default_observable_graph(og, sg)
                && is_display_of(r.0@, sg) && is_display_of(r.1@, og),
{
    let state_graph = default_state_graph::<W>();
    proof {
        lemma_dense_indices(state_graph@, 3);
    }
    let observable_graph = default_observable_graph(&state_graph);
    (setup_state_graph_display(&state_graph), setup_observable_graph_display(&observable_graph))
}

impl<W: Copy, P, V: Copy, L> Store<W, P, V, L> {
    /// Replaces both graphs by the display graphs of the graphs stored in
    /// `state`, and marks the observed graph up to date.
    pub fn load_serialized(&mut self, state: &SerializableState<W>)
        requires
            old(self).wf(),
            project_in_range(state.dynamical_system@, state.observable@),
        ensures
            final(self).wf(),
            exists|sg: GraphModel<StateNode<W>, W>, og: GraphModel<ObservableNode, W>|
                #[trigger] loads_as(sg, state.dynamical_system@) && #[trigger] loads_observable_as(og, state.observable@, sg)
                    && is_display_of(final(self).state.graph.value()@, sg) && is_display_of(
                    final(self).observable.graph.value()@,
                    og,
                ),
            final(self).state.graph.spec_version() == next_version(old(self).state.graph.spec_version()),
            final(self).observable.graph.spec_version() == next_version(old(self).observable.graph.spec_version()),
            final(self).state == (StateGraphStore { graph: final(self).state.graph, ..old(self).state }),
            final(self).observable == (ObservableGraphStore { graph: final(self).observable.graph, ..old(self).observable }),
            *final(self) == (Store {
                state: final(self).state,
                observable: final(self).observable,
                observed: ObservedGraphStore { observed_graph_dirty: false, ..old(self).observed },
                ..*old(self)
            }),
    {
        let (state_graph, observable_graph) = graphs_from_serializable(state);
        self.state.graph.set(setup_state_graph_display(&state_graph));
        self.observable.graph.set(setup_observable_graph_display(&observable_graph));
        self.recompute_observed_graph();
    }
}

} // verus!
