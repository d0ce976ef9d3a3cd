use vstd::prelude::*;

use crate::graph::{Graph, GraphModel, keep, lemma_keep, lemma_live_indices, no_dup};
use crate::graph_state::{
    dense, from_u8, plain_edge, plain_node, ObservableGraph, ObservableNode, ObservableNodeType,
    ObservedGraph, ObservedNode,
};
use crate::graph_view::setup_observed_graph_display;
use crate::serialization::{lemma_dense_indices, position_of};
use vstd::std_specs::convert::FromSpec;

verus! {

// ------------------------------------------------------------------
// Specifications
// ------------------------------------------------------------------

/// The predicate "node is a Destination of `g`".
pub open spec fn dest_pred<W>(g: GraphModel<ObservableNode, W>) -> spec_fn(usize) -> bool {
    |x: usize| g.node(x as int).payload.node_type == ObservableNodeType::Destination
}

/// Live Destination nodes of `g`, in index order: the values of the observable.
pub open spec fn observed_destinations<W>(g: GraphModel<ObservableNode, W>) -> Seq<usize> {
    keep(g.node_indices(), dest_pred(g))
}

/// `r` is the observed graph without dynamics: one node per Destination of `g`
/// in index order, with its name, weight zero, unlabelled and unselected, and no edge.
pub open spec fn is_observed_skeleton<W: From<u8>>(
    r: GraphModel<ObservedNode<W>, W>,
    g: GraphModel<ObservableNode, W>,
) -> bool {
    let d = observed_destinations(g);
    &&& r.wf()
    &&& dense(r, d.len(), 0)
    &&& forall|k: int|
        0 <= k < d.len() ==> {
            &&& #[trigger] plain_node(r, k)
            &&& r.node(k).payload.name == g.node(d[k] as int).payload.name
            &&& r.node(k).payload.observable_node_idx == d[k]
            &&& from_u8(r.node(k).payload.weight, 0)
        }
}

/// The weight listed first for `o` in `ws`.
pub open spec fn lookup_weight<W>(ws: Seq<(usize, W)>, o: usize) -> Option<W>
    decreases ws.len(),
{
    if ws.len() == 0 {
        None
    } else if ws[0].0 == o {
        Some(ws[0].1)
    } else {
        lookup_weight(ws.drop_first(), o)
    }
}

/// The transitions among `ts` between two values of `d`, in order, with their
/// endpoints given as positions in `d`.
pub open spec fn mapped_transitions<W>(ts: Seq<(usize, usize, W)>, d: Seq<usize>) -> Seq<(usize, usize, W)>
    decreases ts.len(),
{
    if ts.len() == 0 {
        Seq::empty()
    } else {
        let pre = mapped_transitions(ts.drop_last(), d);
        let x = ts.last();
        if d.contains(x.0) && d.contains(x.1) {
            pre.push((position_of(d, x.0) as usize, position_of(d, x.1) as usize, x.2))
        } else {
            pre
        }
    }
}

/// Edge `j` of `r` is the unlabelled edge `t.0 -> t.1` of weight `t.2`.
pub open spec fn edge_is<N, W>(r: GraphModel<N, W>, j: int, t: (usize, usize, W)) -> bool {
    plain_edge(r, j, t.0, t.1) && r.edge(j).payload == t.2
}

/// Observed node `x` carries the weight that `stats` lists for `o`, or zero.
pub open spec fn node_weight_ok<W: From<u8>>(
    x: crate::graph::Node<ObservedNode<W>>,
    stats: Option<(Seq<(usize, W)>, Seq<(usize, usize, W)>)>,
    o: usize,
) -> bool {
    match stats {
        Some(st) => weighted_from(x, st.0, o),
        None => from_u8(x.payload.weight, 0),
    }
}

/// `r` is the observed graph of `g`: one node per Destination of `g` in index
/// order, labelled with its name; with statistics `(weights, transitions)`,
/// each node carries the weight listed for its Destination (zero if none) and
/// each transition between two Destinations becomes an unlabelled edge, in
/// order; without statistics, weights are zero and there is no edge.
pub open spec fn is_observed_graph<W: From<u8>>(
    r: GraphModel<ObservedNode<W>, W>,
    g: GraphModel<ObservableNode, W>,
    stats: Option<(Seq<(usize, W)>, Seq<(usize, usize, W)>)>,
) -> bool {
    let d = observed_destinations(g);
    let m = match stats {
        Some(st) => mapped_transitions(st.1, d),
        None => Seq::empty(),
    };
    &&& r.wf()
    &&& dense(r, d.len(), m.len())
    &&& forall|k: int| 0 <= k < d.len() ==> #[trigger] stands_for(r.nodes[k].unwrap(), g, d[k])
    &&& forall|k: int| 0 <= k < d.len() ==> #[trigger] node_weight_ok(r.nodes[k].unwrap(), stats, d[k])
    &&& forall|j: int| 0 <= j < m.len() ==> #[trigger] edge_is(r, j, m[j])
}

/// Observed node `x` stands for Destination `o` of `g`: it carries its index
/// and name, is labelled with the name and is not selected.
pub open spec fn stands_for<W>(x: crate::graph::Node<ObservedNode<W>>, g: GraphModel<ObservableNode, W>, o: usize) -> bool {
    &&& x.payload.observable_node_idx == o
    &&& x.payload.name == g.node(o as int).payload.name
    &&& x.label@ == g.node(o as int).payload.name@
    &&& !x.selected
}

/// Observed node `x` carries the weight listed for `o` in `ws`, or zero.
pub open spec fn weighted_from<W: From<u8>>(x: crate::graph::Node<ObservedNode<W>>, ws: Seq<(usize, W)>, o: usize) -> bool {
    match lookup_weight(ws, o) {
        Some(w) => x.payload.weight == w,
        None => from_u8(x.payload.weight, 0),
    }
}

// ------------------------------------------------------------------
// Computation
// ------------------------------------------------------------------

/// The observed graph without dynamics: one node per Destination node of the
/// observable graph, named after it, with weight zero.
pub fn calculate_observed_graph_from_observable_display<W: From<u8>>(
    observable_display: &ObservableGraph<W>,
) -> (r: ObservedGraph<W>)
    requires
        observable_display@.wf(),
    ensures
        is_observed_skeleton(r@, observable_display@),
{
    let ghost g = observable_display@;
    let ghost p = dest_pred(g);
    let ln = observable_display.node_indices();
    proof {
        observable_display.lemma_bounds();
        lemma_live_indices(g.nodes);
    }
    let mut r: ObservedGraph<W> = Graph::new();
    proof {
        assert(r@.insertion =~= Seq::new(0, |i: int| i as usize));
        assert(ln@.take(0) =~= Seq::<usize>::empty());
    }
    let mut k: usize = 0;
    let ghost mut dp: Seq<usize> = Seq::empty();
    while k < ln.len()
        invariant
            g == observable_display@,
            p == dest_pred(g),
            ln@ == g.node_indices(),
            forall|q: int| 0 <= q < ln@.len() ==> #[trigger] g.is_node(ln@[q] as int),
            k <= ln@.len(),
            r@.wf(),
            dp == keep(ln@.take(k as int), p),
            dense(r@, dp.len(), 0),
            forall|j: int|
                0 <= j < dp.len() ==> {
                    &&& #[trigger] plain_node(r@, j)
                    &&& r@.node(j).payload.name == g.node(dp[j] as int).payload.name
                    &&& r@.node(j).payload.observable_node_idx == dp[j]
                    &&& from_u8(r@.node(j).payload.weight, 0)
                },
        decreases ln@.len() - k,
    {
        let x = ln[k];
        assert(g.is_node(ln@[k as int] as int));
        let ghost before = dp;
        assert(ln@.take(k + 1).drop_last() =~= ln@.take(k as int));
        assert(ln@.take(k + 1).last() == x);
        let node = observable_display.node(x).unwrap();
        if node.payload.node_type == ObservableNodeType::Destination {
            let ghost r0 = r@;
            proof {
                r.lemma_bounds();
            }
            let payload = ObservedNode { name: node.payload.name.clone(), observable_node_idx: x, weight: W::from(0u8) };
            r.add_node(payload, String::new());
            proof {
                let after = keep(ln@.take(k + 1), p);
                assert(after == before.push(x));
                assert(r@.nodes =~= r0.nodes.push(r@.nodes[r0.nodes.len() as int]));
                assert forall|j: int| 0 <= j < after.len() implies {
                    &&& #[trigger] plain_node(r@, j)
                    &&& r@.node(j).payload.name == g.node(after[j] as int).payload.name
                    &&& r@.node(j).payload.observable_node_idx == after[j]
                    &&& from_u8(r@.node(j).payload.weight, 0)
                } by {
                    if j < before.len() {
                        assert(r@.nodes[j] == r0.nodes[j]);
                        assert(plain_node(r0, j));
                    } else {
                        assert(j == before.len());
                        assert(after[j] == x);
                        assert(r@.nodes[j] == Some(crate::graph::Node { payload, label: r@.node(j).label, selected: false }));
                    }
                }
            }
        } else {
            assert(keep(ln@.take(k + 1), p) == before);
            let ghost after = keep(ln@.take(k + 1), p);
            assert forall|j: int| 0 <= j < after.len() implies {
                &&& #[trigger] plain_node(r@, j)
                &&& r@.node(j).payload.name == g.node(after[j] as int).payload.name
                &&& r@.node(j).payload.observable_node_idx == after[j]
                &&& from_u8(r@.node(j).payload.weight, 0)
            } by {
                assert(plain_node(r@, j));
            }
        }
        proof {
            dp = keep(ln@.take(k + 1), p);
        }
        k += 1;
    }
    assert(ln@.take(k as int) =~= ln@);
    proof {
        let d = observed_destinations(g);
        assert(dp == d);
        assert forall|j: int| 0 <= j < d.len() implies {
            &&& #[trigger] plain_node(r@, j)
            &&& r@.node(j).payload.name == g.node(d[j] as int).payload.name
            &&& r@.node(j).payload.observable_node_idx == d[j]
            &&& from_u8(r@.node(j).payload.weight, 0)
        } by {
            assert(plain_node(r@, j));
        }
    }
    r
}

/// Statistics of the observed dynamics: the probability of each value of the
/// observable (by its Destination node), and the transitions between values.
pub struct ObservedStatistics<W> {
    pub node_weights: Vec<(usize, W)>,
    pub transitions: Vec<(usize, usize, W)>,
}

impl<W> View for ObservedStatistics<W> {
    type V = (Seq<(usize, W)>, Seq<(usize, usize, W)>);

    open spec fn view(&self) -> (Seq<(usize, W)>, Seq<(usize, usize, W)>) {
        (self.node_weights@, self.transitions@)
    }
}

/// The statistics as plain sequences, if any.
pub open spec fn stats_view<W>(statistics: Option<ObservedStatistics<W>>) -> Option<(Seq<(usize, W)>, Seq<(usize, usize, W)>)> {
    match statistics {
        Some(st) => Some(st@),
        None => None,
    }
}

fn find_weight<W: Copy>(ws: &Vec<(usize, W)>, o: usize) -> (r: Option<W>)
    ensures
        r == lookup_weight(ws@, o),
{
    let mut k: usize = 0;
    assert(ws@.skip(0) =~= ws@);
    while k < ws.len()
        invariant
            k <= ws@.len(),
            lookup_weight(ws@, o) == lookup_weight(ws@.skip(k as int), o),
        decreases ws@.len() - k,
    {
        assert(ws@.skip(k as int)[0] == ws@[k as int]);
        assert(ws@.skip(k as int).drop_first() =~= ws@.skip(k + 1));
        if ws[k].0 == o {
            return Some(ws[k].1);
        }
        k += 1;
    }
    None
}

/// The first position in `d` holding `x`.
proof fn lemma_position_unique(d: Seq<usize>, x: usize, k: int)
    requires
        no_dup(d),
        0 <= k < d.len(),
        d[k] == x,
    ensures
        position_of(d, x) == k,
{
    let p = position_of(d, x);
    assert(0 <= p < d.len() && d[p] == x);
}


/// The first observed node among `0..n` that stands for Destination `o`.
fn observed_position<W>(obs: &ObservedGraph<W>, n: usize, o: usize) -> (r: Option<usize>)
    requires
        n == obs@.nodes.len(),
        forall|q: int| 0 <= q < n ==> #[trigger] obs@.nodes[q] is Some,
    ensures
        match r {
            Some(k) => k < n && obs@.node(k as int).payload.observable_node_idx == o,
            None => forall|q: int| 0 <= q < n ==> #[trigger] obs@.node(q).payload.observable_node_idx != o,
        },
{
    let mut k: usize = 0;
    while k < n
        invariant
            k <= n,
            n == obs@.nodes.len(),
            forall|q: int| 0 <= q < n ==> #[trigger] obs@.nodes[q] is Some,
            forall|q: int| 0 <= q < k ==> #[trigger] obs@.node(q).payload.observable_node_idx != o,
        decreases n - k,
    {
        assert(obs@.nodes[k as int] is Some);
        let node = obs.node(k).unwrap();
        if node.payload.observable_node_idx == o {
            return Some(k);
        }
        k += 1;
    }
    None
}

/// Gives each observed node the weight listed for its Destination in `ws`.
fn apply_node_weights<W: Copy + From<u8>>(
    obs: &mut ObservedGraph<W>,
    ws: &Vec<(usize, W)>,
    Ghost(g): Ghost<GraphModel<ObservableNode, W>>,
    Ghost(d): Ghost<Seq<usize>>,
)
    requires
        old(obs)@.wf(),
        dense(old(obs)@, d.len(), 0),
        forall|q: int| 0 <= q < d.len() ==> #[trigger] stands_for(old(obs)@.nodes[q].unwrap(), g, d[q]),
        forall|q: int| 0 <= q < d.len() ==> #[trigger] from_u8(old(obs)@.nodes[q].unwrap().payload.weight, 0),
    ensures
        final(obs)@.wf(),
        dense(final(obs)@, d.len(), 0),
        forall|q: int| 0 <= q < d.len() ==> #[trigger] stands_for(final(obs)@.nodes[q].unwrap(), g, d[q]),
        forall|q: int| 0 <= q < d.len() ==> #[trigger] weighted_from(final(obs)@.nodes[q].unwrap(), ws@, d[q]),
{
    let n = obs.node_slots();
    let mut k: usize = 0;
    while k < n
        invariant
            n == d.len(),
            k <= n,
            obs@.wf(),
            dense(obs@, n as nat, 0),
            forall|q: int| 0 <= q < n ==> #[trigger] stands_for(obs@.nodes[q].unwrap(), g, d[q]),
            forall|q: int| 0 <= q < k ==> #[trigger] weighted_from(obs@.nodes[q].unwrap(), ws@, d[q]),
            forall|q: int| k <= q < n ==> #[trigger] from_u8(obs@.nodes[q].unwrap().payload.weight, 0),
        decreases n - k,
    {
        assert(obs@.nodes[k as int] is Some);
        let ghost before = obs@;
        assert(stands_for(before.nodes[k as int].unwrap(), g, d[k as int]));
        assert(from_u8(before.nodes[k as int].unwrap().payload.weight, 0));
        let node = obs.node(k).unwrap();
        let o = node.payload.observable_node_idx;
        let found = find_weight(ws, o);
        match found {
            Some(w) => {
                let nm = node.payload.name.clone();
                obs.set_node_payload(k, ObservedNode { name: nm, observable_node_idx: o, weight: w });
                proof {
                    assert forall|q: int| 0 <= q < n implies #[trigger] stands_for(obs@.nodes[q].unwrap(), g, d[q]) by {
                        assert(stands_for(before.nodes[q].unwrap(), g, d[q]));
                        if q != k {
                            assert(obs@.nodes[q] == before.nodes[q]);
                        }
                    }
                    assert forall|q: int| 0 <= q < k + 1 implies #[trigger] weighted_from(obs@.nodes[q].unwrap(), ws@, d[q]) by {
                        if q != k {
                            assert(obs@.nodes[q] == before.nodes[q]);
                            assert(weighted_from(before.nodes[q].unwrap(), ws@, d[q]));
                        }
                    }
                    assert forall|q: int| k + 1 <= q < n implies #[trigger] from_u8(obs@.nodes[q].unwrap().payload.weight, 0) by {
                        assert(obs@.nodes[q] == before.nodes[q]);
                        assert(from_u8(before.nodes[q].unwrap().payload.weight, 0));
                    }
                    assert(obs@.insertion =~= before.insertion);
                }
            },
            None => {
                proof {
                    assert(weighted_from(obs@.nodes[k as int].unwrap(), ws@, d[k as int]));
                }
            },
        }
        k += 1;
    }
}

/// Adds one unlabelled edge per transition between two observed nodes, in order.
fn add_transitions<W: Copy>(obs: &mut ObservedGraph<W>, ts: &Vec<(usize, usize, W)>, Ghost(d): Ghost<Seq<usize>>)
    requires
        old(obs)@.wf(),
        dense(old(obs)@, d.len(), 0),
        no_dup(d),
        forall|q: int| 0 <= q < d.len() ==> #[trigger] old(obs)@.nodes[q].unwrap().payload.observable_node_idx == d[q],
    ensures
        final(obs)@.wf(),
        final(obs)@.nodes == old(obs)@.nodes,
        dense(final(obs)@, d.len(), mapped_transitions(ts@, d).len()),
        forall|e: int| 0 <= e < mapped_transitions(ts@, d).len() ==> #[trigger] edge_is(final(obs)@, e, mapped_transitions(ts@, d)[e]),
{
    let ghost nodes_w = obs@.nodes;
    let n = obs.node_slots();
    let mut j: usize = 0;
    assert(ts@.take(0) =~= Seq::<(usize, usize, W)>::empty());
    assert(obs@.insertion =~= Seq::new(0, |i: int| i as usize));
    while j < ts.len()
        invariant
            n == d.len(),
            no_dup(d),
            j <= ts@.len(),
            obs@.wf(),
            obs@.nodes == nodes_w,
            dense(obs@, n as nat, mapped_transitions(ts@.take(j as int), d).len()),
            forall|q: int| 0 <= q < n ==> #[trigger] nodes_w[q].unwrap().payload.observable_node_idx == d[q],
            forall|e: int|
                0 <= e < mapped_transitions(ts@.take(j as int), d).len() ==> #[trigger] edge_is(
                    obs@,
                    e,
                    mapped_transitions(ts@.take(j as int), d)[e],
                ),
        decreases ts@.len() - j,
    {
        let (a, b, w) = ts[j];
        let ghost m0 = mapped_transitions(ts@.take(j as int), d);
        assert(ts@.take(j + 1).drop_last() =~= ts@.take(j as int));
        assert(ts@.take(j + 1).last() == (a, b, w));
        let pa = observed_position(obs, n, a);
        let pb = observed_position(obs, n, b);
        proof {
            assert(pa is Some <==> d.contains(a)) by {
                match pa {
                    Some(x) => {
                        assert(obs@.node(x as int) == nodes_w[x as int].unwrap());
                        assert(nodes_w[x as int].unwrap().payload.observable_node_idx == d[x as int]);
                        assert(d[x as int] == a);
                    },
                    None => {
                        if d.contains(a) {
                            let q = choose|q: int| 0 <= q < d.len() && d[q] == a;
                            assert(obs@.node(q) == nodes_w[q].unwrap());
                            assert(nodes_w[q].unwrap().payload.observable_node_idx == d[q]);
                            assert(obs@.node(q).payload.observable_node_idx != a);
                        }
                    },
                }
            }
            assert(pb is Some <==> d.contains(b)) by {
                match pb {
                    Some(x) => {
                        assert(obs@.node(x as int) == nodes_w[x as int].unwrap());
                        assert(nodes_w[x as int].unwrap().payload.observable_node_idx == d[x as int]);
                        assert(d[x as int] == b);
                    },
                    None => {
                        if d.contains(b) {
                            let q = choose|q: int| 0 <= q < d.len() && d[q] == b;
                            assert(obs@.node(q) == nodes_w[q].unwrap());
                            assert(nodes_w[q].unwrap().payload.observable_node_idx == d[q]);
                            assert(obs@.node(q).payload.observable_node_idx != b);
                        }
                    },
                }
            }
        }
        match (pa, pb) {
            (Some(x), Some(y)) => {
                let ghost before = obs@;
                proof {
                    obs.lemma_bounds();
                    assert(obs@.node(x as int) == nodes_w[x as int].unwrap());
                    assert(d[x as int] == a);
                    lemma_position_unique(d, a, x as int);
                    assert(obs@.node(y as int) == nodes_w[y as int].unwrap());
                    assert(d[y as int] == b);
                    lemma_position_unique(d, b, y as int);
                    assert(before.is_node(x as int));
                    assert(before.is_node(y as int));
                }
                obs.add_edge(x, y, w, String::new());
                proof {
                    let m1 = mapped_transitions(ts@.take(j + 1), d);
                    assert(m1 == m0.push((x, y, w)));
                    assert(obs@.edges =~= before.edges.push(obs@.edges[before.edges.len() as int]));
                    assert(obs@.insertion =~= Seq::new(m1.len(), |i: int| i as usize));
                    assert forall|e: int| 0 <= e < m1.len() implies #[trigger] edge_is(obs@, e, m1[e]) by {
                        if e < m0.len() {
                            assert(obs@.edges[e] == before.edges[e]);
                            assert(edge_is(before, e, m0[e]));
                        }
                    }
                    assert forall|e: int| 0 <= e < m1.len() implies #[trigger] obs@.edges[e] is Some by {
                        if e < m0.len() {
                            assert(obs@.edges[e] == before.edges[e]);
                        }
                    }
                }
            },
            _ => {
                assert(mapped_transitions(ts@.take(j + 1), d) == m0);
            },
        }
        j += 1;
    }
    assert(ts@.take(j as int) =~= ts@);
    assert forall|e: int| 0 <= e < mapped_transitions(ts@, d).len() implies #[trigger] edge_is(obs@, e, mapped_transitions(ts@, d)[e]) by {
        assert(edge_is(obs@, e, mapped_transitions(ts@.take(j as int), d)[e]));
    }
}

/// The observed graph: one node per Destination node of the observable graph,
/// labelled with its name. With `statistics` (present when the graphs passed
/// validation and the statistics could be computed), each node takes the
/// probability listed for its Destination and each listed transition between
/// two Destinations becomes an unlabelled edge, in order.
pub fn calculate_observed_graph<W: Copy + From<u8>>(
    observable_graph: &ObservableGraph<W>,
    statistics: &Option<ObservedStatistics<W>>,
) -> (r: ObservedGraph<W>)
    requires
        observable_graph@.wf(),
    ensures
        is_observed_graph(r@, observable_graph@, stats_view(*statistics)),
{
    let ghost g = observable_graph@;
    let ghost d = observed_destinations(g);
    let skel = calculate_observed_graph_from_observable_display(observable_graph);
    let mut obs = setup_observed_graph_display(&skel);
    proof {
        observable_graph.lemma_bounds();
        skel.lemma_bounds();
        lemma_live_indices(g.nodes);
        lemma_keep(g.node_indices(), dest_pred(g));
        lemma_dense_indices(skel@, d.len());
        assert forall|q: int| 0 <= q < d.len() implies #[trigger] stands_for(obs@.nodes[q].unwrap(), g, d[q])
            && from_u8(obs@.nodes[q].unwrap().payload.weight, 0) by {
            assert(skel@.node_indices()[q] == q as usize);
            assert(plain_node(skel@, q));
            assert(obs@.node(q).payload == skel@.node(q).payload);
        }
        assert forall|q: int| 0 <= q < d.len() implies #[trigger] from_u8(obs@.nodes[q].unwrap().payload.weight, 0) by {
            assert(stands_for(obs@.nodes[q].unwrap(), g, d[q]));
        }
    }
    match statistics {
        None => {
            proof {
                assert forall|k: int| 0 <= k < d.len() implies #[trigger] node_weight_ok(
                    obs@.nodes[k].unwrap(),
                    stats_view(*statistics),
                    d[k],
                ) by {
                    assert(from_u8(obs@.nodes[k].unwrap().payload.weight, 0));
                }
            }
            obs
        },
        Some(st) => {
            let ghost ws = st.node_weights@;
            apply_node_weights(&mut obs, &st.node_weights, Ghost(g), Ghost(d));
            let ghost gw = obs@;
            proof {
                assert forall|q: int| 0 <= q < d.len() implies #[trigger] gw.nodes[q].unwrap().payload.observable_node_idx == d[q] by {
                    assert(stands_for(gw.nodes[q].unwrap(), g, d[q]));
                }
            }
            add_transitions(&mut obs, &st.transitions, Ghost(d));
            proof {
                assert forall|k: int| 0 <= k < d.len() implies #[trigger] node_weight_ok(
                    obs@.nodes[k].unwrap(),
                    stats_view(*statistics),
                    d[k],
                ) by {
                    assert(weighted_from(gw.nodes[k].unwrap(), ws, d[k]));
                }
                assert forall|k: int| 0 <= k < d.len() implies #[trigger] stands_for(obs@.nodes[k].unwrap(), g, d[k]) by {
                    assert(stands_for(gw.nodes[k].unwrap(), g, d[k]));
                }
            }
            obs
        },
    }
}

} // verus!
