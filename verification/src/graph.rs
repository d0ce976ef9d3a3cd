use vstd::prelude::*;

use crate::graph_state::Duplicate;

verus! {

// ------------------------------------------------------------------
// Sequence helpers
// ------------------------------------------------------------------

/// No index occurs twice.
pub open spec fn no_dup(s: Seq<usize>) -> bool {
    forall|i: int, j: int| 0 <= i < j < s.len() ==> s[i] != s[j]
}

/// Slot `i` exists and is occupied.
pub open spec fn occupied<T>(s: Seq<Option<T>>, i: int) -> bool {
    0 <= i < s.len() && s[i] is Some
}

/// The occupied slots of `s`, in increasing order.
pub open spec fn live_indices<T>(s: Seq<Option<T>>) -> Seq<usize>
    decreases s.len(),
{
    if s.len() == 0 {
        Seq::empty()
    } else {
        let pre = live_indices(s.drop_last());
        if s.last() is Some {
            pre.push((s.len() - 1) as usize)
        } else {
            pre
        }
    }
}

/// The free list of a slot vector names exactly its vacant slots, once each.
pub open spec fn free_list_ok<T>(s: Seq<Option<T>>, free: Seq<usize>) -> bool {
    &&& no_dup(free)
    &&& forall|k: int| 0 <= k < free.len() ==> #[trigger] free[k] < s.len() && s[free[k] as int] is None
    &&& forall|i: int| 0 <= i < s.len() && s[i] is None ==> free.contains(i as usize)
}

/// The slot that the next insertion takes: the most recently freed one, else a new one.
pub open spec fn next_slot<T>(s: Seq<Option<T>>, free: Seq<usize>) -> usize {
    if free.len() > 0 {
        free.last()
    } else {
        s.len() as usize
    }
}

/// `s` with slot `i` set to `v`, growing by one when `i` is one past the end.
pub open spec fn put<T>(s: Seq<Option<T>>, i: usize, v: T) -> Seq<Option<T>> {
    if i < s.len() {
        s.update(i as int, Some(v))
    } else {
        s.push(Some(v))
    }
}

/// The free list after an insertion.
pub open spec fn after_take(free: Seq<usize>) -> Seq<usize> {
    if free.len() > 0 {
        free.drop_last()
    } else {
        free
    }
}

/// Membership in `live_indices`.
pub proof fn lemma_live_indices<T>(s: Seq<Option<T>>)
    requires
        s.len() <= usize::MAX,
    ensures
        forall|k: int|
            0 <= k < live_indices(s).len() ==> #[trigger] occupied(s, live_indices(s)[k] as int),
        forall|i: int| occupied(s, i) ==> #[trigger] live_indices(s).contains(i as usize),
        forall|a: int, b: int|
            0 <= a < b < live_indices(s).len() ==> live_indices(s)[a] < live_indices(s)[b],
        live_indices(s).len() <= s.len(),
    decreases s.len(),
{
    if s.len() > 0 {
        let p = s.drop_last();
        lemma_live_indices(p);
        let pre = live_indices(p);
        let li = live_indices(s);
        let top = (s.len() - 1) as usize;
        if s.last() is Some {
            assert(li == pre.push(top));
        } else {
            assert(li == pre);
        }
        assert forall|k: int| 0 <= k < pre.len() implies #[trigger] li[k] == pre[k] && occupied(s, pre[k] as int) && pre[k] < top by {
            assert(occupied(p, live_indices(p)[k] as int));
            assert(pre[k] < p.len());
            assert(p[pre[k] as int] is Some);
            assert(s[pre[k] as int] == p[pre[k] as int]);
        }
        assert forall|i: int| occupied(s, i) implies #[trigger] li.contains(i as usize) by {
            if i < s.len() - 1 {
                assert(occupied(p, i));
                assert(pre.contains(i as usize));
                let k = choose|k: int| 0 <= k < pre.len() && pre[k] == i as usize;
                assert(li[k] == i as usize);
            } else {
                assert(li[pre.len() as int] == i as usize);
            }
        }
        assert forall|k: int| 0 <= k < li.len() implies #[trigger] occupied(s, li[k] as int) by {
            if k < pre.len() {
                assert(li[k] == pre[k]);
            }
        }
        assert forall|a: int, b: int| 0 <= a < b < li.len() implies li[a] < li[b] by {
            assert(li[a] == pre[a]);
            if b < pre.len() {
                assert(li[b] == pre[b]);
            }
        }
    }
}

/// The elements of `s` that satisfy `p`, in order.
pub open spec fn keep(s: Seq<usize>, p: spec_fn(usize) -> bool) -> Seq<usize>
    decreases s.len(),
{
    if s.len() == 0 {
        Seq::empty()
    } else if p(s.last()) {
        keep(s.drop_last(), p).push(s.last())
    } else {
        keep(s.drop_last(), p)
    }
}

/// The predicate "differs from `e`".
pub open spec fn other_than(e: usize) -> spec_fn(usize) -> bool {
    |x: usize| x != e
}

/// `s` in reverse order.
pub open spec fn reversed(s: Seq<usize>) -> Seq<usize> {
    Seq::new(s.len(), |i: int| s[s.len() - 1 - i])
}

/// Membership and distinctness for `keep`.
pub proof fn lemma_keep(s: Seq<usize>, p: spec_fn(usize) -> bool)
    ensures
        forall|x: usize| #[trigger] keep(s, p).contains(x) <==> s.contains(x) && p(x),
        no_dup(s) ==> no_dup(keep(s, p)),
        keep(s, p).len() <= s.len(),
    decreases s.len(),
{
    if s.len() > 0 {
        let q = s.drop_last();
        lemma_keep(q, p);
        let kq = keep(q, p);
        let ks = keep(s, p);
        if p(s.last()) {
            assert(ks == kq.push(s.last()));
        } else {
            assert(ks == kq);
        }
        assert forall|x: usize| #[trigger] ks.contains(x) <==> s.contains(x) && p(x) by {
            if s.contains(x) && p(x) {
                let i = choose|i: int| 0 <= i < s.len() && s[i] == x;
                if i < s.len() - 1 {
                    assert(q[i] == x);
                    assert(kq.contains(x));
                    let j = choose|j: int| 0 <= j < kq.len() && kq[j] == x;
                    assert(ks[j] == x);
                } else {
                    assert(ks[kq.len() as int] == x);
                }
            }
            if ks.contains(x) {
                let j = choose|j: int| 0 <= j < ks.len() && ks[j] == x;
                if j < kq.len() {
                    assert(kq[j] == x);
                    assert(kq.contains(x));
                    let i = choose|i: int| 0 <= i < q.len() && q[i] == x;
                    assert(s[i] == x);
                } else {
                    assert(s[s.len() - 1] == x);
                }
            }
        }
        if no_dup(s) {
            assert(no_dup(q));
            assert forall|a: int, b: int| 0 <= a < b < ks.len() implies ks[a] != ks[b] by {
                if b == kq.len() && p(s.last()) {
                    assert(ks[a] == kq[a]);
                    assert(kq.contains(kq[a]));
                    assert(q.contains(kq[a]));
                    let i = choose|i: int| 0 <= i < q.len() && q[i] == kq[a];
                    assert(s[i] == q[i]);
                } else {
                    assert(ks[a] == kq[a]);
                    assert(ks[b] == kq[b]);
                }
            }
        }
    }
}

/// Membership and distinctness for `reversed`.
pub proof fn lemma_reversed(s: Seq<usize>)
    ensures
        forall|x: usize| #[trigger] reversed(s).contains(x) <==> s.contains(x),
        no_dup(s) ==> no_dup(reversed(s)),
        reversed(s).len() == s.len(),
{
    let r = reversed(s);
    assert forall|x: usize| #[trigger] r.contains(x) <==> s.contains(x) by {
        if s.contains(x) {
            let i = choose|i: int| 0 <= i < s.len() && s[i] == x;
            assert(r[s.len() - 1 - i] == x);
        }
        if r.contains(x) {
            let i = choose|i: int| 0 <= i < r.len() && r[i] == x;
            assert(s[s.len() - 1 - i] == x);
        }
    }
    if no_dup(s) {
        assert forall|a: int, b: int| 0 <= a < b < r.len() implies r[a] != r[b] by {
            assert(r[a] == s[s.len() - 1 - a]);
            assert(r[b] == s[s.len() - 1 - b]);
        }
    }
}

/// Membership and distinctness for a concatenation.
pub proof fn lemma_concat(s: Seq<usize>, t: Seq<usize>)
    ensures
        forall|x: usize| #[trigger] (s + t).contains(x) <==> s.contains(x) || t.contains(x),
        no_dup(s) && no_dup(t) && (forall|x: usize| #[trigger] t.contains(x) ==> !s.contains(x)) ==> no_dup(s + t),
{
    let c = s + t;
    assert forall|x: usize| #[trigger] c.contains(x) <==> s.contains(x) || t.contains(x) by {
        if c.contains(x) {
            let i = choose|i: int| 0 <= i < c.len() && c[i] == x;
            if i < s.len() {
                assert(s[i] == x);
            } else {
                assert(t[i - s.len()] == x);
            }
        }
        if s.contains(x) {
            let i = choose|i: int| 0 <= i < s.len() && s[i] == x;
            assert(c[i] == x);
        }
        if t.contains(x) {
            let i = choose|i: int| 0 <= i < t.len() && t[i] == x;
            assert(c[s.len() + i] == x);
        }
    }
    if no_dup(s) && no_dup(t) && (forall|x: usize| #[trigger] t.contains(x) ==> !s.contains(x)) {
        assert forall|i: int, j: int| 0 <= i < j < c.len() implies c[i] != c[j] by {
            if i < s.len() && j >= s.len() {
                assert(c[j] == t[j - s.len()]);
                assert(t.contains(t[j - s.len()]));
                assert(s.contains(s[i]));
            } else if i >= s.len() {
                assert(c[i] == t[i - s.len()]);
                assert(c[j] == t[j - s.len()]);
            }
        }
    }
}

// ------------------------------------------------------------------
// Graph
// ------------------------------------------------------------------

/// A node: its payload and how it is displayed.
pub struct Node<N> {
    pub payload: N,
    pub label: String,
    pub selected: bool,
}

/// A directed edge between two node indices, with its payload and label.
pub struct Edge<E> {
    pub source: usize,
    pub target: usize,
    pub payload: E,
    pub label: String,
}

/// The mathematical content of a graph.
pub struct GraphModel<N, E> {
    /// Node slots; a vacant slot is `None`.
    pub nodes: Seq<Option<Node<N>>>,
    /// Edge slots; a vacant slot is `None`.
    pub edges: Seq<Option<Edge<E>>>,
    /// Vacant node slots, the most recently freed last.
    pub free_nodes: Seq<usize>,
    /// Vacant edge slots, the most recently freed last.
    pub free_edges: Seq<usize>,
    /// Live edges in the order they were added, the newest last.
    pub insertion: Seq<usize>,
    /// Edges marked as selected in the display.
    pub selected_edges: Seq<usize>,
}

impl<N, E> GraphModel<N, E> {
    pub open spec fn is_node(self, i: int) -> bool {
        occupied(self.nodes, i)
    }

    pub open spec fn is_edge(self, e: int) -> bool {
        occupied(self.edges, e)
    }

    pub open spec fn node(self, i: int) -> Node<N> {
        self.nodes[i].unwrap()
    }

    pub open spec fn edge(self, e: int) -> Edge<E> {
        self.edges[e].unwrap()
    }

    /// Live node indices in increasing order.
    pub open spec fn node_indices(self) -> Seq<usize> {
        live_indices(self.nodes)
    }

    /// Live edge indices in increasing order.
    pub open spec fn edge_indices(self) -> Seq<usize> {
        live_indices(self.edges)
    }

    /// Edge `e` is live and goes from `a` to `b`.
    pub open spec fn connects(self, e: int, a: usize, b: usize) -> bool {
        self.is_edge(e) && self.edge(e).source == a && self.edge(e).target == b
    }

    /// Edge `e` is live and touches node `a`.
    pub open spec fn incident(self, e: int, a: usize) -> bool {
        self.is_edge(e) && (self.edge(e).source == a || self.edge(e).target == a)
    }

    /// Some edge leaves `a`.
    pub open spec fn has_outgoing(self, a: usize) -> bool {
        exists|e: int| self.is_edge(e) && self.edge(e).source == a
    }

    /// Some edge enters `a`.
    pub open spec fn has_incoming(self, a: usize) -> bool {
        exists|e: int| self.is_edge(e) && self.edge(e).target == a
    }

    /// There is an edge from `a` to `b`.
    pub open spec fn has_edge(self, a: usize, b: usize) -> bool {
        exists|e: int| self.connects(e, a, b)
    }

    /// The predicate "edge touches `a`".
    pub open spec fn touching(self, a: usize) -> spec_fn(usize) -> bool {
        |x: usize| self.incident(x as int, a)
    }

    /// The predicate "edge does not touch `a`".
    pub open spec fn not_touching(self, a: usize) -> spec_fn(usize) -> bool {
        |x: usize| !self.incident(x as int, a)
    }

    /// The predicate "edge goes from `a` to `b` and is not among `done`".
    pub open spec fn leads(self, a: usize, b: usize, done: Seq<usize>) -> spec_fn(usize) -> bool {
        |e: usize| self.edge(e as int).source == a && self.edge(e as int).target == b && !done.contains(e)
    }

    /// The edges of `rt` from `a` to `n`, then those from `n` to `a`, each in
    /// `rt` order, leaving out those of `done`.
    pub open spec fn between(self, a: usize, n: usize, rt: Seq<usize>, done: Seq<usize>) -> Seq<usize> {
        let fwd = keep(rt, self.leads(a, n, done));
        fwd + keep(rt, self.leads(n, a, done + fwd))
    }

    /// `done` followed by the edges that joining `a` to each of `nbrs` in
    /// turn adds (see `between`).
    pub open spec fn removal_from(self, a: usize, rt: Seq<usize>, nbrs: Seq<usize>, done: Seq<usize>) -> Seq<usize>
        decreases nbrs.len(),
    {
        if nbrs.len() == 0 {
            done
        } else {
            self.removal_from(a, rt, nbrs.drop_first(), done + self.between(a, nbrs[0], rt, done))
        }
    }

    /// The predicate "edge leaves `a`".
    pub open spec fn leaves(self, a: usize) -> spec_fn(usize) -> bool {
        |e: usize| self.edge(e as int).source == a
    }

    /// The predicate "edge enters `a` from another node".
    pub open spec fn enters_from_other(self, a: usize) -> spec_fn(usize) -> bool {
        |e: usize| self.edge(e as int).target == a && self.edge(e as int).source != a
    }

    /// An edge's target.
    pub open spec fn target_of(self) -> spec_fn(usize) -> usize {
        |e: usize| self.edge(e as int).target
    }

    /// An edge's source.
    pub open spec fn source_of(self) -> spec_fn(usize) -> usize {
        |e: usize| self.edge(e as int).source
    }

    /// The neighbours of `a` along the edges of `rt`: the targets of the edges
    /// leaving `a`, then the sources other than `a` of the edges entering it.
    pub open spec fn removal_neighbors(self, a: usize, rt: Seq<usize>) -> Seq<usize> {
        keep(rt, self.leaves(a)).map_values(self.target_of()) + keep(rt, self.enters_from_other(a)).map_values(
            self.source_of(),
        )
    }

    /// The order in which removing node `a` frees its edges: with the edges
    /// at `a` listed newest first, for each neighbour in the order of
    /// `removal_neighbors`, the edges from `a` to it and then those from it
    /// to `a`.
    pub open spec fn removal_order(self, a: usize) -> Seq<usize> {
        let rt = reversed(keep(self.insertion, self.touching(a)));
        self.removal_from(a, rt, self.removal_neighbors(a, rt), Seq::empty())
    }

    /// The graph after `add_node(payload, label)`.
    pub open spec fn with_node(self, payload: N, label: String) -> Self {
        GraphModel {
            nodes: put(self.nodes, self.next_node_index(), Node { payload, label, selected: false }),
            free_nodes: after_take(self.free_nodes),
            ..self
        }
    }

    /// The graph after `add_edge(a, b, payload, label)`.
    pub open spec fn with_edge(self, a: usize, b: usize, payload: E, label: String) -> Self {
        GraphModel {
            edges: put(self.edges, self.next_edge_index(), Edge { source: a, target: b, payload, label }),
            free_edges: after_take(self.free_edges),
            insertion: self.insertion.push(self.next_edge_index()),
            ..self
        }
    }

    /// The graph after `remove_edge(e)`.
    pub open spec fn without_edge(self, e: usize) -> Self {
        if self.is_edge(e as int) {
            GraphModel {
                edges: self.edges.update(e as int, None),
                free_edges: self.free_edges.push(e),
                insertion: keep(self.insertion, other_than(e)),
                ..self
            }
        } else {
            self
        }
    }

    /// The graph after `remove_node(a)`.
    pub open spec fn without_node(self, a: usize) -> Self {
        if self.is_node(a as int) {
            GraphModel {
                nodes: self.nodes.update(a as int, None),
                free_nodes: self.free_nodes.push(a),
                edges: Seq::new(
                    self.edges.len(),
                    |i: int|
                        if self.incident(i, a) {
                            None
                        } else {
                            self.edges[i]
                        },
                ),
                free_edges: self.free_edges + self.removal_order(a),
                insertion: keep(self.insertion, self.not_touching(a)),
                ..self
            }
        } else {
            self
        }
    }

    /// The graph with node `i` (if live) replaced by `n`.
    pub open spec fn with_node_value(self, i: usize, n: Node<N>) -> Self {
        if self.is_node(i as int) {
            GraphModel { nodes: self.nodes.update(i as int, Some(n)), ..self }
        } else {
            self
        }
    }

    /// The graph after `set_node_label(i, label)`.
    pub open spec fn with_label(self, i: usize, label: String) -> Self {
        self.with_node_value(
            i,
            Node { payload: self.node(i as int).payload, label, selected: self.node(i as int).selected },
        )
    }

    /// The graph after `set_node_selected(i, selected)`.
    pub open spec fn with_selected(self, i: usize, selected: bool) -> Self {
        self.with_node_value(
            i,
            Node { payload: self.node(i as int).payload, label: self.node(i as int).label, selected },
        )
    }

    /// The graph after `set_node_payload(i, payload)`.
    pub open spec fn with_node_payload(self, i: usize, payload: N) -> Self {
        self.with_node_value(
            i,
            Node { payload, label: self.node(i as int).label, selected: self.node(i as int).selected },
        )
    }

    /// The graph after `set_edge_payload(e, payload)`.
    pub open spec fn with_edge_payload(self, e: usize, payload: E) -> Self {
        if self.is_edge(e as int) {
            GraphModel {
                edges: self.edges.update(
                    e as int,
                    Some(
                        Edge {
                            source: self.edge(e as int).source,
                            target: self.edge(e as int).target,
                            payload,
                            label: self.edge(e as int).label,
                        },
                    ),
                ),
                ..self
            }
        } else {
            self
        }
    }

    /// The most recently added edge among `ins` that goes from `a` to `b`.
    pub open spec fn latest_edge_in(self, ins: Seq<usize>, a: usize, b: usize) -> Option<usize>
        decreases ins.len(),
    {
        if ins.len() == 0 {
            None
        } else if self.connects(ins.last() as int, a, b) {
            Some(ins.last())
        } else {
            self.latest_edge_in(ins.drop_last(), a, b)
        }
    }

    /// What `find_edge(a, b)` returns: the most recently added edge from `a` to `b`.
    pub open spec fn latest_edge(self, a: usize, b: usize) -> Option<usize> {
        self.latest_edge_in(self.insertion, a, b)
    }

    pub open spec fn wf(self) -> bool {
        &&& free_list_ok(self.nodes, self.free_nodes)
        &&& free_list_ok(self.edges, self.free_edges)
        &&& forall|e: int|
            #![trigger self.edges[e]]
            self.is_edge(e) ==> self.is_node(self.edge(e).source as int) && self.is_node(
                self.edge(e).target as int,
            )
        &&& no_dup(self.insertion)
        &&& forall|k: int| 0 <= k < self.insertion.len() ==> #[trigger] self.is_edge(self.insertion[k] as int)
        &&& forall|e: int| self.is_edge(e) ==> #[trigger] self.insertion.contains(e as usize)
    }

    /// Index that the next `add_node` returns.
    pub open spec fn next_node_index(self) -> usize {
        next_slot(self.nodes, self.free_nodes)
    }

    /// Index that the next `add_edge` returns.
    pub open spec fn next_edge_index(self) -> usize {
        next_slot(self.edges, self.free_edges)
    }
}

/// Adding a node fills the next slot and leaves every live node as it was.
pub proof fn lemma_with_node_frame<N, E>(g: GraphModel<N, E>, payload: N, label: String)
    requires
        g.wf(),
        g.nodes.len() <= usize::MAX,
    ensures
        g.with_node(payload, label).is_node(g.next_node_index() as int),
        g.with_node(payload, label).node(g.next_node_index() as int) == (Node { payload, label, selected: false }),
        !g.is_node(g.next_node_index() as int),
        forall|y: int| #[trigger] g.is_node(y) ==> g.with_node(payload, label).is_node(y)
            && g.with_node(payload, label).node(y) == g.node(y),
        forall|y: int|
            #[trigger] g.with_node(payload, label).is_node(y) ==> y == g.next_node_index() || g.is_node(y),
{
    let h = g.with_node(payload, label);
    let i = g.next_node_index();
    if g.free_nodes.len() > 0 {
        let k = g.free_nodes.len() - 1;
        assert(g.free_nodes[k] == i);
        assert(g.free_nodes[k] < g.nodes.len() && g.nodes[g.free_nodes[k] as int] is None);
    }
    assert forall|y: int| #[trigger] g.is_node(y) implies h.is_node(y) && h.node(y) == g.node(y) by {
        assert(y != i as int);
    }
}

/// Adding an edge from `a` to `b` fills the next free edge slot with it, keeps
/// every live edge as it was, and makes it the edge that `find_edge(a, b)`
/// answers; this holds for any `a` and `b`, a loop from `a` to itself included.
pub proof fn lemma_with_edge_frame<N, E>(g: GraphModel<N, E>, a: usize, b: usize, w: E, label: String)
    requires
        g.wf(),
        g.edges.len() <= usize::MAX,
    ensures
        ({
            let h = g.with_edge(a, b, w, label);
            let e = g.next_edge_index() as int;
            &&& !g.is_edge(e)
            &&& h.connects(e, a, b)
            &&& h.edge(e).payload == w
            &&& h.latest_edge(a, b) == Some(e as usize)
            &&& forall|x: int| #[trigger] g.is_edge(x) ==> h.is_edge(x) && h.edge(x) == g.edge(x)
            &&& forall|x: int| #[trigger] h.is_edge(x) ==> x == e || g.is_edge(x)
            &&& h.nodes == g.nodes
        }),
{
    let h = g.with_edge(a, b, w, label);
    let e = g.next_edge_index();
    if g.free_edges.len() > 0 {
        let k = g.free_edges.len() - 1;
        assert(g.free_edges[k] == e);
        assert(g.free_edges[k] < g.edges.len() && g.edges[g.free_edges[k] as int] is None);
    }
    assert(!g.is_edge(e as int));
    assert(h.is_edge(e as int));
    assert(h.connects(e as int, a, b));
    assert(h.insertion.last() == e);
    assert(h.insertion.len() > 0);
    assert(h.latest_edge(a, b) == Some(e));
    assert forall|x: int| #[trigger] g.is_edge(x) implies h.is_edge(x) && h.edge(x) == g.edge(x) by {
        assert(x != e as int);
    }
    assert forall|x: int| #[trigger] h.is_edge(x) implies x == e || g.is_edge(x) by {
        if x != e as int {
            assert(h.edges[x] == g.edges[x]);
        }
    }
}

/// Every live edge leaves a node that has an outgoing edge and enters a node
/// that has an incoming edge; a loop counts for both ends.
pub proof fn lemma_edge_ends<N, E>(g: GraphModel<N, E>, e: int)
    requires
        g.is_edge(e),
    ensures
        g.has_outgoing(g.edge(e).source),
        g.has_incoming(g.edge(e).target),
        g.edge(e).source == g.edge(e).target ==> g.has_outgoing(g.edge(e).source) && g.has_incoming(
            g.edge(e).source,
        ),
{
}

/// Setting a live node's label to the label it already has changes nothing.
pub proof fn lemma_same_label<N, E>(g: GraphModel<N, E>, i: usize)
    requires
        g.is_node(i as int),
    ensures
        g.with_label(i, g.node(i as int).label) == g,
{
    let n = g.node(i as int);
    assert(g.nodes.update(i as int, Some(Node { payload: n.payload, label: n.label, selected: n.selected })) =~= g.nodes);
}

/// Removing a node empties its slot and leaves every other node as it was.
pub proof fn lemma_without_node_frame<N, E>(g: GraphModel<N, E>, a: usize)
    ensures
        !g.without_node(a).is_node(a as int),
        forall|y: int| y != a ==> (#[trigger] g.without_node(a).is_node(y) <==> g.is_node(y)),
        forall|y: int| y != a && g.is_node(y) ==> #[trigger] g.without_node(a).node(y) == g.node(y),
{
}

/// Adding to `done` the edges between `a` and each of `nbrs` keeps the list
/// free of repeats and within `rt`, and takes in every edge of `rt` that
/// joins `a` to one of `nbrs`, in either direction.
pub proof fn lemma_removal_from<N, E>(g: GraphModel<N, E>, a: usize, rt: Seq<usize>, nbrs: Seq<usize>, done: Seq<usize>)
    requires
        no_dup(rt),
        no_dup(done),
        forall|x: usize| #[trigger] done.contains(x) ==> rt.contains(x),
    ensures
        no_dup(g.removal_from(a, rt, nbrs, done)),
        forall|x: usize| #[trigger] g.removal_from(a, rt, nbrs, done).contains(x) ==> rt.contains(x),
        forall|x: usize| done.contains(x) ==> #[trigger] g.removal_from(a, rt, nbrs, done).contains(x),
        forall|k: int, e: usize|
            #![trigger nbrs[k], g.removal_from(a, rt, nbrs, done).contains(e)]
            0 <= k < nbrs.len() && rt.contains(e) && ((g.edge(e as int).source == a && g.edge(e as int).target
                == nbrs[k]) || (g.edge(e as int).source == nbrs[k] && g.edge(e as int).target == a))
                ==> g.removal_from(a, rt, nbrs, done).contains(e),
    decreases nbrs.len(),
{
    if nbrs.len() > 0 {
        let n0 = nbrs[0];
        let fwd = keep(rt, g.leads(a, n0, done));
        let d1 = done + fwd;
        let bwd = keep(rt, g.leads(n0, a, d1));
        let d2 = done + g.between(a, n0, rt, done);
        lemma_keep(rt, g.leads(a, n0, done));
        lemma_keep(rt, g.leads(n0, a, d1));
        lemma_concat(done, fwd);
        lemma_concat(d1, bwd);
        assert(d2 =~= d1 + bwd);
        let rest = nbrs.drop_first();
        lemma_removal_from(g, a, rt, rest, d2);
        let r = g.removal_from(a, rt, nbrs, done);
        assert(r == g.removal_from(a, rt, rest, d2));
        assert forall|x: usize| done.contains(x) implies #[trigger] r.contains(x) by {
            assert(d1.contains(x));
            assert(d2.contains(x));
        }
        assert forall|k: int, e: usize|
            #![trigger nbrs[k], r.contains(e)]
            0 <= k < nbrs.len() && rt.contains(e) && ((g.edge(e as int).source == a && g.edge(e as int).target
                == nbrs[k]) || (g.edge(e as int).source == nbrs[k] && g.edge(e as int).target == a))
                implies r.contains(e) by {
            if k == 0 {
                if g.edge(e as int).source == a && g.edge(e as int).target == n0 {
                    if !done.contains(e) {
                        assert(g.leads(a, n0, done)(e));
                        assert(fwd.contains(e));
                    }
                    assert(d1.contains(e));
                } else {
                    if !d1.contains(e) {
                        assert(g.leads(n0, a, d1)(e));
                        assert(bwd.contains(e));
                    }
                }
                assert(d2.contains(e));
            } else {
                assert(rest[k - 1] == nbrs[k]);
            }
        }
    }
}

/// Removing a node frees each edge that touches it exactly once.
pub proof fn lemma_removal_order<N, E>(g: GraphModel<N, E>, a: usize)
    requires
        g.wf(),
    ensures
        no_dup(g.removal_order(a)),
        forall|x: usize| #[trigger] g.removal_order(a).contains(x) <==> g.insertion.contains(x) && g.touching(a)(x),
{
    let kt = keep(g.insertion, g.touching(a));
    let rt = reversed(kt);
    lemma_keep(g.insertion, g.touching(a));
    lemma_reversed(kt);
    let nbrs = g.removal_neighbors(a, rt);
    let first = keep(rt, g.leaves(a));
    let second = keep(rt, g.enters_from_other(a));
    lemma_keep(rt, g.leaves(a));
    lemma_keep(rt, g.enters_from_other(a));
    lemma_removal_from(g, a, rt, nbrs, Seq::empty());
    let r = g.removal_order(a);
    assert forall|x: usize| #[trigger] r.contains(x) <==> g.insertion.contains(x) && g.touching(a)(x) by {
        if g.insertion.contains(x) && g.touching(a)(x) {
            assert(rt.contains(x));
            if g.edge(x as int).source == a {
                assert(first.contains(x));
                let j = choose|j: int| 0 <= j < first.len() && first[j] == x;
                assert(nbrs[j] == g.edge(x as int).target);
            } else {
                assert(g.edge(x as int).target == a);
                assert(second.contains(x));
                let j = choose|j: int| 0 <= j < second.len() && second[j] == x;
                assert(nbrs[first.len() + j] == g.edge(x as int).source);
            }
        }
    }
}

/// `v` in reverse order.
fn reverse_indices(v: &Vec<usize>) -> (r: Vec<usize>)
    ensures
        r@ == reversed(v@),
{
    let mut r: Vec<usize> = Vec::new();
    let mut k: usize = v.len();
    while k > 0
        invariant
            k <= v@.len(),
            r@.len() == v@.len() - k,
            forall|i: int| 0 <= i < r@.len() ==> #[trigger] r@[i] == v@[v@.len() - 1 - i],
        decreases k,
    {
        k -= 1;
        r.push(v[k]);
    }
    assert(r@ =~= reversed(v@));
    r
}

/// Whether `x` occurs in `v`.
fn contains_index(v: &Vec<usize>, x: usize) -> (b: bool)
    ensures
        b == v@.contains(x),
{
    let mut k: usize = 0;
    while k < v.len()
        invariant
            k <= v@.len(),
            forall|i: int| 0 <= i < k ==> v@[i] != x,
        decreases v@.len() - k,
    {
        if v[k] == x {
            assert(v@[k as int] == x);
            return true;
        }
        k += 1;
    }
    false
}

/// `a` followed by `b`.
fn concat_indices(a: &Vec<usize>, b: &Vec<usize>) -> (r: Vec<usize>)
    ensures
        r@ == a@ + b@,
{
    let mut r: Vec<usize> = Vec::new();
    let mut k: usize = 0;
    while k < a.len()
        invariant
            k <= a@.len(),
            r@ == a@.take(k as int),
        decreases a@.len() - k,
    {
        r.push(a[k]);
        assert(r@ =~= a@.take(k + 1));
        k += 1;
    }
    let mut j: usize = 0;
    while j < b.len()
        invariant
            j <= b@.len(),
            r@ == a@ + b@.take(j as int),
        decreases b@.len() - j,
    {
        r.push(b[j]);
        assert(r@ =~= a@ + b@.take(j + 1));
        j += 1;
    }
    assert(a@ + b@.take(j as int) =~= a@ + b@);
    r
}

/// A directed graph with stable indices: removing a node or an edge leaves
/// the other indices unchanged, and freed slots are reused most recent first.
pub struct Graph<N, E> {
    nodes: Vec<Option<Node<N>>>,
    edges: Vec<Option<Edge<E>>>,
    free_nodes: Vec<usize>,
    free_edges: Vec<usize>,
    insertion: Vec<usize>,
    selected_edges: Vec<usize>,
}

impl<N, E> View for Graph<N, E> {
    type V = GraphModel<N, E>;

    closed spec fn view(&self) -> GraphModel<N, E> {
        GraphModel {
            nodes: self.nodes@,
            edges: self.edges@,
            free_nodes: self.free_nodes@,
            free_edges: self.free_edges@,
            insertion: self.insertion@,
            selected_edges: self.selected_edges@,
        }
    }
}

impl<N, E> Graph<N, E> {
    /// The slot and list lengths of a graph fit in `usize`.
    pub proof fn lemma_bounds(&self)
        ensures
            self@.nodes.len() <= usize::MAX,
            self@.edges.len() <= usize::MAX,
            self@.free_nodes.len() <= usize::MAX,
            self@.free_edges.len() <= usize::MAX,
            self@.insertion.len() <= usize::MAX,
    {
        assert(self.nodes.len() == self.nodes@.len());
        assert(self.edges.len() == self.edges@.len());
        assert(self.free_nodes.len() == self.free_nodes@.len());
        assert(self.free_edges.len() == self.free_edges@.len());
        assert(self.insertion.len() == self.insertion@.len());
    }

    /// An empty graph.
    pub fn new() -> (g: Self)
        ensures
            g@.wf(),
            g@.nodes.len() == 0,
            g@.edges.len() == 0,
            g@.free_nodes.len() == 0,
            g@.free_edges.len() == 0,
            g@.insertion.len() == 0,
            g@.selected_edges.len() == 0,
    {
        Graph {
            nodes: Vec::new(),
            edges: Vec::new(),
            free_nodes: Vec::new(),
            free_edges: Vec::new(),
            insertion: Vec::new(),
            selected_edges: Vec::new(),
        }
    }

    /// The node at `i`, if it is live.
    pub fn node(&self, i: usize) -> (r: Option<&Node<N>>)
        ensures
            match r {
                Some(n) => self@.is_node(i as int) && *n == self@.node(i as int),
                None => !self@.is_node(i as int),
            },
    {
        if i < self.nodes.len() {
            match &self.nodes[i] {
                Some(n) => Some(n),
                None => None,
            }
        } else {
            None
        }
    }

    /// The edge at `e`, if it is live.
    pub fn edge(&self, e: usize) -> (r: Option<&Edge<E>>)
        ensures
            match r {
                Some(x) => self@.is_edge(e as int) && *x == self@.edge(e as int),
                None => !self@.is_edge(e as int),
            },
    {
        if e < self.edges.len() {
            match &self.edges[e] {
                Some(x) => Some(x),
                None => None,
            }
        } else {
            None
        }
    }

    /// Live node indices in increasing order.
    pub fn node_indices(&self) -> (r: Vec<usize>)
        ensures
            r@ == self@.node_indices(),
    {
        let mut r: Vec<usize> = Vec::new();
        let mut i: usize = 0;
        while i < self.nodes.len()
            invariant
                i <= self.nodes@.len(),
                r@ == live_indices(self.nodes@.take(i as int)),
            decreases self.nodes@.len() - i,
        {
            assert(self.nodes@.take(i + 1).drop_last() =~= self.nodes@.take(i as int));
            if self.nodes[i].is_some() {
                r.push(i);
            }
            i += 1;
        }
        assert(self.nodes@.take(i as int) =~= self.nodes@);
        r
    }

    /// Live edge indices in increasing order.
    pub fn edge_indices(&self) -> (r: Vec<usize>)
        ensures
            r@ == self@.edge_indices(),
    {
        let mut r: Vec<usize> = Vec::new();
        let mut i: usize = 0;
        while i < self.edges.len()
            invariant
                i <= self.edges@.len(),
                r@ == live_indices(self.edges@.take(i as int)),
            decreases self.edges@.len() - i,
        {
            assert(self.edges@.take(i + 1).drop_last() =~= self.edges@.take(i as int));
            if self.edges[i].is_some() {
                r.push(i);
            }
            i += 1;
        }
        assert(self.edges@.take(i as int) =~= self.edges@);
        r
    }


    /// Adds a node with the given label, unselected; returns its index.
    pub fn add_node(&mut self, payload: N, label: String) -> (idx: usize)
        requires
            old(self)@.wf(),
        ensures
            final(self)@.wf(),
            idx == old(self)@.next_node_index(),
            final(self)@ == old(self)@.with_node(payload, label),
            final(self)@.nodes == put(
                old(self)@.nodes,
                idx,
                (Node { payload, label, selected: false }),
            ),
            final(self)@.free_nodes == after_take(old(self)@.free_nodes),
            final(self)@.edges == old(self)@.edges,
            final(self)@.free_edges == old(self)@.free_edges,
            final(self)@.insertion == old(self)@.insertion,
            final(self)@.selected_edges == old(self)@.selected_edges,
    {
        let n = Node { payload, label, selected: false };
        let ghost g0 = self@;
        if self.free_nodes.len() > 0 {
            let idx = self.free_nodes.pop().unwrap();
            self.nodes[idx] = Some(n);
            proof {
                let g = self@;
                self.lemma_bounds();
                assert(g.free_nodes == g0.free_nodes.drop_last());
                assert forall|i: int| 0 <= i < g.nodes.len() && g.nodes[i] is None implies g.free_nodes.contains(i as usize) by {
                    assert(g0.free_nodes[g0.free_nodes.len() - 1] == idx);
                    assert(i != idx as int);
                    assert(g0.nodes[i] is None);
                    assert(g0.free_nodes.contains(i as usize));
                    let k = choose|k: int| 0 <= k < g0.free_nodes.len() && g0.free_nodes[k] == i as usize;
                    assert(k != g0.free_nodes.len() - 1);
                    assert(g.free_nodes[k] == i as usize);
                }
                assert forall|k: int| 0 <= k < g.free_nodes.len() implies #[trigger] g.free_nodes[k] < g.nodes.len() && g.nodes[g.free_nodes[k] as int] is None by {
                    assert(g0.free_nodes[k] != g0.free_nodes[g0.free_nodes.len() - 1]);
                }
                assert forall|e: int| #![trigger g.edges[e]] g.is_edge(e) implies g.is_node(g.edge(e).source as int) && g.is_node(g.edge(e).target as int) by {
                    assert(g0.is_edge(e));
                }
            }
            idx
        } else {
            let idx = self.nodes.len();
            self.nodes.push(Some(n));
            proof {
                let g = self@;
                assert forall|e: int| #![trigger g.edges[e]] g.is_edge(e) implies g.is_node(g.edge(e).source as int) && g.is_node(g.edge(e).target as int) by {
                    assert(g0.is_edge(e));
                }
                assert forall|i: int| 0 <= i < g.nodes.len() && g.nodes[i] is None implies g.free_nodes.contains(i as usize) by {
                    assert(g0.nodes[i] is None);
                }
            }
            idx
        }
    }

    /// Adds an edge from `a` to `b`; returns its index.
    pub fn add_edge(&mut self, a: usize, b: usize, payload: E, label: String) -> (idx: usize)
        requires
            old(self)@.wf(),
            old(self)@.is_node(a as int),
            old(self)@.is_node(b as int),
        ensures
            final(self)@.wf(),
            idx == old(self)@.next_edge_index(),
            final(self)@ == old(self)@.with_edge(a, b, payload, label),
            final(self)@.edges == put(
                old(self)@.edges,
                idx,
                (Edge { source: a, target: b, payload, label }),
            ),
            final(self)@.free_edges == after_take(old(self)@.free_edges),
            final(self)@.insertion == old(self)@.insertion.push(idx),
            final(self)@.nodes == old(self)@.nodes,
            final(self)@.free_nodes == old(self)@.free_nodes,
            final(self)@.selected_edges == old(self)@.selected_edges,
    {
        let x = Edge { source: a, target: b, payload, label };
        let ghost g0 = self@;
        let idx;
        if self.free_edges.len() > 0 {
            idx = self.free_edges.pop().unwrap();
            self.edges[idx] = Some(x);
            proof {
                let g = self@;
                self.lemma_bounds();
                assert forall|i: int| 0 <= i < g.edges.len() && g.edges[i] is None implies g.free_edges.contains(i as usize) by {
                    assert(g0.free_edges[g0.free_edges.len() - 1] == idx);
                    assert(i != idx as int);
                    assert(g0.edges[i] is None);
                    assert(g0.free_edges.contains(i as usize));
                    let k = choose|k: int| 0 <= k < g0.free_edges.len() && g0.free_edges[k] == i as usize;
                    assert(k != g0.free_edges.len() - 1);
                    assert(g.free_edges[k] == i as usize);
                }
                assert forall|k: int| 0 <= k < g.free_edges.len() implies #[trigger] g.free_edges[k] < g.edges.len() && g.edges[g.free_edges[k] as int] is None by {
                    assert(g0.free_edges[k] != g0.free_edges[g0.free_edges.len() - 1]);
                }
            }
        } else {
            idx = self.edges.len();
            self.edges.push(Some(x));
            proof {
                let g = self@;
                assert forall|i: int| 0 <= i < g.edges.len() && g.edges[i] is None implies g.free_edges.contains(i as usize) by {
                    assert(g0.edges[i] is None);
                }
            }
        }
        self.insertion.push(idx);
        proof {
            let g = self@;
            assert forall|e: int| #![trigger g.edges[e]] g.is_edge(e) implies g.is_node(g.edge(e).source as int) && g.is_node(g.edge(e).target as int) by {
                if e != idx {
                    assert(g0.is_edge(e));
                }
            }
            assert forall|e: int| g.is_edge(e) implies #[trigger] g.insertion.contains(e as usize) by {
                if e == idx {
                    assert(g.insertion[g.insertion.len() - 1] == idx);
                } else {
                    assert(g0.is_edge(e));
                    assert(g0.insertion.contains(e as usize));
                    let k = choose|k: int| 0 <= k < g0.insertion.len() && g0.insertion[k] == e as usize;
                    assert(g.insertion[k] == e as usize);
                }
            }
            assert forall|k: int| 0 <= k < g.insertion.len() implies #[trigger] g.is_edge(g.insertion[k] as int) by {
                if k < g0.insertion.len() {
                    assert(g0.is_edge(g0.insertion[k] as int));
                }
            }
            assert forall|i: int, j: int| 0 <= i < j < g.insertion.len() implies g.insertion[i] != g.insertion[j] by {
                if j == g0.insertion.len() {
                    assert(g0.is_edge(g0.insertion[i] as int));
                }
            }
        }
        idx
    }

    /// Removes edge `e`; returns it, or `None` when there is no such edge.
    pub fn remove_edge(&mut self, e: usize) -> (r: Option<Edge<E>>)
        requires
            old(self)@.wf(),
        ensures
            final(self)@.wf(),
            final(self)@ == old(self)@.without_edge(e),
            match r {
                Some(x) => {
                    &&& old(self)@.is_edge(e as int)
                    &&& x == old(self)@.edge(e as int)
                    &&& final(self)@.edges == old(self)@.edges.update(e as int, None)
                    &&& final(self)@.free_edges == old(self)@.free_edges.push(e)
                    &&& final(self)@.insertion == keep(old(self)@.insertion, other_than(e))
                },
                None => {
                    &&& !old(self)@.is_edge(e as int)
                    &&& final(self)@ == old(self)@
                },
            },
            final(self)@.nodes == old(self)@.nodes,
            final(self)@.free_nodes == old(self)@.free_nodes,
            final(self)@.selected_edges == old(self)@.selected_edges,
    {
        if e >= self.edges.len() || self.edges[e].is_none() {
            return None;
        }
        let ghost g0 = self@;
        let ghost p = other_than(e);
        let mut kept: Vec<usize> = Vec::new();
        let mut k: usize = 0;
        while k < self.insertion.len()
            invariant
                self@ == g0,
                p == other_than(e),
                k <= self.insertion@.len(),
                kept@ == keep(self.insertion@.take(k as int), p),
            decreases self.insertion@.len() - k,
        {
            assert(self.insertion@.take(k + 1).drop_last() =~= self.insertion@.take(k as int));
            let x = self.insertion[k];
            assert(p(x) == (x != e));
            assert(self.insertion@.take(k + 1).last() == x);
            if x != e {
                kept.push(x);
            }
            k += 1;
        }
        assert(self.insertion@.take(k as int) =~= self.insertion@);
        let r = self.edges[e].take();
        self.free_edges.push(e);
        self.insertion = kept;
        proof {
            let g = self@;
            lemma_keep(g0.insertion, p);
            assert forall|i: int| 0 <= i < g.edges.len() && g.edges[i] is None implies g.free_edges.contains(i as usize) by {
                if i == e {
                    assert(g.free_edges[g.free_edges.len() - 1] == e);
                } else {
                    assert(g0.free_edges.contains(i as usize));
                    let j = choose|j: int| 0 <= j < g0.free_edges.len() && g0.free_edges[j] == i as usize;
                    assert(g.free_edges[j] == i as usize);
                }
            }
            assert forall|a: int, b: int| 0 <= a < b < g.free_edges.len() implies g.free_edges[a] != g.free_edges[b] by {
                if b == g0.free_edges.len() {
                    assert(g0.edges[g0.free_edges[a] as int] is None);
                }
            }
            assert forall|j: int| 0 <= j < g.free_edges.len() implies #[trigger] g.free_edges[j] < g.edges.len() && g.edges[g.free_edges[j] as int] is None by {
                if j < g0.free_edges.len() {
                    assert(g0.edges[g0.free_edges[j] as int] is None);
                }
            }
            assert forall|x: int| #![trigger g.edges[x]] g.is_edge(x) implies g.is_node(g.edge(x).source as int) && g.is_node(g.edge(x).target as int) by {
                assert(g0.is_edge(x));
            }
            assert forall|x: int| g.is_edge(x) implies #[trigger] g.insertion.contains(x as usize) by {
                assert(g0.is_edge(x));
                assert(g0.insertion.contains(x as usize));
                assert(keep(g0.insertion, p).contains(x as usize));
            }
            assert forall|j: int| 0 <= j < g.insertion.len() implies #[trigger] g.is_edge(g.insertion[j] as int) by {
                assert(keep(g0.insertion, p).contains(g.insertion[j]));
                assert(g0.insertion.contains(g.insertion[j]));
                let t = choose|t: int| 0 <= t < g0.insertion.len() && g0.insertion[t] == g.insertion[j];
                assert(g0.is_edge(g0.insertion[t] as int));
            }
        }
        proof {
            let w = g0.without_edge(e);
            assert(self@.nodes == w.nodes);
            assert(self@.edges == w.edges);
            assert(self@.free_nodes == w.free_nodes);
            assert(self@.free_edges == w.free_edges);
            assert(self@.insertion == w.insertion);
            assert(self@.selected_edges == w.selected_edges);
        }
        r
    }


    /// The edges among `rt` that `leads(a, b, done)` accepts, in order.
    fn keep_leading(&self, a: usize, b: usize, rt: &Vec<usize>, done: &Vec<usize>) -> (r: Vec<usize>)
        requires
            forall|k: int| 0 <= k < rt@.len() ==> #[trigger] self@.is_edge(rt@[k] as int),
        ensures
            r@ == keep(rt@, self@.leads(a, b, done@)),
    {
        let mut r: Vec<usize> = Vec::new();
        let mut j: usize = 0;
        while j < rt.len()
            invariant
                forall|k: int| 0 <= k < rt@.len() ==> #[trigger] self@.is_edge(rt@[k] as int),
                j <= rt@.len(),
                r@ == keep(rt@.take(j as int), self@.leads(a, b, done@)),
            decreases rt@.len() - j,
        {
            let e = rt[j];
            assert(rt@.take(j + 1).drop_last() =~= rt@.take(j as int));
            assert(rt@.take(j + 1).last() == e);
            assert(self@.is_edge(rt@[j as int] as int));
            let x = self.edges[e].as_ref().unwrap();
            if x.source == a && x.target == b && !contains_index(done, e) {
                r.push(e);
            }
            j += 1;
        }
        assert(rt@.take(j as int) =~= rt@);
        r
    }

    /// See `GraphModel::between`.
    fn between_exec(&self, a: usize, n: usize, rt: &Vec<usize>, done: &Vec<usize>) -> (r: Vec<usize>)
        requires
            forall|k: int| 0 <= k < rt@.len() ==> #[trigger] self@.is_edge(rt@[k] as int),
        ensures
            r@ == self@.between(a, n, rt@, done@),
    {
        let fwd = self.keep_leading(a, n, rt, done);
        let d1 = concat_indices(done, &fwd);
        let bwd = self.keep_leading(n, a, rt, &d1);
        concat_indices(&fwd, &bwd)
    }

    /// See `GraphModel::removal_neighbors`.
    fn neighbors_for_removal(&self, a: usize, rt: &Vec<usize>) -> (r: Vec<usize>)
        requires
            forall|k: int| 0 <= k < rt@.len() ==> #[trigger] self@.is_edge(rt@[k] as int),
        ensures
            r@ == self@.removal_neighbors(a, rt@),
    {
        let ghost g = self@;
        let mut r: Vec<usize> = Vec::new();
        let mut j: usize = 0;
        while j < rt.len()
            invariant
                g == self@,
                forall|k: int| 0 <= k < rt@.len() ==> #[trigger] g.is_edge(rt@[k] as int),
                j <= rt@.len(),
                r@ == keep(rt@.take(j as int), g.leaves(a)).map_values(g.target_of()),
            decreases rt@.len() - j,
        {
            let e = rt[j];
            assert(rt@.take(j + 1).drop_last() =~= rt@.take(j as int));
            assert(rt@.take(j + 1).last() == e);
            assert(g.is_edge(rt@[j as int] as int));
            let x = self.edges[e].as_ref().unwrap();
            if x.source == a {
                let ghost pre = keep(rt@.take(j as int), g.leaves(a));
                r.push(x.target);
                assert(r@ =~= pre.push(e).map_values(g.target_of()));
            }
            j += 1;
        }
        assert(rt@.take(j as int) =~= rt@);
        let ghost first = r@;
        let mut j: usize = 0;
        while j < rt.len()
            invariant
                g == self@,
                forall|k: int| 0 <= k < rt@.len() ==> #[trigger] g.is_edge(rt@[k] as int),
                j <= rt@.len(),
                first == keep(rt@, g.leaves(a)).map_values(g.target_of()),
                r@ == first + keep(rt@.take(j as int), g.enters_from_other(a)).map_values(g.source_of()),
            decreases rt@.len() - j,
        {
            let e = rt[j];
            assert(rt@.take(j + 1).drop_last() =~= rt@.take(j as int));
            assert(rt@.take(j + 1).last() == e);
            assert(g.is_edge(rt@[j as int] as int));
            let x = self.edges[e].as_ref().unwrap();
            if x.target == a && x.source != a {
                let ghost pre = keep(rt@.take(j as int), g.enters_from_other(a));
                r.push(x.source);
                assert(r@ =~= first + pre.push(e).map_values(g.source_of()));
            }
            j += 1;
        }
        assert(rt@.take(j as int) =~= rt@);
        r
    }

    /// See `GraphModel::removal_order`; `gone` lists the edges at `a` in the
    /// order they were added.
    fn removal_order_exec(&self, a: usize, gone: &Vec<usize>) -> (r: Vec<usize>)
        requires
            self@.wf(),
            gone@ == keep(self@.insertion, self@.touching(a)),
        ensures
            r@ == self@.removal_order(a),
    {
        let ghost g = self@;
        proof {
            lemma_keep(g.insertion, g.touching(a));
        }
        let rt = reverse_indices(gone);
        proof {
            lemma_reversed(gone@);
            assert forall|k: int| 0 <= k < rt@.len() implies #[trigger] g.is_edge(rt@[k] as int) by {
                assert(rt@.contains(rt@[k]));
                assert(gone@.contains(rt@[k]));
                assert(g.touching(a)(rt@[k]));
            }
        }
        let nbrs = self.neighbors_for_removal(a, &rt);
        let mut order: Vec<usize> = Vec::new();
        let mut i: usize = 0;
        assert(nbrs@.skip(0) =~= nbrs@);
        while i < nbrs.len()
            invariant
                g == self@,
                forall|k: int| 0 <= k < rt@.len() ==> #[trigger] g.is_edge(rt@[k] as int),
                rt@ == reversed(keep(g.insertion, g.touching(a))),
                nbrs@ == g.removal_neighbors(a, rt@),
                i <= nbrs@.len(),
                g.removal_order(a) == g.removal_from(a, rt@, nbrs@.skip(i as int), order@),
            decreases nbrs@.len() - i,
        {
            let b = self.between_exec(a, nbrs[i], &rt, &order);
            proof {
                assert(nbrs@.skip(i as int).drop_first() =~= nbrs@.skip(i + 1));
                assert(nbrs@.skip(i as int)[0] == nbrs@[i as int]);
            }
            order = concat_indices(&order, &b);
            i += 1;
        }
        assert(nbrs@.skip(i as int) =~= Seq::<usize>::empty());
        order
    }

    /// Removes node `a` together with every edge that touches it. The edges
    /// are freed in the order `removal_order` gives. Returns the node, or `None`
    /// when there is no such node.
    pub fn remove_node(&mut self, a: usize) -> (r: Option<Node<N>>)
        requires
            old(self)@.wf(),
        ensures
            final(self)@.wf(),
            final(self)@ == old(self)@.without_node(a),
            final(self)@.selected_edges == old(self)@.selected_edges,
            match r {
                Some(n) => {
                    &&& old(self)@.is_node(a as int)
                    &&& n == old(self)@.node(a as int)
                    &&& final(self)@.nodes == old(self)@.nodes.update(a as int, None)
                    &&& final(self)@.free_nodes == old(self)@.free_nodes.push(a)
                    &&& final(self)@.insertion == keep(old(self)@.insertion, old(self)@.not_touching(a))
                    &&& final(self)@.free_edges == old(self)@.free_edges + old(self)@.removal_order(a)
                    &&& final(self)@.edges.len() == old(self)@.edges.len()
                    &&& forall|i: int|
                        0 <= i < old(self)@.edges.len() ==> #[trigger] final(self)@.edges[i] == if old(
                            self,
                        )@.incident(i, a) {
                            None
                        } else {
                            old(self)@.edges[i]
                        }
                },
                None => {
                    &&& !old(self)@.is_node(a as int)
                    &&& final(self)@ == old(self)@
                },
            },
    {
        if a >= self.nodes.len() || self.nodes[a].is_none() {
            return None;
        }
        let ghost g0 = self@;
        let ghost inc = g0.touching(a);
        let ghost outc = g0.not_touching(a);
        let mut kept: Vec<usize> = Vec::new();
        let mut gone: Vec<usize> = Vec::new();
        let mut k: usize = 0;
        while k < self.insertion.len()
            invariant
                self@ == g0,
                g0.wf(),
                inc == g0.touching(a),
                outc == g0.not_touching(a),
                k <= self.insertion@.len(),
                kept@ == keep(self.insertion@.take(k as int), outc),
                gone@ == keep(self.insertion@.take(k as int), inc),
            decreases self.insertion@.len() - k,
        {
            assert(self.insertion@.take(k + 1).drop_last() =~= self.insertion@.take(k as int));
            let e = self.insertion[k];
            assert(self.insertion@.take(k + 1).last() == e);
            assert(g0.is_edge(g0.insertion[k as int] as int));
            let x = self.edges[e].as_ref().unwrap();
            if x.source == a || x.target == a {
                assert(inc(e));
                gone.push(e);
            } else {
                assert(outc(e));
                kept.push(e);
            }
            k += 1;
        }
        assert(self.insertion@.take(k as int) =~= self.insertion@);
        proof {
            self.lemma_bounds();
            lemma_keep(g0.insertion, inc);
            lemma_keep(g0.insertion, outc);
            lemma_reversed(gone@);
        }
        let order = self.removal_order_exec(a, &gone);
        proof {
            lemma_removal_order(g0, a);
        }
        let ghost rg = order@;
        let mut i: usize = 0;
        while i < order.len()
            invariant
                g0.wf(),
                inc == g0.touching(a),
                gone@ == keep(g0.insertion, inc),
                rg == order@,
                g0.edges.len() <= usize::MAX,
                i <= rg.len(),
                no_dup(rg),
                forall|x: usize| #[trigger] rg.contains(x) <==> g0.insertion.contains(x) && inc(x),
                self.edges@.len() == g0.edges.len(),
                forall|t: int|
                    0 <= t < g0.edges.len() ==> #[trigger] self.edges@[t] == if rg.take(
                        i as int,
                    ).contains(t as usize) {
                        None
                    } else {
                        g0.edges[t]
                    },
                self.free_edges@ == g0.free_edges + rg.take(i as int),
                self.nodes@ == g0.nodes,
                self.free_nodes@ == g0.free_nodes,
                self.insertion@ == g0.insertion,
                self.selected_edges@ == g0.selected_edges,
            decreases rg.len() - i,
        {
            let e = order[i];
            proof {
                assert(rg[i as int] == e);
                assert(rg.contains(e));
                assert(g0.insertion.contains(e));
                let t0 = choose|t0: int| 0 <= t0 < g0.insertion.len() && g0.insertion[t0] == e;
                assert(g0.is_edge(g0.insertion[t0] as int));
            }
            self.edges.set(e, None);
            self.free_edges.push(e);
            proof {
                assert(rg.take(i + 1) =~= rg.take(i as int).push(e));
                assert forall|t: int| 0 <= t < g0.edges.len() implies #[trigger] self.edges@[t] == if rg.take(
                        (i + 1) as int,
                    ).contains(t as usize) {
                        None
                    } else {
                        g0.edges[t]
                    } by {
                    let tk1 = rg.take(i + 1);
                    let tk0 = rg.take(i as int);
                    if t == e as int {
                        assert(tk1[i as int] == e);
                    } else {
                        if tk1.contains(t as usize) {
                            let q = choose|q: int| 0 <= q < tk1.len() && tk1[q] == t as usize;
                            assert(q != i as int);
                            assert(tk0[q] == t as usize);
                        }
                        if tk0.contains(t as usize) {
                            let q = choose|q: int| 0 <= q < tk0.len() && tk0[q] == t as usize;
                            assert(tk1[q] == t as usize);
                        }
                    }
                }
            }
            i += 1;
        }
        self.insertion = kept;
        let r = self.nodes[a].take();
        self.free_nodes.push(a);
        proof {
            let g = self@;
            assert(rg.take(i as int) =~= rg);
            assert(gone@ == keep(g0.insertion, inc));
            // edges view
            assert forall|t: int| 0 <= t < g0.edges.len() implies (rg.contains(t as usize) <==> g0.incident(t, a)) by {
                if g0.incident(t, a) {
                    assert(g0.insertion.contains(t as usize));
                    assert(inc(t as usize));
                }
                if rg.contains(t as usize) {
                    assert(inc(t as usize));
                }
            }
            // node free list
            assert forall|x: int, y: int| 0 <= x < y < g.free_nodes.len() implies g.free_nodes[x] != g.free_nodes[y] by {
                if y == g0.free_nodes.len() {
                    assert(g0.nodes[g0.free_nodes[x] as int] is None);
                }
            }
            assert forall|q: int| 0 <= q < g.free_nodes.len() implies #[trigger] g.free_nodes[q] < g.nodes.len() && g.nodes[g.free_nodes[q] as int] is None by {
                if q < g0.free_nodes.len() {
                    assert(g0.nodes[g0.free_nodes[q] as int] is None);
                }
            }
            assert forall|q: int| 0 <= q < g.nodes.len() && g.nodes[q] is None implies g.free_nodes.contains(q as usize) by {
                if q == a as int {
                    assert(g.free_nodes[g.free_nodes.len() - 1] == a);
                } else {
                    assert(g0.free_nodes.contains(q as usize));
                    let j = choose|j: int| 0 <= j < g0.free_nodes.len() && g0.free_nodes[j] == q as usize;
                    assert(g.free_nodes[j] == q as usize);
                }
            }
            // edge free list
            assert forall|x: int, y: int| 0 <= x < y < g.free_edges.len() implies g.free_edges[x] != g.free_edges[y] by {
                let n0 = g0.free_edges.len() as int;
                if x < n0 && y >= n0 {
                    assert(g.free_edges[y] == rg[y - n0]);
                    assert(rg.contains(rg[y - n0]));
                    assert(g0.insertion.contains(rg[y - n0]));
                    let t0 = choose|t0: int| 0 <= t0 < g0.insertion.len() && g0.insertion[t0] == rg[y - n0];
                    assert(g0.is_edge(g0.insertion[t0] as int));
                    assert(g0.edges[g0.free_edges[x] as int] is None);
                } else if x >= n0 {
                    assert(g.free_edges[x] == rg[x - n0]);
                    assert(g.free_edges[y] == rg[y - n0]);
                }
            }
            assert forall|q: int| 0 <= q < g.free_edges.len() implies #[trigger] g.free_edges[q] < g.edges.len() && g.edges[g.free_edges[q] as int] is None by {
                let n0 = g0.free_edges.len() as int;
                if q < n0 {
                    assert(g0.edges[g0.free_edges[q] as int] is None);
                    assert(g.edges[g.free_edges[q] as int] == g0.edges[g0.free_edges[q] as int] || g.edges[g.free_edges[q] as int] is None);
                } else {
                    let v = rg[q - n0];
                    assert(g.free_edges[q] == v);
                    assert(rg.contains(v));
                    assert(g0.insertion.contains(v));
                    let t0 = choose|t0: int| 0 <= t0 < g0.insertion.len() && g0.insertion[t0] == v;
                    assert(g0.is_edge(g0.insertion[t0] as int));
                    assert(rg.take(i as int).contains(v));
                }
            }
            assert forall|q: int| 0 <= q < g.edges.len() && g.edges[q] is None implies g.free_edges.contains(q as usize) by {
                if rg.contains(q as usize) {
                    let j = choose|j: int| 0 <= j < rg.len() && rg[j] == q as usize;
                    assert(g.free_edges[g0.free_edges.len() + j] == q as usize);
                } else {
                    assert(g0.edges[q] is None);
                    assert(g0.free_edges.contains(q as usize));
                    let j = choose|j: int| 0 <= j < g0.free_edges.len() && g0.free_edges[j] == q as usize;
                    assert(g.free_edges[j] == q as usize);
                }
            }
            // endpoints
            assert forall|x: int| #![trigger g.edges[x]] g.is_edge(x) implies g.is_node(g.edge(x).source as int) && g.is_node(g.edge(x).target as int) by {
                assert(!rg.contains(x as usize));
                assert(g0.is_edge(x));
                assert(!g0.incident(x, a));
            }
            // insertion
            assert forall|x: int| g.is_edge(x) implies #[trigger] g.insertion.contains(x as usize) by {
                assert(!rg.contains(x as usize));
                assert(g0.is_edge(x));
                assert(g0.insertion.contains(x as usize));
                assert(outc(x as usize));
            }
            assert forall|j: int| 0 <= j < g.insertion.len() implies #[trigger] g.is_edge(g.insertion[j] as int) by {
                let v = g.insertion[j];
                assert(keep(g0.insertion, outc).contains(v));
                assert(g0.insertion.contains(v));
                let t0 = choose|t0: int| 0 <= t0 < g0.insertion.len() && g0.insertion[t0] == v;
                assert(g0.is_edge(g0.insertion[t0] as int));
                if rg.contains(v) {
                    assert(inc(v));
                }
            }
        }
        proof {
            let w = g0.without_node(a);
            assert(self@.edges =~= w.edges);
            assert(self@.nodes =~= w.nodes);
            assert(self@.free_edges =~= w.free_edges);
        }
        r
    }


    /// Sets the label of node `i`; returns whether the node exists.
    pub fn set_node_label(&mut self, i: usize, label: String) -> (found: bool)
        requires
            old(self)@.wf(),
        ensures
            final(self)@.wf(),
            found == old(self)@.is_node(i as int),
            final(self)@ == old(self)@.with_label(i, label),
            found ==> final(self)@ == (GraphModel {
                nodes: old(self)@.nodes.update(
                    i as int,
                    Some(
                        Node {
                            payload: old(self)@.node(i as int).payload,
                            label,
                            selected: old(self)@.node(i as int).selected,
                        },
                    ),
                ),
                ..old(self)@
            }),
            !found ==> final(self)@ == old(self)@,
    {
        if i >= self.nodes.len() || self.nodes[i].is_none() {
            return false;
        }
        let ghost g0 = self@;
        let mut n = self.nodes[i].take().unwrap();
        n.label = label;
        self.nodes[i] = Some(n);
        proof {
            let g = self@;
            assert(g.nodes =~= g0.nodes.update(i as int, Some(n)));
            assert forall|x: int| #![trigger g.edges[x]] g.is_edge(x) implies g.is_node(g.edge(x).source as int) && g.is_node(g.edge(x).target as int) by {
                assert(g0.is_edge(x));
            }
        }
        true
    }

    /// Sets whether node `i` is selected; returns whether the node exists.
    pub fn set_node_selected(&mut self, i: usize, selected: bool) -> (found: bool)
        requires
            old(self)@.wf(),
        ensures
            final(self)@.wf(),
            found == old(self)@.is_node(i as int),
            final(self)@ == old(self)@.with_selected(i, selected),
            found ==> final(self)@ == (GraphModel {
                nodes: old(self)@.nodes.update(
                    i as int,
                    Some(
                        Node {
                            payload: old(self)@.node(i as int).payload,
                            label: old(self)@.node(i as int).label,
                            selected,
                        },
                    ),
                ),
                ..old(self)@
            }),
            !found ==> final(self)@ == old(self)@,
    {
        if i >= self.nodes.len() || self.nodes[i].is_none() {
            return false;
        }
        let ghost g0 = self@;
        let mut n = self.nodes[i].take().unwrap();
        n.selected = selected;
        self.nodes[i] = Some(n);
        proof {
            let g = self@;
            assert(g.nodes =~= g0.nodes.update(i as int, Some(n)));
            assert forall|x: int| #![trigger g.edges[x]] g.is_edge(x) implies g.is_node(g.edge(x).source as int) && g.is_node(g.edge(x).target as int) by {
                assert(g0.is_edge(x));
            }
        }
        true
    }

    /// Replaces the payload of node `i`; returns whether the node exists.
    pub fn set_node_payload(&mut self, i: usize, payload: N) -> (found: bool)
        requires
            old(self)@.wf(),
        ensures
            final(self)@.wf(),
            found == old(self)@.is_node(i as int),
            final(self)@ == old(self)@.with_node_payload(i, payload),
            found ==> final(self)@ == (GraphModel {
                nodes: old(self)@.nodes.update(
                    i as int,
                    Some(
                        Node {
                            payload,
                            label: old(self)@.node(i as int).label,
                            selected: old(self)@.node(i as int).selected,
                        },
                    ),
                ),
                ..old(self)@
            }),
            !found ==> final(self)@ == old(self)@,
    {
        if i >= self.nodes.len() || self.nodes[i].is_none() {
            return false;
        }
        let ghost g0 = self@;
        let mut n = self.nodes[i].take().unwrap();
        n.payload = payload;
        self.nodes[i] = Some(n);
        proof {
            let g = self@;
            assert(g.nodes =~= g0.nodes.update(i as int, Some(n)));
            assert forall|x: int| #![trigger g.edges[x]] g.is_edge(x) implies g.is_node(g.edge(x).source as int) && g.is_node(g.edge(x).target as int) by {
                assert(g0.is_edge(x));
            }
        }
        true
    }

    /// Replaces the payload of edge `e`; returns whether the edge exists.
    pub fn set_edge_payload(&mut self, e: usize, payload: E) -> (found: bool)
        requires
            old(self)@.wf(),
        ensures
            final(self)@.wf(),
            found == old(self)@.is_edge(e as int),
            final(self)@ == old(self)@.with_edge_payload(e, payload),
            found ==> final(self)@ == (GraphModel {
                edges: old(self)@.edges.update(
                    e as int,
                    Some(
                        Edge {
                            source: old(self)@.edge(e as int).source,
                            target: old(self)@.edge(e as int).target,
                            payload,
                            label: old(self)@.edge(e as int).label,
                        },
                    ),
                ),
                ..old(self)@
            }),
            !found ==> final(self)@ == old(self)@,
    {
        if e >= self.edges.len() || self.edges[e].is_none() {
            return false;
        }
        let ghost g0 = self@;
        let mut x = self.edges[e].take().unwrap();
        x.payload = payload;
        self.edges[e] = Some(x);
        proof {
            let g = self@;
            assert(g.edges =~= g0.edges.update(e as int, Some(x)));
            assert forall|y: int| #![trigger g.edges[y]] g.is_edge(y) implies g.is_node(g.edge(y).source as int) && g.is_node(g.edge(y).target as int) by {
                assert(g0.is_edge(y));
            }
            assert forall|y: int| g.is_edge(y) implies #[trigger] g.insertion.contains(y as usize) by {
                assert(g0.is_edge(y));
            }
            assert forall|k: int| 0 <= k < g.insertion.len() implies #[trigger] g.is_edge(g.insertion[k] as int) by {
                assert(g0.is_edge(g0.insertion[k] as int));
            }
            assert forall|k: int| 0 <= k < g.free_edges.len() implies #[trigger] g.free_edges[k] < g.edges.len() && g.edges[g.free_edges[k] as int] is None by {
                assert(g0.edges[g0.free_edges[k] as int] is None);
            }
            assert forall|q: int| 0 <= q < g.edges.len() && g.edges[q] is None implies g.free_edges.contains(q as usize) by {
                assert(g0.edges[q] is None);
            }
        }
        true
    }

    /// Replaces the list of selected edges.
    pub fn set_selected_edges(&mut self, edges: Vec<usize>)
        requires
            old(self)@.wf(),
        ensures
            final(self)@ == (GraphModel { selected_edges: edges@, ..old(self)@ }),
            final(self)@.wf(),
    {
        self.selected_edges = edges;
    }

    /// The selected edges.
    pub fn selected_edges(&self) -> (r: &Vec<usize>)
        ensures
            r@ == self@.selected_edges,
    {
        &self.selected_edges
    }

    /// The live edges in the order they were added, the newest last.
    pub fn edges_by_insertion(&self) -> (r: &Vec<usize>)
        ensures
            r@ == self@.insertion,
    {
        &self.insertion
    }

    /// The most recently added edge from `a` to `b`, if any.
    pub fn find_edge(&self, a: usize, b: usize) -> (r: Option<usize>)
        requires
            self@.wf(),
        ensures
            r == self@.latest_edge(a, b),
            match r {
                Some(e) => exists|k: int|
                    0 <= k < self@.insertion.len() && self@.insertion[k] == e && self@.connects(
                        e as int,
                        a,
                        b,
                    ) && (forall|k2: int|
                        k < k2 < self@.insertion.len() ==> !self@.connects(
                            #[trigger] self@.insertion[k2] as int,
                            a,
                            b,
                        )),
                None => !self@.has_edge(a, b),
            },
    {
        let mut k: usize = self.insertion.len();
        assert(self.insertion@.take(k as int) =~= self.insertion@);
        while k > 0
            invariant
                self@.wf(),
                k <= self.insertion@.len(),
                forall|k2: int|
                    k <= k2 < self.insertion@.len() ==> !self@.connects(
                        #[trigger] self.insertion@[k2] as int,
                        a,
                        b,
                    ),
                self@.latest_edge(a, b) == self@.latest_edge_in(self.insertion@.take(k as int), a, b),
            decreases k,
        {
            assert(self.insertion@.take(k as int).drop_last() =~= self.insertion@.take(k - 1));
            k -= 1;
            let e = self.insertion[k];
            assert(self@.is_edge(self@.insertion[k as int] as int));
            let x = self.edges[e].as_ref().unwrap();
            if x.source == a && x.target == b {
                return Some(e);
            }
        }
        proof {
            self.lemma_bounds();
            assert forall|e: int| !self@.connects(e, a, b) by {
                if self@.connects(e, a, b) {
                    assert(self@.insertion.contains(e as usize));
                    let t = choose|t: int| 0 <= t < self@.insertion.len() && self@.insertion[t] == e as usize;
                    assert(self@.insertion[t] as int == e);
                    assert(!self@.connects(self@.insertion[t] as int, a, b));
                }
            }
        }
        None
    }

    /// Number of node slots, vacant ones included.
    pub fn node_slots(&self) -> (n: usize)
        ensures
            n == self@.nodes.len(),
    {
        self.nodes.len()
    }

    /// Number of edge slots, vacant ones included.
    pub fn edge_slots(&self) -> (n: usize)
        ensures
            n == self@.edges.len(),
    {
        self.edges.len()
    }


    /// Whether some edge leaves node `a`.
    pub fn has_outgoing(&self, a: usize) -> (r: bool)
        ensures
            r == self@.has_outgoing(a),
    {
        let mut e: usize = 0;
        while e < self.edges.len()
            invariant
                e <= self.edges@.len(),
                forall|x: int| 0 <= x < e ==> !(self@.is_edge(x) && #[trigger] self@.edge(x).source == a),
            decreases self.edges@.len() - e,
        {
            match &self.edges[e] {
                Some(x) => {
                    if x.source == a {
                        assert(self@.is_edge(e as int) && self@.edge(e as int).source == a);
                        return true;
                    }
                },
                None => {},
            }
            e += 1;
        }
        false
    }

    /// Whether some edge enters node `a`.
    pub fn has_incoming(&self, a: usize) -> (r: bool)
        ensures
            r == self@.has_incoming(a),
    {
        let mut e: usize = 0;
        while e < self.edges.len()
            invariant
                e <= self.edges@.len(),
                forall|x: int| 0 <= x < e ==> !(self@.is_edge(x) && #[trigger] self@.edge(x).target == a),
            decreases self.edges@.len() - e,
        {
            match &self.edges[e] {
                Some(x) => {
                    if x.target == a {
                        assert(self@.is_edge(e as int) && self@.edge(e as int).target == a);
                        return true;
                    }
                },
                None => {},
            }
            e += 1;
        }
        false
    }

    /// Number of live nodes.
    pub fn node_count(&self) -> (n: usize)
        ensures
            n == self@.node_indices().len(),
    {
        self.node_indices().len()
    }

    /// Number of live edges.
    pub fn edge_count(&self) -> (n: usize)
        ensures
            n == self@.edge_indices().len(),
    {
        self.edge_indices().len()
    }
}


fn copy_indices(v: &Vec<usize>) -> (r: Vec<usize>)
    ensures
        r@ == v@,
{
    let mut r: Vec<usize> = Vec::new();
    let mut k: usize = 0;
    while k < v.len()
        invariant
            k <= v@.len(),
            r@ == v@.take(k as int),
        decreases v@.len() - k,
    {
        r.push(v[k]);
        assert(v@.take(k + 1) =~= v@.take(k as int).push(v@[k as int]));
        k += 1;
    }
    assert(v@.take(k as int) =~= v@);
    r
}

impl<N: Duplicate, E: Copy> Graph<N, E> {
    /// A copy of the graph, slots, free lists and selection included.
    pub fn duplicate(&self) -> (r: Self)
        ensures
            r@ == self@,
    {
        let mut nodes: Vec<Option<Node<N>>> = Vec::new();
        let mut i: usize = 0;
        while i < self.nodes.len()
            invariant
                i <= self.nodes@.len(),
                nodes@ == self.nodes@.take(i as int),
            decreases self.nodes@.len() - i,
        {
            let slot = match &self.nodes[i] {
                Some(n) => Some(Node { payload: n.payload.duplicate(), label: n.label.clone(), selected: n.selected }),
                None => None,
            };
            nodes.push(slot);
            assert(self.nodes@.take(i + 1) =~= self.nodes@.take(i as int).push(self.nodes@[i as int]));
            i += 1;
        }
        assert(self.nodes@.take(i as int) =~= self.nodes@);
        let mut edges: Vec<Option<Edge<E>>> = Vec::new();
        let mut e: usize = 0;
        while e < self.edges.len()
            invariant
                e <= self.edges@.len(),
                edges@ == self.edges@.take(e as int),
            decreases self.edges@.len() - e,
        {
            let slot = match &self.edges[e] {
                Some(x) => Some(Edge { source: x.source, target: x.target, payload: x.payload, label: x.label.clone() }),
                None => None,
            };
            edges.push(slot);
            assert(self.edges@.take(e + 1) =~= self.edges@.take(e as int).push(self.edges@[e as int]));
            e += 1;
        }
        assert(self.edges@.take(e as int) =~= self.edges@);
        Graph {
            nodes,
            edges,
            free_nodes: copy_indices(&self.free_nodes),
            free_edges: copy_indices(&self.free_edges),
            insertion: copy_indices(&self.insertion),
            selected_edges: copy_indices(&self.selected_edges),
        }
    }
}

} // verus!
