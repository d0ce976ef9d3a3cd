use vstd::prelude::*;

use crate::graph::{Graph, GraphModel, Node, lemma_live_indices};
use crate::graph_state::{HasName, ObservableGraph, ObservableNode, ObservableNodeType};
use crate::names::{
    entries_sorted, entry_lt, entry_view, indices_increasing, lemma_entry_lt_asymmetric, rearranges,
    sort_by_name,
};

verus! {

/// Heatmap of a graph: column labels, row labels, `matrix[row][column]`,
/// and the node index behind each column and each row.
pub type HeatmapData<W> = (Vec<String>, Vec<String>, Vec<Vec<Option<W>>>, Vec<usize>, Vec<usize>);

/// A weight entered in a heatmap cell.
pub struct WeightChange<W> {
    pub source_idx: usize,
    pub target_idx: usize,
    pub new_weight: W,
}

/// The cell being edited and the text typed so far.
pub struct EditingState {
    pub editing_cell: Option<(usize, usize)>,
    pub edit_buffer: String,
}

// ------------------------------------------------------------------
// Specifications
// ------------------------------------------------------------------

/// The weight of the last edge among `le` that goes from `s` to `t`.
pub open spec fn last_weight<N, W>(g: GraphModel<N, W>, le: Seq<usize>, s: usize, t: usize) -> Option<W>
    decreases le.len(),
{
    if le.len() == 0 {
        None
    } else if g.connects(le.last() as int, s, t) {
        Some(g.edge(le.last() as int).payload)
    } else {
        last_weight(g, le.drop_last(), s, t)
    }
}

/// (index, key) of the nodes among `ln` that pass `keep`, in order.
pub open spec fn pairs_of<N, W>(
    g: GraphModel<N, W>,
    ln: Seq<usize>,
    keep: spec_fn(Node<N>) -> bool,
    key: spec_fn(Node<N>) -> Seq<char>,
) -> Seq<(usize, Seq<char>)>
    decreases ln.len(),
{
    if ln.len() == 0 {
        Seq::empty()
    } else {
        let pre = pairs_of(g, ln.drop_last(), keep, key);
        let x = ln.last();
        if keep(g.node(x as int)) {
            pre.push((x, key(g.node(x as int))))
        } else {
            pre
        }
    }
}

/// Every node.
pub open spec fn all_nodes<N>() -> spec_fn(Node<N>) -> bool {
    |n: Node<N>| true
}

/// Observable nodes of kind `k`.
pub open spec fn kind_is(k: ObservableNodeType) -> spec_fn(Node<ObservableNode>) -> bool {
    |n: Node<ObservableNode>| n.payload.node_type == k
}

/// A node's name.
pub open spec fn by_name<N: HasName>() -> spec_fn(Node<N>) -> Seq<char> {
    |n: Node<N>| n.payload.spec_name()
}

/// A node's display label.
pub open spec fn by_label<N>() -> spec_fn(Node<N>) -> Seq<char> {
    |n: Node<N>| n.label@
}

/// Views of (index, name) pairs.
pub open spec fn entries_view(s: Seq<(usize, String)>) -> Seq<(usize, Seq<char>)> {
    s.map_values(|e: (usize, String)| entry_view(e))
}

/// `order` is `pairs` sorted by name and then by index.
pub open spec fn sorted_pairs(order: Seq<(usize, String)>, pairs: Seq<(usize, Seq<char>)>) -> bool {
    &&& entries_sorted(order)
    &&& order.len() == pairs.len()
    &&& forall|x: (usize, Seq<char>)| #[trigger] entries_view(order).contains(x) <==> pairs.contains(x)
}

/// The indices of a list of pairs.
pub open spec fn firsts(s: Seq<(usize, String)>) -> Seq<usize> {
    s.map_values(|e: (usize, String)| e.0)
}

/// The names of a list of pairs.
pub open spec fn seconds(s: Seq<(usize, String)>) -> Seq<Seq<char>> {
    s.map_values(|e: (usize, String)| e.1@)
}

/// Index lists and label lists read together as pairs.
pub open spec fn zip_columns(idx: Seq<usize>, labels: Seq<String>) -> Seq<(usize, String)> {
    Seq::new(idx.len(), |i: int| (idx[i], labels[i]))
}

/// The (source, target) of the edge behind cell (`r`, `c`): from the row's
/// node to the column's node when `from_rows`, else the other way round.
pub open spec fn oriented(from_rows: bool, r: usize, c: usize) -> (usize, usize) {
    if from_rows {
        (r, c)
    } else {
        (c, r)
    }
}

/// `m` is the `rows` x `cols` matrix of last edge weights: cell (a, b) holds
/// the weight of the last-indexed edge from `rows[a]` to `cols[b]` when
/// `from_rows`, else from `cols[b]` to `rows[a]`.
pub open spec fn weight_matrix<N, W>(
    m: Seq<Vec<Option<W>>>,
    g: GraphModel<N, W>,
    rows: Seq<usize>,
    cols: Seq<usize>,
    from_rows: bool,
) -> bool {
    &&& m.len() == rows.len()
    &&& forall|a: int| 0 <= a < rows.len() ==> (#[trigger] m[a])@.len() == cols.len()
    &&& forall|a: int, b: int|
        0 <= a < rows.len() && 0 <= b < cols.len() ==> (#[trigger] m[a]@[b]) == last_weight(
            g,
            g.edge_indices(),
            oriented(from_rows, rows[a], cols[b]).0,
            oriented(from_rows, rows[a], cols[b]).1,
        )
}

// ------------------------------------------------------------------
// Collection
// ------------------------------------------------------------------

pub(crate) proof fn lemma_pairs_increasing<N, W>(
    g: GraphModel<N, W>,
    ln: Seq<usize>,
    keep: spec_fn(Node<N>) -> bool,
    key: spec_fn(Node<N>) -> Seq<char>,
)
    requires
        forall|a: int, b: int| 0 <= a < b < ln.len() ==> ln[a] < ln[b],
    ensures
        forall|a: int, b: int|
            0 <= a < b < pairs_of(g, ln, keep, key).len() ==> pairs_of(g, ln, keep, key)[a].0
                < pairs_of(g, ln, keep, key)[b].0,
        forall|a: int|
            0 <= a < pairs_of(g, ln, keep, key).len() ==> #[trigger] ln.contains(
                pairs_of(g, ln, keep, key)[a].0,
            ),
    decreases ln.len(),
{
    if ln.len() > 0 {
        let p = ln.drop_last();
        lemma_pairs_increasing(g, p, keep, key);
        let pre = pairs_of(g, p, keep, key);
        assert forall|a: int| 0 <= a < pre.len() implies pre[a].0 < ln.last() && ln.contains(pre[a].0) by {
            assert(p.contains(pre[a].0));
            let t = choose|t: int| 0 <= t < p.len() && p[t] == pre[a].0;
            assert(ln[t] == pre[a].0);
        }
        assert(ln.contains(ln.last())) by {
            assert(ln[ln.len() - 1] == ln.last());
        }
    }
}

/// Each collected pair holds a node that passes the filter, with its key;
/// with a filter that every listed node passes, the pairs follow the list.
pub proof fn lemma_pairs_members<N, W>(
    g: GraphModel<N, W>,
    ln: Seq<usize>,
    keep: spec_fn(Node<N>) -> bool,
    key: spec_fn(Node<N>) -> Seq<char>,
)
    ensures
        forall|a: int|
            0 <= a < pairs_of(g, ln, keep, key).len() ==> {
                &&& (#[trigger] pairs_of(g, ln, keep, key)[a]).1 == key(g.node(pairs_of(g, ln, keep, key)[a].0 as int))
                &&& keep(g.node(pairs_of(g, ln, keep, key)[a].0 as int))
            },
        (forall|k: int| 0 <= k < ln.len() ==> #[trigger] keep(g.node(ln[k] as int))) ==> {
            &&& pairs_of(g, ln, keep, key).len() == ln.len()
            &&& forall|q: int| 0 <= q < ln.len() ==> #[trigger] pairs_of(g, ln, keep, key)[q].0 == ln[q]
        },
    decreases ln.len(),
{
    if ln.len() > 0 {
        let p = ln.drop_last();
        lemma_pairs_members(g, p, keep, key);
        let pre = pairs_of(g, p, keep, key);
        let cur = pairs_of(g, ln, keep, key);
        assert forall|a: int| 0 <= a < cur.len() implies {
            &&& (#[trigger] cur[a]).1 == key(g.node(cur[a].0 as int))
            &&& keep(g.node(cur[a].0 as int))
        } by {
            if a < pre.len() {
                assert(cur[a] == pre[a]);
            }
        }
        if forall|k: int| 0 <= k < ln.len() ==> #[trigger] keep(g.node(ln[k] as int)) {
            assert forall|k: int| 0 <= k < p.len() implies #[trigger] keep(g.node(p[k] as int)) by {
                assert(p[k] == ln[k]);
            }
            assert(keep(g.node(ln[ln.len() - 1] as int)));
        }
    }
}

/// Every listed node that passes the filter is collected, with its key.
pub proof fn lemma_pairs_complete<N, W>(
    g: GraphModel<N, W>,
    ln: Seq<usize>,
    keep: spec_fn(Node<N>) -> bool,
    key: spec_fn(Node<N>) -> Seq<char>,
)
    ensures
        forall|k: int|
            0 <= k < ln.len() && keep(g.node(ln[k] as int)) ==> #[trigger] pairs_of(g, ln, keep, key).contains(
                (ln[k], key(g.node(ln[k] as int))),
            ),
    decreases ln.len(),
{
    if ln.len() > 0 {
        let p = ln.drop_last();
        lemma_pairs_complete(g, p, keep, key);
        let pre = pairs_of(g, p, keep, key);
        let cur = pairs_of(g, ln, keep, key);
        assert forall|k: int|
            0 <= k < ln.len() && keep(g.node(ln[k] as int)) implies #[trigger] cur.contains(
                (ln[k], key(g.node(ln[k] as int))),
            ) by {
            if k < p.len() {
                assert(p[k] == ln[k]);
                assert(pre.contains((p[k], key(g.node(p[k] as int)))));
                let t = choose|t: int| 0 <= t < pre.len() && pre[t] == (p[k], key(g.node(p[k] as int)));
                assert(cur[t] == pre[t]);
            } else {
                assert(cur[cur.len() - 1] == (ln[k], key(g.node(ln[k] as int))));
            }
        }
    }
}

/// (index, name) of every live node, in index order.
pub(crate) fn collect_names<N: HasName, W>(g: &Graph<N, W>) -> (r: Vec<(usize, String)>)
    requires
        g@.wf(),
    ensures
        entries_view(r@) == pairs_of(g@, g@.node_indices(), all_nodes(), by_name()),
        indices_increasing(r@),
{
    let ln = g.node_indices();
    let ghost gm = g@;
    proof {
        g.lemma_bounds();
        lemma_live_indices(gm.nodes);
        lemma_pairs_increasing(gm, ln@, all_nodes(), by_name());
    }
    let mut r: Vec<(usize, String)> = Vec::new();
    let mut k: usize = 0;
    while k < ln.len()
        invariant
            gm == g@,
            ln@ == gm.node_indices(),
            forall|a: int| 0 <= a < ln@.len() ==> #[trigger] gm.is_node(ln@[a] as int),
            k <= ln@.len(),
            entries_view(r@) == pairs_of(gm, ln@.take(k as int), all_nodes(), by_name()),
        decreases ln@.len() - k,
    {
        let x = ln[k];
        assert(gm.is_node(ln@[k as int] as int));
        assert(ln@.take(k + 1).drop_last() =~= ln@.take(k as int));
        assert(ln@.take(k + 1).last() == x);
        let node = g.node(x).unwrap();
        let ghost pre = r@;
        r.push((x, node.payload.name()));
        assert(entries_view(r@) =~= entries_view(pre).push((x, node.payload.spec_name())));
        k += 1;
    }
    assert(ln@.take(k as int) =~= ln@);
    proof {
        assert forall|a: int, b: int| 0 <= a < b < r@.len() implies r@[a].0 < r@[b].0 by {
            assert(entries_view(r@)[a].0 == r@[a].0);
            assert(entries_view(r@)[b].0 == r@[b].0);
        }
    }
    r
}

/// (index, label) of every live node, in index order.
pub(crate) fn collect_labels<N, W>(g: &Graph<N, W>) -> (r: Vec<(usize, String)>)
    requires
        g@.wf(),
    ensures
        entries_view(r@) == pairs_of(g@, g@.node_indices(), all_nodes(), by_label()),
        indices_increasing(r@),
{
    let ln = g.node_indices();
    let ghost gm = g@;
    proof {
        g.lemma_bounds();
        lemma_live_indices(gm.nodes);
        lemma_pairs_increasing(gm, ln@, all_nodes(), by_label());
    }
    let mut r: Vec<(usize, String)> = Vec::new();
    let mut k: usize = 0;
    while k < ln.len()
        invariant
            gm == g@,
            ln@ == gm.node_indices(),
            forall|a: int| 0 <= a < ln@.len() ==> #[trigger] gm.is_node(ln@[a] as int),
            k <= ln@.len(),
            entries_view(r@) == pairs_of(gm, ln@.take(k as int), all_nodes(), by_label()),
        decreases ln@.len() - k,
    {
        let x = ln[k];
        assert(gm.is_node(ln@[k as int] as int));
        assert(ln@.take(k + 1).drop_last() =~= ln@.take(k as int));
        assert(ln@.take(k + 1).last() == x);
        let node = g.node(x).unwrap();
        let ghost pre = r@;
        r.push((x, node.label.clone()));
        assert(entries_view(r@) =~= entries_view(pre).push((x, node.label@)));
        k += 1;
    }
    assert(ln@.take(k as int) =~= ln@);
    proof {
        assert forall|a: int, b: int| 0 <= a < b < r@.len() implies r@[a].0 < r@[b].0 by {
            assert(entries_view(r@)[a].0 == r@[a].0);
            assert(entries_view(r@)[b].0 == r@[b].0);
        }
    }
    r
}

/// (index, name or label) of every live observable node of kind `kind`, in index order.
pub(crate) fn collect_kind<W>(g: &ObservableGraph<W>, kind: ObservableNodeType, use_label: bool) -> (r: Vec<(usize, String)>)
    requires
        g@.wf(),
    ensures
        entries_view(r@) == pairs_of(
            g@,
            g@.node_indices(),
            kind_is(kind),
            if use_label { by_label() } else { by_name() },
        ),
        indices_increasing(r@),
{
    let ln = g.node_indices();
    let ghost gm = g@;
    let ghost key = if use_label { by_label::<ObservableNode>() } else { by_name::<ObservableNode>() };
    proof {
        g.lemma_bounds();
        lemma_live_indices(gm.nodes);
        lemma_pairs_increasing(gm, ln@, kind_is(kind), key);
    }
    let mut r: Vec<(usize, String)> = Vec::new();
    let mut k: usize = 0;
    while k < ln.len()
        invariant
            gm == g@,
            key == if use_label { by_label::<ObservableNode>() } else { by_name::<ObservableNode>() },
            ln@ == gm.node_indices(),
            forall|a: int| 0 <= a < ln@.len() ==> #[trigger] gm.is_node(ln@[a] as int),
            k <= ln@.len(),
            entries_view(r@) == pairs_of(gm, ln@.take(k as int), kind_is(kind), key),
        decreases ln@.len() - k,
    {
        let x = ln[k];
        assert(gm.is_node(ln@[k as int] as int));
        assert(ln@.take(k + 1).drop_last() =~= ln@.take(k as int));
        assert(ln@.take(k + 1).last() == x);
        let node = g.node(x).unwrap();
        let ghost pre = r@;
        if node.payload.node_type == kind {
            let text = if use_label { node.label.clone() } else { node.payload.name.clone() };
            r.push((x, text));
            assert(entries_view(r@) =~= entries_view(pre).push((x, key(gm.node(x as int)))));
        }
        k += 1;
    }
    assert(ln@.take(k as int) =~= ln@);
    proof {
        assert forall|a: int, b: int| 0 <= a < b < r@.len() implies r@[a].0 < r@[b].0 by {
            assert(entries_view(r@)[a].0 == r@[a].0);
            assert(entries_view(r@)[b].0 == r@[b].0);
        }
    }
    r
}

/// A `rows` x `cols` matrix of `None`.
fn empty_matrix<W>(rows: usize, cols: usize) -> (m: Vec<Vec<Option<W>>>)
    ensures
        m@.len() == rows,
        forall|a: int| 0 <= a < rows ==> (#[trigger] m@[a])@.len() == cols,
        forall|a: int, b: int| 0 <= a < rows && 0 <= b < cols ==> (#[trigger] m@[a]@[b]) is None,
{
    let mut m: Vec<Vec<Option<W>>> = Vec::new();
    let mut a: usize = 0;
    while a < rows
        invariant
            a <= rows,
            m@.len() == a,
            forall|x: int| 0 <= x < a ==> (#[trigger] m@[x])@.len() == cols,
            forall|x: int, y: int| 0 <= x < a && 0 <= y < cols ==> (#[trigger] m@[x]@[y]) is None,
        decreases rows - a,
    {
        let mut row: Vec<Option<W>> = Vec::new();
        let mut b: usize = 0;
        while b < cols
            invariant
                b <= cols,
                row@.len() == b,
                forall|y: int| 0 <= y < b ==> (#[trigger] row@[y]) is None,
            decreases cols - b,
        {
            row.push(None);
            b += 1;
        }
        m.push(row);
        a += 1;
    }
    m
}

/// For each slot of `g`, the position in `items` of the node it holds, if listed.
fn positions<N, W>(g: &Graph<N, W>, items: &Vec<usize>) -> (pos: Vec<Option<usize>>)
    requires
        forall|a: int, b: int| 0 <= a < b < items@.len() ==> items@[a] != items@[b],
        forall|a: int| 0 <= a < items@.len() ==> #[trigger] items@[a] < g@.nodes.len(),
    ensures
        pos@.len() == g@.nodes.len(),
        forall|a: int| 0 <= a < items@.len() ==> #[trigger] pos@[items@[a] as int] == Some(a as usize),
        forall|y: int|
            0 <= y < pos@.len() ==> match #[trigger] pos@[y] {
                Some(a) => a < items@.len() && items@[a as int] == y,
                None => !items@.contains(y as usize),
            },
{
    let slots = g.node_slots();
    let mut pos: Vec<Option<usize>> = Vec::new();
    let mut i: usize = 0;
    while i < slots
        invariant
            i <= slots,
            pos@.len() == i,
            forall|y: int| 0 <= y < i ==> (#[trigger] pos@[y]) is None,
        decreases slots - i,
    {
        pos.push(None);
        i += 1;
    }
    let mut a: usize = 0;
    while a < items.len()
        invariant
            slots == g@.nodes.len(),
            forall|x: int, y: int| 0 <= x < y < items@.len() ==> items@[x] != items@[y],
            forall|x: int| 0 <= x < items@.len() ==> #[trigger] items@[x] < g@.nodes.len(),
            a <= items@.len(),
            pos@.len() == g@.nodes.len(),
            forall|x: int| 0 <= x < a ==> #[trigger] pos@[items@[x] as int] == Some(x as usize),
            forall|y: int|
                0 <= y < pos@.len() ==> match #[trigger] pos@[y] {
                    Some(x) => x < a && items@[x as int] == y,
                    None => !items@.take(a as int).contains(y as usize),
                },
        decreases items@.len() - a,
    {
        let it = items[a];
        assert(items@[a as int] < g@.nodes.len());
        pos.set(it, Some(a));
        proof {
            let t1 = items@.take(a + 1);
            let t0 = items@.take(a as int);
            assert forall|y: int| 0 <= y < pos@.len() implies match #[trigger] pos@[y] {
                Some(x) => x < a + 1 && items@[x as int] == y,
                None => !t1.contains(y as usize),
            } by {
                if pos@[y] is None {
                    if t1.contains(y as usize) {
                        let q = choose|q: int| 0 <= q < t1.len() && t1[q] == y as usize;
                        if q < a {
                            assert(t0[q] == y as usize);
                        }
                    }
                }
            }
            assert forall|x: int| 0 <= x < a + 1 implies #[trigger] pos@[items@[x] as int] == Some(x as usize) by {
                if x < a {
                    assert(items@[x] != items@[a as int]);
                }
            }
        }
        a += 1;
    }
    assert(items@.take(a as int) =~= items@);
    pos
}

/// The matrix of last edge weights between `rows` and `cols`, oriented as
/// `from_rows` says (see `weight_matrix`).
pub(crate) fn build_matrix<N, W: Copy>(g: &Graph<N, W>, rows: &Vec<usize>, cols: &Vec<usize>, from_rows: bool) -> (m: Vec<
    Vec<Option<W>>,
>)
    requires
        g@.wf(),
        forall|a: int, b: int| 0 <= a < b < rows@.len() ==> rows@[a] != rows@[b],
        forall|a: int, b: int| 0 <= a < b < cols@.len() ==> cols@[a] != cols@[b],
        forall|a: int| 0 <= a < rows@.len() ==> #[trigger] rows@[a] < g@.nodes.len(),
        forall|a: int| 0 <= a < cols@.len() ==> #[trigger] cols@[a] < g@.nodes.len(),
    ensures
        weight_matrix(m@, g@, rows@, cols@, from_rows),
{
    let ghost gm = g@;
    let row_pos = positions(g, rows);
    let col_pos = positions(g, cols);
    let mut m: Vec<Vec<Option<W>>> = empty_matrix(rows.len(), cols.len());
    let le = g.edge_indices();
    proof {
        g.lemma_bounds();
        lemma_live_indices(gm.edges);
        assert(rows@.len() == rows.len());
        assert(cols@.len() == cols.len());
    }
    let mut j: usize = 0;
    while j < le.len()
        invariant
            gm == g@,
            rows@.len() <= usize::MAX,
            cols@.len() <= usize::MAX,
            gm.wf(),
            le@ == gm.edge_indices(),
            forall|a: int| 0 <= a < le@.len() ==> #[trigger] gm.is_edge(le@[a] as int),
            row_pos@.len() == gm.nodes.len(),
            col_pos@.len() == gm.nodes.len(),
            forall|y: int|
                0 <= y < row_pos@.len() ==> match #[trigger] row_pos@[y] {
                    Some(a) => a < rows@.len() && rows@[a as int] == y,
                    None => !rows@.contains(y as usize),
                },
            forall|y: int|
                0 <= y < col_pos@.len() ==> match #[trigger] col_pos@[y] {
                    Some(a) => a < cols@.len() && cols@[a as int] == y,
                    None => !cols@.contains(y as usize),
                },
            forall|a: int| 0 <= a < rows@.len() ==> #[trigger] row_pos@[rows@[a] as int] == Some(a as usize),
            forall|a: int| 0 <= a < cols@.len() ==> #[trigger] col_pos@[cols@[a] as int] == Some(a as usize),
            j <= le@.len(),
            m@.len() == rows@.len(),
            forall|a: int| 0 <= a < rows@.len() ==> (#[trigger] m@[a])@.len() == cols@.len(),
            forall|a: int, b: int|
                0 <= a < rows@.len() && 0 <= b < cols@.len() ==> (#[trigger] m@[a]@[b]) == last_weight(
                    gm,
                    le@.take(j as int),
                    oriented(from_rows, rows@[a], cols@[b]).0,
                    oriented(from_rows, rows@[a], cols@[b]).1,
                ),
        decreases le@.len() - j,
    {
        let e = le[j];
        assert(gm.is_edge(le@[j as int] as int));
        assert(le@.take(j + 1).drop_last() =~= le@.take(j as int));
        assert(le@.take(j + 1).last() == e);
        let x = g.edge(e).unwrap();
        proof {
            assert(gm.is_node(x.source as int));
            assert(gm.is_node(x.target as int));
        }
        let re = if from_rows { x.source } else { x.target };
        let ce = if from_rows { x.target } else { x.source };
        assert(oriented(from_rows, re, ce) == (x.source, x.target));
        let ghost m0 = m@;
        match row_pos[re] {
            Some(pa) => match col_pos[ce] {
                Some(pb) => {
                    let mut row: Vec<Option<W>> = Vec::new();
                    std::mem::swap(&mut row, &mut m[pa]);
                    row.set(pb, Some(x.payload));
                    m.set(pa, row);
                    proof {
                        assert(row_pos@[re as int] == Some(pa));
                        assert(col_pos@[ce as int] == Some(pb));
                        assert(m@[pa as int]@ == m0[pa as int]@.update(pb as int, Some(x.payload)));
                        assert forall|a: int| 0 <= a < rows@.len() && a != pa as int implies m@[a] == m0[a] by {}
                        assert(rows@[pa as int] == re);
                        assert(cols@[pb as int] == ce);
                        assert forall|a: int, b: int|
                            0 <= a < rows@.len() && 0 <= b < cols@.len() implies (#[trigger] m@[a]@[b]) == last_weight(
                                gm,
                                le@.take(j + 1),
                                oriented(from_rows, rows@[a], cols@[b]).0,
                                oriented(from_rows, rows@[a], cols@[b]).1,
                            ) by {
                            let o = oriented(from_rows, rows@[a], cols@[b]);
                            if gm.connects(e as int, o.0, o.1) {
                                assert(rows@[a] == re && cols@[b] == ce);
                                assert(row_pos@[rows@[a] as int] == Some(a as usize));
                                assert(col_pos@[cols@[b] as int] == Some(b as usize));
                                assert(a == pa as int);
                                assert(b == pb as int);
                            } else {
                                if a == pa as int && b == pb as int {
                                    assert(gm.connects(e as int, o.0, o.1));
                                }
                                assert(m@[a]@[b] == m0[a]@[b]);
                            }
                        }
                    }
                },
                None => {
                    proof {
                        assert forall|a: int, b: int|
                            0 <= a < rows@.len() && 0 <= b < cols@.len() implies (#[trigger] m@[a]@[b]) == last_weight(
                                gm,
                                le@.take(j + 1),
                                oriented(from_rows, rows@[a], cols@[b]).0,
                                oriented(from_rows, rows@[a], cols@[b]).1,
                            ) by {
                            let o = oriented(from_rows, rows@[a], cols@[b]);
                            if gm.connects(e as int, o.0, o.1) {
                                assert(cols@[b] == ce);
                                assert(col_pos@[cols@[b] as int] == Some(b as usize));
                            }
                        }
                    }
                },
            },
            None => {
                proof {
                    assert forall|a: int, b: int|
                        0 <= a < rows@.len() && 0 <= b < cols@.len() implies (#[trigger] m@[a]@[b]) == last_weight(
                            gm,
                            le@.take(j + 1),
                            oriented(from_rows, rows@[a], cols@[b]).0,
                            oriented(from_rows, rows@[a], cols@[b]).1,
                        ) by {
                        let o = oriented(from_rows, rows@[a], cols@[b]);
                        if gm.connects(e as int, o.0, o.1) {
                            assert(rows@[a] == re);
                            assert(row_pos@[rows@[a] as int] == Some(a as usize));
                        }
                    }
                }
            },
        }
        j += 1;
    }
    assert(le@.take(j as int) =~= le@);
    m
}

/// What a sorted rearrangement of collected pairs inherits from them.
pub(crate) proof fn lemma_sorted_collection<N, W>(
    g: GraphModel<N, W>,
    keep: spec_fn(Node<N>) -> bool,
    key: spec_fn(Node<N>) -> Seq<char>,
    items: Seq<(usize, String)>,
    r: Seq<(usize, String)>,
)
    requires
        g.wf(),
        g.nodes.len() <= usize::MAX,
        entries_view(items) == pairs_of(g, g.node_indices(), keep, key),
        indices_increasing(items),
        entries_sorted(r),
        rearranges(r, items),
    ensures
        sorted_pairs(r, pairs_of(g, g.node_indices(), keep, key)),
        forall|a: int, b: int| 0 <= a < b < r.len() ==> r[a].0 != r[b].0,
        forall|a: int| 0 <= a < r.len() ==> #[trigger] g.is_node(r[a].0 as int),
        forall|a: int| 0 <= a < r.len() ==> #[trigger] r[a].0 < g.nodes.len(),
{
    let ln = g.node_indices();
    lemma_live_indices(g.nodes);
    lemma_pairs_increasing(g, ln, keep, key);
    let pairs = pairs_of(g, ln, keep, key);
    assert forall|a: int| 0 <= a < r.len() implies #[trigger] g.is_node(r[a].0 as int) && r[a].0 < g.nodes.len() by {
        assert(r.contains(r[a]));
        assert(items.contains(r[a]));
        let t = choose|t: int| 0 <= t < items.len() && items[t] == r[a];
        assert(entries_view(items)[t] == pairs[t]);
        assert(ln.contains(pairs[t].0));
        let q = choose|q: int| 0 <= q < ln.len() && ln[q] == pairs[t].0;
        assert(g.is_node(ln[q] as int));
    }
    assert forall|a: int| 0 <= a < r.len() implies #[trigger] r[a].0 < g.nodes.len() by {
        assert(g.is_node(r[a].0 as int));
    }
    assert forall|a: int, b: int| 0 <= a < b < r.len() implies r[a].0 != r[b].0 by {
        assert(r.contains(r[a]));
        assert(r.contains(r[b]));
        let ta = choose|t: int| 0 <= t < items.len() && items[t] == r[a];
        let tb = choose|t: int| 0 <= t < items.len() && items[t] == r[b];
        if r[a].0 == r[b].0 {
            if ta < tb {
                assert(items[ta].0 < items[tb].0);
            } else if tb < ta {
                assert(items[tb].0 < items[ta].0);
            } else {
                assert(entry_lt(entry_view(r[a]), entry_view(r[b])));
                lemma_entry_lt_asymmetric(entry_view(r[a]), entry_view(r[b]));
            }
        }
    }
    assert forall|x: (usize, Seq<char>)| #[trigger] entries_view(r).contains(x) <==> pairs.contains(x) by {
        if entries_view(r).contains(x) {
            let i = choose|i: int| 0 <= i < r.len() && entries_view(r)[i] == x;
            assert(r.contains(r[i]));
            assert(items.contains(r[i]));
            let t = choose|t: int| 0 <= t < items.len() && items[t] == r[i];
            assert(entries_view(items)[t] == x);
        }
        if pairs.contains(x) {
            let t = choose|t: int| 0 <= t < pairs.len() && pairs[t] == x;
            assert(entries_view(items)[t] == x);
            assert(items.contains(items[t]));
            assert(r.contains(items[t]));
            let i = choose|i: int| 0 <= i < r.len() && r[i] == items[t];
            assert(entries_view(r)[i] == x);
        }
    }
}

/// Splits sorted pairs into their indices and their names.
pub(crate) fn split_pairs(order: &Vec<(usize, String)>) -> (r: (Vec<usize>, Vec<String>))
    ensures
        zip_columns(r.0@, r.1@) == order@,
        r.0@.len() == order@.len(),
        r.1@.len() == order@.len(),
{
    let mut idx: Vec<usize> = Vec::new();
    let mut labels: Vec<String> = Vec::new();
    let mut k: usize = 0;
    while k < order.len()
        invariant
            k <= order@.len(),
            idx@.len() == k,
            labels@.len() == k,
            forall|a: int| 0 <= a < k ==> #[trigger] idx@[a] == order@[a].0,
            forall|a: int| 0 <= a < k ==> #[trigger] labels@[a] == order@[a].1,
        decreases order@.len() - k,
    {
        let entry = &order[k];
        idx.push(entry.0);
        let text = entry.1.clone();
        assert(text == order@[k as int].1);
        labels.push(text);
        k += 1;
    }
    assert(zip_columns(idx@, labels@) =~= order@);
    (idx, labels)
}

/// All five parts of a heatmap are empty.
pub open spec fn empty_heatmap<W>(r: HeatmapData<W>) -> bool {
    &&& r.0@.len() == 0
    &&& r.1@.len() == 0
    &&& r.2@.len() == 0
    &&& r.3@.len() == 0
    &&& r.4@.len() == 0
}

/// `r` is the heatmap of all nodes of `g` against all nodes, rows and columns
/// sorted by name (ties by index), empty when `g` has no node; a cell holds the
/// weight of the last-indexed edge from the row node to the column node.
pub open spec fn is_generic_heatmap<N: HasName, W>(r: HeatmapData<W>, g: GraphModel<N, W>) -> bool {
    let nodes = pairs_of(g, g.node_indices(), all_nodes(), by_name());
    &&& nodes.len() == 0 ==> empty_heatmap(r)
    &&& nodes.len() > 0 ==> {
        &&& sorted_pairs(zip_columns(r.3@, r.0@), nodes)
        &&& r.0@.len() == r.3@.len()
        &&& r.1@ == r.0@
        &&& r.4@ == r.3@
        &&& weight_matrix(r.2@, g, r.4@, r.3@, true)
    }
}

/// `r` is the heatmap of an observable graph `g`: Source nodes along x (the
/// columns) and Destination nodes along y (the rows), each sorted by name
/// (ties by index), empty when either kind has no node; a cell holds the
/// weight of the edge from its Source to its Destination.
pub open spec fn is_observable_heatmap<W>(r: HeatmapData<W>, g: GraphModel<ObservableNode, W>) -> bool {
    let src = pairs_of(g, g.node_indices(), kind_is(ObservableNodeType::Source), by_name());
    let dst = pairs_of(g, g.node_indices(), kind_is(ObservableNodeType::Destination), by_name());
    &&& (src.len() == 0 || dst.len() == 0) ==> empty_heatmap(r)
    &&& (src.len() > 0 && dst.len() > 0) ==> {
        &&& sorted_pairs(zip_columns(r.3@, r.0@), src)
        &&& sorted_pairs(zip_columns(r.4@, r.1@), dst)
        &&& r.0@.len() == r.3@.len()
        &&& r.1@.len() == r.4@.len()
        &&& weight_matrix(r.2@, g, r.4@, r.3@, false)
    }
}

/// Heatmap of all nodes against all nodes, sorted by name; a cell holds the
/// weight of the last-indexed edge from the row node to the column node.
pub fn compute_generic_heatmap_data<N: HasName, W: Copy>(graph: &Graph<N, W>) -> (r: HeatmapData<W>)
    requires
        graph@.wf(),
    ensures
        is_generic_heatmap(r, graph@),
{
    let items = collect_names(graph);
    let ghost items_v = items@;
    let nodes = sort_by_name(items);
    proof {
        graph.lemma_bounds();
        lemma_sorted_collection(graph@, all_nodes(), by_name(), items_v, nodes@);
    }
    if nodes.len() == 0 {
        return (Vec::new(), Vec::new(), Vec::new(), Vec::new(), Vec::new());
    }
    let (idx, labels) = split_pairs(&nodes);
    let (idx2, labels2) = split_pairs(&nodes);
    proof {
        assert(labels2@ =~= labels@) by {
            assert forall|a: int| 0 <= a < labels@.len() implies labels2@[a] == labels@[a] by {
                assert(zip_columns(idx2@, labels2@)[a] == zip_columns(idx@, labels@)[a]);
            }
        }
        assert(idx2@ =~= idx@) by {
            assert forall|a: int| 0 <= a < idx@.len() implies idx2@[a] == idx@[a] by {
                assert(zip_columns(idx2@, labels2@)[a] == zip_columns(idx@, labels@)[a]);
            }
        }
        assert forall|a: int| 0 <= a < idx@.len() implies #[trigger] idx@[a] < graph@.nodes.len() by {
            assert(zip_columns(idx@, labels@)[a] == nodes@[a]);
            assert(nodes@[a].0 < graph@.nodes.len());
        }
        assert forall|a: int, b: int| 0 <= a < b < idx@.len() implies idx@[a] != idx@[b] by {
            assert(zip_columns(idx@, labels@)[a] == nodes@[a]);
            assert(zip_columns(idx@, labels@)[b] == nodes@[b]);
        }
    }
    let matrix = build_matrix(graph, &idx, &idx, true);
    (labels2, labels, matrix, idx2, idx)
}


/// Heatmap of the observable graph: Source nodes along x and Destination
/// nodes along y, each sorted by name; empty when either kind has no node.
pub fn compute_observable_heatmap_data<W: Copy>(graph: &ObservableGraph<W>) -> (r: HeatmapData<W>)
    requires
        graph@.wf(),
    ensures
        is_observable_heatmap(r, graph@),
{
    let src_items = collect_kind(graph, ObservableNodeType::Source, false);
    let dst_items = collect_kind(graph, ObservableNodeType::Destination, false);
    let ghost src_v = src_items@;
    let ghost dst_v = dst_items@;
    let sources = sort_by_name(src_items);
    let dests = sort_by_name(dst_items);
    proof {
        graph.lemma_bounds();
        lemma_sorted_collection(graph@, kind_is(ObservableNodeType::Source), by_name(), src_v, sources@);
        lemma_sorted_collection(graph@, kind_is(ObservableNodeType::Destination), by_name(), dst_v, dests@);
    }
    if sources.len() == 0 || dests.len() == 0 {
        return (Vec::new(), Vec::new(), Vec::new(), Vec::new(), Vec::new());
    }
    let (x_idx, x_labels) = split_pairs(&sources);
    let (y_idx, y_labels) = split_pairs(&dests);
    proof {
        assert forall|a: int| 0 <= a < x_idx@.len() implies #[trigger] x_idx@[a] < graph@.nodes.len() by {
            assert(zip_columns(x_idx@, x_labels@)[a] == sources@[a]);
            assert(sources@[a].0 < graph@.nodes.len());
        }
        assert forall|a: int, b: int| 0 <= a < b < x_idx@.len() implies x_idx@[a] != x_idx@[b] by {
            assert(zip_columns(x_idx@, x_labels@)[a] == sources@[a]);
            assert(zip_columns(x_idx@, x_labels@)[b] == sources@[b]);
        }
        assert forall|a: int| 0 <= a < y_idx@.len() implies #[trigger] y_idx@[a] < graph@.nodes.len() by {
            assert(zip_columns(y_idx@, y_labels@)[a] == dests@[a]);
            assert(dests@[a].0 < graph@.nodes.len());
        }
        assert forall|a: int, b: int| 0 <= a < b < y_idx@.len() implies y_idx@[a] != y_idx@[b] by {
            assert(zip_columns(y_idx@, y_labels@)[a] == dests@[a]);
            assert(zip_columns(y_idx@, y_labels@)[b] == dests@[b]);
        }
    }
    let matrix = build_matrix(graph, &y_idx, &x_idx, false);
    (x_labels, y_labels, matrix, x_idx, y_idx)
}


// ------------------------------------------------------------------
// Cell editing
// ------------------------------------------------------------------

/// What happens on the cell being edited.
#[derive(Clone, Copy, PartialEq, Eq, Debug, Structural)]
pub enum EditEvent {
    /// Enter was pressed: commit and stop editing.
    Enter,
    /// Tab was pressed: commit and edit the next cell.
    Tab,
    /// Escape was pressed: stop editing without committing.
    Escape,
    /// The text field lost focus: stop editing without committing.
    FocusLost,
    /// Nothing happened this frame.
    Idle,
}

/// What becomes of the edit buffer.
#[derive(Clone, Copy, PartialEq, Eq, Debug, Structural)]
pub enum BufferChange {
    /// It keeps its text.
    Keep,
    /// It is emptied.
    Clear,
    /// It takes the text of the weight in cell (column, row), empty for no edge.
    LoadCell(usize, usize),
}

/// The cell that Tab moves to from (`x`, `y`), left to right and then down:
/// the next column of the row, and after the last column the first column of
/// the next row; after the last column of the last row, the first column of
/// that same row.
pub open spec fn tab_target(x: usize, y: usize, n_cols: usize, n_rows: usize) -> (usize, usize) {
    if x + 1 < n_cols {
        ((x + 1) as usize, y)
    } else if y + 1 < n_rows {
        (0, (y + 1) as usize)
    } else {
        (0, y)
    }
}

/// The cell that Tab moves to from (`x_idx`, `y_idx`) in a heatmap of
/// `n_cols` columns and `n_rows` rows.
pub fn next_edit_cell(x_idx: usize, y_idx: usize, n_cols: usize, n_rows: usize) -> (r: (usize, usize))
    ensures
        r == tab_target(x_idx, y_idx, n_cols, n_rows),
{
    if x_idx < n_cols && x_idx + 1 < n_cols {
        (x_idx + 1, y_idx)
    } else if y_idx < n_rows && y_idx + 1 < n_rows {
        (0, y_idx + 1)
    } else {
        (0, y_idx)
    }
}

/// Which axis of a heatmap carries the sources of its edges.
#[derive(Clone, Copy, PartialEq, Eq, Debug, Structural)]
pub enum SourceAxis {
    /// Rows are sources and columns targets, as in the state heatmap.
    Rows,
    /// Columns are sources and rows targets, as in the observable heatmap.
    Columns,
}

/// The weight change that committing cell (`x_idx`, `y_idx`) makes, given the
/// parsed buffer: on the edge from the node on the source axis to the other.
pub open spec fn committed<W>(
    x_nodes: Seq<usize>,
    y_nodes: Seq<usize>,
    x_idx: usize,
    y_idx: usize,
    axis: SourceAxis,
    parsed: Option<W>,
) -> Option<WeightChange<W>> {
    match parsed {
        Some(w) => Some(
            match axis {
                SourceAxis::Rows => WeightChange {
                    source_idx: y_nodes[y_idx as int],
                    target_idx: x_nodes[x_idx as int],
                    new_weight: w,
                },
                SourceAxis::Columns => WeightChange {
                    source_idx: x_nodes[x_idx as int],
                    target_idx: y_nodes[y_idx as int],
                    new_weight: w,
                },
            },
        ),
        None => None,
    }
}

/// Reacts to `event` on the cell (`x_idx`, `y_idx`) being edited; `axis` says
/// which axis carries the sources (`Rows` for the state and observed
/// heatmaps, `Columns` for the observable heatmap) and `parsed` is the buffer
/// read as a weight, if it reads as one. Returns the cell edited next, what
/// becomes of the buffer and the weight change to apply.
pub fn handle_edit_event<W: Copy>(
    x_idx: usize,
    y_idx: usize,
    x_nodes: &Vec<usize>,
    y_nodes: &Vec<usize>,
    axis: SourceAxis,
    event: EditEvent,
    parsed: Option<W>,
) -> (r: (Option<(usize, usize)>, BufferChange, Option<WeightChange<W>>))
    requires
        x_idx < x_nodes@.len(),
        y_idx < y_nodes@.len(),
    ensures
        r == (match event {
            EditEvent::Enter => (None, BufferChange::Clear, committed(x_nodes@, y_nodes@, x_idx, y_idx, axis, parsed)),
            EditEvent::Tab => {
                let t = tab_target(x_idx, y_idx, x_nodes@.len() as usize, y_nodes@.len() as usize);
                (Some(t), BufferChange::LoadCell(t.0, t.1), committed(x_nodes@, y_nodes@, x_idx, y_idx, axis, parsed))
            },
            EditEvent::Escape | EditEvent::FocusLost => (None, BufferChange::Clear, None),
            EditEvent::Idle => (Some((x_idx, y_idx)), BufferChange::Keep, None),
        }),
{
    let change = match parsed {
        Some(w) => Some(
            match axis {
                SourceAxis::Rows => WeightChange { source_idx: y_nodes[y_idx], target_idx: x_nodes[x_idx], new_weight: w },
                SourceAxis::Columns => WeightChange {
                    source_idx: x_nodes[x_idx],
                    target_idx: y_nodes[y_idx],
                    new_weight: w,
                },
            },
        ),
        None => None,
    };
    match event {
        EditEvent::Enter => (None, BufferChange::Clear, change),
        EditEvent::Tab => {
            let t = next_edit_cell(x_idx, y_idx, x_nodes.len(), y_nodes.len());
            (Some(t), BufferChange::LoadCell(t.0, t.1), change)
        },
        EditEvent::Escape | EditEvent::FocusLost => (None, BufferChange::Clear, None),
        EditEvent::Idle => (Some((x_idx, y_idx)), BufferChange::Keep, None),
    }
}

} // verus!
