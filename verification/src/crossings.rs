//! Ordering the nodes within the layers of the page topology so that
//! fewer edges cross: repeated barycentre sweeps, down the layers and back
//! up.
use vstd::prelude::*;
use petgraph::graph::{DiGraph, NodeIndex};
use crate::graph::TopologyEngine;
use crate::topology::{
    edge_count, edges_within, graph_edges, graph_nodes, in_sources, incoming_neighbors, node_count, node_index,
    node_position, out_targets, outgoing_neighbors, position_of,
};

verus! {

/// How many down-and-up sweeps reorder the layers.
pub const MAX_CROSSING_ITERS: usize = 5;

/// Positions as integers.
pub open spec fn ints(s: Seq<usize>) -> Seq<int> {
    s.map_values(|p: usize| p as int)
}

/// The positions that the node indices of each layer stand for.
pub open spec fn layer_positions(ls: Seq<Vec<NodeIndex<u32>>>) -> Seq<Seq<int>> {
    ls.map_values(|l: Vec<NodeIndex<u32>>| l@.map_values(|x: NodeIndex<u32>| node_position(x) as int))
}

/// The index of the first `x` in `s` from index `i` on.
pub open spec fn first_index(s: Seq<int>, x: int, i: int) -> Option<int>
    decreases s.len() - i,
{
    if i < 0 || i >= s.len() {
        None
    } else if s[i] == x {
        Some(i)
    } else {
        first_index(s, x, i + 1)
    }
}

/// Where the nodes `nbrs` stand in `layer`, in the order of `nbrs`; those
/// that are not in it are left out.
pub open spec fn placed(layer: Seq<int>, nbrs: Seq<int>) -> Seq<int>
    decreases nbrs.len(),
{
    if nbrs.len() == 0 {
        seq![]
    } else {
        let r = placed(layer, nbrs.drop_last());
        match first_index(layer, nbrs.last(), 0) {
            Some(p) => r.push(p),
            None => r,
        }
    }
}

/// The sum of a sequence.
pub open spec fn sum_of(s: Seq<int>) -> int
    decreases s.len(),
{
    if s.len() == 0 {
        0
    } else {
        sum_of(s.drop_last()) + s.last()
    }
}

/// The barycentre of a node with neighbours `nbrs` relative to a
/// neighbouring layer, as a fraction: the sum and the number of the
/// positions its neighbours hold there.
pub open spec fn barycentre(layer: Seq<int>, nbrs: Seq<int>) -> (int, int) {
    let p = placed(layer, nbrs);
    (sum_of(p), p.len() as int)
}

/// Whether barycentre `a` comes before barycentre `b`: a node with no
/// neighbour in the other layer comes after every node with one, and the
/// others are ordered by the value of the fraction.
pub open spec fn bary_lt(a: (int, int), b: (int, int)) -> bool {
    a.1 > 0 && (b.1 == 0 || a.0 * b.1 < b.0 * a.1)
}

/// A node with its barycentre.
pub type Keyed = (int, (int, int));

/// `s` with `x` inserted after the last node whose barycentre does not come
/// after `x`'s.
pub open spec fn insert_by_bary(s: Seq<Keyed>, x: Keyed) -> Seq<Keyed>
    decreases s.len(),
{
    if s.len() == 0 {
        seq![x]
    } else if bary_lt(x.1, s.last().1) {
        insert_by_bary(s.drop_last(), x).push(s.last())
    } else {
        s.push(x)
    }
}

/// The nodes sorted by barycentre, nodes with equal barycentres keeping
/// their order (what the stable `sort_by` of `Vec` gives).
pub open spec fn sort_by_bary(s: Seq<Keyed>) -> Seq<Keyed>
    decreases s.len(),
{
    if s.len() == 0 {
        seq![]
    } else {
        insert_by_bary(sort_by_bary(s.drop_last()), s.last())
    }
}

/// The neighbours of `v`: the sources of its incoming edges or the targets
/// of its outgoing ones.
pub open spec fn neighbours(es: Seq<(int, int)>, v: int, incoming: bool) -> Seq<int> {
    if incoming {
        in_sources(es, v)
    } else {
        out_targets(es, v)
    }
}

/// The nodes of `layer`, each with its barycentre relative to `other`.
pub open spec fn keyed(es: Seq<(int, int)>, layer: Seq<int>, other: Seq<int>, incoming: bool) -> Seq<Keyed> {
    layer.map_values(|v: int| (v, barycentre(other, neighbours(es, v, incoming))))
}

/// `layer` reordered by the barycentres of its nodes relative to `other`.
pub open spec fn reorder(es: Seq<(int, int)>, layer: Seq<int>, other: Seq<int>, incoming: bool) -> Seq<int> {
    sort_by_bary(keyed(es, layer, other, incoming)).map_values(|k: Keyed| k.0)
}

/// The downward sweep from layer `i` on: each layer is reordered by the
/// predecessors of its nodes in the layer above, as that layer now stands.
pub open spec fn down_sweep(es: Seq<(int, int)>, ls: Seq<Seq<int>>, i: int) -> Seq<Seq<int>>
    decreases ls.len() - i,
{
    if i < 1 || i >= ls.len() {
        ls
    } else {
        down_sweep(es, ls.update(i, reorder(es, ls[i], ls[i - 1], true)), i + 1)
    }
}

/// The upward sweep from layer `i` back to the first: each layer is
/// reordered by the successors of its nodes in the layer below.
pub open spec fn up_sweep(es: Seq<(int, int)>, ls: Seq<Seq<int>>, i: int) -> Seq<Seq<int>>
    decreases i + 1,
{
    if i < 0 || i + 1 >= ls.len() {
        ls
    } else {
        up_sweep(es, ls.update(i, reorder(es, ls[i], ls[i + 1], false)), i - 1)
    }
}

/// `k` rounds of a downward and an upward sweep.
pub open spec fn sweeps(es: Seq<(int, int)>, ls: Seq<Seq<int>>, k: nat) -> Seq<Seq<int>>
    decreases k,
{
    if k == 0 {
        ls
    } else {
        let down = down_sweep(es, sweeps(es, ls, (k - 1) as nat), 1);
        up_sweep(es, down, down.len() - 2)
    }
}

/// The layers as the crossing reduction leaves them: unchanged when there
/// are fewer than two, else after `MAX_CROSSING_ITERS` rounds of sweeps.
pub open spec fn crossing_order(es: Seq<(int, int)>, ls: Seq<Seq<int>>) -> Seq<Seq<int>> {
    if ls.len() < 2 {
        ls
    } else {
        sweeps(es, ls, MAX_CROSSING_ITERS as nat)
    }
}

// ---------------------------------------------------------------------------
// Facts
// ---------------------------------------------------------------------------

proof fn lemma_down_sweep_len(es: Seq<(int, int)>, ls: Seq<Seq<int>>, i: int)
    ensures
        down_sweep(es, ls, i).len() == ls.len(),
    decreases ls.len() - i,
{
    if !(i < 1 || i >= ls.len()) {
        lemma_down_sweep_len(es, ls.update(i, reorder(es, ls[i], ls[i - 1], true)), i + 1);
    }
}

proof fn lemma_neighbours_len(es: Seq<(int, int)>, v: int, incoming: bool)
    ensures
        neighbours(es, v, incoming).len() <= es.len(),
    decreases es.len(),
{
    if es.len() > 0 {
        lemma_neighbours_len(es.drop_last(), v, incoming);
    }
}

proof fn lemma_neighbours_none(es: Seq<(int, int)>, v: int, n: nat, incoming: bool)
    requires
        edges_within(es, n),
        v >= n,
    ensures
        neighbours(es, v, incoming).len() == 0,
    decreases es.len(),
{
    if es.len() > 0 {
        let d = es.drop_last();
        assert(edges_within(d, n)) by {
            assert forall|k: int| 0 <= k < d.len() implies 0 <= #[trigger] d[k].0 < n && 0 <= d[k].1 < n by {
                assert(d[k] == es[k]);
            }
        }
        assert(es.last() == es[es.len() - 1]);
        lemma_neighbours_none(d, v, n, incoming);
    }
}

proof fn lemma_first_index(s: Seq<int>, x: int, i: int)
    ensures
        match first_index(s, x, i) {
            Some(p) => i <= p < s.len() && s[p] == x && forall|q: int| i <= q < p ==> s[q] != x,
            None => forall|q: int| 0 <= i <= q < s.len() ==> s[q] != x,
        },
    decreases s.len() - i,
{
    if !(i < 0 || i >= s.len()) && s[i] != x {
        lemma_first_index(s, x, i + 1);
    }
}

proof fn lemma_insert_at(s: Seq<Keyed>, x: Keyed, p: int)
    requires
        0 <= p <= s.len(),
        forall|q: int| p <= q < s.len() ==> bary_lt(x.1, #[trigger] s[q].1),
        p > 0 ==> !bary_lt(x.1, s[p - 1].1),
    ensures
        insert_by_bary(s, x) == s.insert(p, x),
    decreases s.len(),
{
    if s.len() == 0 {
        assert(s.insert(p, x) =~= seq![x]);
    } else if p == s.len() {
        assert(s.last() == s[p - 1]);
        assert(s.insert(p, x) =~= s.push(x));
    } else {
        let d = s.drop_last();
        assert(bary_lt(x.1, s[s.len() - 1].1));
        assert forall|q: int| p <= q < d.len() implies bary_lt(x.1, #[trigger] d[q].1) by {
            assert(d[q] == s[q]);
        }
        if p > 0 {
            assert(d[p - 1] == s[p - 1]);
        }
        lemma_insert_at(d, x, p);
        assert(d.insert(p, x).push(s.last()) =~= s.insert(p, x));
    }
}

/// The nodes of keyed nodes.
pub open spec fn firsts(s: Seq<Keyed>) -> Seq<int> {
    s.map_values(|k: Keyed| k.0)
}

proof fn lemma_insert_keeps_nodes(s: Seq<Keyed>, x: Keyed)
    ensures
        firsts(insert_by_bary(s, x)).to_multiset() =~= firsts(s).to_multiset().insert(x.0),
    decreases s.len(),
{
    broadcast use vstd::seq_lib::to_multiset_build;
    broadcast use vstd::multiset::group_multiset_axioms;

    if s.len() == 0 {
        assert(firsts(seq![x]) =~= firsts(s).push(x.0));
    } else if bary_lt(x.1, s.last().1) {
        let d = s.drop_last();
        lemma_insert_keeps_nodes(d, x);
        assert(firsts(insert_by_bary(d, x).push(s.last())) =~= firsts(insert_by_bary(d, x)).push(s.last().0));
        assert(firsts(s) =~= firsts(d).push(s.last().0));
    } else {
        assert(firsts(s.push(x)) =~= firsts(s).push(x.0));
    }
}

proof fn lemma_sort_keeps_nodes(s: Seq<Keyed>)
    ensures
        firsts(sort_by_bary(s)).to_multiset() =~= firsts(s).to_multiset(),
    decreases s.len(),
{
    broadcast use vstd::seq_lib::to_multiset_build;
    broadcast use vstd::multiset::group_multiset_axioms;

    if s.len() > 0 {
        let d = s.drop_last();
        lemma_sort_keeps_nodes(d);
        lemma_insert_keeps_nodes(sort_by_bary(d), s.last());
        assert(firsts(s) =~= firsts(d).push(s.last().0));
    } else {
        assert(firsts(sort_by_bary(s)) =~= firsts(s));
    }
}

proof fn lemma_reorder_keeps_nodes(es: Seq<(int, int)>, layer: Seq<int>, other: Seq<int>, incoming: bool)
    ensures
        reorder(es, layer, other, incoming).to_multiset() == layer.to_multiset(),
{
    let kd = keyed(es, layer, other, incoming);
    lemma_sort_keeps_nodes(kd);
    assert(firsts(kd) =~= layer);
}

/// Whether `b` holds, layer by layer, the same nodes as `a`.
pub open spec fn same_layers(a: Seq<Seq<int>>, b: Seq<Seq<int>>) -> bool {
    &&& b.len() == a.len()
    &&& forall|l: int| 0 <= l < a.len() ==> (#[trigger] b[l]).to_multiset() == a[l].to_multiset()
}

proof fn lemma_down_sweep_keeps(es: Seq<(int, int)>, ls: Seq<Seq<int>>, i: int)
    ensures
        same_layers(ls, down_sweep(es, ls, i)),
    decreases ls.len() - i,
{
    if !(i < 1 || i >= ls.len()) {
        let next = ls.update(i, reorder(es, ls[i], ls[i - 1], true));
        lemma_reorder_keeps_nodes(es, ls[i], ls[i - 1], true);
        lemma_down_sweep_keeps(es, next, i + 1);
        assert forall|l: int| 0 <= l < ls.len() implies (#[trigger] down_sweep(es, ls, i)[l]).to_multiset()
            == ls[l].to_multiset() by {
            assert(down_sweep(es, next, i + 1)[l].to_multiset() == next[l].to_multiset());
        }
    }
}

proof fn lemma_up_sweep_keeps(es: Seq<(int, int)>, ls: Seq<Seq<int>>, i: int)
    ensures
        same_layers(ls, up_sweep(es, ls, i)),
    decreases i + 1,
{
    if !(i < 0 || i + 1 >= ls.len()) {
        let next = ls.update(i, reorder(es, ls[i], ls[i + 1], false));
        lemma_reorder_keeps_nodes(es, ls[i], ls[i + 1], false);
        lemma_up_sweep_keeps(es, next, i - 1);
        assert forall|l: int| 0 <= l < ls.len() implies (#[trigger] up_sweep(es, ls, i)[l]).to_multiset()
            == ls[l].to_multiset() by {
            assert(up_sweep(es, next, i - 1)[l].to_multiset() == next[l].to_multiset());
        }
    }
}

proof fn lemma_sweeps_keep(es: Seq<(int, int)>, ls: Seq<Seq<int>>, k: nat)
    ensures
        same_layers(ls, sweeps(es, ls, k)),
    decreases k,
{
    if k > 0 {
        let prev = sweeps(es, ls, (k - 1) as nat);
        lemma_sweeps_keep(es, ls, (k - 1) as nat);
        let down = down_sweep(es, prev, 1);
        lemma_down_sweep_keeps(es, prev, 1);
        lemma_up_sweep_keeps(es, down, down.len() - 2);
        assert forall|l: int| 0 <= l < ls.len() implies (#[trigger] sweeps(es, ls, k)[l]).to_multiset()
            == ls[l].to_multiset() by {
            assert(down[l].to_multiset() == prev[l].to_multiset());
            assert(prev[l].to_multiset() == ls[l].to_multiset());
        }
    }
}

/// Crossing reduction only reorders nodes within their layers: the layers
/// are as many as before, and each holds the same nodes, each as many times
/// as before.
pub proof fn crossings_keep_layers(es: Seq<(int, int)>, ls: Seq<Seq<int>>)
    ensures
        same_layers(ls, crossing_order(es, ls)),
{
    if ls.len() >= 2 {
        lemma_sweeps_keep(es, ls, MAX_CROSSING_ITERS as nat);
    }
}

// ---------------------------------------------------------------------------
// Computation
// ---------------------------------------------------------------------------

/// Where `x` first stands in `s`.
fn find_first(s: &Vec<usize>, x: usize) -> (r: Option<usize>)
    ensures
        match (r, first_index(ints(s@), x as int, 0)) {
            (Some(a), Some(b)) => a == b,
            (None, None) => true,
            _ => false,
        },
{
    let ghost si = ints(s@);
    let mut i: usize = 0;
    while i < s.len()
        invariant
            i <= s@.len(),
            si == ints(s@),
            first_index(si, x as int, 0) == first_index(si, x as int, i as int),
        decreases s.len() - i,
    {
        if s[i] == x {
            return Some(i);
        }
        i = i + 1;
    }
    None
}

/// The barycentre of the node at position `v` relative to `other` (see
/// `barycentre`).
fn barycentre_of(g: &DiGraph<String, ()>, n: usize, v: usize, other: &Vec<usize>, incoming: bool) -> (r: (
    u128,
    u128,
))
    requires
        n == graph_nodes(*g).len(),
        edges_within(graph_edges(*g), n as nat),
        graph_edges(*g).len() <= u32::MAX,
    ensures
        r.0 as int == barycentre(ints(other@), neighbours(graph_edges(*g), v as int, incoming)).0,
        r.1 as int == barycentre(ints(other@), neighbours(graph_edges(*g), v as int, incoming)).1,
        r.1 <= u32::MAX,
        r.0 <= r.1 * 0xffff_ffff_ffff_ffffu128,
{
    let ghost es = graph_edges(*g);
    let ghost nb = neighbours(es, v as int, incoming);
    let ghost o = ints(other@);
    let nbrs: Vec<usize> = if v < n {
        if incoming {
            incoming_neighbors(g, v)
        } else {
            outgoing_neighbors(g, v)
        }
    } else {
        proof {
            lemma_neighbours_none(es, v as int, n as nat, incoming);
        }
        let e: Vec<usize> = Vec::new();
        assert(e@.map_values(|p: usize| p as int) =~= nb);
        e
    };
    proof {
        lemma_neighbours_len(es, v as int, incoming);
    }
    assert(nbrs@.map_values(|p: usize| p as int) == nb);
    let mut sum: u128 = 0;
    let mut count: u128 = 0;
    let mut j: usize = 0;
    while j < nbrs.len()
        invariant
            j <= nbrs@.len() == nb.len() <= u32::MAX,
            nbrs@.map_values(|p: usize| p as int) == nb,
            o == ints(other@),
            sum as int == sum_of(placed(o, nb.take(j as int))),
            count as int == placed(o, nb.take(j as int)).len(),
            count <= j,
            sum <= count * 0xffff_ffff_ffff_ffffu128,
        decreases nbrs.len() - j,
    {
        let ghost t = nb.take(j + 1);
        assert(t.drop_last() =~= nb.take(j as int));
        assert(t.last() == nbrs@[j as int] as int);
        let f = find_first(other, nbrs[j]);
        match f {
            Some(p) => {
                assert(p as int <= 0xffff_ffff_ffff_ffffu128);
                assert(sum + p <= (count + 1) * 0xffff_ffff_ffff_ffffu128) by (nonlinear_arith)
                    requires
                        sum <= count * 0xffff_ffff_ffff_ffffu128,
                        p <= 0xffff_ffff_ffff_ffffu128,
                ;
                assert(sum + p <= 0xffff_ffff_0000_0000_0000_0000_0000_0000u128) by (nonlinear_arith)
                    requires
                        sum + p <= (count + 1) * 0xffff_ffff_ffff_ffffu128,
                        count + 1 <= 0xffff_ffffu128,
                ;
                proof {
                    let prev = placed(o, nb.take(j as int));
                    assert(placed(o, t) == prev.push(p as int));
                    assert(prev.push(p as int).drop_last() =~= prev);
                }
                sum = sum + p as u128;
                count = count + 1;
            },
            None => {},
        }
        j = j + 1;
    }
    assert(nb.take(nb.len() as int) =~= nb);
    (sum, count)
}

/// Whether barycentre `a` comes before barycentre `b` (see `bary_lt`).
fn bary_less(a: (u128, u128), b: (u128, u128)) -> (r: bool)
    requires
        a.1 <= u32::MAX,
        b.1 <= u32::MAX,
        a.0 <= a.1 * 0xffff_ffff_ffff_ffffu128,
        b.0 <= b.1 * 0xffff_ffff_ffff_ffffu128,
    ensures
        r == bary_lt((a.0 as int, a.1 as int), (b.0 as int, b.1 as int)),
{
    if a.1 == 0 {
        return false;
    }
    if b.1 == 0 {
        return true;
    }
    assert(a.0 * b.1 <= 0xffff_ffff_ffff_ffff_ffff_ffff_ffff_ffffu128) by (nonlinear_arith)
        requires
            a.0 <= a.1 * 0xffff_ffff_ffff_ffffu128,
            a.1 <= 0xffff_ffffu128,
            b.1 <= 0xffff_ffffu128,
    ;
    assert(b.0 * a.1 <= 0xffff_ffff_ffff_ffff_ffff_ffff_ffff_ffffu128) by (nonlinear_arith)
        requires
            b.0 <= b.1 * 0xffff_ffff_ffff_ffffu128,
            b.1 <= 0xffff_ffffu128,
            a.1 <= 0xffff_ffffu128,
    ;
    a.0 * b.1 < b.0 * a.1
}

/// The nodes of `layer` reordered by their barycentres relative to `other`
/// (see `reorder`).
fn reorder_layer(g: &DiGraph<String, ()>, n: usize, layer: &Vec<usize>, other: &Vec<usize>, incoming: bool) -> (r:
    Vec<usize>)
    requires
        n == graph_nodes(*g).len(),
        edges_within(graph_edges(*g), n as nat),
        graph_edges(*g).len() <= u32::MAX,
        forall|i: int| 0 <= i < layer@.len() ==> #[trigger] layer@[i] <= u32::MAX,
    ensures
        ints(r@) == reorder(graph_edges(*g), ints(layer@), ints(other@), incoming),
        forall|i: int| 0 <= i < r@.len() ==> #[trigger] r@[i] <= u32::MAX,
{
    let ghost es = graph_edges(*g);
    let ghost kd = keyed(es, ints(layer@), ints(other@), incoming);
    let mut keys: Vec<(usize, (u128, u128))> = Vec::new();
    let mut k: usize = 0;
    while k < layer.len()
        invariant
            k <= layer@.len(),
            n == graph_nodes(*g).len(),
            edges_within(graph_edges(*g), n as nat),
            graph_edges(*g).len() <= u32::MAX,
            es == graph_edges(*g),
            kd == keyed(es, ints(layer@), ints(other@), incoming),
            keys@.len() == k,
            forall|i: int|
                0 <= i < k ==> {
                    &&& (#[trigger] keys@[i]).0 as int == kd[i].0
                    &&& keys@[i].1.0 as int == kd[i].1.0
                    &&& keys@[i].1.1 as int == kd[i].1.1
                    &&& keys@[i].1.1 <= u32::MAX
                    &&& keys@[i].1.0 <= keys@[i].1.1 * 0xffff_ffff_ffff_ffffu128
                    &&& keys@[i].0 == layer@[i]
                },
        decreases layer.len() - k,
    {
        let b = barycentre_of(g, n, layer[k], other, incoming);
        keys.push((layer[k], b));
        k = k + 1;
    }
    // Stable insertion by barycentre.
    let ghost kv = keys@.map_values(|e: (usize, (u128, u128))| (e.0 as int, (e.1.0 as int, e.1.1 as int)));
    assert(kv =~= kd);
    let mut order: Vec<usize> = Vec::new();
    let mut k: usize = 0;
    while k < keys.len()
        invariant
            k <= keys@.len(),
            kv == kd,
            kv == keys@.map_values(|e: (usize, (u128, u128))| (e.0 as int, (e.1.0 as int, e.1.1 as int))),
            forall|i: int|
                0 <= i < keys@.len() ==> {
                    &&& (#[trigger] keys@[i]).1.1 <= u32::MAX
                    &&& keys@[i].1.0 <= keys@[i].1.1 * 0xffff_ffff_ffff_ffffu128
                },
            order@.len() == k,
            forall|i: int| 0 <= i < order@.len() ==> #[trigger] order@[i] < k,
            order@.map_values(|i: usize| kd[i as int]) == sort_by_bary(kd.take(k as int)),
        decreases keys.len() - k,
    {
        let ghost s = order@.map_values(|i: usize| kd[i as int]);
        let mut p = order.len();
        while p > 0 && bary_less(keys[k].1, keys[order[p - 1]].1)
            invariant
                p <= order@.len() == k < keys@.len(),
                forall|i: int| 0 <= i < order@.len() ==> #[trigger] order@[i] < k,
                forall|i: int|
                    0 <= i < keys@.len() ==> {
                        &&& (#[trigger] keys@[i]).1.1 <= u32::MAX
                        &&& keys@[i].1.0 <= keys@[i].1.1 * 0xffff_ffff_ffff_ffffu128
                    },
                kv == kd,
                kv == keys@.map_values(|e: (usize, (u128, u128))| (e.0 as int, (e.1.0 as int, e.1.1 as int))),
                s == order@.map_values(|i: usize| kd[i as int]),
                forall|q: int| p <= q < s.len() ==> bary_lt(kd[k as int].1, #[trigger] s[q].1),
            decreases p,
        {
            proof {
                assert(kv[k as int] == kd[k as int]);
                assert(kv[order@[p - 1] as int] == kd[order@[p - 1] as int]);
                assert(s[p - 1] == kd[order@[p - 1] as int]);
            }
            p = p - 1;
        }
        proof {
            if p > 0 {
                assert(s[p - 1] == kd[order@[p - 1] as int]);
                assert(kv[k as int] == kd[k as int]);
                assert(kv[order@[p - 1] as int] == kd[order@[p - 1] as int]);
            }
            lemma_insert_at(s, kd[k as int], p as int);
            assert(kd.take(k + 1).drop_last() =~= kd.take(k as int));
            assert(kd.take(k + 1).last() == kd[k as int]);
        }
        order.insert(p, k);
        assert(order@.map_values(|i: usize| kd[i as int]) =~= s.insert(p as int, kd[k as int]));
        k = k + 1;
    }
    assert(kd.take(keys@.len() as int) =~= kd);
    let mut r: Vec<usize> = Vec::new();
    let mut j: usize = 0;
    while j < order.len()
        invariant
            j <= order@.len() == keys@.len() == kd.len() == layer@.len(),
            forall|i: int| 0 <= i < order@.len() ==> #[trigger] order@[i] < keys@.len(),
            forall|i: int| 0 <= i < layer@.len() ==> #[trigger] layer@[i] <= u32::MAX,
            kv == kd,
            kv == keys@.map_values(|e: (usize, (u128, u128))| (e.0 as int, (e.1.0 as int, e.1.1 as int))),
            forall|i: int| 0 <= i < keys@.len() ==> (#[trigger] keys@[i]).0 == layer@[i],
            r@.len() == j,
            forall|i: int| 0 <= i < j ==> #[trigger] r@[i] as int == kd[order@[i] as int].0,
            forall|i: int| 0 <= i < r@.len() ==> #[trigger] r@[i] <= u32::MAX,
        decreases order.len() - j,
    {
        let i = order[j];
        proof {
            assert(kv[i as int] == kd[i as int]);
        }
        r.push(keys[i].0);
        j = j + 1;
    }
    proof {
        let srt = sort_by_bary(kd);
        assert(srt == order@.map_values(|i: usize| kd[i as int]));
        assert forall|i: int| 0 <= i < r@.len() implies ints(r@)[i] == srt.map_values(|k: Keyed| k.0)[i] by {
            assert(srt[i] == kd[order@[i] as int]);
        }
        assert(ints(r@) =~= srt.map_values(|k: Keyed| k.0));
    }
    r
}

impl TopologyEngine {
    /// Reorders the nodes within each layer to reduce edge crossings (see
    /// `crossing_order`): `MAX_CROSSING_ITERS` rounds, each sweeping down
    /// the layers, ordering a layer by the mean position of its nodes'
    /// predecessors in the layer above, and back up, ordering by the mean
    /// position of successors in the layer below. The mean is compared as
    /// an exact fraction, which orders nodes as the floating-point mean
    /// does for any layer that fits in memory.
    pub fn minimize_crossings(graph: &DiGraph<String, ()>, layers: Vec<Vec<NodeIndex<u32>>>) -> (r: Vec<
        Vec<NodeIndex<u32>>,
    >)
        ensures
            layer_positions(r@) == crossing_order(graph_edges(*graph), layer_positions(layers@)),
    {
        if layers.len() < 2 {
            return layers;
        }
        let ghost es = graph_edges(*graph);
        let ghost start = layer_positions(layers@);
        let n = node_count(graph);
        let _ = edge_count(graph);
        let mut pos: Vec<Vec<usize>> = Vec::new();
        let mut l: usize = 0;
        while l < layers.len()
            invariant
                l <= layers@.len(),
                start == layer_positions(layers@),
                pos@.len() == l,
                forall|a: int| 0 <= a < l ==> ints((#[trigger] pos@[a])@) == start[a],
                forall|a: int, b: int| 0 <= a < l && 0 <= b < pos@[a]@.len() ==> #[trigger] pos@[a]@[b] <= u32::MAX,
            decreases layers.len() - l,
        {
            let mut row: Vec<usize> = Vec::new();
            let mut m: usize = 0;
            while m < layers[l].len()
                invariant
                    l < layers@.len(),
                    m <= layers@[l as int]@.len(),
                    row@.len() == m,
                    forall|b: int|
                        0 <= b < m ==> #[trigger] row@[b] as int == node_position(layers@[l as int]@[b]) as int,
                    forall|b: int| 0 <= b < m ==> #[trigger] row@[b] <= u32::MAX,
                decreases layers@[l as int]@.len() - m,
            {
                row.push(position_of(layers[l][m]));
                m = m + 1;
            }
            assert(ints(row@) =~= start[l as int]);
            pos.push(row);
            l = l + 1;
        }
        let ghost p0 = pos@.map_values(|x: Vec<usize>| ints(x@));
        assert(p0 =~= start);
        let mut it: usize = 0;
        while it < MAX_CROSSING_ITERS
            invariant
                n == graph_nodes(*graph).len(),
                edges_within(graph_edges(*graph), n as nat),
                graph_edges(*graph).len() <= u32::MAX,
                es == graph_edges(*graph),
                pos@.len() == start.len() >= 2,
                it <= MAX_CROSSING_ITERS,
                pos@.map_values(|x: Vec<usize>| ints(x@)) == sweeps(es, start, it as nat),
                forall|a: int, b: int| 0 <= a < pos@.len() && 0 <= b < pos@[a]@.len() ==> #[trigger] pos@[a]@[b] <= u32::MAX,
            decreases MAX_CROSSING_ITERS - it,
        {
            let ghost cur = pos@.map_values(|x: Vec<usize>| ints(x@));
            let mut i: usize = 1;
            while i < pos.len()
                invariant
                    n == graph_nodes(*graph).len(),
                    edges_within(graph_edges(*graph), n as nat),
                    graph_edges(*graph).len() <= u32::MAX,
                    es == graph_edges(*graph),
                    1 <= i <= pos@.len(),
                    pos@.len() == cur.len() >= 2,
                    down_sweep(es, pos@.map_values(|x: Vec<usize>| ints(x@)), i as int) == down_sweep(es, cur, 1),
                    forall|a: int, b: int|
                        0 <= a < pos@.len() && 0 <= b < pos@[a]@.len() ==> #[trigger] pos@[a]@[b] <= u32::MAX,
                decreases pos.len() - i,
            {
                let ghost before = pos@.map_values(|x: Vec<usize>| ints(x@));
                let row = reorder_layer(graph, n, &pos[i], &pos[i - 1], true);
                pos.set(i, row);
                proof {
                    assert(pos@.map_values(|x: Vec<usize>| ints(x@)) =~= before.update(
                        i as int,
                        reorder(es, before[i as int], before[i - 1], true),
                    ));
                }
                i = i + 1;
            }
            let ghost down = pos@.map_values(|x: Vec<usize>| ints(x@));
            proof {
                lemma_down_sweep_len(es, cur, 1);
            }
            let mut j: usize = pos.len() - 1;
            while j > 0
                invariant
                    n == graph_nodes(*graph).len(),
                    edges_within(graph_edges(*graph), n as nat),
                    graph_edges(*graph).len() <= u32::MAX,
                    es == graph_edges(*graph),
                    j < pos@.len(),
                    pos@.len() == cur.len() >= 2,
                    down.len() == pos@.len(),
                    up_sweep(es, pos@.map_values(|x: Vec<usize>| ints(x@)), j - 1) == up_sweep(
                        es,
                        down,
                        down.len() - 2,
                    ),
                    forall|a: int, b: int|
                        0 <= a < pos@.len() && 0 <= b < pos@[a]@.len() ==> #[trigger] pos@[a]@[b] <= u32::MAX,
                decreases j,
            {
                let ghost before = pos@.map_values(|x: Vec<usize>| ints(x@));
                let row = reorder_layer(graph, n, &pos[j - 1], &pos[j], false);
                pos.set(j - 1, row);
                proof {
                    assert(pos@.map_values(|x: Vec<usize>| ints(x@)) =~= before.update(
                        j - 1,
                        reorder(es, before[j - 1], before[j as int], false),
                    ));
                }
                j = j - 1;
            }
            proof {
                assert(down == down_sweep(es, cur, 1));
            }
            it = it + 1;
        }
        let ghost fin = pos@.map_values(|x: Vec<usize>| ints(x@));
        assert(fin == crossing_order(es, start));
        let mut out: Vec<Vec<NodeIndex<u32>>> = Vec::new();
        let mut a: usize = 0;
        while a < pos.len()
            invariant
                a <= pos@.len(),
                fin == pos@.map_values(|x: Vec<usize>| ints(x@)),
                out@.len() == a,
                forall|x: int, b: int| 0 <= x < pos@.len() && 0 <= b < pos@[x]@.len() ==> #[trigger] pos@[x]@[b] <= u32::MAX,
                forall|x: int|
                    0 <= x < a ==> (#[trigger] out@[x])@.map_values(|y: NodeIndex<u32>| node_position(y) as int)
                        == ints(pos@[x]@),
            decreases pos.len() - a,
        {
            let mut row: Vec<NodeIndex<u32>> = Vec::new();
            let mut b: usize = 0;
            while b < pos[a].len()
                invariant
                    a < pos@.len(),
                    b <= pos@[a as int]@.len(),
                    forall|x: int, c: int|
                        0 <= x < pos@.len() && 0 <= c < pos@[x]@.len() ==> #[trigger] pos@[x]@[c] <= u32::MAX,
                    row@.len() == b,
                    forall|c: int| 0 <= c < b ==> node_position(#[trigger] row@[c]) == pos@[a as int]@[c],
                decreases pos@[a as int]@.len() - b,
            {
                row.push(node_index(pos[a][b]));
                b = b + 1;
            }
            assert(row@.map_values(|y: NodeIndex<u32>| node_position(y) as int) =~= ints(pos@[a as int]@));
            out.push(row);
            a = a + 1;
        }
        assert(layer_positions(out@) =~= pos@.map_values(|x: Vec<usize>| ints(x@)));
        out
    }
}

} // verus!
