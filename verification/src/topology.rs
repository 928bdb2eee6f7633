//! The `[[wikilink]]` graph of a directory of Markdown pages and its
//! layering for display.
//!
//! The graph is a `petgraph` directed graph whose node weights are the
//! pages' relative paths. Layering follows the longest-path rule: a page
//! whose ancestors lie on no cycle stands one layer below its deepest
//! predecessor; pages that a cycle reaches are placed after them.
use vstd::prelude::*;
use petgraph::graph::{DiGraph, NodeIndex};
use crate::graph::{wikilinks, TopologyEngine};
use crate::documents::{file_name_bounds, last_index, last_index_of, lemma_last_index_of, path_file_name};
use crate::dedup::{lowercase, to_lowercase};
use crate::gateway::seq_eq;
use crate::text::{chars_of, string_of};

verus! {

#[verifier::external_type_specification]
#[verifier::external_body]
#[verifier::reject_recursive_types(N)]
#[verifier::reject_recursive_types(E)]
#[verifier::reject_recursive_types(Ty)]
#[verifier::reject_recursive_types(Ix)]
pub struct ExGraph<N, E, Ty, Ix>(petgraph::graph::Graph<N, E, Ty, Ix>);

#[verifier::external_type_specification]
#[verifier::external_body]
#[verifier::reject_recursive_types(Ix)]
pub struct ExNodeIndex<Ix>(petgraph::graph::NodeIndex<Ix>);

#[verifier::external_type_specification]
#[verifier::external_body]
pub struct ExDirected(petgraph::Directed);

// ---------------------------------------------------------------------------
// What a graph holds
// ---------------------------------------------------------------------------

/// The weights of the nodes of a graph, in index order.
pub uninterp spec fn graph_nodes(g: DiGraph<String, ()>) -> Seq<Seq<char>>;

/// The edges of a graph, as (source, target) positions, in the order in
/// which they were added.
pub uninterp spec fn graph_edges(g: DiGraph<String, ()>) -> Seq<(int, int)>;

/// The position that a node index stands for.
pub uninterp spec fn node_position(n: NodeIndex<u32>) -> nat;

/// Whether every edge joins two of the `n` nodes.
pub open spec fn edges_within(es: Seq<(int, int)>, n: nat) -> bool {
    forall|k: int| 0 <= k < es.len() ==> 0 <= #[trigger] es[k].0 < n && 0 <= es[k].1 < n
}

/// The sources of the edges into `v`, the most recently added first.
pub open spec fn in_sources(es: Seq<(int, int)>, v: int) -> Seq<int>
    decreases es.len(),
{
    if es.len() == 0 {
        seq![]
    } else if es.last().1 == v {
        seq![es.last().0] + in_sources(es.drop_last(), v)
    } else {
        in_sources(es.drop_last(), v)
    }
}

/// The targets of the edges out of `v`, the most recently added first.
pub open spec fn out_targets(es: Seq<(int, int)>, v: int) -> Seq<int>
    decreases es.len(),
{
    if es.len() == 0 {
        seq![]
    } else if es.last().0 == v {
        seq![es.last().1] + out_targets(es.drop_last(), v)
    } else {
        out_targets(es.drop_last(), v)
    }
}

/// Calls `Graph::new`: a graph without nodes or edges.
#[verifier::external_body]
fn new_graph() -> (g: DiGraph<String, ()>)
    ensures
        graph_nodes(g) == Seq::<Seq<char>>::empty(),
        graph_edges(g) == Seq::<(int, int)>::empty(),
{
    DiGraph::new()
}

/// Calls `Graph::add_node` and gives the new node's position, the number of
/// nodes before; `add_node` refuses a node at position `u32::MAX`.
#[verifier::external_body]
fn add_node(g: &mut DiGraph<String, ()>, w: String) -> (p: usize)
    requires
        graph_nodes(*old(g)).len() < u32::MAX,
    ensures
        graph_nodes(*final(g)) == graph_nodes(*old(g)).push(w@),
        graph_edges(*final(g)) == graph_edges(*old(g)),
        p == graph_nodes(*old(g)).len(),
{
    g.add_node(w).index()
}

/// Calls `Graph::add_edge` between the nodes at positions `a` and `b`;
/// `add_edge` refuses missing nodes and an edge at position `u32::MAX`.
#[verifier::external_body]
fn add_edge(g: &mut DiGraph<String, ()>, a: usize, b: usize)
    requires
        a < graph_nodes(*old(g)).len(),
        b < graph_nodes(*old(g)).len(),
        graph_edges(*old(g)).len() < u32::MAX,
    ensures
        graph_nodes(*final(g)) == graph_nodes(*old(g)),
        graph_edges(*final(g)) == graph_edges(*old(g)).push((a as int, b as int)),
{
    g.add_edge(NodeIndex::new(a), NodeIndex::new(b), ());
}

/// Calls `Graph::contains_edge`: whether an edge from `a` to `b` exists.
#[verifier::external_body]
fn contains_edge(g: &DiGraph<String, ()>, a: usize, b: usize) -> (r: bool)
    requires
        a < graph_nodes(*g).len(),
        b < graph_nodes(*g).len(),
    ensures
        r == graph_edges(*g).contains((a as int, b as int)),
{
    g.contains_edge(NodeIndex::new(a), NodeIndex::new(b))
}

/// Calls `Graph::node_count`; every edge of a graph joins two of its nodes,
/// of which there are at most `u32::MAX` (`add_node` refuses more).
#[verifier::external_body]
pub(crate) fn node_count(g: &DiGraph<String, ()>) -> (n: usize)
    ensures
        n == graph_nodes(*g).len(),
        n <= u32::MAX,
        edges_within(graph_edges(*g), n as nat),
{
    g.node_count()
}

/// Calls `Graph::edge_count`; a graph has at most `u32::MAX` edges
/// (`add_edge` refuses more).
#[verifier::external_body]
pub(crate) fn edge_count(g: &DiGraph<String, ()>) -> (m: usize)
    ensures
        m == graph_edges(*g).len(),
        m <= u32::MAX,
{
    g.edge_count()
}

/// Calls `Graph::neighbors_directed` on the node at position `v` in the
/// direction `Incoming`, and gives the neighbours' positions: for a
/// directed graph, the most recently added edge's source first.
#[verifier::external_body]
pub(crate) fn incoming_neighbors(g: &DiGraph<String, ()>, v: usize) -> (r: Vec<usize>)
    requires
        v < graph_nodes(*g).len(),
    ensures
        r@.map_values(|p: usize| p as int) == in_sources(graph_edges(*g), v as int),
{
    g.neighbors_directed(NodeIndex::new(v), petgraph::Direction::Incoming).map(|x| x.index()).collect()
}

/// Calls `Graph::neighbors_directed` on the node at position `v` in the
/// direction `Outgoing`, and gives the neighbours' positions: for a
/// directed graph, the most recently added edge's target first.
#[verifier::external_body]
pub(crate) fn outgoing_neighbors(g: &DiGraph<String, ()>, v: usize) -> (r: Vec<usize>)
    requires
        v < graph_nodes(*g).len(),
    ensures
        r@.map_values(|p: usize| p as int) == out_targets(graph_edges(*g), v as int),
{
    g.neighbors_directed(NodeIndex::new(v), petgraph::Direction::Outgoing).map(|x| x.index()).collect()
}

/// Calls `NodeIndex::index`: the position a node index stands for, which
/// fits in the `u32` it holds.
#[verifier::external_body]
pub(crate) fn position_of(n: NodeIndex<u32>) -> (p: usize)
    ensures
        p == node_position(n),
        p <= u32::MAX,
{
    n.index()
}

/// Calls `NodeIndex::new`.
#[verifier::external_body]
pub(crate) fn node_index(p: usize) -> (n: NodeIndex<u32>)
    requires
        p <= u32::MAX,
    ensures
        node_position(n) == p,
{
    NodeIndex::new(p)
}

// ---------------------------------------------------------------------------
// Layers
// ---------------------------------------------------------------------------

/// Whether node `v` is settled within `k` rounds: each round settles the
/// nodes whose predecessors are all settled. The nodes settled within as
/// many rounds as there are nodes are those that no cycle reaches.
pub open spec fn settled(es: Seq<(int, int)>, v: int, k: nat) -> bool
    decreases k, 0nat,
{
    k > 0 && all_settled(es, in_sources(es, v), (k - 1) as nat)
}

/// Whether all nodes of `ps` are settled within `k` rounds.
pub open spec fn all_settled(es: Seq<(int, int)>, ps: Seq<int>, k: nat) -> bool
    decreases k, ps.len() + 1,
{
    if ps.len() == 0 {
        true
    } else {
        all_settled(es, ps.drop_last(), k) && settled(es, ps.last(), k)
    }
}

/// The length of the longest chain of at most `k` edges into `v`.
pub open spec fn depth(es: Seq<(int, int)>, v: int, k: nat) -> int
    decreases k, 0nat,
{
    if k == 0 {
        0
    } else {
        max_depth(es, in_sources(es, v), (k - 1) as nat)
    }
}

/// One more than the greatest `depth` of the nodes of `ps`, or 0.
pub open spec fn max_depth(es: Seq<(int, int)>, ps: Seq<int>, k: nat) -> int
    decreases k, ps.len() + 1,
{
    if ps.len() == 0 {
        0
    } else {
        let a = max_depth(es, ps.drop_last(), k);
        let b = depth(es, ps.last(), k) + 1;
        if a >= b {
            a
        } else {
            b
        }
    }
}

/// One more than the greatest depth of the settled nodes of `ps`, if any.
pub open spec fn settled_pred_max(es: Seq<(int, int)>, ps: Seq<int>, n: nat) -> Option<int>
    decreases ps.len(),
{
    if ps.len() == 0 {
        None
    } else {
        let r = settled_pred_max(es, ps.drop_last(), n);
        let u = ps.last();
        if settled(es, u, n) {
            let d = depth(es, u, n) + 1;
            match r {
                Some(x) => Some(
                    if x >= d {
                        x
                    } else {
                        d
                    },
                ),
                None => Some(d),
            }
        } else {
            r
        }
    }
}

/// The layer of `v` from its settled predecessors: its depth when it is
/// settled; otherwise one more than the deepest settled predecessor, if it
/// has one.
pub open spec fn base_layer(es: Seq<(int, int)>, n: nat, v: int) -> Option<int> {
    if settled(es, v, n) {
        Some(depth(es, v, n))
    } else {
        settled_pred_max(es, in_sources(es, v), n)
    }
}

/// The layer given so far to `u`, or 0.
pub open spec fn value_or_zero(m: Seq<Option<int>>, u: int) -> int {
    unwrap_or_zero(m[u])
}

/// The greatest layer given so far to a node of `ps`, or 0.
pub open spec fn pred_value_max(m: Seq<Option<int>>, ps: Seq<int>) -> int
    decreases ps.len(),
{
    if ps.len() == 0 {
        0
    } else {
        let a = pred_value_max(m, ps.drop_last());
        let b = value_or_zero(m, ps.last());
        if a >= b {
            a
        } else {
            b
        }
    }
}

/// The layers after the first `i` nodes without a base layer have, in
/// index order, been placed one below their highest-placed predecessor.
pub open spec fn filled(es: Seq<(int, int)>, n: nat, i: nat) -> Seq<Option<int>>
    decreases i,
{
    if i == 0 {
        Seq::new(n, |v: int| base_layer(es, n, v))
    } else {
        let m = filled(es, n, (i - 1) as nat);
        let v = i - 1;
        if m[v] is Some {
            m
        } else {
            m.update(v, Some(1 + pred_value_max(m, in_sources(es, v))))
        }
    }
}

/// The value of `o`, or 0.
pub open spec fn unwrap_or_zero(o: Option<int>) -> int {
    match o {
        Some(x) => x,
        None => 0,
    }
}

/// The layer of each of the `n` nodes.
pub open spec fn layer_values(es: Seq<(int, int)>, n: nat) -> Seq<int> {
    filled(es, n, n).map_values(|o: Option<int>| unwrap_or_zero(o))
}

/// An optional layer, as an integer.
pub open spec fn opt_int(o: Option<u64>) -> Option<int> {
    match o {
        Some(x) => Some(x as int),
        None => None,
    }
}

/// The greatest value of `vals`, or 0.
pub open spec fn top_layer(vals: Seq<int>) -> int
    decreases vals.len(),
{
    if vals.len() == 0 {
        0
    } else {
        let a = top_layer(vals.drop_last());
        if a >= vals.last() {
            a
        } else {
            vals.last()
        }
    }
}

/// The positions below `upto` whose value is `l`, ascending.
pub open spec fn layer_members(vals: Seq<int>, l: int, upto: int) -> Seq<int>
    decreases upto,
{
    if upto <= 0 {
        seq![]
    } else {
        let r = layer_members(vals, l, upto - 1);
        if vals[upto - 1] == l {
            r.push(upto - 1)
        } else {
            r
        }
    }
}

// ---------------------------------------------------------------------------
// Lemmas on rounds
// ---------------------------------------------------------------------------

proof fn lemma_in_sources_within(es: Seq<(int, int)>, v: int, n: nat)
    requires
        edges_within(es, n),
    ensures
        forall|i: int| 0 <= i < in_sources(es, v).len() ==> 0 <= #[trigger] in_sources(es, v)[i] < n,
    decreases es.len(),
{
    if es.len() > 0 {
        let d = es.drop_last();
        assert(edges_within(d, n)) by {
            assert forall|k: int| 0 <= k < d.len() implies 0 <= #[trigger] d[k].0 < n && 0 <= d[k].1 < n by {
                assert(d[k] == es[k]);
            }
        }
        lemma_in_sources_within(d, v, n);
        assert(es.last() == es[es.len() - 1]);
        let r = in_sources(d, v);
        assert forall|i: int| 0 <= i < in_sources(es, v).len() implies 0 <= #[trigger] in_sources(es, v)[i] < n by {
            if es.last().1 == v {
                if i > 0 {
                    assert(in_sources(es, v)[i] == r[i - 1]);
                }
            } else {
                assert(in_sources(es, v)[i] == r[i]);
            }
        }
    }
}

proof fn lemma_settled_mono(es: Seq<(int, int)>, v: int, k: nat)
    ensures
        settled(es, v, k) ==> settled(es, v, k + 1),
    decreases k, 0nat,
{
    if k > 0 {
        lemma_all_settled_mono(es, in_sources(es, v), (k - 1) as nat);
    }
}

proof fn lemma_all_settled_mono(es: Seq<(int, int)>, ps: Seq<int>, k: nat)
    ensures
        all_settled(es, ps, k) ==> all_settled(es, ps, k + 1),
    decreases k, ps.len() + 1,
{
    if ps.len() > 0 {
        lemma_all_settled_mono(es, ps.drop_last(), k);
        lemma_settled_mono(es, ps.last(), k);
    }
}

proof fn lemma_depth_stable(es: Seq<(int, int)>, v: int, k: nat)
    requires
        settled(es, v, k),
    ensures
        depth(es, v, k + 1) == depth(es, v, k),
    decreases k, 0nat,
{
    lemma_max_depth_stable(es, in_sources(es, v), (k - 1) as nat);
}

proof fn lemma_max_depth_stable(es: Seq<(int, int)>, ps: Seq<int>, k: nat)
    requires
        all_settled(es, ps, k),
    ensures
        max_depth(es, ps, k + 1) == max_depth(es, ps, k),
    decreases k, ps.len() + 1,
{
    if ps.len() > 0 {
        lemma_max_depth_stable(es, ps.drop_last(), k);
        lemma_depth_stable(es, ps.last(), k);
    }
}

proof fn lemma_depth_bound(es: Seq<(int, int)>, v: int, k: nat)
    ensures
        0 <= depth(es, v, k) <= k,
    decreases k, 0nat,
{
    if k > 0 {
        lemma_max_depth_bound(es, in_sources(es, v), (k - 1) as nat);
    }
}

proof fn lemma_max_depth_bound(es: Seq<(int, int)>, ps: Seq<int>, k: nat)
    ensures
        0 <= max_depth(es, ps, k) <= k + 1,
    decreases k, ps.len() + 1,
{
    if ps.len() > 0 {
        lemma_max_depth_bound(es, ps.drop_last(), k);
        lemma_depth_bound(es, ps.last(), k);
    }
}

/// When a round settles no new node among the `n`, no later round does.
proof fn lemma_all_settled_same(es: Seq<(int, int)>, ps: Seq<int>, k: nat, n: nat)
    requires
        forall|i: int| 0 <= i < ps.len() ==> 0 <= #[trigger] ps[i] < n,
        forall|u: int| #![trigger settled(es, u, k)] 0 <= u < n ==> settled(es, u, k + 1) == settled(es, u, k),
    ensures
        all_settled(es, ps, k + 1) == all_settled(es, ps, k),
    decreases ps.len(),
{
    if ps.len() > 0 {
        let d = ps.drop_last();
        assert forall|i: int| 0 <= i < d.len() implies 0 <= #[trigger] d[i] < n by {
            assert(d[i] == ps[i]);
        }
        lemma_all_settled_same(es, d, k, n);
        assert(ps.last() == ps[ps.len() - 1]);
        let u = ps.last();
        assert(settled(es, u, k + 1) == settled(es, u, k));
    }
}

proof fn lemma_stable_step(es: Seq<(int, int)>, k: nat, n: nat)
    requires
        edges_within(es, n),
        forall|u: int| #![trigger settled(es, u, k)] 0 <= u < n ==> settled(es, u, k + 1) == settled(es, u, k),
    ensures
        forall|u: int| #![trigger settled(es, u, k + 2)] 0 <= u < n ==> settled(es, u, k + 2) == settled(es, u, k + 1),
{
    assert forall|u: int| #![trigger settled(es, u, k + 2)] 0 <= u < n implies settled(es, u, k + 2) == settled(es, u, k + 1) by {
        lemma_in_sources_within(es, u, n);
        lemma_all_settled_same(es, in_sources(es, u), k, n);
    }
}

/// Once a round settles nothing new, the settled nodes stay the same.
proof fn lemma_stable_from(es: Seq<(int, int)>, k: nat, j: nat, n: nat)
    requires
        edges_within(es, n),
        k <= j,
        forall|u: int| #![trigger settled(es, u, k)] 0 <= u < n ==> settled(es, u, k + 1) == settled(es, u, k),
    ensures
        forall|u: int| #![trigger settled(es, u, j)] 0 <= u < n ==> settled(es, u, j) == settled(es, u, k),
    decreases j - k,
{
    if j > k {
        lemma_stable_from(es, k, (j - 1) as nat, n);
        if j - 1 > k {
            let i = (j - 2) as nat;
            lemma_stable_from(es, k, i, n);
            assert forall|u: int| #![trigger settled(es, u, i)] 0 <= u < n implies settled(es, u, i + 1)
                == settled(es, u, i) by {
                assert(settled(es, u, (j - 1) as nat) == settled(es, u, k));
            }
            lemma_stable_step(es, i, n);
            assert forall|u: int| #![trigger settled(es, u, j)] 0 <= u < n implies settled(es, u, j)
                == settled(es, u, k) by {
                assert(settled(es, u, i + 2) == settled(es, u, i + 1));
                assert(settled(es, u, (j - 1) as nat) == settled(es, u, k));
            }
        }
    }
}

/// The depth of a settled node no longer changes.
proof fn lemma_depth_from(es: Seq<(int, int)>, v: int, k: nat, j: nat)
    requires
        settled(es, v, k),
        k <= j,
    ensures
        settled(es, v, j),
        depth(es, v, j) == depth(es, v, k),
    decreases j - k,
{
    if j > k {
        lemma_depth_from(es, v, k, (j - 1) as nat);
        lemma_settled_mono(es, v, (j - 1) as nat);
        lemma_depth_stable(es, v, (j - 1) as nat);
    }
}

proof fn lemma_top_layer(vals: Seq<int>)
    ensures
        forall|i: int| 0 <= i < vals.len() ==> #[trigger] vals[i] <= top_layer(vals),
    decreases vals.len(),
{
    if vals.len() > 0 {
        let d = vals.drop_last();
        lemma_top_layer(d);
        assert forall|i: int| 0 <= i < vals.len() implies #[trigger] vals[i] <= top_layer(vals) by {
            if i < d.len() {
                assert(vals[i] == d[i]);
            }
        }
    }
}

// ---------------------------------------------------------------------------
// Laws of the layering
// ---------------------------------------------------------------------------

proof fn lemma_in_sources_has(es: Seq<(int, int)>, k: int)
    requires
        0 <= k < es.len(),
    ensures
        in_sources(es, es[k].1).contains(es[k].0),
    decreases es.len(),
{
    let v = es[k].1;
    if k == es.len() - 1 {
        assert(in_sources(es, v)[0] == es[k].0);
    } else {
        let d = es.drop_last();
        assert(d[k] == es[k]);
        lemma_in_sources_has(d, k);
        let i = choose|i: int| 0 <= i < in_sources(d, v).len() && in_sources(d, v)[i] == es[k].0;
        if es.last().1 == v {
            assert(in_sources(es, v)[i + 1] == es[k].0);
        } else {
            assert(in_sources(es, v)[i] == es[k].0);
        }
    }
}

proof fn lemma_all_settled_has(es: Seq<(int, int)>, ps: Seq<int>, k: nat, i: int)
    requires
        all_settled(es, ps, k),
        0 <= i < ps.len(),
    ensures
        settled(es, ps[i], k),
        max_depth(es, ps, k) >= depth(es, ps[i], k) + 1,
    decreases ps.len(),
{
    if i < ps.len() - 1 {
        assert(ps.drop_last()[i] == ps[i]);
        lemma_all_settled_has(es, ps.drop_last(), k, i);
    }
}

proof fn lemma_filled_keeps(es: Seq<(int, int)>, n: nat, i: nat, v: int)
    requires
        0 <= v < n,
        i <= n,
        base_layer(es, n, v) is Some,
    ensures
        filled(es, n, i).len() == n,
        filled(es, n, i)[v] == base_layer(es, n, v),
    decreases i,
{
    if i > 0 {
        lemma_filled_keeps(es, n, (i - 1) as nat, v);
        let m = filled(es, n, (i - 1) as nat);
        if v == i - 1 {
            assert(m[v] is Some);
        }
    }
}

/// A link into a page that no cycle reaches comes from a strictly higher
/// layer: the linking page stands in a layer before the linked page's.
pub proof fn links_descend_layers(es: Seq<(int, int)>, n: nat, k: int)
    requires
        edges_within(es, n),
        0 <= k < es.len(),
        settled(es, es[k].1, n),
    ensures
        layer_values(es, n)[es[k].0] < layer_values(es, n)[es[k].1],
{
    let (u, v) = es[k];
    assert(0 <= u < n && 0 <= v < n);
    lemma_in_sources_has(es, k);
    let ps = in_sources(es, v);
    let i = choose|i: int| 0 <= i < ps.len() && ps[i] == u;
    lemma_all_settled_has(es, ps, (n - 1) as nat, i);
    lemma_settled_mono(es, u, (n - 1) as nat);
    lemma_depth_stable(es, u, (n - 1) as nat);
    lemma_filled_keeps(es, n, n, u);
    lemma_filled_keeps(es, n, n, v);
}

/// A page without incoming links stands in the first layer.
pub proof fn sources_in_first_layer(es: Seq<(int, int)>, n: nat, v: int)
    requires
        0 <= v < n,
        in_sources(es, v).len() == 0,
    ensures
        layer_values(es, n)[v] == 0,
{
    assert(settled(es, v, n));
    assert(depth(es, v, n) == 0);
    lemma_filled_keeps(es, n, n, v);
}

proof fn lemma_max_depth_reached(es: Seq<(int, int)>, ps: Seq<int>, k: nat)
    requires
        ps.len() > 0,
    ensures
        exists|i: int| 0 <= i < ps.len() && max_depth(es, ps, k) == depth(es, ps[i], k) + 1,
    decreases ps.len(),
{
    let a = max_depth(es, ps.drop_last(), k);
    let b = depth(es, ps.last(), k) + 1;
    if a >= b && ps.len() > 1 {
        lemma_max_depth_reached(es, ps.drop_last(), k);
        let i = choose|i: int| 0 <= i < ps.drop_last().len() && a == depth(es, ps.drop_last()[i], k) + 1;
        assert(ps[i] == ps.drop_last()[i]);
    } else if a >= b {
        assert(ps.drop_last().len() == 0);
        assert(a == 0);
        lemma_depth_nonneg(es, ps.last(), k);
        assert(ps[ps.len() - 1] == ps.last());
    } else {
        assert(ps[ps.len() - 1] == ps.last());
    }
}

proof fn lemma_depth_nonneg(es: Seq<(int, int)>, v: int, k: nat)
    ensures
        depth(es, v, k) >= 0,
    decreases k, 0nat,
{
    if k > 0 {
        lemma_max_depth_nonneg(es, in_sources(es, v), (k - 1) as nat);
    }
}

proof fn lemma_max_depth_nonneg(es: Seq<(int, int)>, ps: Seq<int>, k: nat)
    ensures
        max_depth(es, ps, k) >= 0,
    decreases k, ps.len() + 1,
{
    if ps.len() > 0 {
        lemma_max_depth_nonneg(es, ps.drop_last(), k);
    }
}

/// A page that no cycle reaches and that stands below the first layer has
/// a predecessor in the layer just before its own.
pub proof fn settled_pages_have_a_predecessor_one_layer_up(es: Seq<(int, int)>, n: nat, v: int)
    requires
        edges_within(es, n),
        0 <= v < n,
        settled(es, v, n),
        layer_values(es, n)[v] > 0,
    ensures
        exists|u: int|
            0 <= u < n && #[trigger] in_sources(es, v).contains(u) && layer_values(es, n)[u] == layer_values(es, n)[v]
                - 1,
{
    lemma_filled_keeps(es, n, n, v);
    let ps = in_sources(es, v);
    let k = (n - 1) as nat;
    assert(layer_values(es, n)[v] == depth(es, v, n));
    assert(depth(es, v, n) == max_depth(es, ps, k));
    if ps.len() == 0 {
        assert(false);
    }
    lemma_max_depth_reached(es, ps, k);
    let i = choose|i: int| 0 <= i < ps.len() && max_depth(es, ps, k) == depth(es, ps[i], k) + 1;
    let u = ps[i];
    lemma_in_sources_within(es, v, n);
    lemma_all_settled_has(es, ps, k, i);
    lemma_settled_mono(es, u, k);
    lemma_depth_stable(es, u, k);
    lemma_filled_keeps(es, n, n, u);
    assert(ps.contains(u));
}

/// A numbering of the `n` nodes, each below `n`, under which every link
/// goes from a lower to a higher number.
pub open spec fn ranked(es: Seq<(int, int)>, n: nat, rank: Seq<int>) -> bool {
    &&& rank.len() == n
    &&& forall|v: int| 0 <= v < n ==> 0 <= #[trigger] rank[v] < n
    &&& forall|k: int| 0 <= k < es.len() ==> rank[(#[trigger] es[k]).0] < rank[es[k].1]
}

/// Whether the links form no cycle: the nodes can be numbered so that every
/// link goes to a higher number.
pub open spec fn acyclic(es: Seq<(int, int)>, n: nat) -> bool {
    exists|rank: Seq<int>| ranked(es, n, rank)
}

proof fn lemma_in_sources_from_edge(es: Seq<(int, int)>, v: int, i: int)
    requires
        0 <= i < in_sources(es, v).len(),
    ensures
        exists|k: int| 0 <= k < es.len() && (#[trigger] es[k]).1 == v && es[k].0 == in_sources(es, v)[i],
    decreases es.len(),
{
    let d = es.drop_last();
    let l = es.len() - 1;
    assert(es.last() == es[l]);
    if es.last().1 == v && i == 0 {
        assert(es[l].0 == in_sources(es, v)[i]);
    } else {
        let j = if es.last().1 == v {
            i - 1
        } else {
            i
        };
        assert(in_sources(es, v)[i] == in_sources(d, v)[j]);
        lemma_in_sources_from_edge(d, v, j);
        let k = choose|k: int| 0 <= k < d.len() && (#[trigger] d[k]).1 == v && d[k].0 == in_sources(d, v)[j];
        assert(es[k] == d[k]);
    }
}

proof fn lemma_all_settled_of_each(es: Seq<(int, int)>, ps: Seq<int>, k: nat)
    requires
        forall|i: int| 0 <= i < ps.len() ==> settled(es, #[trigger] ps[i], k),
    ensures
        all_settled(es, ps, k),
    decreases ps.len(),
{
    if ps.len() > 0 {
        let d = ps.drop_last();
        assert forall|i: int| 0 <= i < d.len() implies settled(es, #[trigger] d[i], k) by {
            assert(d[i] == ps[i]);
        }
        lemma_all_settled_of_each(es, d, k);
        assert(ps.last() == ps[ps.len() - 1]);
    }
}

proof fn lemma_settled_mono_to(es: Seq<(int, int)>, v: int, a: nat, b: nat)
    requires
        a <= b,
        settled(es, v, a),
    ensures
        settled(es, v, b),
    decreases b - a,
{
    if a < b {
        lemma_settled_mono(es, v, a);
        lemma_settled_mono_to(es, v, a + 1, b);
    }
}

proof fn lemma_ranked_settled(es: Seq<(int, int)>, n: nat, rank: Seq<int>, v: int)
    requires
        edges_within(es, n),
        ranked(es, n, rank),
        0 <= v < n,
    ensures
        settled(es, v, (rank[v] + 1) as nat),
    decreases rank[v],
{
    let ps = in_sources(es, v);
    let r = rank[v];
    assert(0 <= r < n);
    assert forall|i: int| 0 <= i < ps.len() implies settled(es, #[trigger] ps[i], r as nat) by {
        lemma_in_sources_from_edge(es, v, i);
        let k = choose|k: int| 0 <= k < es.len() && (#[trigger] es[k]).1 == v && es[k].0 == ps[i];
        let u = es[k].0;
        assert(0 <= u < n);
        assert(rank[u] < r);
        assert(0 <= rank[u]);
        lemma_ranked_settled(es, n, rank, u);
        lemma_settled_mono_to(es, u, (rank[u] + 1) as nat, r as nat);
    }
    lemma_all_settled_of_each(es, ps, r as nat);
}

/// In a graph without cycles every page is settled: the layering laws that
/// speak of settled pages hold of all of them.
pub proof fn acyclic_pages_are_settled(es: Seq<(int, int)>, n: nat, v: int)
    requires
        edges_within(es, n),
        acyclic(es, n),
        0 <= v < n,
    ensures
        settled(es, v, n),
{
    let rank = choose|rank: Seq<int>| ranked(es, n, rank);
    lemma_ranked_settled(es, n, rank, v);
    assert(rank[v] < n);
    lemma_settled_mono_to(es, v, (rank[v] + 1) as nat, n);
}

/// In a graph without cycles, every link goes from an earlier layer to a
/// later one, and every page below the first layer has a predecessor in the
/// layer just before its own.
pub proof fn acyclic_layering(es: Seq<(int, int)>, n: nat)
    requires
        edges_within(es, n),
        acyclic(es, n),
    ensures
        forall|k: int| 0 <= k < es.len() ==> layer_values(es, n)[(#[trigger] es[k]).0] < layer_values(es, n)[es[k].1],
        forall|v: int| 0 <= v < n && #[trigger] layer_values(es, n)[v] > 0 ==> exists|u: int|
            0 <= u < n && #[trigger] in_sources(es, v).contains(u) && layer_values(es, n)[u] == layer_values(es, n)[v] - 1,
{
    assert forall|k: int| 0 <= k < es.len() implies layer_values(es, n)[(#[trigger] es[k]).0] < layer_values(es, n)[es[k].1] by {
        acyclic_pages_are_settled(es, n, es[k].1);
        links_descend_layers(es, n, k);
    }
    assert forall|v: int| 0 <= v < n && #[trigger] layer_values(es, n)[v] > 0 implies exists|u: int|
        0 <= u < n && #[trigger] in_sources(es, v).contains(u) && layer_values(es, n)[u] == layer_values(es, n)[v] - 1 by {
        acyclic_pages_are_settled(es, n, v);
        settled_pages_have_a_predecessor_one_layer_up(es, n, v);
    }
}

/// Each node stands in exactly one layer, that of its value: `v` is among
/// the members of layer `l` exactly when its value is `l`.
pub proof fn layer_members_exact(vals: Seq<int>, l: int, upto: int, v: int)
    requires
        upto <= vals.len(),
    ensures
        layer_members(vals, l, upto).contains(v) <==> (0 <= v < upto && vals[v] == l),
    decreases upto,
{
    if upto > 0 {
        layer_members_exact(vals, l, upto - 1, v);
        let r = layer_members(vals, l, upto - 1);
        if vals[upto - 1] == l {
            if v == upto - 1 {
                assert(r.push(upto - 1)[r.len() as int] == v);
            } else if r.contains(v) {
                let i = choose|i: int| 0 <= i < r.len() && r[i] == v;
                assert(r.push(upto - 1)[i] == v);
            } else {
                let r2 = r.push(upto - 1);
                assert forall|i: int| 0 <= i < r2.len() implies #[trigger] r2[i] != v by {
                    if i < r.len() {
                        assert(r2[i] == r[i]);
                    }
                }
            }
        }
    }
}

// ---------------------------------------------------------------------------
// Executable parts
// ---------------------------------------------------------------------------

/// The predecessors' positions of each node.
fn all_predecessors(g: &DiGraph<String, ()>, n: usize) -> (preds: Vec<Vec<usize>>)
    requires
        n == graph_nodes(*g).len(),
    ensures
        preds@.len() == n,
        forall|v: int|
            0 <= v < n ==> (#[trigger] preds@[v])@.map_values(|p: usize| p as int) == in_sources(
                graph_edges(*g),
                v,
            ),
{
    let mut preds: Vec<Vec<usize>> = Vec::new();
    let mut v: usize = 0;
    while v < n
        invariant
            v <= n == graph_nodes(*g).len(),
            preds@.len() == v,
            forall|w: int|
                0 <= w < v ==> (#[trigger] preds@[w])@.map_values(|p: usize| p as int) == in_sources(
                    graph_edges(*g),
                    w,
                ),
        decreases n - v,
    {
        preds.push(incoming_neighbors(g, v));
        v = v + 1;
    }
    preds
}

/// One round: which nodes are settled within `k + 1` rounds, and their
/// depths, from those within `k` rounds.
fn next_round(
    preds: &Vec<Vec<usize>>,
    sett: &Vec<bool>,
    dep: &Vec<u64>,
    Ghost(es): Ghost<Seq<(int, int)>>,
    Ghost(k): Ghost<nat>,
) -> (r: (Vec<bool>, Vec<u64>))
    requires
        k < u32::MAX,
        sett@.len() == preds@.len(),
        dep@.len() == preds@.len(),
        forall|v: int|
            0 <= v < preds@.len() ==> (#[trigger] preds@[v])@.map_values(|p: usize| p as int)
                == in_sources(es, v),
        forall|v: int, i: int| 0 <= v < preds@.len() && 0 <= i < preds@[v]@.len() ==> #[trigger] preds@[v]@[i] < preds@.len(),
        forall|v: int| 0 <= v < preds@.len() ==> #[trigger] sett@[v] == settled(es, v, k),
        forall|v: int| 0 <= v < preds@.len() ==> #[trigger] dep@[v] == depth(es, v, k),
    ensures
        r.0@.len() == preds@.len(),
        r.1@.len() == preds@.len(),
        forall|v: int| 0 <= v < preds@.len() ==> #[trigger] r.0@[v] == settled(es, v, k + 1),
        forall|v: int| 0 <= v < preds@.len() ==> #[trigger] r.1@[v] == depth(es, v, k + 1),
{
    let n = preds.len();
    let mut ns: Vec<bool> = Vec::new();
    let mut nd: Vec<u64> = Vec::new();
    let mut v: usize = 0;
    while v < n
        invariant
            v <= n == preds@.len(),
            k < u32::MAX,
            sett@.len() == n,
            dep@.len() == n,
            ns@.len() == v,
            nd@.len() == v,
            forall|w: int|
                0 <= w < n ==> (#[trigger] preds@[w])@.map_values(|p: usize| p as int) == in_sources(
                    es,
                    w,
                ),
            forall|w: int, i: int| 0 <= w < n && 0 <= i < preds@[w]@.len() ==> #[trigger] preds@[w]@[i] < n,
            forall|w: int| 0 <= w < n ==> #[trigger] sett@[w] == settled(es, w, k),
            forall|w: int| 0 <= w < n ==> #[trigger] dep@[w] == depth(es, w, k),
            forall|w: int| 0 <= w < v ==> #[trigger] ns@[w] == settled(es, w, k + 1),
            forall|w: int| 0 <= w < v ==> #[trigger] nd@[w] == depth(es, w, k + 1),
        decreases n - v,
    {
        let ps = &preds[v];
        let ghost pi = ps@.map_values(|p: usize| p as int);
        assert(pi == in_sources(es, v as int));
        let mut all = true;
        let mut mx: u64 = 0;
        let mut i: usize = 0;
        while i < ps.len()
            invariant
                i <= ps@.len(),
                n == preds@.len(),
                sett@.len() == n,
                dep@.len() == n,
                k < u32::MAX,
                pi == ps@.map_values(|p: usize| p as int),
                forall|j: int| 0 <= j < ps@.len() ==> #[trigger] ps@[j] < n,
                forall|w: int| 0 <= w < n ==> #[trigger] sett@[w] == settled(es, w, k),
                forall|w: int| 0 <= w < n ==> #[trigger] dep@[w] == depth(es, w, k),
                all == all_settled(es, pi.take(i as int), k),
                mx == max_depth(es, pi.take(i as int), k),
            decreases ps.len() - i,
        {
            let u = ps[i];
            assert(pi.take(i + 1).drop_last() =~= pi.take(i as int));
            assert(pi.take(i + 1).last() == u as int);
            proof {
                lemma_depth_bound(es, u as int, k);
            }
            all = all && sett[u];
            let d = dep[u] + 1;
            if d > mx {
                mx = d;
            }
            i = i + 1;
        }
        assert(pi.take(ps@.len() as int) =~= pi);
        ns.push(all);
        nd.push(mx);
        v = v + 1;
    }
    (ns, nd)
}

/// Whether two vectors of flags differ.
fn flags_differ(a: &Vec<bool>, b: &Vec<bool>) -> (r: bool)
    requires
        a@.len() == b@.len(),
    ensures
        r == exists|i: int| 0 <= i < a@.len() && a@[i] != b@[i],
{
    let mut i: usize = 0;
    while i < a.len()
        invariant
            i <= a@.len() == b@.len(),
            forall|j: int| 0 <= j < i ==> a@[j] == b@[j],
        decreases a.len() - i,
    {
        if a[i] != b[i] {
            return true;
        }
        i = i + 1;
    }
    false
}

/// The base layer of each node (see `base_layer`), from which nodes are
/// settled and their depths.
fn base_layers(
    preds: &Vec<Vec<usize>>,
    sett: &Vec<bool>,
    dep: &Vec<u64>,
    Ghost(es): Ghost<Seq<(int, int)>>,
    Ghost(n): Ghost<nat>,
) -> (cur: Vec<Option<u64>>)
    requires
        n == preds@.len(),
        n <= u32::MAX,
        sett@.len() == n,
        dep@.len() == n,
        forall|w: int|
            0 <= w < n ==> (#[trigger] preds@[w])@.map_values(|p: usize| p as int) == in_sources(es, w),
        forall|w: int, i: int| 0 <= w < n && 0 <= i < preds@[w]@.len() ==> #[trigger] preds@[w]@[i] < n,
        forall|w: int|
            0 <= w < n ==> #[trigger] sett@[w] == settled(es, w, n) && (sett@[w] ==> depth(es, w, n)
                == dep@[w]),
    ensures
        cur@.len() == n,
        forall|w: int| 0 <= w < n ==> opt_int(#[trigger] cur@[w]) == base_layer(es, n, w),
        forall|w: int| 0 <= w < n ==> (#[trigger] cur@[w] matches Some(x) ==> x <= n + 1),
{
    let len = preds.len();
    let mut cur: Vec<Option<u64>> = Vec::new();
    let mut v: usize = 0;
    while v < len
        invariant
            v <= len == n == preds@.len(),
            n <= u32::MAX,
            sett@.len() == n,
            dep@.len() == n,
            cur@.len() == v,
            forall|w: int|
                0 <= w < n ==> (#[trigger] preds@[w])@.map_values(|p: usize| p as int) == in_sources(
                    es,
                    w,
                ),
            forall|w: int, i: int| 0 <= w < n && 0 <= i < preds@[w]@.len() ==> #[trigger] preds@[w]@[i] < n,
            forall|w: int|
                0 <= w < n ==> #[trigger] sett@[w] == settled(es, w, n) && (sett@[w] ==> depth(es, w, n)
                    == dep@[w]),
            forall|w: int| 0 <= w < v ==> opt_int(#[trigger] cur@[w]) == base_layer(es, n, w),
            forall|w: int| 0 <= w < v ==> (#[trigger] cur@[w] matches Some(x) ==> x <= n + 1),
        decreases len - v,
    {
        if sett[v] {
            proof {
                lemma_depth_bound(es, v as int, n);
            }
            cur.push(Some(dep[v]));
        } else {
            let ps = &preds[v];
            let ghost pi = ps@.map_values(|p: usize| p as int);
            assert(pi == in_sources(es, v as int));
            let mut acc: Option<u64> = None;
            let mut i: usize = 0;
            while i < ps.len()
                invariant
                    i <= ps@.len(),
                    n <= u32::MAX,
                    sett@.len() == n,
                    dep@.len() == n,
                    pi == ps@.map_values(|p: usize| p as int),
                    forall|j: int| 0 <= j < ps@.len() ==> #[trigger] ps@[j] < n,
                    forall|w: int|
                        0 <= w < n ==> #[trigger] sett@[w] == settled(es, w, n) && (sett@[w] ==> depth(
                            es,
                            w,
                            n,
                        ) == dep@[w]),
                    opt_int(acc) == settled_pred_max(es, pi.take(i as int), n),
                    acc matches Some(x) ==> x <= n + 1,
                decreases ps.len() - i,
            {
                let u = ps[i];
                assert(pi.take(i + 1).drop_last() =~= pi.take(i as int));
                assert(pi.take(i + 1).last() == u as int);
                if sett[u] {
                    proof {
                        lemma_depth_bound(es, u as int, n);
                    }
                    let d = dep[u] + 1;
                    acc = match acc {
                        Some(x) => Some(
                            if x >= d {
                                x
                            } else {
                                d
                            },
                        ),
                        None => Some(d),
                    };
                }
                i = i + 1;
            }
            assert(pi.take(ps@.len() as int) =~= pi);
            cur.push(acc);
        }
        v = v + 1;
    }
    cur
}

/// Places, in index order, each node without a base layer one below its
/// highest-placed predecessor (see `filled`), and gives every node's layer.
fn fill_layers(
    preds: &Vec<Vec<usize>>,
    cur: Vec<Option<u64>>,
    Ghost(es): Ghost<Seq<(int, int)>>,
    Ghost(n): Ghost<nat>,
) -> (vals: Vec<u64>)
    requires
        n == preds@.len(),
        n <= u32::MAX,
        cur@.len() == n,
        forall|w: int|
            0 <= w < n ==> (#[trigger] preds@[w])@.map_values(|p: usize| p as int) == in_sources(es, w),
        forall|w: int, i: int| 0 <= w < n && 0 <= i < preds@[w]@.len() ==> #[trigger] preds@[w]@[i] < n,
        forall|w: int| 0 <= w < n ==> opt_int(#[trigger] cur@[w]) == base_layer(es, n, w),
        forall|w: int| 0 <= w < n ==> (#[trigger] cur@[w] matches Some(x) ==> x <= n + 1),
    ensures
        vals@.len() == n,
        layer_values(es, n).len() == n,
        forall|w: int| 0 <= w < n ==> #[trigger] vals@[w] as int == layer_values(es, n)[w],
{
    let len = preds.len();
    let mut cur = cur;
    assert(filled(es, n, 0) =~= Seq::new(n, |w: int| base_layer(es, n, w)));
    let mut v: usize = 0;
    while v < len
        invariant
            v <= len == n == preds@.len(),
            n <= u32::MAX,
            cur@.len() == n,
            filled(es, n, v as nat).len() == n,
            forall|w: int|
                0 <= w < n ==> (#[trigger] preds@[w])@.map_values(|p: usize| p as int) == in_sources(
                    es,
                    w,
                ),
            forall|w: int, i: int| 0 <= w < n && 0 <= i < preds@[w]@.len() ==> #[trigger] preds@[w]@[i] < n,
            forall|w: int| 0 <= w < n ==> opt_int(#[trigger] cur@[w]) == filled(es, n, v as nat)[w],
            forall|w: int| 0 <= w < v ==> #[trigger] cur@[w] is Some,
            forall|w: int| 0 <= w < n ==> (#[trigger] cur@[w] matches Some(x) ==> x <= n + 1 + v),
        decreases len - v,
    {
        let ghost m = filled(es, n, v as nat);
        if cur[v].is_none() {
            let ps = &preds[v];
            let ghost pi = ps@.map_values(|p: usize| p as int);
            assert(pi == in_sources(es, v as int));
            let mut mx: u64 = 0;
            let mut i: usize = 0;
            while i < ps.len()
                invariant
                    i <= ps@.len(),
                    n <= u32::MAX,
                    cur@.len() == n,
                    m.len() == n,
                    pi == ps@.map_values(|p: usize| p as int),
                    forall|j: int| 0 <= j < ps@.len() ==> #[trigger] ps@[j] < n,
                    forall|w: int| 0 <= w < n ==> opt_int(#[trigger] cur@[w]) == m[w],
                    forall|w: int| 0 <= w < n ==> (#[trigger] cur@[w] matches Some(x) ==> x <= n + 1 + v),
                    mx == pred_value_max(m, pi.take(i as int)),
                    mx <= n + 1 + v,
                decreases ps.len() - i,
            {
                let u = ps[i];
                assert(pi.take(i + 1).drop_last() =~= pi.take(i as int));
                assert(pi.take(i + 1).last() == u as int);
                let x = match cur[u] {
                    Some(x) => x,
                    None => 0,
                };
                if x > mx {
                    mx = x;
                }
                i = i + 1;
            }
            assert(pi.take(ps@.len() as int) =~= pi);
            cur.set(v, Some(mx + 1));
        }
        v = v + 1;
    }
    let mut vals: Vec<u64> = Vec::new();
    let mut w: usize = 0;
    while w < len
        invariant
            w <= len == n,
            cur@.len() == n,
            vals@.len() == w,
            forall|j: int| 0 <= j < n ==> opt_int(#[trigger] cur@[j]) == filled(es, n, n)[j],
            forall|j: int| 0 <= j < n ==> #[trigger] cur@[j] is Some,
            forall|j: int| 0 <= j < w ==> #[trigger] vals@[j] as int == layer_values(es, n)[j],
            filled(es, n, n).len() == n,
        decreases len - w,
    {
        let x = match cur[w] {
            Some(x) => x,
            None => 0,
        };
        vals.push(x);
        w = w + 1;
    }
    vals
}

/// Groups the node positions by value: group `l` holds, ascending, the
/// positions whose value is `l`.
fn group_layers(vals: &Vec<u64>, Ghost(vs): Ghost<Seq<int>>) -> (layers: Vec<Vec<NodeIndex<u32>>>)
    requires
        0 < vals@.len() <= u32::MAX,
        vs.len() == vals@.len(),
        forall|w: int| 0 <= w < vals@.len() ==> #[trigger] vals@[w] as int == vs[w],
    ensures
        layers@.len() == top_layer(vs) + 1,
        forall|l: int|
            0 <= l < layers@.len() ==> (#[trigger] layers@[l])@.map_values(
                |x: NodeIndex<u32>| node_position(x) as int,
            ) == layer_members(vs, l, vs.len() as int),
{
    let n = vals.len();
    let mut mx: u64 = 0;
    let mut i: usize = 0;
    while i < n
        invariant
            i <= n == vals@.len() == vs.len(),
            forall|w: int| 0 <= w < vals@.len() ==> #[trigger] vals@[w] as int == vs[w],
            mx == top_layer(vs.take(i as int)),
        decreases n - i,
    {
        assert(vs.take(i + 1).drop_last() =~= vs.take(i as int));
        if vals[i] > mx {
            mx = vals[i];
        }
        i = i + 1;
    }
    assert(vs.take(n as int) =~= vs);
    proof {
        lemma_top_layer(vs);
    }
    let mut layers: Vec<Vec<NodeIndex<u32>>> = Vec::new();
    while (layers.len() as u64) <= mx
        invariant
            layers@.len() <= mx + 1,
            forall|l: int| 0 <= l < layers@.len() ==> (#[trigger] layers@[l])@.len() == 0,
        decreases mx + 1 - layers@.len(),
    {
        layers.push(Vec::new());
    }
    let mut v: usize = 0;
    while v < n
        invariant
            v <= n == vals@.len() == vs.len(),
            n <= u32::MAX,
            layers@.len() == mx + 1,
            mx == top_layer(vs),
            forall|w: int| 0 <= w < vals@.len() ==> #[trigger] vals@[w] as int == vs[w],
            forall|w: int| 0 <= w < vs.len() ==> #[trigger] vs[w] <= top_layer(vs),
            forall|l: int|
                0 <= l < layers@.len() ==> (#[trigger] layers@[l])@.map_values(
                    |x: NodeIndex<u32>| node_position(x) as int,
                ) == layer_members(vs, l, v as int),
        decreases n - v,
    {
        let nl = layers.len();
        assert(vals@[v as int] <= mx < nl);
        let l = vals[v] as usize;
        let x = node_index(v);
        let ghost before = layers@;
        layers[l].push(x);
        assert(layers@.len() == before.len());
        assert(vs[v as int] == l);
        assert forall|j: int| 0 <= j < layers@.len() implies (#[trigger] layers@[j])@.map_values(
            |y: NodeIndex<u32>| node_position(y) as int,
        ) == layer_members(vs, j, v + 1) by {
            if j == l {
                assert(layers@[j]@ == before[j]@.push(x));
                assert(layers@[j]@.map_values(|y: NodeIndex<u32>| node_position(y) as int)
                    =~= before[j]@.map_values(|y: NodeIndex<u32>| node_position(y) as int).push(v as int));
            } else {
                assert(layers@[j] == before[j]);
            }
        }
        v = v + 1;
    }
    layers
}

// ---------------------------------------------------------------------------
// The wikilink graph of a set of pages
// ---------------------------------------------------------------------------

/// A page: its relative path and its Markdown text.
pub type PageFile = (Seq<char>, Seq<char>);

/// Whether `a` comes before `b` in lexicographic order (the order of
/// `String`: comparing UTF-8 bytes orders characters by code point).
pub open spec fn chars_lt(a: Seq<char>, b: Seq<char>) -> bool
    decreases a.len(),
{
    if a.len() == 0 {
        b.len() > 0
    } else if b.len() == 0 {
        false
    } else if a[0] != b[0] {
        (a[0] as u32) < (b[0] as u32)
    } else {
        chars_lt(a.skip(1), b.skip(1))
    }
}

/// `s` with `x` inserted after the last page whose path does not come after
/// `x`'s.
pub open spec fn insert_by_path(s: Seq<PageFile>, x: PageFile) -> Seq<PageFile>
    decreases s.len(),
{
    if s.len() == 0 {
        seq![x]
    } else if chars_lt(x.0, s.last().0) {
        insert_by_path(s.drop_last(), x).push(s.last())
    } else {
        s.push(x)
    }
}

/// The pages sorted by path, pages with equal paths keeping their order
/// (what the stable `sort_by` of `Vec` gives).
pub open spec fn sort_by_path(fs: Seq<PageFile>) -> Seq<PageFile>
    decreases fs.len(),
{
    if fs.len() == 0 {
        seq![]
    } else {
        insert_by_path(sort_by_path(fs.drop_last()), fs.last())
    }
}

proof fn lemma_insert_at(s: Seq<PageFile>, x: PageFile, p: int)
    requires
        0 <= p <= s.len(),
        forall|q: int| p <= q < s.len() ==> chars_lt(x.0, #[trigger] s[q].0),
        p > 0 ==> !chars_lt(x.0, s[p - 1].0),
    ensures
        insert_by_path(s, x) == s.insert(p, x),
    decreases s.len(),
{
    if s.len() == 0 {
        assert(s.insert(p, x) =~= seq![x]);
    } else if p == s.len() {
        assert(s.last() == s[p - 1]);
        assert(s.insert(p, x) =~= s.push(x));
    } else {
        let d = s.drop_last();
        assert(chars_lt(x.0, s[s.len() - 1].0));
        assert forall|q: int| p <= q < d.len() implies chars_lt(x.0, #[trigger] d[q].0) by {
            assert(d[q] == s[q]);
        }
        if p > 0 {
            assert(d[p - 1] == s[p - 1]);
        }
        lemma_insert_at(d, x, p);
        assert(d.insert(p, x).push(s.last()) =~= s.insert(p, x));
    }
}

/// Whether `a` comes before `b`.
pub(crate) fn chars_less(a: &Vec<char>, b: &Vec<char>) -> (r: bool)
    ensures
        r == chars_lt(a@, b@),
{
    let mut i: usize = 0;
    assert(a@.skip(0) =~= a@);
    assert(b@.skip(0) =~= b@);
    while i < a.len() && i < b.len() && a[i] == b[i]
        invariant
            i <= a@.len(),
            i <= b@.len(),
            chars_lt(a@, b@) == chars_lt(a@.skip(i as int), b@.skip(i as int)),
        decreases a.len() - i,
    {
        assert(a@.skip(i as int).skip(1) =~= a@.skip(i + 1));
        assert(b@.skip(i as int).skip(1) =~= b@.skip(i + 1));
        assert(a@.skip(i as int)[0] == a@[i as int]);
        assert(b@.skip(i as int)[0] == b@[i as int]);
        i = i + 1;
    }
    if i == a.len() {
        i < b.len()
    } else if i == b.len() {
        false
    } else {
        assert(a@.skip(i as int)[0] == a@[i as int]);
        assert(b@.skip(i as int)[0] == b@[i as int]);
        (a[i] as u32) < (b[i] as u32)
    }
}

/// The order in which `sort_by_path` puts the pages whose paths are `ps`.
fn sorted_order(ps: &Vec<Vec<char>>, Ghost(fs): Ghost<Seq<PageFile>>) -> (order: Vec<usize>)
    requires
        fs.len() == ps@.len(),
        forall|i: int| 0 <= i < fs.len() ==> (#[trigger] fs[i]).0 == ps@[i]@,
    ensures
        order@.len() == fs.len(),
        forall|i: int| 0 <= i < order@.len() ==> #[trigger] order@[i] < fs.len(),
        order@.map_values(|i: usize| fs[i as int]) == sort_by_path(fs),
{
    let mut order: Vec<usize> = Vec::new();
    let mut k: usize = 0;
    while k < ps.len()
        invariant
            k <= ps@.len() == fs.len(),
            forall|i: int| 0 <= i < fs.len() ==> (#[trigger] fs[i]).0 == ps@[i]@,
            order@.len() == k,
            forall|i: int| 0 <= i < order@.len() ==> #[trigger] order@[i] < k,
            order@.map_values(|i: usize| fs[i as int]) == sort_by_path(fs.take(k as int)),
        decreases ps.len() - k,
    {
        let ghost s = order@.map_values(|i: usize| fs[i as int]);
        let mut p = order.len();
        while p > 0 && chars_less(&ps[k], &ps[order[p - 1]])
            invariant
                p <= order@.len() == k < ps@.len() == fs.len(),
                forall|i: int| 0 <= i < order@.len() ==> #[trigger] order@[i] < k,
                forall|i: int| 0 <= i < fs.len() ==> (#[trigger] fs[i]).0 == ps@[i]@,
                s == order@.map_values(|i: usize| fs[i as int]),
                forall|q: int| p <= q < s.len() ==> chars_lt(fs[k as int].0, #[trigger] s[q].0),
            decreases p,
        {
            p = p - 1;
        }
        proof {
            if p > 0 {
                assert(s[p - 1] == fs[order@[p - 1] as int]);
            }
            lemma_insert_at(s, fs[k as int], p as int);
            assert(fs.take(k + 1).drop_last() =~= fs.take(k as int));
            assert(fs.take(k + 1).last() == fs[k as int]);
        }
        order.insert(p, k);
        assert(order@.map_values(|i: usize| fs[i as int]) =~= s.insert(p as int, fs[k as int]));
        k = k + 1;
    }
    assert(fs.take(ps@.len() as int) =~= fs);
    order
}

/// `Path::file_stem` of a file name: the name without its last `.` and what
/// follows, unless that `.` is its first character or it has none.
pub open spec fn name_stem(name: Seq<char>) -> Seq<char> {
    match last_index_of(name, '.') {
        Some(i) => if i == 0 {
            name
        } else {
            name.take(i)
        },
        None => name,
    }
}

/// The stem of a path's file name, or the path itself when it has no file
/// name.
pub open spec fn path_stem(p: Seq<char>) -> Seq<char> {
    match path_file_name(p) {
        Some(nm) => name_stem(nm),
        None => p,
    }
}

/// A path without its `.md` suffix, if it has one.
pub open spec fn without_md(p: Seq<char>) -> Seq<char> {
    if p.len() >= 3 && p.skip(p.len() - 3) == seq!['.', 'm', 'd'] {
        p.take(p.len() - 3)
    } else {
        p
    }
}

/// The first page, from index `i` on, whose path, with or without its
/// `.md` suffix, is `k`.
pub open spec fn path_lookup_from(ps: Seq<Seq<char>>, k: Seq<char>, i: int) -> Option<int>
    decreases ps.len() - i,
{
    if i < 0 || i >= ps.len() {
        None
    } else if ps[i] == k || without_md(ps[i]) == k {
        Some(i)
    } else {
        path_lookup_from(ps, k, i + 1)
    }
}

/// The first page, from index `i` on, whose lower-cased stem is `k`.
pub open spec fn stem_lookup_from(ps: Seq<Seq<char>>, k: Seq<char>, i: int) -> Option<int>
    decreases ps.len() - i,
{
    if i < 0 || i >= ps.len() {
        None
    } else if lowercase(path_stem(ps[i])) == k {
        Some(i)
    } else {
        stem_lookup_from(ps, k, i + 1)
    }
}

/// The page a link names: by path, by path with `.md` added, or by
/// lower-cased stem.
pub open spec fn resolve_link(ps: Seq<Seq<char>>, link: Seq<char>) -> Option<int> {
    match path_lookup_from(ps, link, 0) {
        Some(t) => Some(t),
        None => match path_lookup_from(ps, link + ".md"@, 0) {
            Some(t) => Some(t),
            None => stem_lookup_from(ps, lowercase(link), 0),
        },
    }
}

/// The node from which the links of page `i` start.
pub open spec fn link_source(ps: Seq<Seq<char>>, i: int) -> Option<int> {
    match path_lookup_from(ps, ps[i], 0) {
        Some(s) => Some(s),
        None => stem_lookup_from(ps, lowercase(path_stem(ps[i])), 0),
    }
}

/// `acc` with the edge from `s` to `t`, unless there is no `t`, it is `s`,
/// or the edge is there already.
pub open spec fn add_link_edge(acc: Seq<(int, int)>, s: int, t: Option<int>) -> Seq<(int, int)> {
    match t {
        Some(t) => if t != s && !acc.contains((s, t)) {
            acc.push((s, t))
        } else {
            acc
        },
        None => acc,
    }
}

/// `acc` with the edges of the links of one page, in order.
pub open spec fn add_link_edges(
    ps: Seq<Seq<char>>,
    s: int,
    links: Seq<Seq<char>>,
    acc: Seq<(int, int)>,
) -> Seq<(int, int)>
    decreases links.len(),
{
    if links.len() == 0 {
        acc
    } else {
        add_link_edge(add_link_edges(ps, s, links.drop_last(), acc), s, resolve_link(ps, links.last()))
    }
}

/// The paths of the pages.
pub open spec fn page_paths(fs: Seq<PageFile>) -> Seq<Seq<char>> {
    fs.map_values(|f: PageFile| f.0)
}

/// The edges given by the links of the first `i` pages.
pub open spec fn link_edges(fs: Seq<PageFile>, i: int) -> Seq<(int, int)>
    decreases i,
{
    if i <= 0 {
        seq![]
    } else {
        let acc = link_edges(fs, i - 1);
        match link_source(page_paths(fs), i - 1) {
            Some(s) => add_link_edges(page_paths(fs), s, wikilinks(fs[i - 1].1), acc),
            None => acc,
        }
    }
}

/// The lower-cased stem of a path.
fn lower_stem(p: &Vec<char>) -> (r: Vec<char>)
    ensures
        r@ == lowercase(path_stem(p@)),
{
    let stem: Vec<char> = match file_name_bounds(p) {
        Some((a, b)) => {
            let mut nm: Vec<char> = Vec::new();
            let mut i = a;
            while i < b
                invariant
                    a <= i <= b <= p@.len(),
                    nm@ == p@.subrange(a as int, i as int),
                decreases b - i,
            {
                nm.push(p[i]);
                i = i + 1;
            }
            let ghost name = nm@;
            proof {
                lemma_last_index_of(name, '.');
            }
            match last_index(&nm, nm.len(), '.') {
                Some(d) => {
                    assert(nm@.take(nm@.len() as int) =~= name);
                    if d == 0 {
                        nm
                    } else {
                        let mut st: Vec<char> = Vec::new();
                        let mut j: usize = 0;
                        while j < d
                            invariant
                                j <= d < nm@.len(),
                                st@ == nm@.take(j as int),
                            decreases d - j,
                        {
                            st.push(nm[j]);
                            j = j + 1;
                        }
                        st
                    }
                },
                None => {
                    assert(nm@.take(nm@.len() as int) =~= name);
                    nm
                },
            }
        },
        None => p.clone(),
    };
    let st = string_of(&stem);
    let low = to_lowercase(st.as_str());
    chars_of(low.as_str())
}

/// A path without its `.md` suffix, if it has one.
fn strip_md(p: &Vec<char>) -> (r: Vec<char>)
    ensures
        r@ == without_md(p@),
{
    let n = p.len();
    if n >= 3 && p[n - 3] == '.' && p[n - 2] == 'm' && p[n - 1] == 'd' {
        assert(p@.skip(n - 3) =~= seq!['.', 'm', 'd']);
        let mut r: Vec<char> = Vec::new();
        let mut i: usize = 0;
        while i < n - 3
            invariant
                n == p@.len(),
                n >= 3,
                i <= n - 3,
                r@ == p@.take(i as int),
            decreases n - 3 - i,
        {
            r.push(p[i]);
            i = i + 1;
        }
        r
    } else {
        proof {
            if n >= 3 && p@.skip(n - 3) == seq!['.', 'm', 'd'] {
                assert(p@.skip(n - 3)[0] == p@[n - 3]);
                assert(p@.skip(n - 3)[1] == p@[n - 2]);
                assert(p@.skip(n - 3)[2] == p@[n - 1]);
            }
        }
        p.clone()
    }
}

/// The first page whose path, with or without `.md`, is `k`.
fn path_lookup(ps: &Vec<Vec<char>>, wx: &Vec<Vec<char>>, k: &Vec<char>, Ghost(pv): Ghost<Seq<Seq<char>>>) -> (r: Option<usize>)
    requires
        ps@.len() == wx@.len() == pv.len(),
        forall|i: int| 0 <= i < pv.len() ==> #[trigger] pv[i] == ps@[i]@,
        forall|i: int| 0 <= i < pv.len() ==> #[trigger] wx@[i]@ == without_md(pv[i]),
    ensures
        match r {
            Some(i) => path_lookup_from(pv, k@, 0) == Some(i as int),
            None => path_lookup_from(pv, k@, 0) is None,
        },
{
    let mut j: usize = 0;
    while j < ps.len()
        invariant
            j <= ps@.len() == wx@.len() == pv.len(),
            forall|q: int| 0 <= q < pv.len() ==> #[trigger] pv[q] == ps@[q]@,
            forall|q: int| 0 <= q < pv.len() ==> #[trigger] wx@[q]@ == without_md(pv[q]),
            path_lookup_from(pv, k@, j as int) == path_lookup_from(pv, k@, 0),
        decreases ps.len() - j,
    {
        if seq_eq(&ps[j], k) || seq_eq(&wx[j], k) {
            return Some(j);
        }
        j = j + 1;
    }
    None
}

/// The first page whose lower-cased stem is `k`.
fn stem_lookup(st: &Vec<Vec<char>>, k: &Vec<char>, Ghost(pv): Ghost<Seq<Seq<char>>>) -> (r: Option<usize>)
    requires
        st@.len() == pv.len(),
        forall|i: int| 0 <= i < pv.len() ==> #[trigger] st@[i]@ == lowercase(path_stem(pv[i])),
    ensures
        match r {
            Some(i) => stem_lookup_from(pv, k@, 0) == Some(i as int),
            None => stem_lookup_from(pv, k@, 0) is None,
        },
{
    let mut j: usize = 0;
    while j < st.len()
        invariant
            j <= st@.len() == pv.len(),
            forall|q: int| 0 <= q < pv.len() ==> #[trigger] st@[q]@ == lowercase(path_stem(pv[q])),
            stem_lookup_from(pv, k@, j as int) == stem_lookup_from(pv, k@, 0),
        decreases st.len() - j,
    {
        if seq_eq(&st[j], k) {
            return Some(j);
        }
        j = j + 1;
    }
    None
}

/// The page a link names (see `resolve_link`).
fn resolve(
    ps: &Vec<Vec<char>>,
    wx: &Vec<Vec<char>>,
    st: &Vec<Vec<char>>,
    link: &str,
    Ghost(pv): Ghost<Seq<Seq<char>>>,
) -> (r: Option<usize>)
    requires
        ps@.len() == wx@.len() == st@.len() == pv.len(),
        forall|i: int| 0 <= i < pv.len() ==> #[trigger] pv[i] == ps@[i]@,
        forall|i: int| 0 <= i < pv.len() ==> #[trigger] wx@[i]@ == without_md(pv[i]),
        forall|i: int| 0 <= i < pv.len() ==> #[trigger] st@[i]@ == lowercase(path_stem(pv[i])),
    ensures
        match r {
            Some(i) => resolve_link(pv, link@) == Some(i as int),
            None => resolve_link(pv, link@) is None,
        },
{
    let lc = chars_of(link);
    match path_lookup(ps, wx, &lc, Ghost(pv)) {
        Some(t) => Some(t),
        None => {
            let mut lm = lc.clone();
            lm.push('.');
            lm.push('m');
            lm.push('d');
            proof {
                reveal_strlit(".md");
                assert(lm@ =~= link@ + ".md"@);
            }
            match path_lookup(ps, wx, &lm, Ghost(pv)) {
                Some(t) => Some(t),
                None => {
                    let low = to_lowercase(link);
                    let lw = chars_of(low.as_str());
                    stem_lookup(st, &lw, Ghost(pv))
                },
            }
        },
    }
}

proof fn lemma_path_lookup_within(ps: Seq<Seq<char>>, k: Seq<char>, i: int)
    ensures
        path_lookup_from(ps, k, i) matches Some(t) ==> 0 <= t < ps.len(),
        stem_lookup_from(ps, k, i) matches Some(t) ==> 0 <= t < ps.len(),
    decreases ps.len() - i,
{
    if 0 <= i < ps.len() {
        lemma_path_lookup_within(ps, k, i + 1);
    }
}

proof fn lemma_resolve_within(ps: Seq<Seq<char>>, link: Seq<char>)
    ensures
        resolve_link(ps, link) matches Some(t) ==> 0 <= t < ps.len(),
{
    lemma_path_lookup_within(ps, link, 0);
    lemma_path_lookup_within(ps, link + ".md"@, 0);
    lemma_path_lookup_within(ps, lowercase(link), 0);
}

/// The number of wikilinks of the pages.
pub open spec fn total_links(fs: Seq<PageFile>) -> int
    decreases fs.len(),
{
    if fs.len() == 0 {
        0
    } else {
        total_links(fs.drop_last()) + wikilinks(fs.last().1).len()
    }
}

proof fn lemma_total_links_take(fs: Seq<PageFile>, i: int)
    requires
        0 <= i <= fs.len(),
    ensures
        0 <= total_links(fs.take(i)) <= total_links(fs),
        i < fs.len() ==> total_links(fs.take(i + 1)) == total_links(fs.take(i)) + wikilinks(fs[i].1).len(),
    decreases fs.len(),
{
    if fs.len() > 0 {
        let d = fs.drop_last();
        if i < fs.len() {
            assert(fs.take(i) =~= d.take(i));
            lemma_total_links_take(d, i);
            if i + 1 < fs.len() {
                assert(fs.take(i + 1) =~= d.take(i + 1));
                assert(d[i] == fs[i]);
            } else {
                assert(fs.take(i + 1) =~= fs);
                assert(d.take(i) =~= d);
            }
        } else {
            assert(fs.take(i) =~= fs);
            lemma_total_links_take(d, d.len() as int);
            assert(d.take(d.len() as int) =~= d);
        }
    } else {
        assert(fs.take(i) =~= fs);
    }
}

proof fn lemma_add_link_edges_len(ps: Seq<Seq<char>>, s: int, links: Seq<Seq<char>>, acc: Seq<(int, int)>)
    ensures
        add_link_edges(ps, s, links, acc).len() <= acc.len() + links.len(),
    decreases links.len(),
{
    if links.len() > 0 {
        lemma_add_link_edges_len(ps, s, links.drop_last(), acc);
    }
}

proof fn lemma_link_edges_len(fs: Seq<PageFile>, i: int)
    requires
        0 <= i <= fs.len(),
    ensures
        link_edges(fs, i).len() <= total_links(fs.take(i)),
    decreases i,
{
    if i > 0 {
        lemma_link_edges_len(fs, i - 1);
        lemma_total_links_take(fs, i - 1);
        match link_source(page_paths(fs), i - 1) {
            Some(s) => {
                lemma_add_link_edges_len(page_paths(fs), s, wikilinks(fs[i - 1].1), link_edges(fs, i - 1));
            },
            None => {},
        }
    }
}

/// The view of a list of pages.
pub open spec fn page_files(v: Seq<(String, String)>) -> Seq<PageFile> {
    v.map_values(|f: (String, String)| (f.0@, f.1@))
}

impl TopologyEngine {
    /// The wikilink graph of Markdown pages given as (relative path, text)
    /// pairs: one node per page, weighted by its path, in path order; then,
    /// page by page and link by link, an edge from the page to the page that
    /// each link names (see `resolve_link`), unless it is the page itself
    /// or the edge exists already.
    pub fn wikilink_graph(files: &Vec<(String, String)>) -> (graph: DiGraph<String, ()>)
        requires
            files@.len() < u32::MAX,
            total_links(sort_by_path(page_files(files@))) < u32::MAX,
        ensures
            graph_nodes(graph) == page_paths(sort_by_path(page_files(files@))),
            graph_edges(graph) == link_edges(sort_by_path(page_files(files@)), files@.len() as int),
    {
        let ghost fs = page_files(files@);
        let n = files.len();
        let mut ps0: Vec<Vec<char>> = Vec::new();
        let mut i: usize = 0;
        while i < n
            invariant
                i <= n == files@.len() == fs.len(),
                fs == page_files(files@),
                ps0@.len() == i,
                forall|j: int| 0 <= j < i ==> (#[trigger] fs[j]).0 == ps0@[j]@,
            decreases n - i,
        {
            ps0.push(chars_of(files[i].0.as_str()));
            i = i + 1;
        }
        let order = sorted_order(&ps0, Ghost(fs));
        let ghost sorted = sort_by_path(fs);
        let ghost pv = page_paths(sorted);
        let mut graph = new_graph();
        let mut sp: Vec<Vec<char>> = Vec::new();
        let mut wx: Vec<Vec<char>> = Vec::new();
        let mut st: Vec<Vec<char>> = Vec::new();
        let mut k: usize = 0;
        while k < n
            invariant
                k <= n == files@.len() == fs.len() == order@.len() == ps0@.len(),
                n < u32::MAX,
                fs == page_files(files@),
                forall|j: int| 0 <= j < n ==> (#[trigger] fs[j]).0 == ps0@[j]@,
                forall|j: int| 0 <= j < n ==> #[trigger] order@[j] < n,
                order@.map_values(|x: usize| fs[x as int]) == sorted,
                pv == page_paths(sorted),
                sp@.len() == k,
                wx@.len() == k,
                st@.len() == k,
                forall|j: int| 0 <= j < k ==> #[trigger] sp@[j]@ == pv[j],
                forall|j: int| 0 <= j < k ==> #[trigger] wx@[j]@ == without_md(pv[j]),
                forall|j: int| 0 <= j < k ==> #[trigger] st@[j]@ == lowercase(path_stem(pv[j])),
                graph_nodes(graph) == pv.take(k as int),
                graph_edges(graph) == Seq::<(int, int)>::empty(),
            decreases n - k,
        {
            let o = order[k];
            assert(sorted[k as int] == fs[o as int]);
            assert(pv[k as int] == sorted[k as int].0);
            let p = ps0[o].clone();
            wx.push(strip_md(&p));
            st.push(lower_stem(&p));
            sp.push(p);
            let w = files[o].0.clone();
            add_node(&mut graph, w);
            assert(pv.take(k + 1) =~= pv.take(k as int).push(pv[k as int]));
            k = k + 1;
        }
        assert(pv.take(n as int) =~= pv);
        let mut i: usize = 0;
        while i < n
            invariant
                i <= n == files@.len() == fs.len() == order@.len() == sp@.len() == wx@.len() == st@.len(),
                n < u32::MAX,
                fs == page_files(files@),
                forall|j: int| 0 <= j < n ==> #[trigger] order@[j] < n,
                order@.map_values(|x: usize| fs[x as int]) == sorted,
                sorted == sort_by_path(fs),
                pv == page_paths(sorted),
                pv.len() == n,
                forall|j: int| 0 <= j < n ==> #[trigger] pv[j] == sp@[j]@,
                forall|j: int| 0 <= j < n ==> #[trigger] wx@[j]@ == without_md(pv[j]),
                forall|j: int| 0 <= j < n ==> #[trigger] st@[j]@ == lowercase(path_stem(pv[j])),
                total_links(sorted) < u32::MAX,
                sorted.len() == n,
                graph_nodes(graph) == pv,
                graph_edges(graph) == link_edges(sorted, i as int),
            decreases n - i,
        {
            let src = match path_lookup(&sp, &wx, &sp[i], Ghost(pv)) {
                Some(s) => Some(s),
                None => stem_lookup(&st, &st[i], Ghost(pv)),
            };
            let ghost acc0 = link_edges(sorted, i as int);
            assert(pv[i as int] == sp@[i as int]@);
            match src {
                Some(s) => {
                    assert(link_source(pv, i as int) == Some(s as int));
                    proof {
                        lemma_path_lookup_within(pv, pv[i as int], 0);
                        lemma_path_lookup_within(pv, st@[i as int]@, 0);
                    }
                    let o = order[i];
                    assert(sorted[i as int] == fs[o as int]);
                    let links = Self::extract_wikilinks(files[o].1.as_str());
                    let ghost wl = wikilinks(sorted[i as int].1);
                    assert(links@.len() == wl.len());
                    proof {
                        lemma_link_edges_len(sorted, i as int);
                        lemma_total_links_take(sorted, i as int);
                        lemma_total_links_take(sorted, i + 1);
                    }
                    let mut j: usize = 0;
                    while j < links.len()
                        invariant
                            j <= links@.len() == wl.len(),
                            forall|q: int| 0 <= q < links@.len() ==> #[trigger] links@[q]@ == wl[q],
                            s < n,
                            n == sp@.len() == wx@.len() == st@.len() == pv.len(),
                            forall|q: int| 0 <= q < n ==> #[trigger] pv[q] == sp@[q]@,
                            forall|q: int| 0 <= q < n ==> #[trigger] wx@[q]@ == without_md(pv[q]),
                            forall|q: int| 0 <= q < n ==> #[trigger] st@[q]@ == lowercase(path_stem(pv[q])),
                            graph_nodes(graph) == pv,
                            graph_edges(graph) == add_link_edges(pv, s as int, wl.take(j as int), acc0),
                            acc0.len() + wl.len() < u32::MAX,
                        decreases links.len() - j,
                    {
                        let t = resolve(&sp, &wx, &st, links[j].as_str(), Ghost(pv));
                        assert(wl.take(j + 1).drop_last() =~= wl.take(j as int));
                        assert(wl.take(j + 1).last() == wl[j as int]);
                        proof {
                            lemma_add_link_edges_len(pv, s as int, wl.take(j as int), acc0);
                        }
                        match t {
                            Some(t) => {
                                assert(t < n) by {
                                    assert(resolve_link(pv, wl[j as int]) == Some(t as int));
                                    lemma_resolve_within(pv, wl[j as int]);
                                }
                                if t != s && !contains_edge(&graph, s, t) {
                                    add_edge(&mut graph, s, t);
                                }
                            },
                            None => {},
                        }
                        j = j + 1;
                    }
                    assert(wl.take(wl.len() as int) =~= wl);
                },
                None => {
                    assert(link_source(pv, i as int) is None);
                },
            }
            i = i + 1;
        }
        graph
    }

    /// Assigns the nodes of a graph to layers (see `layer_values`): layer
    /// `l` holds, in ascending order, the nodes whose layer is `l`; there
    /// are as many layers as the greatest layer plus one.
    pub fn topological_layers(graph: &DiGraph<String, ()>) -> (layers: Vec<Vec<NodeIndex<u32>>>)
        ensures
            ({
                let n = graph_nodes(*graph).len();
                let vals = layer_values(graph_edges(*graph), n);
                &&& layers@.len() == if n == 0 {
                    0
                } else {
                    top_layer(vals) + 1
                }
                &&& forall|l: int|
                    0 <= l < layers@.len() ==> (#[trigger] layers@[l])@.map_values(
                        |x: NodeIndex<u32>| node_position(x) as int,
                    ) == layer_members(vals, l, n as int)
            }),
    {
        let n = node_count(graph);
        let ghost es = graph_edges(*graph);
        if n == 0 {
            return Vec::new();
        }
        let preds = all_predecessors(graph, n);
        proof {
            assert forall|v: int, i: int| 0 <= v < n && 0 <= i < preds@[v]@.len() implies #[trigger] preds@[v]@[i] < n by {
                lemma_in_sources_within(es, v, n as nat);
                assert(preds@[v]@.map_values(|p: usize| p as int)[i] == in_sources(es, v)[i]);
            }
        }
        // Rounds: settle nodes until nothing changes.
        let mut sett: Vec<bool> = Vec::new();
        let mut dep: Vec<u64> = Vec::new();
        let mut v: usize = 0;
        while v < n
            invariant
                v <= n,
                sett@.len() == v,
                dep@.len() == v,
                forall|w: int| 0 <= w < v ==> #[trigger] sett@[w] == settled(es, w, 0),
                forall|w: int| 0 <= w < v ==> #[trigger] dep@[w] == depth(es, w, 0),
            decreases n - v,
        {
            sett.push(false);
            dep.push(0);
            v = v + 1;
        }
        let mut k: usize = 0;
        let mut done = false;
        while !done
            invariant
                0 < n <= u32::MAX,
                n == graph_nodes(*graph).len(),
                es == graph_edges(*graph),
                edges_within(es, n as nat),
                k <= n,
                preds@.len() == n,
                sett@.len() == n,
                dep@.len() == n,
                forall|w: int|
                    0 <= w < n ==> (#[trigger] preds@[w])@.map_values(|p: usize| p as int)
                        == in_sources(es, w),
                forall|w: int, i: int| 0 <= w < n && 0 <= i < preds@[w]@.len() ==> #[trigger] preds@[w]@[i] < n,
                forall|w: int| 0 <= w < n ==> #[trigger] sett@[w] == settled(es, w, k as nat),
                forall|w: int| 0 <= w < n ==> #[trigger] dep@[w] == depth(es, w, k as nat),
                !done ==> k < n,
                done ==> k == n || (k > 0 && forall|w: int| #![trigger settled(es, w, (k - 1) as nat)]
                    0 <= w < n ==> settled(es, w, k as nat) == settled(es, w, (k - 1) as nat)),
            decreases n - k,
        {
            let (ns, nd) = next_round(&preds, &sett, &dep, Ghost(es), Ghost(k as nat));
            let changed = flags_differ(&ns, &sett);
            let ghost prev = sett@;
            sett = ns;
            dep = nd;
            k = k + 1;
            if !changed || k == n {
                done = true;
            }
            proof {
                if !changed {
                    assert forall|w: int| #![trigger settled(es, w, (k - 1) as nat)] 0 <= w < n implies settled(
                        es,
                        w,
                        k as nat,
                    ) == settled(es, w, (k - 1) as nat) by {
                        assert(sett@[w] == prev[w]);
                    }
                }
            }
        }
        proof {
            if k < n {
                lemma_stable_from(es, (k - 1) as nat, n as nat, n as nat);
            }
            assert forall|w: int| 0 <= w < n implies #[trigger] sett@[w] == settled(es, w, n as nat)
                && (sett@[w] ==> depth(es, w, n as nat) == dep@[w]) by {
                if k < n {
                    assert(settled(es, w, n as nat) == settled(es, w, (k - 1) as nat));
                }
                if sett@[w] {
                    lemma_depth_from(es, w, k as nat, n as nat);
                }
            }
        }
        let cur = base_layers(&preds, &sett, &dep, Ghost(es), Ghost(n as nat));
        let vals = fill_layers(&preds, cur, Ghost(es), Ghost(n as nat));
        group_layers(&vals, Ghost(layer_values(es, n as nat)))
    }
}

} // verus!
