use llmwiki::graph::TopologyEngine;
use petgraph::graph::{DiGraph, NodeIndex};

#[test]
fn test_extract_wikilinks_single() {
    let content = "See [[Other Page]] for details.";
    let links = TopologyEngine::extract_wikilinks(content);
    assert_eq!(links, vec!["Other Page"]);
}

#[test]
fn test_extract_wikilinks_multiple() {
    let content = "[[Page A]] and [[Topic/Sub Page]] and [[Page C]]";
    let links = TopologyEngine::extract_wikilinks(content);
    assert_eq!(links.len(), 3);
    assert!(links.contains(&"Page A".to_string()));
    assert!(links.contains(&"Topic/Sub Page".to_string()));
    assert!(links.contains(&"Page C".to_string()));
}

#[test]
fn test_extract_wikilinks_none() {
    let content = "No wikilinks here, just plain text.";
    let links = TopologyEngine::extract_wikilinks(content);
    assert!(links.is_empty());
}

#[test]
fn test_extract_wikilinks_ignores_closed_before_newline() {
    let content = "[[valid link]]\nSome text\nNot a [[\nmultiline\n]] match";
    let links = TopologyEngine::extract_wikilinks(content);
    assert_eq!(links.len(), 1);
    assert_eq!(links[0], "valid link");
}

#[test]
fn wikilinks_keep_order_and_skip_empty_brackets() {
    let links = TopologyEngine::extract_wikilinks("[[]] [[b]] [[a]] [[c]x]]");
    assert_eq!(links, vec!["b", "a"]);
}

#[test]
fn wikilink_may_open_with_extra_bracket() {
    let links = TopologyEngine::extract_wikilinks("[[[x]] and [[中文页面]]");
    assert_eq!(links, vec!["[x", "中文页面"]);
}

fn pages(list: &[(&str, &str)]) -> Vec<(String, String)> {
    list.iter().map(|(p, c)| (p.to_string(), c.to_string())).collect()
}

#[test]
fn test_topological_layers_linear_chain() {
    let mut graph = DiGraph::new();
    let a = graph.add_node("a".to_string());
    let b = graph.add_node("b".to_string());
    let c = graph.add_node("c".to_string());
    graph.add_edge(a, b, ());
    graph.add_edge(b, c, ());

    let layers = TopologyEngine::topological_layers(&graph);
    assert_eq!(layers.len(), 3);
    assert_eq!(layers[0], vec![a]);
    assert_eq!(layers[1], vec![b]);
    assert_eq!(layers[2], vec![c]);
}

#[test]
fn test_topological_layers_fork() {
    let mut graph = DiGraph::new();
    let a = graph.add_node("a".to_string());
    let b = graph.add_node("b".to_string());
    let c = graph.add_node("c".to_string());
    graph.add_edge(a, b, ());
    graph.add_edge(a, c, ());

    let layers = TopologyEngine::topological_layers(&graph);
    assert_eq!(layers.len(), 2);
    assert_eq!(layers[0], vec![a]);
    assert_eq!(layers[1].len(), 2);
    assert!(layers[1].contains(&b));
    assert!(layers[1].contains(&c));
}

#[test]
fn test_topological_layers_handles_cycle() {
    let mut graph = DiGraph::new();
    let a = graph.add_node("a".to_string());
    let b = graph.add_node("b".to_string());
    let c = graph.add_node("c".to_string());
    graph.add_edge(a, b, ());
    graph.add_edge(b, c, ());
    graph.add_edge(c, a, ());

    let layers = TopologyEngine::topological_layers(&graph);
    assert!(!layers.is_empty());
    let total_nodes: usize = layers.iter().map(|l| l.len()).sum();
    assert_eq!(total_nodes, 3);
}

#[test]
fn layers_place_cycles_after_their_entry() {
    // s -> a, a -> b, b -> a: a gets its layer from s, b is placed after a.
    let mut graph = DiGraph::new();
    let s = graph.add_node("s".to_string());
    let a = graph.add_node("a".to_string());
    let b = graph.add_node("b".to_string());
    graph.add_edge(s, a, ());
    graph.add_edge(a, b, ());
    graph.add_edge(b, a, ());
    let layers = TopologyEngine::topological_layers(&graph);
    assert_eq!(layers, vec![vec![s], vec![a], vec![b]]);

    // A lone two-cycle leaves the first layer empty.
    let mut g2 = DiGraph::new();
    let x = g2.add_node("x".to_string());
    let y = g2.add_node("y".to_string());
    g2.add_edge(x, y, ());
    g2.add_edge(y, x, ());
    let layers = TopologyEngine::topological_layers(&g2);
    assert_eq!(layers, vec![vec![], vec![x], vec![y]]);

    let empty: DiGraph<String, ()> = DiGraph::new();
    assert!(TopologyEngine::topological_layers(&empty).is_empty());
}

#[test]
fn layers_use_the_longest_path() {
    // a -> b -> c and a -> c: c is two layers below a.
    let mut graph = DiGraph::new();
    let a = graph.add_node("a".to_string());
    let b = graph.add_node("b".to_string());
    let c = graph.add_node("c".to_string());
    graph.add_edge(a, c, ());
    graph.add_edge(a, b, ());
    graph.add_edge(b, c, ());
    let layers = TopologyEngine::topological_layers(&graph);
    assert_eq!(layers, vec![vec![a], vec![b], vec![c]]);
}

#[test]
fn wikilink_graph_linear_chain() {
    let files = pages(&[("c.md", ""), ("a.md", "[[b]]"), ("b.md", "[[c]]")]);
    let graph = TopologyEngine::wikilink_graph(&files);
    assert_eq!(graph.node_count(), 3);
    assert_eq!(graph.edge_count(), 2);
    let names: Vec<&String> = graph.node_weights().collect();
    assert_eq!(names, vec!["a.md", "b.md", "c.md"]);
    let edges: Vec<(usize, usize)> =
        graph.raw_edges().iter().map(|e| (e.source().index(), e.target().index())).collect();
    assert_eq!(edges, vec![(0, 1), (1, 2)]);
}

#[test]
fn wikilink_graph_no_self_loops() {
    let files = pages(&[("a.md", "[[a]]")]);
    let graph = TopologyEngine::wikilink_graph(&files);
    assert_eq!(graph.node_count(), 1);
    assert_eq!(graph.edge_count(), 0);
}

#[test]
fn wikilink_graph_resolves_paths_stems_and_duplicates() {
    let files = pages(&[
        ("wiki/Topic.md", "[[wiki/b]] [[topic]] [[wiki/b.md]] [[missing]] [[B]]"),
        ("wiki/b.md", "[[Topic]]\n[[wiki/Topic]]"),
    ]);
    let graph = TopologyEngine::wikilink_graph(&files);
    let names: Vec<&String> = graph.node_weights().collect();
    assert_eq!(names, vec!["wiki/Topic.md", "wiki/b.md"]);
    let edges: Vec<(usize, usize)> =
        graph.raw_edges().iter().map(|e| (e.source().index(), e.target().index())).collect();
    // Topic links to b (by path without .md, then again by path and by stem),
    // and to itself (by stem): one edge; b links back once.
    assert_eq!(edges, vec![(0, 1), (1, 0)]);
}

fn layer_ids(layers: &[Vec<NodeIndex>]) -> Vec<Vec<usize>> {
    layers.iter().map(|l| l.iter().map(|n| n.index()).collect()).collect()
}

fn idx(v: &[usize]) -> Vec<NodeIndex> {
    v.iter().map(|&i| NodeIndex::new(i)).collect()
}

#[test]
fn crossing_reduction_swaps_crossed_nodes() {
    let mut g = DiGraph::<String, ()>::new();
    let a = g.add_node("a".into());
    let b = g.add_node("b".into());
    let c = g.add_node("c".into());
    let d = g.add_node("d".into());
    let e = g.add_node("e".into());
    g.add_edge(a, d, ());
    g.add_edge(b, c, ());
    let layers = vec![idx(&[0, 1]), idx(&[2, 3, 4])];
    let out = TopologyEngine::minimize_crossings(&g, layers);
    assert_eq!(layer_ids(&out), vec![vec![0, 1], vec![3, 2, 4]]);
    let _ = e;
}

#[test]
fn crossing_reduction_orders_by_mean_position() {
    // x has predecessors at positions 0 and 2 (mean 1), y at position 1 only
    // (mean 1, equal: keeps order), z at 0 (mean 0).
    let mut g = DiGraph::<String, ()>::new();
    for name in ["p0", "p1", "p2", "x", "y", "z"] {
        g.add_node(name.to_string());
    }
    let n = |i: usize| NodeIndex::new(i);
    g.add_edge(n(0), n(3), ());
    g.add_edge(n(2), n(3), ());
    g.add_edge(n(1), n(4), ());
    g.add_edge(n(0), n(5), ());
    let out = TopologyEngine::minimize_crossings(&g, vec![idx(&[0, 1, 2]), idx(&[3, 4, 5])]);
    assert_eq!(out[1].iter().map(|n| n.index()).collect::<Vec<_>>(), vec![5, 3, 4]);
    assert_eq!(out[0].iter().map(|n| n.index()).collect::<Vec<_>>(), vec![0, 2, 1]);
}

#[test]
fn crossing_reduction_leaves_a_single_layer() {
    let mut g = DiGraph::<String, ()>::new();
    g.add_node("a".into());
    g.add_node("b".into());
    let out = TopologyEngine::minimize_crossings(&g, vec![idx(&[1, 0])]);
    assert_eq!(layer_ids(&out), vec![vec![1, 0]]);
}
