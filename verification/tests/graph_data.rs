use llmwiki::graph::{EdgeRow, GraphNode, GraphService};

fn row(id: &str, relation: &str, confidence: &str, evidence: &str, status: &str) -> EdgeRow {
    EdgeRow {
        id: id.to_string(),
        source: "a".to_string(),
        target: "b".to_string(),
        relation: relation.to_string(),
        confidence: confidence.to_string(),
        evidence_source_id: evidence.to_string(),
        evidence_location: "p.1".to_string(),
        status: status.to_string(),
    }
}

fn node(label: &str, in_degree: i32, out_degree: i32) -> GraphNode {
    GraphNode {
        id: label.to_string(),
        node_type: "concept".to_string(),
        label: label.to_string(),
        path: String::new(),
        aliases: vec![],
        tags: vec![],
        summary: String::new(),
        source_count: 0,
        in_degree,
        out_degree,
        status: "active".to_string(),
        created_at: String::new(),
    }
}

#[test]
fn edges_are_typed_by_relation_and_counted() {
    let rows = vec![
        row("e1", "supports", "low", "src-1", "active"),
        row("e2", "contradicts", "high", "", "pending_review"),
        row("e3", "contradicts", "low", "", "active"),
    ];
    let (edges, counts) = GraphService::assemble_edges(&rows);
    assert_eq!(edges.len(), 3);
    assert_eq!(edges[0].edge_type, "supports");
    assert_eq!(edges[0].relation, "supports");
    assert_eq!(edges[0].citation_status, "cited");
    assert_eq!(edges[1].citation_status, "uncited");
    assert_eq!(edges[2].created_by_task, "");
    assert_eq!(edges[2].evidence_location, "p.1");
    assert_eq!(counts.low_confidence, 2);
    assert_eq!(counts.conflicts, 2);
    assert_eq!(counts.needs_review, 1);
    assert_eq!(counts.uncited, 2);
}

#[test]
fn no_relationships_give_zero_counts() {
    let (edges, counts) = GraphService::assemble_edges(&vec![]);
    assert!(edges.is_empty());
    assert_eq!((counts.low_confidence, counts.conflicts, counts.needs_review, counts.uncited), (0, 0, 0, 0));
}

#[test]
fn hub_is_the_last_node_of_greatest_degree() {
    let nodes = vec![node("A", 2, 1), node("B", 0, 3), node("C", 1, 0)];
    assert_eq!(GraphService::max_hub(&nodes), ("B".to_string(), 3));
    let nodes = vec![node("A", 5, 0), node("B", 1, 1)];
    assert_eq!(GraphService::max_hub(&nodes), ("A".to_string(), 5));
    assert_eq!(GraphService::max_hub(&vec![]), (String::new(), 0));
}

#[test]
fn node_types_of_pages() {
    assert_eq!(GraphService::page_node_type("entity"), "entity");
    assert_eq!(GraphService::page_node_type("dataset"), "wikipage");
    assert_eq!(GraphService::page_node_type("overview"), "wikipage");
    assert_eq!(GraphService::synced_node_type("dataset"), "dataset");
    assert_eq!(GraphService::synced_node_type("method"), "method");
    assert_eq!(GraphService::synced_node_type("comparison"), "wikipage");
}
