use caduceus::metadata::Metadata;
use caduceus::graph::{CodePropertyGraph, GraphEdge, GraphEdgeType, GraphNode, GraphNodeType};

fn make_node(id: &str, label: &str) -> GraphNode {
    GraphNode {
        id: id.to_string(),
        label: label.to_string(),
        node_type: GraphNodeType::Function,
        file: "src/lib.rs".to_string(),
        line: 1,
        metadata: Metadata::new(),
    }
}

fn make_edge(src: &str, tgt: &str, t: GraphEdgeType) -> GraphEdge {
    GraphEdge {
        source: src.to_string(),
        target: tgt.to_string(),
        edge_type: t,
        weight: "1.0".to_string(),
    }
}

#[test]
fn cpg_add_nodes_and_edges() {
    let mut g = CodePropertyGraph::new();
    g.add_node(make_node("a", "A"));
    g.add_node(make_node("b", "B"));
    g.add_edge(make_edge("a", "b", GraphEdgeType::Calls));
    assert_eq!(g.nodes.len(), 2);
    assert_eq!(g.edges.len(), 1);
}

#[test]
fn cpg_neighbors() {
    let mut g = CodePropertyGraph::new();
    g.add_node(make_node("a", "A"));
    g.add_node(make_node("b", "B"));
    g.add_node(make_node("c", "C"));
    g.add_edge(make_edge("a", "b", GraphEdgeType::Calls));
    g.add_edge(make_edge("a", "c", GraphEdgeType::Imports));
    let nb = g.neighbors("a");
    assert_eq!(nb.len(), 2);
    assert!(nb.iter().any(|n| n.id == "b"));
    assert!(nb.iter().any(|n| n.id == "c"));
}

#[test]
fn cpg_affected_by_traversal() {
    let mut g = CodePropertyGraph::new();
    // a -> b -> c  (chain)
    g.add_node(make_node("a", "A"));
    g.add_node(make_node("b", "B"));
    g.add_node(make_node("c", "C"));
    g.add_edge(make_edge("a", "b", GraphEdgeType::Calls));
    g.add_edge(make_edge("b", "c", GraphEdgeType::Calls));
    let affected = g.affected_by("a");
    assert_eq!(affected.len(), 2);
    assert!(affected.iter().any(|n| n.id == "b"));
    assert!(affected.iter().any(|n| n.id == "c"));
    // Starting node itself is excluded
    assert!(!affected.iter().any(|n| n.id == "a"));
}

#[test]
fn cpg_subgraph() {
    let mut g = CodePropertyGraph::new();
    g.add_node(make_node("a", "A"));
    g.add_node(make_node("b", "B"));
    g.add_node(make_node("c", "C"));
    g.add_edge(make_edge("a", "b", GraphEdgeType::Calls));
    g.add_edge(make_edge("b", "c", GraphEdgeType::Calls));
    let sub = g.subgraph(&["a", "b"]);
    assert_eq!(sub.nodes.len(), 2);
    assert_eq!(sub.edges.len(), 1); // a->b, not b->c
}

#[test]
fn cpg_cytoscape_json_structure() {
    let mut g = CodePropertyGraph::new();
    g.add_node(make_node("a", "A"));
    g.add_edge(make_edge("a", "b", GraphEdgeType::Returns));
    let json = g.to_cytoscape_json();
    let elems = json.get("elements").unwrap().as_array().unwrap();
    assert_eq!(elems.len(), 2);
    assert_eq!(elems[0].get_str("group"), Some("nodes"));
    assert_eq!(elems[1].get_str("group"), Some("edges"));
}

#[test]
fn cpg_stats_components() {
    let mut g = CodePropertyGraph::new();
    g.add_node(make_node("a", "A"));
    g.add_node(make_node("b", "B"));
    // Two isolated nodes = 2 components
    let s = g.stats();
    assert_eq!(s.node_count, 2);
    assert_eq!(s.edge_count, 0);
    assert_eq!(s.components, 2);

    g.add_edge(make_edge("a", "b", GraphEdgeType::Calls));
    let s2 = g.stats();
    assert_eq!(s2.components, 1);
}

#[test]
fn reach_follows_edges_and_cycles() {
    let mut g = CodePropertyGraph::new();
    for id in ["a", "b", "c", "d"] {
        g.add_node(make_node(id, id));
    }
    g.add_edge(make_edge("a", "x", GraphEdgeType::Calls));
    g.add_edge(make_edge("x", "b", GraphEdgeType::Calls));
    g.add_edge(make_edge("b", "a", GraphEdgeType::Calls));
    g.add_edge(make_edge("d", "a", GraphEdgeType::References));
    let ids: Vec<&str> = g.affected_by("a").iter().map(|n| n.id.as_str()).collect();
    assert_eq!(ids, vec!["b"]);
    let from_d: Vec<&str> = g.affected_by("d").iter().map(|n| n.id.as_str()).collect();
    assert_eq!(from_d, vec!["a", "b"]);
    assert!(g.neighbors("c").is_empty());
}

#[test]
fn components_do_not_mind_the_direction() {
    let mut g = CodePropertyGraph::new();
    assert_eq!(g.stats().components, 0);
    for id in ["a", "b", "c", "d", "e"] {
        g.add_node(make_node(id, id));
    }
    g.add_edge(make_edge("b", "a", GraphEdgeType::Calls));
    g.add_edge(make_edge("c", "d", GraphEdgeType::Calls));
    g.add_edge(make_edge("d", "a", GraphEdgeType::Calls));
    g.add_edge(make_edge("e", "missing", GraphEdgeType::Calls));
    assert_eq!(g.stats().components, 2);
    assert_eq!(g.stats().edge_count, 4);
}

#[test]
fn pictures_hold_nodes_and_edges() {
    let mut g = CodePropertyGraph::new();
    g.add_node(make_node("a", "A"));
    g.add_edge(make_edge("a", "b", GraphEdgeType::Returns));
    let json = g.to_cytoscape_json();
    let elems = json.get("elements").unwrap().as_array().unwrap();
    let node = elems[0].get("data").unwrap();
    assert_eq!(node.get_str("label"), Some("A"));
    assert_eq!(node.get_str("type"), Some("Function"));
    assert_eq!(node.get("line").unwrap().as_u64(), Some(1));
    let edge = elems[1].get("data").unwrap();
    assert_eq!(edge.get_str("target"), Some("b"));
    assert_eq!(edge.get_str("type"), Some("Returns"));
}

#[test]
fn keys_have_one_value() {
    let mut m = Metadata::default();
    m.insert("a", "1");
    m.insert("b", "2");
    m.insert("a", "3");
    assert_eq!(m.len(), 2);
    assert_eq!(m.get("a"), Some("3"));
    assert_eq!(m.get("b"), Some("2"));
    assert_eq!(m.get("c"), None);
    assert_eq!(m.clone().get("a"), Some("3"));
}
