use data_lineage_tracker::graph::build_graph;
use data_lineage_tracker::registry::Registry;
use data_lineage_tracker::DataLineageTracker;
use tree_sitter_graph::graph::Graph;
use tree_sitter_graph::Identifier;

fn attribute(graph: &Graph, node: usize, name: &str) -> Option<String> {
    let node_ref = graph.iter_nodes().nth(node).unwrap();
    graph[node_ref]
        .attributes
        .get(&Identifier::from(name))
        .map(|value| value.as_str().unwrap().to_string())
}

fn sinks(graph: &Graph, node: usize) -> Vec<usize> {
    let node_ref = graph.iter_nodes().nth(node).unwrap();
    graph[node_ref].iter_edges().map(|(sink, _)| sink.index()).collect()
}

#[test]
fn empty_registry_gives_the_root_alone() {
    let graph = build_graph(&Registry::new()).unwrap();
    assert_eq!(graph.node_count(), 1);
    assert_eq!(attribute(&graph, 0, "type"), Some("root".to_string()));
    assert_eq!(attribute(&graph, 0, "name"), None);
    assert!(sinks(&graph, 0).is_empty());
}

#[test]
fn graph_follows_the_declarations() {
    let mut tracker = DataLineageTracker::new();
    tracker
        .analyze_source("let a = 1;\nfunction f() { let b = a; }\n")
        .unwrap();
    let graph = tracker.to_graph().unwrap();
    // root, a, two references of a, b, one reference of b
    assert_eq!(graph.node_count(), 6);
    assert_eq!(sinks(&graph, 0), vec![1, 4]);
    assert_eq!(sinks(&graph, 1), vec![2, 3]);
    assert!(sinks(&graph, 2).is_empty());
    assert!(sinks(&graph, 3).is_empty());
    assert_eq!(sinks(&graph, 4), vec![5]);

    assert_eq!(attribute(&graph, 1, "type"), Some("declaration".to_string()));
    assert_eq!(attribute(&graph, 1, "name"), Some("a".to_string()));
    assert_eq!(attribute(&graph, 1, "scope"), Some("global".to_string()));
    assert_eq!(attribute(&graph, 1, "position"), Some("1,5".to_string()));

    assert_eq!(attribute(&graph, 3, "type"), Some("reference".to_string()));
    assert_eq!(attribute(&graph, 3, "name"), Some("a".to_string()));
    assert_eq!(attribute(&graph, 3, "scope"), Some("f".to_string()));
    assert_eq!(attribute(&graph, 3, "position"), Some("2,24".to_string()));

    assert_eq!(attribute(&graph, 4, "type"), Some("declaration".to_string()));
    assert_eq!(attribute(&graph, 4, "name"), Some("b".to_string()));
    assert_eq!(attribute(&graph, 4, "scope"), Some("f".to_string()));
    assert_eq!(attribute(&graph, 5, "type"), Some("reference".to_string()));
    assert_eq!(attribute(&graph, 5, "position"), Some("2,20".to_string()));

    let printed = graph.pretty_print().to_string();
    assert!(printed.starts_with("node 0\n  type: \"root\"\nedge 0 -> 1\n"));
}
