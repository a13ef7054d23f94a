use neodb::{Edge, Graph, Node, NeoDbError, PropertyValue, VERSION};

#[test]
fn test_version() {
    assert!(!VERSION.is_empty());
}

#[test]
fn graph_test_node_creation() {
    let mut node = Node::new();
    assert!(!node.id.is_empty());

    node.add_label("Person".to_string());
    assert!(node.has_label("Person"));

    node.set_property(
        "name".to_string(),
        PropertyValue::Str("John".to_string()),
    );
    let got = node.get_property("name").unwrap();
    assert!(got.eq_value(&PropertyValue::Str("John".to_string())));
}

#[test]
fn test_graph_operations() {
    let mut graph = Graph::new();

    let node1 = Node::with_id("1".to_string());
    let node2 = Node::with_id("2".to_string());

    graph.add_node(node1).unwrap();
    graph.add_node(node2).unwrap();

    let edge = Edge::new("1".to_string(), "2".to_string(), "KNOWS".to_string());
    graph.add_edge(edge).unwrap();

    assert_eq!(graph.node_count(), 2);
    assert_eq!(graph.edge_count(), 1);

    let neighbors = graph.get_neighbors("1");
    assert_eq!(neighbors.len(), 1);
    assert_eq!(neighbors[0].id, "2");
}

#[test]
fn graph_duplicate_node_is_refused() {
    let mut graph = Graph::new();
    graph.add_node(Node::with_id("a".to_string())).unwrap();
    let err = graph.add_node(Node::with_id("a".to_string())).unwrap_err();
    assert!(matches!(err, NeoDbError::NodeAlreadyExists { id } if id == "a"));
}

#[test]
fn graph_edge_needs_both_endpoints() {
    let mut graph = Graph::new();
    graph.add_node(Node::with_id("a".to_string())).unwrap();
    let err = graph
        .add_edge(Edge::new("missing".to_string(), "a".to_string(), "R".to_string()))
        .unwrap_err();
    assert!(matches!(err, NeoDbError::NodeNotFound { id } if id == "missing"));
    let err = graph
        .add_edge(Edge::new("a".to_string(), "missing".to_string(), "R".to_string()))
        .unwrap_err();
    assert!(matches!(err, NeoDbError::NodeNotFound { id } if id == "missing"));
}

#[test]
fn graph_duplicate_edge_is_refused() {
    let mut graph = Graph::new();
    graph.add_node(Node::with_id("a".to_string())).unwrap();
    graph.add_node(Node::with_id("b".to_string())).unwrap();
    let e1 = Edge::with_id("e".to_string(), "a".to_string(), "b".to_string(), "R".to_string());
    let e2 = Edge::with_id("e".to_string(), "b".to_string(), "a".to_string(), "R".to_string());
    graph.add_edge(e1).unwrap();
    let err = graph.add_edge(e2).unwrap_err();
    assert!(matches!(err, NeoDbError::EdgeAlreadyExists { id } if id == "e"));
}

#[test]
fn graph_remove_node_cascades() {
    let mut graph = Graph::new();
    graph.add_node(Node::with_id("a".to_string())).unwrap();
    graph.add_node(Node::with_id("b".to_string())).unwrap();
    graph.add_node(Node::with_id("c".to_string())).unwrap();
    graph
        .add_edge(Edge::with_id("e1".to_string(), "a".to_string(), "b".to_string(), "R".to_string()))
        .unwrap();
    graph
        .add_edge(Edge::with_id("e2".to_string(), "b".to_string(), "c".to_string(), "R".to_string()))
        .unwrap();
    graph
        .add_edge(Edge::with_id("e3".to_string(), "a".to_string(), "c".to_string(), "R".to_string()))
        .unwrap();

    let removed = graph.remove_node("b").unwrap();
    assert_eq!(removed.id, "b");
    // every edge that touched b is gone; the rest stays with both endpoints
    assert_eq!(graph.node_count(), 2);
    assert_eq!(graph.edge_count(), 1);
    assert!(graph.get_edge("e1").is_none());
    assert!(graph.get_edge("e2").is_none());
    let survivor = graph.get_edge("e3").unwrap();
    assert!(graph.get_node(&survivor.source_id).is_some());
    assert!(graph.get_node(&survivor.target_id).is_some());
    // no dangling adjacency: the surviving node's edge lists resolve
    for e in graph.get_outgoing_edges("a") {
        assert!(graph.get_edge(&e.id).is_some());
    }
    for e in graph.get_incoming_edges("c") {
        assert!(graph.get_edge(&e.id).is_some());
    }

    let err = graph.remove_node("b").unwrap_err();
    assert!(matches!(err, NeoDbError::NodeNotFound { id } if id == "b"));
}

#[test]
fn graph_remove_edge_updates_adjacency() {
    let mut graph = Graph::new();
    graph.add_node(Node::with_id("a".to_string())).unwrap();
    graph.add_node(Node::with_id("b".to_string())).unwrap();
    graph
        .add_edge(Edge::with_id("e".to_string(), "a".to_string(), "b".to_string(), "R".to_string()))
        .unwrap();
    let edge = graph.remove_edge("e").unwrap();
    assert_eq!(edge.id, "e");
    assert_eq!(graph.get_outgoing_edges("a").len(), 0);
    assert_eq!(graph.get_incoming_edges("b").len(), 0);
    let err = graph.remove_edge("e").unwrap_err();
    assert!(matches!(err, NeoDbError::EdgeNotFound { id } if id == "e"));
}

#[test]
fn graph_clear_empties_everything() {
    let mut graph = Graph::new();
    graph.add_node(Node::with_id("a".to_string())).unwrap();
    graph.add_node(Node::with_id("b".to_string())).unwrap();
    graph
        .add_edge(Edge::new("a".to_string(), "b".to_string(), "R".to_string()))
        .unwrap();
    graph.clear();
    assert_eq!(graph.node_count(), 0);
    assert_eq!(graph.edge_count(), 0);
    graph.clear();
    assert_eq!(graph.node_count(), 0);
    assert_eq!(graph.edge_count(), 0);
}

#[test]
fn graph_find_by_label_and_property() {
    let mut graph = Graph::new();
    let mut n1 = Node::with_id("1".to_string());
    n1.add_label("Person".to_string());
    n1.set_property("age".to_string(), PropertyValue::Int(30));
    let mut n2 = Node::with_id("2".to_string());
    n2.add_label("Company".to_string());
    n2.set_property("age".to_string(), PropertyValue::Int(7));
    graph.add_node(n1).unwrap();
    graph.add_node(n2).unwrap();

    let people = graph.find_nodes_by_label("Person");
    assert_eq!(people.len(), 1);
    assert_eq!(people[0].id, "1");

    let thirty = graph.find_nodes_by_property("age", &PropertyValue::Int(30));
    assert_eq!(thirty.len(), 1);
    assert_eq!(thirty[0].id, "1");

    assert_eq!(graph.nodes().len(), 2);
    assert_eq!(graph.edges().len(), 0);
}

#[test]
fn node_labels_and_properties_round_trip() {
    let mut node = Node::with_id("n".to_string());
    node.add_label("A".to_string());
    node.add_label("A".to_string());
    assert!(node.has_label("A"));
    assert!(node.remove_label("A"));
    assert!(!node.remove_label("A"));
    assert!(!node.has_label("A"));

    node.set_property("k".to_string(), PropertyValue::Bool(true));
    node.set_property("k".to_string(), PropertyValue::Null);
    assert!(node.get_property("k").unwrap().eq_value(&PropertyValue::Null));
    let old = node.remove_property("k").unwrap();
    assert!(old.eq_value(&PropertyValue::Null));
    assert!(node.get_property("k").is_none());
}

#[test]
fn property_values_compare_structurally() {
    let a = PropertyValue::Array(vec![
        PropertyValue::Int(1),
        PropertyValue::Str("x".to_string()),
    ]);
    let b = PropertyValue::Array(vec![
        PropertyValue::Int(1),
        PropertyValue::Str("x".to_string()),
    ]);
    let c = PropertyValue::Array(vec![
        PropertyValue::Int(2),
        PropertyValue::Str("x".to_string()),
    ]);
    assert!(a.eq_value(&b));
    assert!(!a.eq_value(&c));
    let o1 = PropertyValue::Object(vec![("k".to_string(), PropertyValue::Bool(false))]);
    let o2 = PropertyValue::Object(vec![("k".to_string(), PropertyValue::Bool(false))]);
    assert!(o1.eq_value(&o2));
    assert!(!o1.eq_value(&PropertyValue::Null));
}

#[test]
fn graph_updates_stored_nodes_and_edges_in_place() {
    let mut graph = Graph::new();
    graph.add_node(Node::with_id("a".to_string())).unwrap();
    graph.add_node(Node::with_id("b".to_string())).unwrap();
    graph
        .add_edge(Edge::with_id("e".to_string(), "a".to_string(), "b".to_string(), "R".to_string()))
        .unwrap();

    graph.set_node_property("a".to_string().as_str(), "age".to_string(), PropertyValue::Int(30)).unwrap();
    let node = graph.get_node("a").unwrap();
    assert!(node.get_property("age").unwrap().eq_value(&PropertyValue::Int(30)));

    graph.add_node_label("a", "Person".to_string()).unwrap();
    assert!(graph.get_node("a").unwrap().has_label("Person"));
    assert!(graph.remove_node_label("a", "Person").unwrap());
    assert!(!graph.get_node("a").unwrap().has_label("Person"));

    let old = graph.remove_node_property("a", "age").unwrap().unwrap();
    assert!(old.eq_value(&PropertyValue::Int(30)));
    assert!(graph.get_node("a").unwrap().get_property("age").is_none());

    graph.set_edge_property("e", "since".to_string(), PropertyValue::Int(2020)).unwrap();
    let edge = graph.get_edge("e").unwrap();
    assert!(edge.get_property("since").unwrap().eq_value(&PropertyValue::Int(2020)));
    let old = graph.remove_edge_property("e", "since").unwrap().unwrap();
    assert!(old.eq_value(&PropertyValue::Int(2020)));

    let err = graph.set_node_property("missing", "k".to_string(), PropertyValue::Null).unwrap_err();
    assert!(matches!(err, NeoDbError::NodeNotFound { id } if id == "missing"));
    let err = graph.set_edge_property("missing", "k".to_string(), PropertyValue::Null).unwrap_err();
    assert!(matches!(err, NeoDbError::EdgeNotFound { id } if id == "missing"));
}
