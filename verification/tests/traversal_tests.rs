use neodb::{
    BreadthFirstSearch, CollectingVisitor, DepthFirstSearch, FilteringVisitor, PathFinder,
    TraversalError, VisitResult, Visitor,
};

struct TestGraph {
    edges: Vec<(String, Vec<String>)>,
    visited_nodes: Vec<String>,
}

impl TestGraph {
    fn new() -> Self {
        let edges = vec![
            ("A".to_string(), vec!["B".to_string(), "C".to_string()]),
            ("B".to_string(), vec!["D".to_string()]),
            ("C".to_string(), vec!["D".to_string()]),
            ("D".to_string(), vec![]),
        ];
        Self { edges, visited_nodes: Vec::new() }
    }
}

impl Visitor for TestGraph {
    fn visit_node(&mut self, node_id: &str) -> VisitResult {
        self.visited_nodes.push(node_id.to_string());
        VisitResult::Continue
    }

    fn get_neighbors(&self, node_id: &str) -> Vec<String> {
        for (k, v) in &self.edges {
            if k == node_id {
                return v.clone();
            }
        }
        Vec::new()
    }
}

fn diamond_neighbors(node: &str) -> Vec<String> {
    match node {
        "A" => vec!["B".to_string(), "C".to_string()],
        "B" => vec!["D".to_string()],
        "C" => vec!["D".to_string()],
        _ => Vec::new(),
    }
}

#[test]
fn test_dfs_traversal() {
    let mut dfs = DepthFirstSearch::new();
    let mut graph = TestGraph::new();

    dfs.traverse("A", &mut graph).unwrap();

    assert!(!graph.visited_nodes.is_empty());
    assert!(graph.visited_nodes.contains(&"A".to_string()));
}

#[test]
fn test_bfs_traversal() {
    let mut bfs = BreadthFirstSearch::new();
    let mut graph = TestGraph::new();

    bfs.traverse("A", &mut graph).unwrap();

    assert!(!graph.visited_nodes.is_empty());
    assert!(graph.visited_nodes.contains(&"A".to_string()));
}

#[test]
fn dfs_visits_diamond_once_each() {
    let mut dfs = DepthFirstSearch::new();
    let mut graph = TestGraph::new();
    dfs.traverse("A", &mut graph).unwrap();

    let mut seen = graph.visited_nodes.clone();
    seen.sort();
    assert_eq!(seen, vec!["A", "B", "C", "D"]);
}

#[test]
fn bfs_visits_diamond_once_each() {
    let mut bfs = BreadthFirstSearch::new();
    let mut graph = TestGraph::new();
    bfs.traverse("A", &mut graph).unwrap();

    let mut seen = graph.visited_nodes.clone();
    seen.sort();
    assert_eq!(seen, vec!["A", "B", "C", "D"]);
}

#[test]
fn dfs_depth_limit_is_fail_fast() {
    let mut dfs = DepthFirstSearch::with_max_depth(1);
    let mut graph = TestGraph::new();
    let err = dfs.traverse("A", &mut graph).unwrap_err();
    assert!(matches!(err, TraversalError::DepthLimitExceeded { limit: 1 }));
}

#[test]
fn bfs_depth_limit_is_silent() {
    let mut bfs = BreadthFirstSearch::with_max_depth(1);
    let mut graph = TestGraph::new();
    bfs.traverse("A", &mut graph).unwrap();
    let mut seen = graph.visited_nodes.clone();
    seen.sort();
    // D sits at depth 2 and is silently skipped, with no error
    assert_eq!(seen, vec!["A", "B", "C"]);
}

#[test]
fn test_shortest_path() {
    let path_finder = PathFinder::new();

    let path = path_finder
        .find_shortest_path("A", "D", diamond_neighbors)
        .unwrap()
        .unwrap();

    assert_eq!(path.nodes.len(), 3);
    assert_eq!(path.nodes[0], "A");
    assert_eq!(path.nodes[2], "D");
    assert_eq!(path.total_cost, 2);
}

#[test]
fn test_no_path() {
    let path_finder = PathFinder::new();

    let path = path_finder.find_shortest_path("D", "A", diamond_neighbors).unwrap();

    assert!(path.is_none());
}

#[test]
fn shortest_path_same_node_short_circuits() {
    let path_finder = PathFinder::new();
    let path = path_finder.find_shortest_path("A", "A", diamond_neighbors).unwrap().unwrap();
    assert_eq!(path.nodes, vec!["A".to_string()]);
    assert_eq!(path.total_cost, 0);
}

#[test]
fn all_paths_finds_both_diamond_routes() {
    let path_finder = PathFinder::new();
    let paths = path_finder.find_all_paths("A", "D", diamond_neighbors).unwrap();
    assert_eq!(paths.len(), 2);
    let mut routes: Vec<Vec<String>> = paths.iter().map(|p| p.nodes.clone()).collect();
    routes.sort();
    assert_eq!(
        routes,
        vec![
            vec!["A".to_string(), "B".to_string(), "D".to_string()],
            vec!["A".to_string(), "C".to_string(), "D".to_string()],
        ]
    );
    assert_ne!(routes[0], routes[1]);
    // cost is hop count: one unit per edge
    for p in &paths {
        assert_eq!(p.total_cost, p.nodes.len() as u64 - 1);
    }
}

#[test]
fn all_paths_respects_depth_bound() {
    let path_finder = PathFinder::with_max_depth(1);
    let paths = path_finder.find_all_paths("A", "D", diamond_neighbors).unwrap();
    assert_eq!(paths.len(), 0);
}

#[test]
fn all_paths_same_node_is_one_path() {
    let path_finder = PathFinder::new();
    let paths = path_finder.find_all_paths("A", "A", diamond_neighbors).unwrap();
    assert_eq!(paths.len(), 1);
    assert_eq!(paths[0].nodes, vec!["A".to_string()]);
    assert_eq!(paths[0].total_cost, 0);
}

#[test]
fn shortest_path_respects_depth_cutoff() {
    // the only A-to-D paths have two edges; a cutoff of 2 never explores
    // nodes at that depth, so the path is reported as not found
    let path_finder = PathFinder::with_max_depth(2);
    let path = path_finder.find_shortest_path("A", "D", diamond_neighbors).unwrap();
    assert!(path.is_none());
    let path = path_finder.find_shortest_path("A", "B", diamond_neighbors).unwrap().unwrap();
    assert_eq!(path.nodes.len(), 2);
    assert_eq!(path.total_cost, 1);
}

#[test]
fn test_collecting_visitor() {
    let mut visitor = CollectingVisitor::new();

    assert_eq!(visitor.visit_node("A"), VisitResult::Continue);
    assert_eq!(visitor.visit_node("B"), VisitResult::Continue);

    assert_eq!(visitor.visited_count(), 2);
    assert!(visitor.visited_nodes.contains(&"A".to_string()));
    assert!(visitor.visited_nodes.contains(&"B".to_string()));
}

#[test]
fn test_filtering_visitor() {
    let base_visitor = CollectingVisitor::new();
    let mut filtering_visitor =
        FilteringVisitor::new(|node: &str| node.starts_with('A'), base_visitor);

    assert_eq!(filtering_visitor.visit_node("A1"), VisitResult::Continue);
    assert_eq!(filtering_visitor.visit_node("B1"), VisitResult::Skip);
}

#[test]
fn collecting_visitor_clear_resets() {
    let mut visitor = CollectingVisitor::new();
    visitor.visit_node("A");
    visitor.clear();
    assert_eq!(visitor.visited_count(), 0);
}

#[test]
fn path_add_node_counts_cost() {
    let mut path = neodb::Path::new();
    assert!(path.is_empty());
    path.add_node("A".to_string(), 1);
    path.add_node("B".to_string(), 1);
    assert_eq!(path.len(), 2);
    assert_eq!(path.total_cost, 2);
    let fixed = neodb::Path::with_nodes(vec!["X".to_string()]);
    assert_eq!(fixed.total_cost, 0);
    assert!(!fixed.is_empty());
}

#[test]
fn depth_limiting_visitor_delegates_within_bound() {
    let base = CollectingVisitor::new();
    let mut limited = neodb::DepthLimitingVisitor::new(base, 3);
    assert_eq!(limited.visit_node("A"), VisitResult::Continue);
    assert_eq!(limited.visit_node("B"), VisitResult::Continue);
    assert_eq!(limited.get_neighbors("A").len(), 0);
}
