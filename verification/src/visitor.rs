use vstd::prelude::*;

verus! {

/// Outcome of visiting a node: continue into its neighbors, stop the whole
/// traversal, or skip this node's neighbors and go on elsewhere.
#[derive(Debug, Clone, Copy, PartialEq, Eq, Structural)]
pub enum VisitResult {
    Continue,
    Stop,
    Skip,
}

/// Capability set that every traversal algorithm consumes: a per-node
/// callback, neighbor resolution, and optional edge and backtrack callbacks.
pub trait Visitor {
    /// Called when a node is visited.
    fn visit_node(&mut self, node_id: &str) -> VisitResult;

    /// The neighbors of a node, in visiting order.
    fn get_neighbors(&self, node_id: &str) -> Vec<String>;

    /// Called when an edge is entered; continues by default.
    fn visit_edge(&mut self, from: &str, to: &str, edge_type: Option<&str>) -> VisitResult {
        let _ = from;
        let _ = to;
        let _ = edge_type;
        VisitResult::Continue
    }

    /// Called when backtracking from a node; does nothing by default.
    fn leave_node(&mut self, node_id: &str) {
        let _ = node_id;
    }
}

/// A visitor that records every node and edge it is shown.
#[derive(Debug)]
pub struct CollectingVisitor {
    pub visited_nodes: Vec<String>,
    pub visited_edges: Vec<(String, String)>,
}

impl CollectingVisitor {
    /// Create a visitor with empty records.
    pub fn new() -> (r: CollectingVisitor)
        ensures
            r.visited_nodes@.len() == 0,
            r.visited_edges@.len() == 0,
    {
        CollectingVisitor { visited_nodes: Vec::new(), visited_edges: Vec::new() }
    }

    /// How many nodes have been recorded.
    pub fn visited_count(&self) -> (r: usize)
        ensures
            r == self.visited_nodes@.len(),
    {
        self.visited_nodes.len()
    }

    /// Forget every recorded node and edge.
    pub fn clear(&mut self)
        ensures
            final(self).visited_nodes@.len() == 0,
            final(self).visited_edges@.len() == 0,
    {
        self.visited_nodes.clear();
        self.visited_edges.clear();
    }
}

impl Visitor for CollectingVisitor {
    /// Record the node and continue.
    fn visit_node(&mut self, node_id: &str) -> (r: VisitResult)
        ensures
            final(self).visited_nodes@.len() == old(self).visited_nodes@.len() + 1,
            final(self).visited_nodes@.drop_last() == old(self).visited_nodes@,
            final(self).visited_nodes@.last()@ == node_id@,
            final(self).visited_edges == old(self).visited_edges,
            r == VisitResult::Continue,
    {
        self.visited_nodes.push(node_id.to_owned());
        VisitResult::Continue
    }

    /// This visitor resolves no neighbors of its own.
    fn get_neighbors(&self, node_id: &str) -> (r: Vec<String>)
        ensures
            r@.len() == 0,
    {
        let _ = node_id;
        Vec::new()
    }
}

/// A node predicate that may be called on any node id.
struct GuardedPredicate<F> where F: Fn(&str) -> bool {
    f: F,
}

impl<F> GuardedPredicate<F> where F: Fn(&str) -> bool {
    /// The predicate accepts being called on any node id.
    #[verifier::type_invariant]
    spec fn callable(self) -> bool {
        forall|s: &str| #[trigger] call_requires(self.f, (s,))
    }
}

/// A visitor that applies an inner visitor only to nodes matching a
/// predicate; every other node is skipped.
pub struct FilteringVisitor<F, V> where F: Fn(&str) -> bool, V: Visitor {
    predicate: GuardedPredicate<F>,
    inner_visitor: V,
}

impl<F, V> FilteringVisitor<F, V> where F: Fn(&str) -> bool, V: Visitor {
    /// The predicate.
    pub closed spec fn predicate_spec(self) -> F {
        self.predicate.f
    }

    /// The wrapped inner visitor.
    pub closed spec fn inner_spec(self) -> V {
        self.inner_visitor
    }

    /// Wrap an inner visitor behind a predicate, which must accept being
    /// called on any node id.
    pub fn new(predicate: F, inner_visitor: V) -> (r: FilteringVisitor<F, V>)
        requires
            forall|s: &str| #[trigger] call_requires(predicate, (s,)),
        ensures
            r.predicate_spec() == predicate,
            r.inner_spec() == inner_visitor,
    {
        FilteringVisitor { predicate: GuardedPredicate { f: predicate }, inner_visitor }
    }
}

impl<F, V> Visitor for FilteringVisitor<F, V> where F: Fn(&str) -> bool, V: Visitor {
    /// A node every answer of the predicate rejects is skipped, with the
    /// inner visitor untouched; an accepted node is handed to it.
    fn visit_node(&mut self, node_id: &str) -> (r: VisitResult)
        ensures
            final(self).predicate_spec() == old(self).predicate_spec(),
            (forall|s: &str, b: bool|
                s@ == node_id@ && #[trigger] call_ensures(
                    old(self).predicate_spec(),
                    (s,),
                    b,
                ) ==> !b) ==> (r == VisitResult::Skip && final(self).inner_spec() == old(self).inner_spec()),
    {
        proof {
            use_type_invariant(&self.predicate);
        }
        let accepted = (self.predicate.f)(node_id);
        proof {
            assert(call_ensures(old(self).predicate_spec(), (node_id,), accepted));
        }
        if accepted {
            self.inner_visitor.visit_node(node_id)
        } else {
            VisitResult::Skip
        }
    }

    fn get_neighbors(&self, node_id: &str) -> Vec<String> {
        self.inner_visitor.get_neighbors(node_id)
    }

    fn visit_edge(&mut self, from: &str, to: &str, edge_type: Option<&str>) -> VisitResult {
        self.inner_visitor.visit_edge(from, to, edge_type)
    }

    fn leave_node(&mut self, node_id: &str) {
        self.inner_visitor.leave_node(node_id)
    }
}

/// A visitor that skips nodes once the nesting of visits exceeds a bound,
/// delegating everything else to an inner visitor.
pub struct DepthLimitingVisitor<V> where V: Visitor {
    inner_visitor: V,
    max_depth: usize,
    current_depth: usize,
}

impl<V> DepthLimitingVisitor<V> where V: Visitor {
    /// The wrapped inner visitor.
    pub closed spec fn inner_spec(self) -> V {
        self.inner_visitor
    }

    /// The depth bound.
    pub closed spec fn limit_spec(self) -> usize {
        self.max_depth
    }

    /// The current nesting of visits.
    pub closed spec fn depth_spec(self) -> usize {
        self.current_depth
    }

    /// Wrap an inner visitor behind a depth bound.
    pub fn new(inner_visitor: V, max_depth: usize) -> (r: DepthLimitingVisitor<V>)
        ensures
            r.inner_spec() == inner_visitor,
            r.limit_spec() == max_depth,
            r.depth_spec() == 0,
    {
        DepthLimitingVisitor { inner_visitor, max_depth, current_depth: 0 }
    }
}

impl<V> Visitor for DepthLimitingVisitor<V> where V: Visitor {
    /// Beyond the bound the node is skipped without consulting the inner
    /// visitor; otherwise the inner visitor decides, one level deeper, and
    /// the depth is restored afterwards.
    fn visit_node(&mut self, node_id: &str) -> (r: VisitResult)
        ensures
            final(self).limit_spec() == old(self).limit_spec(),
            final(self).depth_spec() == old(self).depth_spec(),
            old(self).depth_spec() > old(self).limit_spec() ==> (r == VisitResult::Skip && *final(self) == *old(self)),
    {
        if self.current_depth > self.max_depth {
            return VisitResult::Skip;
        }
        let next_depth = match self.current_depth.checked_add(1) {
            Some(d) => d,
            None => {
                return VisitResult::Skip;
            },
        };
        self.current_depth = next_depth;
        let result = self.inner_visitor.visit_node(node_id);
        self.current_depth = self.current_depth - 1;
        result
    }

    fn get_neighbors(&self, node_id: &str) -> Vec<String> {
        self.inner_visitor.get_neighbors(node_id)
    }

    fn visit_edge(&mut self, from: &str, to: &str, edge_type: Option<&str>) -> VisitResult {
        self.inner_visitor.visit_edge(from, to, edge_type)
    }

    fn leave_node(&mut self, node_id: &str) {
        self.inner_visitor.leave_node(node_id)
    }
}

} // verus!
