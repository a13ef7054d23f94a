use vstd::prelude::*;

use crate::errors::TraversalError;
use crate::graph::{id_list_has, id_list_unique};
use crate::kv::str_eq;
use crate::visitor::{VisitResult, Visitor};

verus! {

/// Whether some string of the list reads `id`.
pub(crate) fn id_vec_contains(v: &Vec<String>, id: &str) -> (r: bool)
    ensures
        r == id_list_has(v@, id@),
{
    let mut i: usize = 0;
    while i < v.len()
        invariant
            0 <= i <= v@.len(),
            forall|j: int| 0 <= j < i ==> v@[j]@ != id@,
        decreases v@.len() - i,
    {
        if str_eq(v[i].as_str(), id) {
            return true;
        }
        i = i + 1;
    }
    false
}

/// Depth-first traversal driven by a visitor. One visited set is shared by
/// the whole call, so each node is visited at most once. Exceeding the
/// optional depth bound aborts the whole traversal with an error.
#[derive(Debug)]
pub struct DepthFirstSearch {
    max_depth: Option<usize>,
    visited: Vec<String>,
}

impl DepthFirstSearch {
    /// The ids visited so far, in visiting order.
    pub closed spec fn visited_seq(self) -> Seq<String> {
        self.visited@
    }

    /// The configured depth bound.
    pub closed spec fn max_depth_spec(self) -> Option<usize> {
        self.max_depth
    }

    /// A search without a depth bound.
    pub fn new() -> (r: DepthFirstSearch)
        ensures
            r.max_depth_spec() is None,
            r.visited_seq().len() == 0,
    {
        DepthFirstSearch { max_depth: None, visited: Vec::new() }
    }

    /// A search that fails once a node deeper than `max_depth` is reached.
    pub fn with_max_depth(max_depth: usize) -> (r: DepthFirstSearch)
        ensures
            r.max_depth_spec() == Some(max_depth),
            r.visited_seq().len() == 0,
    {
        DepthFirstSearch { max_depth: Some(max_depth), visited: Vec::new() }
    }

    /// Walk the graph depth-first from `start_node`, driving the visitor.
    /// The visited set is reset, then holds each visited id exactly once,
    /// starting with `start_node`; neighbors are expanded in the order the
    /// visitor returns them. The only error is the depth bound.
    pub fn traverse<V: Visitor>(&mut self, start_node: &str, visitor: &mut V) -> (r: Result<
        (),
        TraversalError,
    >)
        ensures
            final(self).max_depth_spec() == old(self).max_depth_spec(),
            id_list_unique(final(self).visited_seq()),
            final(self).visited_seq().len() >= 1,
            final(self).visited_seq()[0]@ == start_node@,
            match r {
                Ok(()) => true,
                Err(e) => e matches TraversalError::DepthLimitExceeded { limit } && old(
                    self,
                ).max_depth_spec() == Some(limit),
            },
    {
        self.visited.clear();
        let mut stack: Vec<(String, usize)> = Vec::new();
        stack.push((start_node.to_owned(), 0));
        loop
            invariant
                self.max_depth_spec() == old(self).max_depth_spec(),
                id_list_unique(self.visited@),
                self.visited@.len() <= usize::MAX,
                self.visited@.len() == 0 ==> stack@.len() == 1 && stack@[0].1 == 0
                    && stack@[0].0@ == start_node@,
                self.visited@.len() > 0 ==> self.visited@[0]@ == start_node@,
            decreases usize::MAX - self.visited@.len(), stack@.len(),
        {
            let (node, depth) = match stack.pop() {
                Some(p) => p,
                None => {
                    return Ok(());
                },
            };
            match self.max_depth {
                Some(m) => {
                    if depth > m {
                        return Err(TraversalError::DepthLimitExceeded { limit: m });
                    }
                },
                None => {},
            }
            if id_vec_contains(&self.visited, node.as_str()) {
                continue ;
            }
            if self.visited.len() == usize::MAX {
                return Ok(());
            }
            let ghost vpre = self.visited@;
            self.visited.push(node.clone());
            proof {
                assert(self.visited@.last()@ == node@);
                assert forall|a: int, b: int| 0 <= a < b < self.visited@.len() implies
                    self.visited@[a]@ != self.visited@[b]@ by {
                    if b == self.visited@.len() - 1 {
                        assert(!id_list_has(vpre, node@));
                        assert(vpre[a]@ != node@);
                    }
                }
            }
            match visitor.visit_node(node.as_str()) {
                VisitResult::Continue => {
                    let mut neighbors = visitor.get_neighbors(node.as_str());
                    let next_depth = if depth < usize::MAX {
                        depth + 1
                    } else {
                        depth
                    };
                    loop
                        invariant
                            self.max_depth_spec() == old(self).max_depth_spec(),
                            id_list_unique(self.visited@),
                            self.visited@.len() <= usize::MAX,
                            self.visited@.len() > 0,
                            self.visited@[0]@ == start_node@,
                        decreases neighbors@.len(),
                    {
                        match neighbors.pop() {
                            Some(n) => {
                                stack.push((n, next_depth));
                            },
                            None => {
                                break ;
                            },
                        }
                    }
                },
                VisitResult::Stop => {
                    return Ok(());
                },
                VisitResult::Skip => {},
            }
        }
    }
}

impl Default for DepthFirstSearch {
    /// A search without a depth bound.
    fn default() -> (r: DepthFirstSearch)
        ensures
            r.max_depth_spec() is None,
            r.visited_seq().len() == 0,
    {
        DepthFirstSearch::new()
    }
}

/// Breadth-first traversal driven by a visitor, exploring by increasing
/// distance from the start. Nodes beyond the optional depth bound are
/// silently skipped, not expanded; no error is raised for them.
#[derive(Debug)]
pub struct BreadthFirstSearch {
    max_depth: Option<usize>,
}

impl BreadthFirstSearch {
    /// The configured depth bound.
    pub closed spec fn max_depth_spec(self) -> Option<usize> {
        self.max_depth
    }

    /// A search without a depth bound.
    pub fn new() -> (r: BreadthFirstSearch)
        ensures
            r.max_depth_spec() is None,
    {
        BreadthFirstSearch { max_depth: None }
    }

    /// A search that silently skips nodes deeper than `max_depth`.
    pub fn with_max_depth(max_depth: usize) -> (r: BreadthFirstSearch)
        ensures
            r.max_depth_spec() == Some(max_depth),
    {
        BreadthFirstSearch { max_depth: Some(max_depth) }
    }

    /// Walk the graph breadth-first from `start_node`, driving the visitor.
    /// A visited set prevents re-enqueueing, so each node is shown to the
    /// visitor at most once. This traversal never fails.
    pub fn traverse<V: Visitor>(&mut self, start_node: &str, visitor: &mut V) -> (r: Result<
        (),
        TraversalError,
    >)
        ensures
            *final(self) == *old(self),
            r is Ok,
    {
        let mut queue: Vec<(String, usize)> = Vec::new();
        let mut visited: Vec<String> = Vec::new();
        let mut head: usize = 0;
        queue.push((start_node.to_owned(), 0));
        visited.push(start_node.to_owned());
        while head < queue.len()
            invariant
                *self == *old(self),
                0 <= head <= queue@.len(),
                visited@.len() <= usize::MAX,
            decreases usize::MAX - visited@.len(), queue@.len() - head,
        {
            let node = queue[head].0.clone();
            let depth = queue[head].1;
            head = head + 1;
            match self.max_depth {
                Some(m) => {
                    if depth > m {
                        continue ;
                    }
                },
                None => {},
            }
            match visitor.visit_node(node.as_str()) {
                VisitResult::Continue => {
                    let neighbors = visitor.get_neighbors(node.as_str());
                    let next_depth = if depth < usize::MAX {
                        depth + 1
                    } else {
                        depth
                    };
                    let ghost vlen0 = visited@.len();
                    let ghost qlen0 = queue@.len();
                    let mut k: usize = 0;
                    while k < neighbors.len()
                        invariant
                            0 <= k <= neighbors@.len(),
                            head <= queue@.len(),
                            visited@.len() <= usize::MAX,
                            visited@.len() - vlen0 == queue@.len() - qlen0,
                            visited@.len() >= vlen0,
                        decreases neighbors@.len() - k,
                    {
                        if !id_vec_contains(&visited, neighbors[k].as_str()) && visited.len()
                            < usize::MAX {
                            visited.push(neighbors[k].clone());
                            queue.push((neighbors[k].clone(), next_depth));
                        }
                        k = k + 1;
                    }
                },
                VisitResult::Stop => {
                    break ;
                },
                VisitResult::Skip => {
                    continue ;
                },
            }
        }
        Ok(())
    }
}

impl Default for BreadthFirstSearch {
    /// A search without a depth bound.
    fn default() -> (r: BreadthFirstSearch)
        ensures
            r.max_depth_spec() is None,
    {
        BreadthFirstSearch::new()
    }
}

} // verus!
