use vstd::prelude::*;

use crate::algorithms::id_vec_contains;
use crate::errors::TraversalError;
use crate::graph::{id_list_has, id_list_unique};
use crate::kv::str_eq;

verus! {

/// A path through the graph: the nodes in order, and its cost in unit hops.
#[derive(Debug, Clone)]
pub struct Path {
    pub nodes: Vec<String>,
    pub total_cost: u64,
}

impl Path {
    /// An empty path of cost zero.
    pub fn new() -> (r: Path)
        ensures
            r.nodes@.len() == 0,
            r.total_cost == 0,
    {
        Path { nodes: Vec::new(), total_cost: 0 }
    }

    /// A path over the given nodes, with cost zero.
    pub fn with_nodes(nodes: Vec<String>) -> (r: Path)
        ensures
            r.nodes == nodes,
            r.total_cost == 0,
    {
        Path { nodes, total_cost: 0 }
    }

    /// Number of nodes on the path.
    pub fn len(&self) -> (r: usize)
        ensures
            r == self.nodes@.len(),
    {
        self.nodes.len()
    }

    /// Whether the path has no nodes.
    pub fn is_empty(&self) -> (r: bool)
        ensures
            r == (self.nodes@.len() == 0),
    {
        self.nodes.is_empty()
    }

    /// Append a node, adding `cost` to the total; the cost saturates.
    pub fn add_node(&mut self, node: String, cost: u64)
        ensures
            final(self).nodes@ == old(self).nodes@.push(node),
            final(self).total_cost == if old(self).total_cost + cost <= u64::MAX {
                old(self).total_cost + cost
            } else {
                u64::MAX as int
            },
    {
        self.nodes.push(node);
        if cost <= u64::MAX - self.total_cost {
            self.total_cost = self.total_cost + cost;
        } else {
            self.total_cost = u64::MAX;
        }
    }
}

impl Default for Path {
    /// An empty path of cost zero.
    fn default() -> (r: Path)
        ensures
            r.nodes@.len() == 0,
            r.total_cost == 0,
    {
        Path::new()
    }
}

/// One step of a path is backed by a possible answer of the neighbor
/// function: some call on the step's first node can return a list holding
/// the second.
pub open spec fn linked_step<F: Fn(&str) -> Vec<String>>(f: F, a: Seq<char>, b: Seq<char>) -> bool {
    exists|s: &str, ns: Vec<String>|
        s@ == a && #[trigger] call_ensures(f, (s,), ns) && id_list_has(ns@, b)
}

/// A well-formed answer path: non-empty, simple (no node repeated), from
/// `start` to `end`, every consecutive pair backed by the neighbor function.
pub open spec fn path_ok<F: Fn(&str) -> Vec<String>>(
    f: F,
    p: Seq<String>,
    start: Seq<char>,
    end: Seq<char>,
) -> bool {
    &&& p.len() >= 1
    &&& p[0]@ == start
    &&& p[p.len() - 1]@ == end
    &&& id_list_unique(p)
    &&& forall|i: int| 0 <= i < p.len() - 1 ==> linked_step(f, (#[trigger] p[i])@, p[i + 1]@)
}

/// A partial path: like an answer path, but its last node is unconstrained.
pub open spec fn partial_path_ok<F: Fn(&str) -> Vec<String>>(
    f: F,
    p: Seq<String>,
    start: Seq<char>,
) -> bool {
    &&& p.len() >= 1
    &&& p[0]@ == start
    &&& id_list_unique(p)
    &&& forall|i: int| 0 <= i < p.len() - 1 ==> linked_step(f, (#[trigger] p[i])@, p[i + 1]@)
}

/// Unweighted path finding over a neighbor-resolution function, optionally
/// bounded in depth.
#[derive(Debug)]
pub struct PathFinder {
    max_depth: Option<usize>,
}

impl PathFinder {
    /// The configured depth bound.
    pub closed spec fn max_depth_spec(self) -> Option<usize> {
        self.max_depth
    }

    /// A finder without a depth bound.
    pub fn new() -> (r: PathFinder)
        ensures
            r.max_depth_spec() is None,
    {
        PathFinder { max_depth: None }
    }

    /// A finder that never explores nodes at depth `max_depth` or beyond;
    /// a path that exists only past the cutoff is reported as not found.
    pub fn with_max_depth(max_depth: usize) -> (r: PathFinder)
        ensures
            r.max_depth_spec() == Some(max_depth),
    {
        PathFinder { max_depth: Some(max_depth) }
    }

    /// Find a path with the fewest edges from `start` to `end` by
    /// breadth-first search; `start == end` short-circuits to a one-node
    /// path. A returned path costs one unit per edge and, under a depth
    /// bound, never reaches past it: a path that exists only beyond the
    /// cutoff is reported as not found. The call never fails; an
    /// unreachable `end` gives `None`.
    pub fn find_shortest_path<F: Fn(&str) -> Vec<String>>(
        &self,
        start: &str,
        end: &str,
        get_neighbors: F,
    ) -> (r: Result<Option<Path>, TraversalError>)
        requires
            forall|s: &str| #[trigger] call_requires(get_neighbors, (s,)),
        ensures
            r is Ok,
            start@ == end@ ==> (r matches Ok(Some(p)) && p.nodes@.len() == 1 && p.nodes@[0]@
                == start@ && p.total_cost == 0),
            r matches Ok(Some(p)) ==> path_ok(get_neighbors, p.nodes@, start@, end@)
                && p.total_cost == p.nodes@.len() - 1,
            start@ != end@ ==> (self.max_depth_spec() matches Some(m) ==> (r matches Ok(Some(p))
                ==> p.nodes@.len() <= m)),
    {
        if str_eq(start, end) {
            let mut nodes: Vec<String> = Vec::new();
            nodes.push(start.to_owned());
            return Ok(Some(Path::with_nodes(nodes)));
        }
        let mut queue: Vec<Vec<String>> = Vec::new();
        let mut visited: Vec<String> = Vec::new();
        let mut head: usize = 0;
        let mut first: Vec<String> = Vec::new();
        first.push(start.to_owned());
        queue.push(first);
        visited.push(start.to_owned());
        while head < queue.len()
            invariant
                forall|s: &str| #[trigger] call_requires(get_neighbors, (s,)),
                0 <= head <= queue@.len(),
                visited@.len() <= usize::MAX,
                forall|t: int|
                    0 <= t < queue@.len() ==> partial_path_ok(
                        get_neighbors,
                        (#[trigger] queue@[t])@,
                        start@,
                    ),
            decreases usize::MAX - visited@.len(), queue@.len() - head,
        {
            let depth = queue[head].len() - 1;
            match self.max_depth {
                Some(m) => {
                    if depth >= m {
                        head = head + 1;
                        continue ;
                    }
                },
                None => {},
            }
            let current = queue[head][queue[head].len() - 1].clone();
            if str_eq(current.as_str(), end) {
                let path_nodes = queue[head].clone();
                proof {
                    assert(path_nodes@ =~= queue@[head as int]@);
                }
                let hops = (path_nodes.len() - 1) as u64;
                return Ok(Some(Path { nodes: path_nodes, total_cost: hops }));
            }
            let neighbors = get_neighbors(current.as_str());
            let ghost vlen0 = visited@.len();
            let ghost qlen0 = queue@.len();
            let mut k: usize = 0;
            while k < neighbors.len()
                invariant
                    forall|s: &str| #[trigger] call_requires(get_neighbors, (s,)),
                    0 <= k <= neighbors@.len(),
                    head < queue@.len(),
                    visited@.len() <= usize::MAX,
                    visited@.len() - vlen0 == queue@.len() - qlen0,
                    visited@.len() >= vlen0,
                    exists|s: &str| s@ == current@ && #[trigger] call_ensures(get_neighbors, (s,), neighbors),
                    current@ == queue@[head as int]@.last()@,
                    forall|t: int|
                        0 <= t < queue@.len() ==> partial_path_ok(
                            get_neighbors,
                            (#[trigger] queue@[t])@,
                            start@,
                        ),
                decreases neighbors@.len() - k,
            {
                let already = id_vec_contains(&visited, neighbors[k].as_str());
                if !already && visited.len() < usize::MAX {
                    let mut extended = queue[head].clone();
                    proof {
                        assert(extended@ =~= queue@[head as int]@);
                    }
                    let in_path = id_vec_contains(&extended, neighbors[k].as_str());
                    if !in_path {
                        let ghost epre = extended@;
                        extended.push(neighbors[k].clone());
                        proof {
                            assert(extended@.last()@ == neighbors@[k as int]@);
                            assert forall|a: int, b: int|
                                0 <= a < b < extended@.len() implies extended@[a]@
                                != extended@[b]@ by {
                                if b == extended@.len() - 1 {
                                    assert(!id_list_has(epre, neighbors@[k as int]@));
                                    assert(epre[a]@ != neighbors@[k as int]@);
                                }
                            }
                            assert(linked_step(
                                get_neighbors,
                                epre[epre.len() - 1]@,
                                neighbors@[k as int]@,
                            )) by {
                                assert(id_list_has(neighbors@, neighbors@[k as int]@));
                            }
                            assert(partial_path_ok(get_neighbors, extended@, start@));
                        }
                        visited.push(neighbors[k].clone());
                        queue.push(extended);
                    }
                }
                k = k + 1;
            }
            head = head + 1;
        }
        Ok(None)
    }

    /// Enumerate every simple path from `start` to `end`, depth-first with
    /// backtracking, up to the depth bound. Each returned path costs one
    /// unit per edge; `start == end` yields exactly the one-node path. The
    /// call never fails; no path gives an empty list.
    pub fn find_all_paths<F: Fn(&str) -> Vec<String>>(
        &self,
        start: &str,
        end: &str,
        get_neighbors: F,
    ) -> (r: Result<Vec<Path>, TraversalError>)
        requires
            forall|s: &str| #[trigger] call_requires(get_neighbors, (s,)),
        ensures
            r is Ok,
            forall|t: int|
                0 <= t < r->Ok_0@.len() ==> {
                    let p = (#[trigger] r->Ok_0@[t]);
                    &&& path_ok(get_neighbors, p.nodes@, start@, end@)
                    &&& p.total_cost == p.nodes@.len() - 1
                    &&& self.max_depth_spec() matches Some(m) ==> p.nodes@.len() <= m + 1
                },
            start@ == end@ ==> (r matches Ok(paths) && paths@.len() == 1 && paths@[0].nodes@.len()
                == 1 && paths@[0].nodes@[0]@ == start@ && paths@[0].total_cost == 0),
    {
        let mut paths: Vec<Path> = Vec::new();
        let mut stack: Vec<Vec<String>> = Vec::new();
        let mut first: Vec<String> = Vec::new();
        first.push(start.to_owned());
        stack.push(first);
        let mut fuel: u64 = u64::MAX;
        let ghost mut done_first: bool = false;
        while fuel > 0
            invariant
                forall|s: &str| #[trigger] call_requires(get_neighbors, (s,)),
                forall|t: int|
                    0 <= t < stack@.len() ==> partial_path_ok(
                        get_neighbors,
                        (#[trigger] stack@[t])@,
                        start@,
                    ) && (self.max_depth_spec() matches Some(m) ==> (#[trigger] stack@[t])@.len()
                        <= m + 1),
                forall|t: int|
                    0 <= t < paths@.len() ==> {
                        let p = (#[trigger] paths@[t]);
                        &&& path_ok(get_neighbors, p.nodes@, start@, end@)
                        &&& p.total_cost == p.nodes@.len() - 1
                        &&& self.max_depth_spec() matches Some(m) ==> p.nodes@.len() <= m + 1
                    },
                start@ == end@ ==> ((!done_first && fuel == u64::MAX && paths@.len() == 0
                    && stack@.len() == 1 && stack@[0]@.len() == 1 && stack@[0]@[0]@ == start@) || (
                done_first && paths@.len() == 1 && stack@.len() == 0 && paths@[0].nodes@.len() == 1
                    && paths@[0].nodes@[0]@ == start@ && paths@[0].total_cost == 0)),
            decreases fuel,
        {
            let ghost stack_pre = stack@;
            fuel = fuel - 1;
            let path = match stack.pop() {
                Some(p) => p,
                None => {
                    proof {
                        if start@ == end@ {
                            assert(stack_pre.len() == 0);
                            assert(done_first);
                        }
                    }
                    return Ok(paths);
                },
            };
            proof {
                if start@ == end@ {
                    assert(!done_first);
                    assert(path@ == stack_pre[0]@);
                    assert(path@.len() == 1 && path@[0]@ == start@);
                }
            }
            let last = path[path.len() - 1].clone();
            if str_eq(last.as_str(), end) {
                let hops = (path.len() - 1) as u64;
                let ghost pview = path@;
                paths.push(Path { nodes: path, total_cost: hops });
                proof {
                    if start@ == end@ {
                        done_first = true;
                        assert(paths@[0].nodes@ == pview);
                    }
                }
                continue ;
            }
            proof {
                if start@ == end@ {
                    assert(last@ == start@);
                    assert(false);
                }
            }
            let expand = match self.max_depth {
                Some(m) => path.len() <= m,
                None => true,
            };
            if expand {
                let neighbors = get_neighbors(last.as_str());
                let mut k: usize = 0;
                while k < neighbors.len()
                    invariant
                        forall|s: &str| #[trigger] call_requires(get_neighbors, (s,)),
                        0 <= k <= neighbors@.len(),
                        exists|s: &str| s@ == last@ && #[trigger] call_ensures(get_neighbors, (s,), neighbors),
                        last@ == path@.last()@,
                        partial_path_ok(get_neighbors, path@, start@),
                        self.max_depth_spec() matches Some(m) ==> path@.len() <= m,
                        forall|t: int|
                            0 <= t < stack@.len() ==> partial_path_ok(
                                get_neighbors,
                                (#[trigger] stack@[t])@,
                                start@,
                            ) && (self.max_depth_spec() matches Some(m) ==> (
                            #[trigger] stack@[t])@.len() <= m + 1),
                    decreases neighbors@.len() - k,
                {
                    if !id_vec_contains(&path, neighbors[k].as_str()) {
                        let mut extended = path.clone();
                        proof {
                            assert(extended@ =~= path@);
                        }
                        let ghost epre = extended@;
                        extended.push(neighbors[k].clone());
                        proof {
                            assert(extended@.last()@ == neighbors@[k as int]@);
                            assert forall|a: int, b: int|
                                0 <= a < b < extended@.len() implies extended@[a]@
                                != extended@[b]@ by {
                                if b == extended@.len() - 1 {
                                    assert(!id_list_has(path@, neighbors@[k as int]@));
                                    assert(epre[a]@ != neighbors@[k as int]@);
                                }
                            }
                            assert(linked_step(
                                get_neighbors,
                                epre[epre.len() - 1]@,
                                neighbors@[k as int]@,
                            )) by {
                                assert(id_list_has(neighbors@, neighbors@[k as int]@));
                            }
                            assert(partial_path_ok(get_neighbors, extended@, start@));
                        }
                        stack.push(extended);
                    }
                    k = k + 1;
                }
            }
        }
        Ok(paths)
    }
}

impl Default for PathFinder {
    /// A finder without a depth bound.
    fn default() -> (r: PathFinder)
        ensures
            r.max_depth_spec() is None,
    {
        PathFinder::new()
    }
}

} // verus!
