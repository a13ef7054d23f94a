use vstd::prelude::*;

use crate::errors::NeoDbError;
use crate::external::new_uuid_string;
use crate::kv::{
    kv_contains, kv_find, kv_get, kv_map, kv_remove, kv_set, kv_unique, lemma_kv_map_dom,
    lemma_kv_map_index, lemma_kv_map_len, lemma_kv_map_push, lemma_kv_map_remove, str_eq,
};
use crate::value::{pv_eq, PropertyValue};

verus! {

/// A node of the graph: an immutable id, a set of labels and a property map.
#[derive(Debug)]
pub struct Node {
    pub id: String,
    pub labels: Vec<String>,
    pub properties: Vec<(String, PropertyValue)>,
}

/// No two strings of the list read the same.
pub open spec fn id_list_unique(l: Seq<String>) -> bool {
    forall|i: int, j: int| 0 <= i < j < l.len() ==> l[i]@ != l[j]@
}

/// Some string of the list reads `id`.
pub open spec fn id_list_has(l: Seq<String>, id: Seq<char>) -> bool {
    exists|i: int| 0 <= i < l.len() && l[i]@ == id
}

impl Node {
    /// Labels are pairwise distinct and property keys are unique.
    pub open spec fn wf(self) -> bool {
        &&& id_list_unique(self.labels@)
        &&& kv_unique(self.properties@)
    }

    /// The node's property map.
    pub open spec fn props(self) -> Map<Seq<char>, PropertyValue> {
        kv_map(self.properties@)
    }

    /// Whether the node carries the label.
    pub open spec fn has_label_spec(self, label: Seq<char>) -> bool {
        id_list_has(self.labels@, label)
    }

    /// Create a node with a freshly generated unique id.
    pub fn new() -> (r: Node)
        ensures
            r.wf(),
            r.id@.len() == 36,
            r.labels@.len() == 0,
            r.properties@.len() == 0,
            r.props() =~= Map::<Seq<char>, PropertyValue>::empty(),
    {
        Node { id: new_uuid_string(), labels: Vec::new(), properties: Vec::new() }
    }

    /// Create a node with the given id.
    pub fn with_id(id: String) -> (r: Node)
        ensures
            r.wf(),
            r.id == id,
            r.labels@.len() == 0,
            r.properties@.len() == 0,
            r.props() =~= Map::<Seq<char>, PropertyValue>::empty(),
    {
        Node { id, labels: Vec::new(), properties: Vec::new() }
    }

    /// Add a label; a label already present is not duplicated.
    pub fn add_label(&mut self, label: String)
        requires
            old(self).wf(),
        ensures
            final(self).wf(),
            final(self).id == old(self).id,
            final(self).properties == old(self).properties,
            forall|l: Seq<char>|
                final(self).has_label_spec(l) <==> old(self).has_label_spec(l) || l == label@,
    {
        let mut i: usize = 0;
        while i < self.labels.len()
            invariant
                *self == *old(self),
                old(self).wf(),
                0 <= i <= self.labels@.len(),
                forall|j: int| 0 <= j < i ==> self.labels@[j]@ != label@,
            decreases self.labels@.len() - i,
        {
            if str_eq(self.labels[i].as_str(), label.as_str()) {
                return ;
            }
            i = i + 1;
        }
        self.labels.push(label);
        proof {
            assert(self.labels@ == old(self).labels@.push(label));
            assert(self.labels@[self.labels@.len() - 1]@ == label@);
            assert forall|l: Seq<char>|
                old(self).has_label_spec(l) || l == label@ implies self.has_label_spec(l) by {
                if old(self).has_label_spec(l) {
                    let k = choose|k: int|
                        0 <= k < old(self).labels@.len() && old(self).labels@[k]@ == l;
                    assert(self.labels@[k]@ == l);
                }
            }
        }
    }

    /// Remove a label; reports whether it was present.
    pub fn remove_label(&mut self, label: &str) -> (r: bool)
        requires
            old(self).wf(),
        ensures
            final(self).wf(),
            final(self).id == old(self).id,
            final(self).properties == old(self).properties,
            r == old(self).has_label_spec(label@),
            forall|l: Seq<char>|
                final(self).has_label_spec(l) <==> old(self).has_label_spec(l) && l != label@,
    {
        let mut i: usize = 0;
        while i < self.labels.len()
            invariant
                *self == *old(self),
                old(self).wf(),
                0 <= i <= self.labels@.len(),
                forall|j: int| 0 <= j < i ==> self.labels@[j]@ != label@,
            decreases self.labels@.len() - i,
        {
            if str_eq(self.labels[i].as_str(), label) {
                self.labels.remove(i);
                proof {
                    assert forall|l: Seq<char>|
                        self.has_label_spec(l) implies old(self).has_label_spec(l) && l
                        != label@ by {
                        let k = choose|k: int|
                            0 <= k < self.labels@.len() && self.labels@[k]@ == l;
                        if k < i {
                            assert(old(self).labels@[k]@ == l);
                        } else {
                            assert(old(self).labels@[k + 1]@ == l);
                        }
                    }
                    assert forall|l: Seq<char>|
                        old(self).has_label_spec(l) && l != label@ implies self.has_label_spec(
                        l,
                    ) by {
                        let k = choose|k: int|
                            0 <= k < old(self).labels@.len() && old(self).labels@[k]@ == l;
                        if k < i {
                            assert(self.labels@[k]@ == l);
                        } else {
                            assert(k != i);
                            assert(self.labels@[k - 1]@ == l);
                        }
                    }
                }
                return true;
            }
            i = i + 1;
        }
        false
    }

    /// Whether the node carries the label.
    pub fn has_label(&self, label: &str) -> (r: bool)
        ensures
            r == self.has_label_spec(label@),
    {
        let mut i: usize = 0;
        while i < self.labels.len()
            invariant
                0 <= i <= self.labels@.len(),
                forall|j: int| 0 <= j < i ==> self.labels@[j]@ != label@,
            decreases self.labels@.len() - i,
        {
            if str_eq(self.labels[i].as_str(), label) {
                return true;
            }
            i = i + 1;
        }
        false
    }

    /// Store a property value under a key, replacing any earlier value.
    pub fn set_property(&mut self, key: String, value: PropertyValue)
        requires
            old(self).wf(),
        ensures
            final(self).wf(),
            final(self).id == old(self).id,
            final(self).labels == old(self).labels,
            final(self).props() =~= old(self).props().insert(key@, value),
    {
        kv_set(&mut self.properties, key, value);
    }

    /// Borrow the property value stored under a key, if any.
    pub fn get_property(&self, key: &str) -> (r: Option<&PropertyValue>)
        requires
            self.wf(),
        ensures
            match r {
                Some(v) => self.props().dom().contains(key@) && *v == self.props()[key@],
                None => !self.props().dom().contains(key@),
            },
    {
        kv_get(&self.properties, key)
    }

    /// Remove the property stored under a key, returning it if it was present.
    pub fn remove_property(&mut self, key: &str) -> (r: Option<PropertyValue>)
        requires
            old(self).wf(),
        ensures
            final(self).wf(),
            final(self).id == old(self).id,
            final(self).labels == old(self).labels,
            final(self).props() =~= old(self).props().remove(key@),
            match r {
                Some(v) => old(self).props().dom().contains(key@) && v == old(self).props()[key@],
                None => !old(self).props().dom().contains(key@),
            },
    {
        kv_remove(&mut self.properties, key)
    }
}

impl Default for Node {
    /// A node with a freshly generated unique id and nothing else.
    fn default() -> (r: Node)
        ensures
            r.wf(),
            r.labels@.len() == 0,
            r.properties@.len() == 0,
    {
        Node::new()
    }
}

/// A directed edge: an immutable id, its two endpoint node ids, a
/// relationship type and a property map.
#[derive(Debug)]
pub struct Edge {
    pub id: String,
    pub source_id: String,
    pub target_id: String,
    pub relationship_type: String,
    pub properties: Vec<(String, PropertyValue)>,
}

impl Edge {
    /// Property keys are unique.
    pub open spec fn wf(self) -> bool {
        kv_unique(self.properties@)
    }

    /// The edge's property map.
    pub open spec fn props(self) -> Map<Seq<char>, PropertyValue> {
        kv_map(self.properties@)
    }

    /// Create an edge with a freshly generated unique id.
    pub fn new(source_id: String, target_id: String, relationship_type: String) -> (r: Edge)
        ensures
            r.wf(),
            r.id@.len() == 36,
            r.source_id == source_id,
            r.target_id == target_id,
            r.relationship_type == relationship_type,
            r.props() =~= Map::<Seq<char>, PropertyValue>::empty(),
    {
        Edge {
            id: new_uuid_string(),
            source_id,
            target_id,
            relationship_type,
            properties: Vec::new(),
        }
    }

    /// Create an edge with the given id.
    pub fn with_id(
        id: String,
        source_id: String,
        target_id: String,
        relationship_type: String,
    ) -> (r: Edge)
        ensures
            r.wf(),
            r.id == id,
            r.source_id == source_id,
            r.target_id == target_id,
            r.relationship_type == relationship_type,
            r.props() =~= Map::<Seq<char>, PropertyValue>::empty(),
    {
        Edge { id, source_id, target_id, relationship_type, properties: Vec::new() }
    }

    /// Store a property value under a key, replacing any earlier value.
    pub fn set_property(&mut self, key: String, value: PropertyValue)
        requires
            old(self).wf(),
        ensures
            final(self).wf(),
            final(self).id == old(self).id,
            final(self).source_id == old(self).source_id,
            final(self).target_id == old(self).target_id,
            final(self).relationship_type == old(self).relationship_type,
            final(self).props() =~= old(self).props().insert(key@, value),
    {
        kv_set(&mut self.properties, key, value);
    }

    /// Borrow the property value stored under a key, if any.
    pub fn get_property(&self, key: &str) -> (r: Option<&PropertyValue>)
        requires
            self.wf(),
        ensures
            match r {
                Some(v) => self.props().dom().contains(key@) && *v == self.props()[key@],
                None => !self.props().dom().contains(key@),
            },
    {
        kv_get(&self.properties, key)
    }

    /// Remove the property stored under a key, returning it if it was present.
    pub fn remove_property(&mut self, key: &str) -> (r: Option<PropertyValue>)
        requires
            old(self).wf(),
        ensures
            final(self).wf(),
            final(self).id == old(self).id,
            final(self).source_id == old(self).source_id,
            final(self).target_id == old(self).target_id,
            final(self).relationship_type == old(self).relationship_type,
            final(self).props() =~= old(self).props().remove(key@),
            match r {
                Some(v) => old(self).props().dom().contains(key@) && v == old(self).props()[key@],
                None => !old(self).props().dom().contains(key@),
            },
    {
        kv_remove(&mut self.properties, key)
    }
}

impl Default for Graph {
    /// An empty graph.
    fn default() -> (r: Graph)
        ensures
            r.wf(),
            r.nodes_map() =~= Map::<Seq<char>, Node>::empty(),
            r.edges_map() =~= Map::<Seq<char>, Edge>::empty(),
    {
        Graph::new()
    }
}

/// Whether the edge touches the node as source or target.
pub open spec fn incident(edge: Edge, n: Seq<char>) -> bool {
    edge.source_id@ == n || edge.target_id@ == n
}

/// An in-memory property graph: a node table, an edge table and two
/// adjacency indexes (outgoing and incoming edge ids per node).
#[derive(Debug)]
pub struct Graph {
    nodes: Vec<(String, Node)>,
    edges: Vec<(String, Edge)>,
    outgoing_edges: Vec<(String, Vec<String>)>,
    incoming_edges: Vec<(String, Vec<String>)>,
}

impl Graph {
    /// The node table as a map from id to node.
    pub closed spec fn nodes_map(self) -> Map<Seq<char>, Node> {
        kv_map(self.nodes@)
    }

    /// The edge table as a map from id to edge.
    pub closed spec fn edges_map(self) -> Map<Seq<char>, Edge> {
        kv_map(self.edges@)
    }

    /// The outgoing adjacency index as a map from node id to edge-id list.
    pub closed spec fn out_map(self) -> Map<Seq<char>, Vec<String>> {
        kv_map(self.outgoing_edges@)
    }

    /// The incoming adjacency index as a map from node id to edge-id list.
    pub closed spec fn in_map(self) -> Map<Seq<char>, Vec<String>> {
        kv_map(self.incoming_edges@)
    }

    /// Whether a node with this id is present.
    pub open spec fn has_node(self, id: Seq<char>) -> bool {
        self.nodes_map().dom().contains(id)
    }

    /// Whether an edge with this id is present.
    pub open spec fn has_edge(self, id: Seq<char>) -> bool {
        self.edges_map().dom().contains(id)
    }

    /// Referential integrity of the whole store: tables are keyed by the
    /// stored ids, both adjacency indexes have exactly one entry per node,
    /// every adjacency entry resolves to an edge leaving or entering that
    /// node, and every edge joins two present nodes and is indexed under
    /// both endpoints.
    /// The four tables have unique keys.
    pub closed spec fn tables_unique(self) -> bool {
        &&& kv_unique(self.nodes@)
        &&& kv_unique(self.edges@)
        &&& kv_unique(self.outgoing_edges@)
        &&& kv_unique(self.incoming_edges@)
    }

    pub open spec fn wf(self) -> bool {
        &&& self.tables_unique()
        &&& forall|k: Seq<char>|
            #[trigger] self.has_node(k) ==> self.nodes_map()[k].id@ == k
                && self.nodes_map()[k].wf()
        &&& forall|e: Seq<char>|
            #[trigger] self.has_edge(e) ==> self.edges_map()[e].id@ == e
                && self.edges_map()[e].wf()
        &&& self.out_map().dom() =~= self.nodes_map().dom()
        &&& self.in_map().dom() =~= self.nodes_map().dom()
        &&& forall|n: Seq<char>|
            self.out_map().dom().contains(n) ==> id_list_unique((#[trigger] self.out_map()[n])@)
        &&& forall|n: Seq<char>|
            self.in_map().dom().contains(n) ==> id_list_unique((#[trigger] self.in_map()[n])@)
        &&& forall|n: Seq<char>, i: int|
            self.out_map().dom().contains(n) && 0 <= i < self.out_map()[n]@.len() ==> {
                let e = (#[trigger] self.out_map()[n]@[i])@;
                self.has_edge(e) && self.edges_map()[e].source_id@ == n
            }
        &&& forall|n: Seq<char>, i: int|
            self.in_map().dom().contains(n) && 0 <= i < self.in_map()[n]@.len() ==> {
                let e = (#[trigger] self.in_map()[n]@[i])@;
                self.has_edge(e) && self.edges_map()[e].target_id@ == n
            }
        &&& forall|e: Seq<char>|
            #[trigger] self.has_edge(e) ==> {
                let edge = self.edges_map()[e];
                &&& self.has_node(edge.source_id@)
                &&& self.has_node(edge.target_id@)
                &&& id_list_has(self.out_map()[edge.source_id@]@, e)
                &&& id_list_has(self.in_map()[edge.target_id@]@, e)
            }
    }

    /// Create an empty graph.
    pub fn new() -> (r: Graph)
        ensures
            r.wf(),
            r.nodes_map() =~= Map::<Seq<char>, Node>::empty(),
            r.edges_map() =~= Map::<Seq<char>, Edge>::empty(),
    {
        Graph {
            nodes: Vec::new(),
            edges: Vec::new(),
            outgoing_edges: Vec::new(),
            incoming_edges: Vec::new(),
        }
    }

    /// Number of nodes present.
    pub fn node_count(&self) -> (r: usize)
        requires
            self.wf(),
        ensures
            r == self.nodes_map().dom().len(),
    {
        proof {
            lemma_kv_map_len(self.nodes@);
        }
        self.nodes.len()
    }

    /// Number of edges present.
    pub fn edge_count(&self) -> (r: usize)
        requires
            self.wf(),
        ensures
            r == self.edges_map().dom().len(),
    {
        proof {
            lemma_kv_map_len(self.edges@);
        }
        self.edges.len()
    }

    /// Borrow the node with this id, if present.
    pub fn get_node(&self, node_id: &str) -> (r: Option<&Node>)
        requires
            self.wf(),
        ensures
            match r {
                Some(n) => self.has_node(node_id@) && *n == self.nodes_map()[node_id@],
                None => !self.has_node(node_id@),
            },
    {
        kv_get(&self.nodes, node_id)
    }

    /// Borrow the edge with this id, if present.
    pub fn get_edge(&self, edge_id: &str) -> (r: Option<&Edge>)
        requires
            self.wf(),
        ensures
            match r {
                Some(e) => self.has_edge(edge_id@) && *e == self.edges_map()[edge_id@],
                None => !self.has_edge(edge_id@),
            },
    {
        kv_get(&self.edges, edge_id)
    }

    /// Add a node; fails if a node with the same id already exists.
    pub fn add_node(&mut self, node: Node) -> (r: Result<String, NeoDbError>)
        requires
            old(self).wf(),
            node.wf(),
        ensures
            final(self).wf(),
            match r {
                Ok(id) => {
                    &&& id@ == node.id@
                    &&& !old(self).has_node(node.id@)
                    &&& final(self).nodes_map() =~= old(self).nodes_map().insert(node.id@, node)
                    &&& final(self).edges_map() == old(self).edges_map()
                    &&& final(self).out_map()[node.id@]@.len() == 0
                    &&& final(self).in_map()[node.id@]@.len() == 0
                    &&& forall|k: Seq<char>|
                        old(self).has_node(k) ==> final(self).out_map()[k] == old(self).out_map()[k]
                            && final(self).in_map()[k] == old(self).in_map()[k]
                },
                Err(e) => {
                    &&& e matches NeoDbError::NodeAlreadyExists { id } && id@ == node.id@
                    &&& old(self).has_node(node.id@)
                    &&& *final(self) == *old(self)
                },
            },
    {
        if kv_contains(&self.nodes, node.id.as_str()) {
            return Err(NeoDbError::NodeAlreadyExists { id: node.id });
        }
        let ghost gnode = node;
        let ghost gid = node.id@;
        let node_id = node.id.clone();
        let id_for_out = node.id.clone();
        let id_for_in = node.id.clone();
        kv_set(&mut self.nodes, node.id.clone(), node);
        kv_set(&mut self.outgoing_edges, id_for_out, Vec::new());
        kv_set(&mut self.incoming_edges, id_for_in, Vec::new());
        proof {
            let m0 = old(self).nodes_map();
            let m1 = self.nodes_map();
            assert(m1 == m0.insert(gid, gnode));
            assert forall|k: Seq<char>| #[trigger] self.has_node(k) implies m1[k].id@ == k
                && m1[k].wf() by {
                if k != gid {
                    assert(old(self).has_node(k));
                }
            }
            assert forall|e: Seq<char>| #[trigger] self.has_edge(e) implies {
                let edge = self.edges_map()[e];
                &&& self.edges_map()[e].id@ == e
                &&& self.edges_map()[e].wf()
                &&& self.has_node(edge.source_id@)
                &&& self.has_node(edge.target_id@)
                &&& id_list_has(self.out_map()[edge.source_id@]@, e)
                &&& id_list_has(self.in_map()[edge.target_id@]@, e)
            } by {
                assert(old(self).has_edge(e));
                let edge = self.edges_map()[e];
                assert(edge.source_id@ != gid && edge.target_id@ != gid);
                assert(self.out_map()[edge.source_id@] == old(self).out_map()[edge.source_id@]);
                assert(self.in_map()[edge.target_id@] == old(self).in_map()[edge.target_id@]);
            }
            assert(self.out_map().dom() =~= self.nodes_map().dom());
            assert(self.in_map().dom() =~= self.nodes_map().dom());
            assert forall|n: Seq<char>, i: int|
                self.out_map().dom().contains(n) && 0 <= i < self.out_map()[n]@.len() implies {
                let e = (#[trigger] self.out_map()[n]@[i])@;
                self.has_edge(e) && self.edges_map()[e].source_id@ == n
            } by {
                if n != gid {
                    assert(old(self).out_map().dom().contains(n));
                    assert(self.out_map()[n] == old(self).out_map()[n]);
                }
            }
            assert forall|n: Seq<char>, i: int|
                self.in_map().dom().contains(n) && 0 <= i < self.in_map()[n]@.len() implies {
                let e = (#[trigger] self.in_map()[n]@[i])@;
                self.has_edge(e) && self.edges_map()[e].target_id@ == n
            } by {
                if n != gid {
                    assert(old(self).in_map().dom().contains(n));
                    assert(self.in_map()[n] == old(self).in_map()[n]);
                }
            }
            assert forall|n: Seq<char>| self.out_map().dom().contains(n) implies id_list_unique(
                (#[trigger] self.out_map()[n])@,
            ) by {
                if n != gid {
                    assert(old(self).out_map().dom().contains(n));
                    assert(self.out_map()[n] == old(self).out_map()[n]);
                }
            }
            assert forall|n: Seq<char>| self.in_map().dom().contains(n) implies id_list_unique(
                (#[trigger] self.in_map()[n])@,
            ) by {
                if n != gid {
                    assert(old(self).in_map().dom().contains(n));
                    assert(self.in_map()[n] == old(self).in_map()[n]);
                }
            }
        }
        Ok(node_id)
    }

    /// Remove every node and edge.
    pub fn clear(&mut self)
        ensures
            final(self).wf(),
            final(self).nodes_map() =~= Map::<Seq<char>, Node>::empty(),
            final(self).edges_map() =~= Map::<Seq<char>, Edge>::empty(),
            final(self).nodes_map().dom().len() == 0,
            final(self).edges_map().dom().len() == 0,
    {
        self.nodes.clear();
        self.edges.clear();
        self.outgoing_edges.clear();
        self.incoming_edges.clear();
        proof {
            lemma_kv_map_len(self.nodes@);
            lemma_kv_map_len(self.edges@);
        }
    }
}

/// Remove the string reading `id` from the list, if present.
fn list_remove_id(l: &mut Vec<String>, id: &str)
    requires
        id_list_unique(old(l)@),
    ensures
        id_list_unique(final(l)@),
        forall|e: Seq<char>| id_list_has(final(l)@, e) <==> id_list_has(old(l)@, e) && e != id@,
{
    let mut i: usize = 0;
    while i < l.len()
        invariant
            *l == *old(l),
            id_list_unique(old(l)@),
            0 <= i <= l@.len(),
            forall|j: int| 0 <= j < i ==> l@[j]@ != id@,
        decreases l@.len() - i,
    {
        if str_eq(l[i].as_str(), id) {
            l.remove(i);
            proof {
                assert forall|e: Seq<char>| id_list_has(l@, e) implies id_list_has(old(l)@, e)
                    && e != id@ by {
                    let k = choose|k: int| 0 <= k < l@.len() && l@[k]@ == e;
                    if k < i {
                        assert(old(l)@[k]@ == e);
                    } else {
                        assert(old(l)@[k + 1]@ == e);
                    }
                }
                assert forall|e: Seq<char>| id_list_has(old(l)@, e) && e != id@ implies id_list_has(
                    l@,
                    e,
                ) by {
                    let k = choose|k: int| 0 <= k < old(l)@.len() && old(l)@[k]@ == e;
                    if k < i {
                        assert(l@[k]@ == e);
                    } else {
                        assert(k != i);
                        assert(l@[k - 1]@ == e);
                    }
                }
            }
            return ;
        }
        i = i + 1;
    }
}

impl Graph {
    /// Add an edge; fails if its id is taken or either endpoint is missing
    /// (the source is checked first).
    pub fn add_edge(&mut self, edge: Edge) -> (r: Result<String, NeoDbError>)
        requires
            old(self).wf(),
            edge.wf(),
        ensures
            final(self).wf(),
            match r {
                Ok(id) => {
                    &&& id@ == edge.id@
                    &&& !old(self).has_edge(edge.id@)
                    &&& old(self).has_node(edge.source_id@)
                    &&& old(self).has_node(edge.target_id@)
                    &&& final(self).edges_map() =~= old(self).edges_map().insert(edge.id@, edge)
                    &&& final(self).nodes_map() == old(self).nodes_map()
                    &&& forall|n: Seq<char>, e: Seq<char>|
                        final(self).has_node(n) ==> (#[trigger] id_list_has(
                            final(self).out_map()[n]@,
                            e,
                        ) <==> id_list_has(old(self).out_map()[n]@, e) || (n == edge.source_id@
                            && e == edge.id@))
                    &&& forall|n: Seq<char>, e: Seq<char>|
                        final(self).has_node(n) ==> (#[trigger] id_list_has(
                            final(self).in_map()[n]@,
                            e,
                        ) <==> id_list_has(old(self).in_map()[n]@, e) || (n == edge.target_id@
                            && e == edge.id@))
                },
                Err(err) => {
                    &&& *final(self) == *old(self)
                    &&& match err {
                        NeoDbError::EdgeAlreadyExists { id } => id@ == edge.id@ && old(self).has_edge(edge.id@),
                        NeoDbError::NodeNotFound { id } => !old(self).has_edge(edge.id@) && ((id@
                            == edge.source_id@ && !old(self).has_node(edge.source_id@)) || (id@
                            == edge.target_id@ && old(self).has_node(edge.source_id@) && !old(self).has_node(edge.target_id@))),
                        _ => false,
                    }
                },
            },
    {
        if kv_contains(&self.edges, edge.id.as_str()) {
            return Err(NeoDbError::EdgeAlreadyExists { id: edge.id });
        }
        if !kv_contains(&self.nodes, edge.source_id.as_str()) {
            return Err(NeoDbError::NodeNotFound { id: edge.source_id });
        }
        if !kv_contains(&self.nodes, edge.target_id.as_str()) {
            return Err(NeoDbError::NodeNotFound { id: edge.target_id });
        }
        let ghost gedge = edge;
        let ghost eid = edge.id@;
        let ghost src = edge.source_id@;
        let ghost tgt = edge.target_id@;
        let edge_id = edge.id.clone();
        let source_key = edge.source_id.clone();
        let target_key = edge.target_id.clone();

        let mut out_list = match kv_remove(&mut self.outgoing_edges, source_key.as_str()) {
            Some(l) => l,
            None => unreached(),
        };
        proof {
            assert(id_list_unique(out_list@));
            assert forall|j: int| 0 <= j < out_list@.len() implies out_list@[j]@ != eid by {
                assert(old(self).out_map()[src]@[j]@ != eid);
            }
        }
        out_list.push(edge.id.clone());
        kv_set(&mut self.outgoing_edges, source_key, out_list);

        let mut in_list = match kv_remove(&mut self.incoming_edges, target_key.as_str()) {
            Some(l) => l,
            None => unreached(),
        };
        proof {
            assert(id_list_unique(in_list@));
            assert forall|j: int| 0 <= j < in_list@.len() implies in_list@[j]@ != eid by {
                assert(old(self).in_map()[tgt]@[j]@ != eid);
            }
        }
        in_list.push(edge.id.clone());
        kv_set(&mut self.incoming_edges, target_key, in_list);

        kv_set(&mut self.edges, edge.id.clone(), edge);

        proof {
            let g0 = *old(self);
            let g1 = *self;
            assert(g1.edges_map() == g0.edges_map().insert(eid, gedge));
            assert(g1.out_map() =~= g0.out_map().insert(src, g1.out_map()[src]));
            assert(g1.in_map() =~= g0.in_map().insert(tgt, g1.in_map()[tgt]));
            assert(g1.out_map()[src]@ == g0.out_map()[src]@.push(gedge.id));
            assert(g1.in_map()[tgt]@ == g0.in_map()[tgt]@.push(gedge.id));
            assert(g1.out_map().dom() =~= g1.nodes_map().dom());
            assert(g1.in_map().dom() =~= g1.nodes_map().dom());

            assert(g1.nodes_map() == g0.nodes_map());
            assert forall|k: Seq<char>| #[trigger] g1.has_node(k) implies g1.nodes_map()[k].id@
                == k && g1.nodes_map()[k].wf() by {
                assert(g0.has_node(k));
            }
            assert forall|e: Seq<char>| #[trigger] g1.has_edge(e) implies g1.edges_map()[e].id@
                == e && g1.edges_map()[e].wf() by {
                if e != eid {
                    assert(g0.has_edge(e));
                }
            }
            assert forall|n: Seq<char>| g1.out_map().dom().contains(n) implies id_list_unique(
                (#[trigger] g1.out_map()[n])@,
            ) by {
                if n != src {
                    assert(g1.out_map()[n] == g0.out_map()[n]);
                } else {
                    let l0 = g0.out_map()[src]@;
                    let l1 = g1.out_map()[src]@;
                    assert forall|a: int, b: int| 0 <= a < b < l1.len() implies l1[a]@
                        != l1[b]@ by {
                        if b == l1.len() - 1 {
                            assert(l1[a]@ == l0[a]@);
                            assert(l0[a]@ != eid);
                        }
                    }
                }
            }
            assert forall|n: Seq<char>| g1.in_map().dom().contains(n) implies id_list_unique(
                (#[trigger] g1.in_map()[n])@,
            ) by {
                if n != tgt {
                    assert(g1.in_map()[n] == g0.in_map()[n]);
                } else {
                    let l0 = g0.in_map()[tgt]@;
                    let l1 = g1.in_map()[tgt]@;
                    assert forall|a: int, b: int| 0 <= a < b < l1.len() implies l1[a]@
                        != l1[b]@ by {
                        if b == l1.len() - 1 {
                            assert(l1[a]@ == l0[a]@);
                            assert(l0[a]@ != eid);
                        }
                    }
                }
            }
            assert forall|n: Seq<char>, i: int|
                g1.out_map().dom().contains(n) && 0 <= i < g1.out_map()[n]@.len() implies {
                let e = (#[trigger] g1.out_map()[n]@[i])@;
                g1.has_edge(e) && g1.edges_map()[e].source_id@ == n
            } by {
                if n == src {
                    if i < g0.out_map()[src]@.len() {
                        assert(g1.out_map()[n]@[i] == g0.out_map()[n]@[i]);
                        assert(g0.out_map()[n]@[i]@ != eid);
                    } else {
                        assert(g1.out_map()[n]@[i]@ == eid);
                    }
                } else {
                    assert(g1.out_map()[n] == g0.out_map()[n]);
                    assert(g0.out_map()[n]@[i]@ != eid);
                }
            }
            assert forall|n: Seq<char>, i: int|
                g1.in_map().dom().contains(n) && 0 <= i < g1.in_map()[n]@.len() implies {
                let e = (#[trigger] g1.in_map()[n]@[i])@;
                g1.has_edge(e) && g1.edges_map()[e].target_id@ == n
            } by {
                if n == tgt {
                    if i < g0.in_map()[tgt]@.len() {
                        assert(g1.in_map()[n]@[i] == g0.in_map()[n]@[i]);
                        assert(g0.in_map()[n]@[i]@ != eid);
                    } else {
                        assert(g1.in_map()[n]@[i]@ == eid);
                    }
                } else {
                    assert(g1.in_map()[n] == g0.in_map()[n]);
                    assert(g0.in_map()[n]@[i]@ != eid);
                }
            }
            assert forall|e: Seq<char>| #[trigger] g1.has_edge(e) implies {
                let edge2 = g1.edges_map()[e];
                &&& g1.has_node(edge2.source_id@)
                &&& g1.has_node(edge2.target_id@)
                &&& id_list_has(g1.out_map()[edge2.source_id@]@, e)
                &&& id_list_has(g1.in_map()[edge2.target_id@]@, e)
            } by {
                if e == eid {
                    let l1 = g1.out_map()[src]@;
                    assert(l1[l1.len() - 1]@ == eid);
                    let l2 = g1.in_map()[tgt]@;
                    assert(l2[l2.len() - 1]@ == eid);
                } else {
                    assert(g0.has_edge(e));
                    let edge2 = g0.edges_map()[e];
                    let lo = g0.out_map()[edge2.source_id@]@;
                    let k = choose|k: int| 0 <= k < lo.len() && lo[k]@ == e;
                    assert(g1.out_map()[edge2.source_id@]@[k]@ == e);
                    let li = g0.in_map()[edge2.target_id@]@;
                    let k2 = choose|k2: int| 0 <= k2 < li.len() && li[k2]@ == e;
                    assert(g1.in_map()[edge2.target_id@]@[k2]@ == e);
                }
            }
            assert forall|n: Seq<char>, e: Seq<char>| g1.has_node(n) implies (#[trigger] id_list_has(
                g1.out_map()[n]@,
                e,
            ) <==> id_list_has(g0.out_map()[n]@, e) || (n == src && e == eid)) by {
                let l0 = g0.out_map()[n]@;
                let l1 = g1.out_map()[n]@;
                if n == src {
                    if id_list_has(l1, e) {
                        let k = choose|k: int| 0 <= k < l1.len() && l1[k]@ == e;
                        if k < l0.len() {
                            assert(l0[k]@ == e);
                        }
                    }
                    if id_list_has(l0, e) {
                        let k = choose|k: int| 0 <= k < l0.len() && l0[k]@ == e;
                        assert(l1[k]@ == e);
                    }
                    if e == eid {
                        assert(l1[l1.len() - 1]@ == eid);
                    }
                } else {
                    assert(g1.out_map()[n] == g0.out_map()[n]);
                }
            }
            assert forall|n: Seq<char>, e: Seq<char>| g1.has_node(n) implies (#[trigger] id_list_has(
                g1.in_map()[n]@,
                e,
            ) <==> id_list_has(g0.in_map()[n]@, e) || (n == tgt && e == eid)) by {
                let l0 = g0.in_map()[n]@;
                let l1 = g1.in_map()[n]@;
                if n == tgt {
                    if id_list_has(l1, e) {
                        let k = choose|k: int| 0 <= k < l1.len() && l1[k]@ == e;
                        if k < l0.len() {
                            assert(l0[k]@ == e);
                        }
                    }
                    if id_list_has(l0, e) {
                        let k = choose|k: int| 0 <= k < l0.len() && l0[k]@ == e;
                        assert(l1[k]@ == e);
                    }
                    if e == eid {
                        assert(l1[l1.len() - 1]@ == eid);
                    }
                } else {
                    assert(g1.in_map()[n] == g0.in_map()[n]);
                }
            }
        }
        Ok(edge_id)
    }
}

impl Graph {
    /// Remove an edge; fails if no edge with this id exists. Exactly the two
    /// adjacency entries of its endpoints lose the edge id.
    pub fn remove_edge(&mut self, edge_id: &str) -> (r: Result<Edge, NeoDbError>)
        requires
            old(self).wf(),
        ensures
            final(self).wf(),
            match r {
                Ok(edge) => {
                    &&& old(self).has_edge(edge_id@)
                    &&& edge == old(self).edges_map()[edge_id@]
                    &&& final(self).edges_map() =~= old(self).edges_map().remove(edge_id@)
                    &&& final(self).nodes_map() == old(self).nodes_map()
                    &&& forall|n: Seq<char>, e: Seq<char>|
                        final(self).has_node(n) ==> (#[trigger] id_list_has(
                            final(self).out_map()[n]@,
                            e,
                        ) <==> id_list_has(old(self).out_map()[n]@, e) && e != edge_id@)
                    &&& forall|n: Seq<char>, e: Seq<char>|
                        final(self).has_node(n) ==> (#[trigger] id_list_has(
                            final(self).in_map()[n]@,
                            e,
                        ) <==> id_list_has(old(self).in_map()[n]@, e) && e != edge_id@)
                },
                Err(err) => {
                    &&& err matches NeoDbError::EdgeNotFound { id } && id@ == edge_id@
                    &&& !old(self).has_edge(edge_id@)
                    &&& *final(self) == *old(self)
                },
            },
    {
        let edge = match kv_remove(&mut self.edges, edge_id) {
            Some(e) => e,
            None => {
                return Err(NeoDbError::EdgeNotFound { id: edge_id.to_owned() });
            },
        };
        let ghost eid = edge_id@;
        let ghost src = edge.source_id@;
        let ghost tgt = edge.target_id@;

        let mut out_list = match kv_remove(&mut self.outgoing_edges, edge.source_id.as_str()) {
            Some(l) => l,
            None => {
                proof {
                    assert(old(self).has_edge(eid));
                    assert(old(self).has_node(old(self).edges_map()[eid].source_id@));
                    assert(old(self).out_map().dom().contains(src));
                    assert(false);
                }
                unreached()
            },
        };
        list_remove_id(&mut out_list, edge_id);
        kv_set(&mut self.outgoing_edges, edge.source_id.clone(), out_list);

        let mut in_list = match kv_remove(&mut self.incoming_edges, edge.target_id.as_str()) {
            Some(l) => l,
            None => {
                proof {
                    assert(old(self).has_edge(eid));
                    assert(old(self).has_node(old(self).edges_map()[eid].target_id@));
                    assert(old(self).in_map().dom().contains(tgt));
                    assert(false);
                }
                unreached()
            },
        };
        list_remove_id(&mut in_list, edge_id);
        kv_set(&mut self.incoming_edges, edge.target_id.clone(), in_list);

        proof {
            let g0 = *old(self);
            let g1 = *self;
            assert(g1.edges_map() == g0.edges_map().remove(eid));
            assert(g1.out_map() =~= g0.out_map().insert(src, g1.out_map()[src]));
            assert(g1.in_map() =~= g0.in_map().insert(tgt, g1.in_map()[tgt]));
            assert(g1.out_map().dom() =~= g1.nodes_map().dom());
            assert(g1.in_map().dom() =~= g1.nodes_map().dom());
            assert(g1.nodes_map() == g0.nodes_map());
            assert forall|k: Seq<char>| #[trigger] g1.has_node(k) implies g1.nodes_map()[k].id@
                == k && g1.nodes_map()[k].wf() by {
                assert(g0.has_node(k));
            }
            assert forall|e: Seq<char>| #[trigger] g1.has_edge(e) implies g1.edges_map()[e].id@
                == e && g1.edges_map()[e].wf() by {
                assert(g0.has_edge(e));
            }
            // membership of the final adjacency lists
            assert forall|n: Seq<char>, e: Seq<char>| g1.has_node(n) implies (#[trigger]
            id_list_has(g1.out_map()[n]@, e) <==> id_list_has(g0.out_map()[n]@, e) && e
                != eid) by {
                if n == src {
                } else {
                    assert(g1.out_map()[n] == g0.out_map()[n]);
                    if id_list_has(g0.out_map()[n]@, e) && e == eid {
                        let l = g0.out_map()[n]@;
                        let k = choose|k: int| 0 <= k < l.len() && l[k]@ == e;
                        assert(g0.edges_map()[l[k]@].source_id@ == n);
                        assert(false);
                    }
                }
            }
            assert forall|n: Seq<char>, e: Seq<char>| g1.has_node(n) implies (#[trigger]
            id_list_has(g1.in_map()[n]@, e) <==> id_list_has(g0.in_map()[n]@, e) && e
                != eid) by {
                if n == tgt {
                } else {
                    assert(g1.in_map()[n] == g0.in_map()[n]);
                    if id_list_has(g0.in_map()[n]@, e) && e == eid {
                        let l = g0.in_map()[n]@;
                        let k = choose|k: int| 0 <= k < l.len() && l[k]@ == e;
                        assert(g0.edges_map()[l[k]@].target_id@ == n);
                        assert(false);
                    }
                }
            }
            assert forall|n: Seq<char>| g1.out_map().dom().contains(n) implies id_list_unique(
                (#[trigger] g1.out_map()[n])@,
            ) by {
                if n != src {
                    assert(g1.out_map()[n] == g0.out_map()[n]);
                }
            }
            assert forall|n: Seq<char>| g1.in_map().dom().contains(n) implies id_list_unique(
                (#[trigger] g1.in_map()[n])@,
            ) by {
                if n != tgt {
                    assert(g1.in_map()[n] == g0.in_map()[n]);
                }
            }
            assert forall|n: Seq<char>, i: int|
                g1.out_map().dom().contains(n) && 0 <= i < g1.out_map()[n]@.len() implies {
                let e = (#[trigger] g1.out_map()[n]@[i])@;
                g1.has_edge(e) && g1.edges_map()[e].source_id@ == n
            } by {
                let e = g1.out_map()[n]@[i]@;
                assert(id_list_has(g1.out_map()[n]@, e));
                assert(id_list_has(g0.out_map()[n]@, e) && e != eid);
                let l = g0.out_map()[n]@;
                let k = choose|k: int| 0 <= k < l.len() && l[k]@ == e;
                assert(g0.has_edge(e) && g0.edges_map()[e].source_id@ == n);
            }
            assert forall|n: Seq<char>, i: int|
                g1.in_map().dom().contains(n) && 0 <= i < g1.in_map()[n]@.len() implies {
                let e = (#[trigger] g1.in_map()[n]@[i])@;
                g1.has_edge(e) && g1.edges_map()[e].target_id@ == n
            } by {
                let e = g1.in_map()[n]@[i]@;
                assert(id_list_has(g1.in_map()[n]@, e));
                assert(id_list_has(g0.in_map()[n]@, e) && e != eid);
                let l = g0.in_map()[n]@;
                let k = choose|k: int| 0 <= k < l.len() && l[k]@ == e;
                assert(g0.has_edge(e) && g0.edges_map()[e].target_id@ == n);
            }
            assert forall|e: Seq<char>| #[trigger] g1.has_edge(e) implies {
                let edge2 = g1.edges_map()[e];
                &&& g1.has_node(edge2.source_id@)
                &&& g1.has_node(edge2.target_id@)
                &&& id_list_has(g1.out_map()[edge2.source_id@]@, e)
                &&& id_list_has(g1.in_map()[edge2.target_id@]@, e)
            } by {
                assert(g0.has_edge(e));
                let edge2 = g0.edges_map()[e];
                assert(id_list_has(g0.out_map()[edge2.source_id@]@, e));
                assert(id_list_has(g0.in_map()[edge2.target_id@]@, e));
                assert(id_list_has(g1.out_map()[edge2.source_id@]@, e));
                assert(id_list_has(g1.in_map()[edge2.target_id@]@, e));
            }
        }
        Ok(edge)
    }
}

/// Keep only the ids that are keys of the edge table.
fn filter_list(list: &Vec<String>, edges: &Vec<(String, Edge)>) -> (r: Vec<String>)
    requires
        id_list_unique(list@),
    ensures
        id_list_unique(r@),
        forall|e: Seq<char>|
            #[trigger] id_list_has(r@, e) <==> id_list_has(list@, e) && kv_map(
                edges@,
            ).dom().contains(e),
{
    let mut r: Vec<String> = Vec::new();
    let mut i: usize = 0;
    while i < list.len()
        invariant
            0 <= i <= list@.len(),
            id_list_unique(list@),
            id_list_unique(r@),
            forall|e: Seq<char>|
                #[trigger] id_list_has(r@, e) <==> (exists|k: int|
                    0 <= k < i && list@[k]@ == e) && kv_map(edges@).dom().contains(e),
        decreases list@.len() - i,
    {
        if kv_contains(edges, list[i].as_str()) {
            let ghost rpre = r@;
            r.push(list[i].clone());
            proof {
                assert(r@ == rpre.push(list@[i as int]));
                assert(r@[r@.len() - 1]@ == list@[i as int]@);
                assert forall|a: int, b: int| 0 <= a < b < r@.len() implies r@[a]@ != r@[b]@ by {
                    if b == r@.len() - 1 {
                        assert(id_list_has(rpre, rpre[a]@));
                        let k = choose|k: int| 0 <= k < i && list@[k]@ == rpre[a]@;
                        assert(list@[k]@ != list@[i as int]@);
                    }
                }
                assert forall|e: Seq<char>| #[trigger] id_list_has(r@, e) implies (exists|k: int|
                    0 <= k < i + 1 && list@[k]@ == e) && kv_map(edges@).dom().contains(e) by {
                    let j = choose|j: int| 0 <= j < r@.len() && r@[j]@ == e;
                    if j < r@.len() - 1 {
                        assert(id_list_has(rpre, e));
                    } else {
                        assert(list@[i as int]@ == e);
                    }
                }
                assert forall|e: Seq<char>|
                    (exists|k: int| 0 <= k < i + 1 && list@[k]@ == e) && kv_map(
                        edges@,
                    ).dom().contains(e) implies #[trigger] id_list_has(r@, e) by {
                    let k = choose|k: int| 0 <= k < i + 1 && list@[k]@ == e;
                    if k < i {
                        assert(id_list_has(rpre, e));
                        let j = choose|j: int| 0 <= j < rpre.len() && rpre[j]@ == e;
                        assert(r@[j]@ == e);
                    } else {
                        assert(r@[r@.len() - 1]@ == e);
                    }
                }
            }
        }
        i = i + 1;
    }
    r
}

/// Rebuild an adjacency table: drop the entry keyed `skip`, and keep in every
/// other list only the ids that are keys of the edge table.
fn filtered_adjacency(
    src_tbl: &Vec<(String, Vec<String>)>,
    skip: &str,
    edges: &Vec<(String, Edge)>,
) -> (r: Vec<(String, Vec<String>)>)
    requires
        kv_unique(src_tbl@),
        forall|n: Seq<char>|
            kv_map(src_tbl@).dom().contains(n) ==> id_list_unique(
                (#[trigger] kv_map(src_tbl@)[n])@,
            ),
    ensures
        kv_unique(r@),
        kv_map(r@).dom() =~= kv_map(src_tbl@).dom().remove(skip@),
        forall|n: Seq<char>|
            #[trigger] kv_map(r@).dom().contains(n) ==> (id_list_unique(kv_map(r@)[n]@) && forall|
                e: Seq<char>,
            |
                #[trigger] id_list_has(kv_map(r@)[n]@, e) <==> id_list_has(
                    kv_map(src_tbl@)[n]@,
                    e,
                ) && kv_map(edges@).dom().contains(e)),
{
    let mut r: Vec<(String, Vec<String>)> = Vec::new();
    let mut i: usize = 0;
    while i < src_tbl.len()
        invariant
            0 <= i <= src_tbl@.len(),
            kv_unique(src_tbl@),
            forall|n: Seq<char>|
                kv_map(src_tbl@).dom().contains(n) ==> id_list_unique(
                    (#[trigger] kv_map(src_tbl@)[n])@,
                ),
            kv_unique(r@),
            forall|j: int|
                0 <= j < r@.len() ==> exists|k: int|
                    0 <= k < i && (#[trigger] r@[j]).0@ == src_tbl@[k].0@,
            forall|n: Seq<char>|
                #[trigger] kv_map(r@).dom().contains(n) <==> (exists|k: int|
                    0 <= k < i && src_tbl@[k].0@ == n) && n != skip@,
            forall|n: Seq<char>|
                #[trigger] kv_map(r@).dom().contains(n) ==> (id_list_unique(kv_map(r@)[n]@)
                    && forall|e: Seq<char>|
                    #[trigger] id_list_has(kv_map(r@)[n]@, e) <==> id_list_has(
                        kv_map(src_tbl@)[n]@,
                        e,
                    ) && kv_map(edges@).dom().contains(e)),
        decreases src_tbl@.len() - i,
    {
        if !str_eq(src_tbl[i].0.as_str(), skip) {
            proof {
                lemma_kv_map_index(src_tbl@, i as int);
            }
            let fl = filter_list(&src_tbl[i].1, edges);
            let ghost rpre = r@;
            let ghost key = src_tbl@[i as int].0@;
            proof {
                if kv_map(rpre).dom().contains(key) {
                    let k = choose|k: int| 0 <= k < i && src_tbl@[k].0@ == key;
                    assert(src_tbl@[k].0@ == src_tbl@[i as int].0@);
                    assert(false);
                }
                lemma_kv_map_dom(rpre, key);
            }
            r.push((src_tbl[i].0.clone(), fl));
            proof {
                lemma_kv_map_push(rpre, r@.last());
                assert(kv_map(r@) == kv_map(rpre).insert(key, r@.last().1));
                assert forall|a: int, b: int| 0 <= a < b < r@.len() implies r@[a].0@
                    != r@[b].0@ by {
                    if b == r@.len() - 1 {
                        let k = choose|k: int| 0 <= k < i && rpre[a].0@ == src_tbl@[k].0@;
                        assert(src_tbl@[k].0@ != src_tbl@[i as int].0@);
                    }
                }
            }
        }
        i = i + 1;
    }
    proof {
        assert forall|n: Seq<char>|
            #[trigger] kv_map(r@).dom().contains(n) <==> kv_map(src_tbl@).dom().contains(n) && n
            != skip@ by {
            lemma_kv_map_dom(src_tbl@, n);
        }
    }
    r
}

/// Remove every edge entry whose edge touches `node_id`.
#[verifier::rlimit(50)]
fn remove_incident_edges(edges: &mut Vec<(String, Edge)>, node_id: &str)
    requires
        kv_unique(old(edges)@),
    ensures
        kv_unique(final(edges)@),
        forall|e: Seq<char>|
            #[trigger] kv_map(final(edges)@).dom().contains(e) <==> kv_map(
                old(edges)@,
            ).dom().contains(e) && !incident(kv_map(old(edges)@)[e], node_id@),
        forall|e: Seq<char>|
            #[trigger] kv_map(final(edges)@).dom().contains(e) ==> kv_map(final(edges)@)[e]
                == kv_map(old(edges)@)[e],
{
    let ghost nid = node_id@;
    let ghost old_km = kv_map(edges@);
    let mut i: usize = 0;
    while i < edges.len()
        invariant
            nid == node_id@,
            old_km == kv_map(old(edges)@),
            kv_unique(edges@),
            0 <= i <= edges@.len(),
            forall|j: int| 0 <= j < i ==> !incident((#[trigger] edges@[j]).1, nid),
            forall|e: Seq<char>|
                #[trigger] kv_map(edges@).dom().contains(e) ==> old_km.dom().contains(e)
                    && kv_map(edges@)[e] == old_km[e],
            forall|e: Seq<char>|
                #[trigger] old_km.dom().contains(e) && !incident(old_km[e], nid) ==> kv_map(
                    edges@,
                ).dom().contains(e),
        decreases edges@.len() - i,
    {
        let hit_source = str_eq(edges[i].1.source_id.as_str(), node_id);
        let hit_target = str_eq(edges[i].1.target_id.as_str(), node_id);
        let drop_it = hit_source || hit_target;
        if drop_it {
            let ghost pre = edges@;
            let ghost key = pre[i as int].0@;
            proof {
                lemma_kv_map_index(pre, i as int);
                lemma_kv_map_remove(pre, i as int);
                assert(incident(kv_map(pre)[key], nid));
            }
            edges.remove(i);
            proof {
                assert(kv_map(edges@) == kv_map(pre).remove(key));
                assert forall|e: Seq<char>|
                    #[trigger] old_km.dom().contains(e) && !incident(old_km[e], nid) implies
                kv_map(edges@).dom().contains(e) by {
                    assert(kv_map(pre).dom().contains(e));
                    assert(kv_map(pre)[e] == old_km[e]);
                    assert(e != key);
                }
            }
        } else {
            i = i + 1;
        }
    }
    proof {
        assert forall|e: Seq<char>| #[trigger] kv_map(edges@).dom().contains(e) implies
        old_km.dom().contains(e) && !incident(old_km[e], nid) by {
            lemma_kv_map_dom(edges@, e);
            let j = choose|j: int| 0 <= j < edges@.len() && edges@[j].0@ == e;
            lemma_kv_map_index(edges@, j);
            assert(!incident(edges@[j].1, nid));
        }
    }
}

/// Well-formedness of the store after a cascading node removal.
#[verifier::spinoff_prover]
proof fn lemma_remove_node_wf(g0: Graph, g1: Graph, nid: Seq<char>)
    requires
        g0.wf(),
        kv_unique(g1.nodes@),
        kv_unique(g1.edges@),
        kv_unique(g1.outgoing_edges@),
        kv_unique(g1.incoming_edges@),
        g1.nodes_map() == g0.nodes_map().remove(nid),
        forall|e: Seq<char>|
            #[trigger] g1.has_edge(e) <==> g0.has_edge(e) && !incident(g0.edges_map()[e], nid),
        forall|e: Seq<char>|
            #[trigger] g1.has_edge(e) ==> g1.edges_map()[e] == g0.edges_map()[e],
        g1.out_map().dom() == g0.out_map().dom().remove(nid),
        g1.in_map().dom() == g0.in_map().dom().remove(nid),
        forall|n: Seq<char>|
            #[trigger] g1.out_map().dom().contains(n) ==> (id_list_unique(g1.out_map()[n]@)
                && forall|e: Seq<char>|
                #[trigger] id_list_has(g1.out_map()[n]@, e) <==> id_list_has(g0.out_map()[n]@, e)
                    && g1.has_edge(e)),
        forall|n: Seq<char>|
            #[trigger] g1.in_map().dom().contains(n) ==> (id_list_unique(g1.in_map()[n]@)
                && forall|e: Seq<char>|
                #[trigger] id_list_has(g1.in_map()[n]@, e) <==> id_list_has(g0.in_map()[n]@, e)
                    && g1.has_edge(e)),
    ensures
        g1.wf(),
{
    assert forall|k: Seq<char>| #[trigger] g1.has_node(k) implies g1.nodes_map()[k].id@ == k
        && g1.nodes_map()[k].wf() by {
        assert(g0.has_node(k));
    }
    assert forall|e: Seq<char>| #[trigger] g1.has_edge(e) implies g1.edges_map()[e].id@ == e
        && g1.edges_map()[e].wf() by {
        assert(g0.has_edge(e));
    }
    assert(g1.out_map().dom() =~= g1.nodes_map().dom());
    assert(g1.in_map().dom() =~= g1.nodes_map().dom());
    assert forall|n: Seq<char>, i2: int|
        g1.out_map().dom().contains(n) && 0 <= i2 < g1.out_map()[n]@.len() implies {
        let e = (#[trigger] g1.out_map()[n]@[i2])@;
        g1.has_edge(e) && g1.edges_map()[e].source_id@ == n
    } by {
        let e = g1.out_map()[n]@[i2]@;
        assert(id_list_has(g1.out_map()[n]@, e));
        assert(id_list_has(g0.out_map()[n]@, e) && g1.has_edge(e));
        assert(g0.out_map().dom().contains(n));
        let l = g0.out_map()[n]@;
        let k = choose|k: int| 0 <= k < l.len() && l[k]@ == e;
        assert(g0.has_edge(e) && g0.edges_map()[e].source_id@ == n);
    }
    assert forall|n: Seq<char>, i2: int|
        g1.in_map().dom().contains(n) && 0 <= i2 < g1.in_map()[n]@.len() implies {
        let e = (#[trigger] g1.in_map()[n]@[i2])@;
        g1.has_edge(e) && g1.edges_map()[e].target_id@ == n
    } by {
        let e = g1.in_map()[n]@[i2]@;
        assert(id_list_has(g1.in_map()[n]@, e));
        assert(id_list_has(g0.in_map()[n]@, e) && g1.has_edge(e));
        assert(g0.in_map().dom().contains(n));
        let l = g0.in_map()[n]@;
        let k = choose|k: int| 0 <= k < l.len() && l[k]@ == e;
        assert(g0.has_edge(e) && g0.edges_map()[e].target_id@ == n);
    }
    assert forall|e: Seq<char>| #[trigger] g1.has_edge(e) implies {
        let edge2 = g1.edges_map()[e];
        &&& g1.has_node(edge2.source_id@)
        &&& g1.has_node(edge2.target_id@)
        &&& id_list_has(g1.out_map()[edge2.source_id@]@, e)
        &&& id_list_has(g1.in_map()[edge2.target_id@]@, e)
    } by {
        assert(g0.has_edge(e));
        let edge2 = g0.edges_map()[e];
        assert(!incident(edge2, nid));
        assert(g0.has_node(edge2.source_id@) && g0.has_node(edge2.target_id@));
        assert(g1.has_node(edge2.source_id@) && g1.has_node(edge2.target_id@));
        assert(id_list_has(g0.out_map()[edge2.source_id@]@, e));
        assert(id_list_has(g0.in_map()[edge2.target_id@]@, e));
        assert(g1.out_map().dom().contains(edge2.source_id@));
        assert(g1.in_map().dom().contains(edge2.target_id@));
    }
}

impl Graph {
    /// Remove a node; fails if it is absent. Every edge that leaves or
    /// enters the node is removed, and both adjacency indexes are purged
    /// of references to those edges.
    #[verifier::rlimit(60)]
    pub fn remove_node(&mut self, node_id: &str) -> (r: Result<Node, NeoDbError>)
        requires
            old(self).wf(),
        ensures
            final(self).wf(),
            match r {
                Ok(node) => {
                    &&& old(self).has_node(node_id@)
                    &&& node == old(self).nodes_map()[node_id@]
                    &&& final(self).nodes_map() =~= old(self).nodes_map().remove(node_id@)
                    &&& forall|e: Seq<char>|
                        #[trigger] final(self).has_edge(e) <==> old(self).has_edge(e) && !incident(
                            old(self).edges_map()[e],
                            node_id@,
                        )
                    &&& forall|e: Seq<char>|
                        #[trigger] final(self).has_edge(e) ==> final(self).edges_map()[e] == old(self).edges_map()[e]
                    &&& forall|n: Seq<char>, e: Seq<char>|
                        final(self).has_node(n) ==> (#[trigger] id_list_has(
                            final(self).out_map()[n]@,
                            e,
                        ) <==> id_list_has(old(self).out_map()[n]@, e) && final(self).has_edge(e))
                    &&& forall|n: Seq<char>, e: Seq<char>|
                        final(self).has_node(n) ==> (#[trigger] id_list_has(
                            final(self).in_map()[n]@,
                            e,
                        ) <==> id_list_has(old(self).in_map()[n]@, e) && final(self).has_edge(e))
                },
                Err(err) => {
                    &&& err matches NeoDbError::NodeNotFound { id } && id@ == node_id@
                    &&& !old(self).has_node(node_id@)
                    &&& *final(self) == *old(self)
                },
            },
    {
        let idx = match kv_find(&self.nodes, node_id) {
            Some(i) => i,
            None => {
                proof {
                    lemma_kv_map_dom(self.nodes@, node_id@);
                }
                return Err(NeoDbError::NodeNotFound { id: node_id.to_owned() });
            },
        };
        proof {
            lemma_kv_map_index(self.nodes@, idx as int);
            lemma_kv_map_remove(self.nodes@, idx as int);
        }
        let pair = self.nodes.remove(idx);
        let node = pair.1;
        let ghost nid = node_id@;

        remove_incident_edges(&mut self.edges, node_id);

        let new_out = filtered_adjacency(&self.outgoing_edges, node_id, &self.edges);
        self.outgoing_edges = new_out;
        let new_in = filtered_adjacency(&self.incoming_edges, node_id, &self.edges);
        self.incoming_edges = new_in;

        proof {
            let g0 = *old(self);
            let g1 = *self;
            lemma_remove_node_wf(g0, g1, nid);
            assert forall|n: Seq<char>, e: Seq<char>| g1.has_node(n) implies (#[trigger]
            id_list_has(g1.out_map()[n]@, e) <==> id_list_has(g0.out_map()[n]@, e)
                && g1.has_edge(e)) by {
                assert(g1.out_map().dom().contains(n));
            }
            assert forall|n: Seq<char>, e: Seq<char>| g1.has_node(n) implies (#[trigger]
            id_list_has(g1.in_map()[n]@, e) <==> id_list_has(g0.in_map()[n]@, e)
                && g1.has_edge(e)) by {
                assert(g1.in_map().dom().contains(n));
            }
        }
        Ok(node)
    }
}

/// Whether the node's property map holds `value` under `key`.
pub open spec fn props_match(n: Node, key: Seq<char>, value: PropertyValue) -> bool {
    n.props().dom().contains(key) && pv_eq(n.props()[key], value)
}

/// Referential integrity: every edge of a well-formed graph joins two nodes
/// that are present in the node table.
pub proof fn lemma_referential_integrity(g: Graph, e: Seq<char>)
    requires
        g.wf(),
        g.has_edge(e),
    ensures
        g.has_node(g.edges_map()[e].source_id@),
        g.has_node(g.edges_map()[e].target_id@),
{
}

/// No dangling adjacency: every edge id in a node's outgoing or incoming
/// index resolves to an edge that is present in the edge table.
pub proof fn lemma_no_dangling_adjacency(g: Graph, n: Seq<char>, i: int)
    requires
        g.wf(),
        g.has_node(n),
    ensures
        0 <= i < g.out_map()[n]@.len() ==> g.has_edge(g.out_map()[n]@[i]@),
        0 <= i < g.in_map()[n]@.len() ==> g.has_edge(g.in_map()[n]@[i]@),
{
}

impl Graph {
    /// Borrow the edges leaving a node, in the order of its outgoing index;
    /// an absent node has none.
    pub fn get_outgoing_edges(&self, node_id: &str) -> (r: Vec<&Edge>)
        requires
            self.wf(),
        ensures
            self.has_node(node_id@) ==> r@.len() == self.out_map()[node_id@]@.len() && (forall|
                i: int,
            |
                0 <= i < r@.len() ==> *(#[trigger] r@[i]) == self.edges_map()[self.out_map()[node_id@]@[i]@]),
            !self.has_node(node_id@) ==> r@.len() == 0,
    {
        let mut r: Vec<&Edge> = Vec::new();
        let list = match kv_get(&self.outgoing_edges, node_id) {
            Some(l) => l,
            None => {
                return r;
            },
        };
        let mut i: usize = 0;
        while i < list.len()
            invariant
                self.wf(),
                self.out_map().dom().contains(node_id@),
                *list == self.out_map()[node_id@],
                0 <= i <= list@.len(),
                r@.len() == i,
                forall|j: int|
                    0 <= j < i ==> *(#[trigger] r@[j]) == self.edges_map()[self.out_map()[node_id@]@[j]@],
            decreases list@.len() - i,
        {
            let e = match kv_get(&self.edges, list[i].as_str()) {
                Some(e) => e,
                None => {
                    proof {
                        assert(self.has_edge(self.out_map()[node_id@]@[i as int]@));
                        assert(false);
                    }
                    unreached()
                },
            };
            r.push(e);
            i = i + 1;
        }
        r
    }

    /// Borrow the edges entering a node, in the order of its incoming index;
    /// an absent node has none.
    pub fn get_incoming_edges(&self, node_id: &str) -> (r: Vec<&Edge>)
        requires
            self.wf(),
        ensures
            self.has_node(node_id@) ==> r@.len() == self.in_map()[node_id@]@.len() && (forall|
                i: int,
            |
                0 <= i < r@.len() ==> *(#[trigger] r@[i]) == self.edges_map()[self.in_map()[node_id@]@[i]@]),
            !self.has_node(node_id@) ==> r@.len() == 0,
    {
        let mut r: Vec<&Edge> = Vec::new();
        let list = match kv_get(&self.incoming_edges, node_id) {
            Some(l) => l,
            None => {
                return r;
            },
        };
        let mut i: usize = 0;
        while i < list.len()
            invariant
                self.wf(),
                self.in_map().dom().contains(node_id@),
                *list == self.in_map()[node_id@],
                0 <= i <= list@.len(),
                r@.len() == i,
                forall|j: int|
                    0 <= j < i ==> *(#[trigger] r@[j]) == self.edges_map()[self.in_map()[node_id@]@[j]@],
            decreases list@.len() - i,
        {
            let e = match kv_get(&self.edges, list[i].as_str()) {
                Some(e) => e,
                None => {
                    proof {
                        assert(self.has_edge(self.in_map()[node_id@]@[i as int]@));
                        assert(false);
                    }
                    unreached()
                },
            };
            r.push(e);
            i = i + 1;
        }
        r
    }

    /// Borrow the neighbors of a node: the target of every outgoing edge,
    /// then the source of every incoming edge. A pair of nodes joined by
    /// several edges appears once per edge.
    pub fn get_neighbors(&self, node_id: &str) -> (r: Vec<&Node>)
        requires
            self.wf(),
        ensures
            self.has_node(node_id@) ==> {
                &&& r@.len() == self.out_map()[node_id@]@.len() + self.in_map()[node_id@]@.len()
                &&& forall|i: int|
                    0 <= i < self.out_map()[node_id@]@.len() ==> *(#[trigger] r@[i])
                        == self.nodes_map()[self.edges_map()[self.out_map()[node_id@]@[i]@].target_id@]
                &&& forall|i: int|
                    self.out_map()[node_id@]@.len() <= i < r@.len() ==> *(#[trigger] r@[i])
                        == self.nodes_map()[self.edges_map()[self.in_map()[node_id@]@[i
                        - self.out_map()[node_id@]@.len()]@].source_id@]
            },
            !self.has_node(node_id@) ==> r@.len() == 0,
    {
        let mut r: Vec<&Node> = Vec::new();
        let out_list = match kv_get(&self.outgoing_edges, node_id) {
            Some(l) => l,
            None => {
                return r;
            },
        };
        let mut i: usize = 0;
        while i < out_list.len()
            invariant
                self.wf(),
                self.out_map().dom().contains(node_id@),
                *out_list == self.out_map()[node_id@],
                0 <= i <= out_list@.len(),
                r@.len() == i,
                forall|j: int|
                    0 <= j < i ==> *(#[trigger] r@[j]) == self.nodes_map()[self.edges_map()[self.out_map()[node_id@]@[j]@].target_id@],
            decreases out_list@.len() - i,
        {
            proof {
                assert(self.has_edge(self.out_map()[node_id@]@[i as int]@));
            }
            let edge = match kv_get(&self.edges, out_list[i].as_str()) {
                Some(e) => e,
                None => unreached(),
            };
            let node = match kv_get(&self.nodes, edge.target_id.as_str()) {
                Some(n) => n,
                None => unreached(),
            };
            r.push(node);
            i = i + 1;
        }
        let in_list = match kv_get(&self.incoming_edges, node_id) {
            Some(l) => l,
            None => unreached(),
        };
        let mut k: usize = 0;
        while k < in_list.len()
            invariant
                self.wf(),
                self.out_map().dom().contains(node_id@),
                self.in_map().dom().contains(node_id@),
                *in_list == self.in_map()[node_id@],
                0 <= k <= in_list@.len(),
                r@.len() == self.out_map()[node_id@]@.len() + k,
                forall|j: int|
                    0 <= j < self.out_map()[node_id@]@.len() ==> *(#[trigger] r@[j])
                        == self.nodes_map()[self.edges_map()[self.out_map()[node_id@]@[j]@].target_id@],
                forall|j: int|
                    self.out_map()[node_id@]@.len() <= j < r@.len() ==> *(#[trigger] r@[j])
                        == self.nodes_map()[self.edges_map()[self.in_map()[node_id@]@[j
                        - self.out_map()[node_id@]@.len()]@].source_id@],
            decreases in_list@.len() - k,
        {
            proof {
                assert(self.has_edge(self.in_map()[node_id@]@[k as int]@));
            }
            let edge = match kv_get(&self.edges, in_list[k].as_str()) {
                Some(e) => e,
                None => unreached(),
            };
            let node = match kv_get(&self.nodes, edge.source_id.as_str()) {
                Some(n) => n,
                None => unreached(),
            };
            r.push(node);
            k = k + 1;
        }
        r
    }

    /// Borrow every node that carries the label; linear scan over all nodes.
    pub fn find_nodes_by_label(&self, label: &str) -> (r: Vec<&Node>)
        requires
            self.wf(),
        ensures
            forall|i: int|
                0 <= i < r@.len() ==> {
                    &&& self.has_node((#[trigger] r@[i]).id@)
                    &&& *r@[i] == self.nodes_map()[r@[i].id@]
                    &&& r@[i].has_label_spec(label@)
                },
            forall|k: Seq<char>|
                #[trigger] self.has_node(k) && self.nodes_map()[k].has_label_spec(label@)
                    ==> exists|i: int| 0 <= i < r@.len() && (#[trigger] r@[i]).id@ == k,
            forall|i: int, j: int| 0 <= i < j < r@.len() ==> r@[i].id@ != r@[j].id@,
    {
        let mut r: Vec<&Node> = Vec::new();
        let mut i: usize = 0;
        while i < self.nodes.len()
            invariant
                self.wf(),
                0 <= i <= self.nodes@.len(),
                forall|j: int|
                    0 <= j < r@.len() ==> {
                        &&& self.has_node((#[trigger] r@[j]).id@)
                        &&& *r@[j] == self.nodes_map()[r@[j].id@]
                        &&& r@[j].has_label_spec(label@)
                    },
                forall|t: int|
                    0 <= t < i && (#[trigger] self.nodes@[t]).1.has_label_spec(label@)
                        ==> exists|j: int| 0 <= j < r@.len() && (#[trigger] r@[j]).id@
                        == self.nodes@[t].0@,
                forall|j: int|
                    0 <= j < r@.len() ==> exists|t: int|
                        0 <= t < i && (#[trigger] r@[j]).id@ == self.nodes@[t].0@,
                forall|a: int, b: int| 0 <= a < b < r@.len() ==> r@[a].id@ != r@[b].id@,
            decreases self.nodes@.len() - i,
        {
            proof {
                lemma_kv_map_index(self.nodes@, i as int);
                assert(self.has_node(self.nodes@[i as int].0@));
                assert(self.nodes@[i as int].1.id@ == self.nodes@[i as int].0@);
            }
            if self.nodes[i].1.has_label(label) {
                let ghost rpre = r@;
                r.push(&self.nodes[i].1);
                proof {
                    assert(r@.len() == rpre.len() + 1);
                    assert(r@[r@.len() - 1] == &self.nodes@[i as int].1);
                    assert forall|a: int, b: int| 0 <= a < b < r@.len() implies r@[a].id@
                        != r@[b].id@ by {
                        if b == r@.len() - 1 {
                            let t = choose|t: int|
                                0 <= t < i && (#[trigger] rpre[a]).id@ == self.nodes@[t].0@;
                            assert(self.nodes@[t].0@ != self.nodes@[i as int].0@);
                        }
                    }
                    assert forall|t: int|
                        0 <= t < i + 1 && (#[trigger] self.nodes@[t]).1.has_label_spec(label@)
                        implies exists|j: int|
                        0 <= j < r@.len() && (#[trigger] r@[j]).id@ == self.nodes@[t].0@ by {
                        if t == i {
                            assert(r@[r@.len() - 1].id@ == self.nodes@[t].0@);
                        } else {
                            let j = choose|j: int|
                                0 <= j < rpre.len() && (#[trigger] rpre[j]).id@
                                    == self.nodes@[t].0@;
                            assert(r@[j].id@ == self.nodes@[t].0@);
                        }
                    }
                }
            }
            i = i + 1;
        }
        proof {
            assert forall|k: Seq<char>|
                #[trigger] self.has_node(k) && self.nodes_map()[k].has_label_spec(label@) implies
            exists|j: int| 0 <= j < r@.len() && (#[trigger] r@[j]).id@ == k by {
                lemma_kv_map_dom(self.nodes@, k);
                let t = choose|t: int| 0 <= t < self.nodes@.len() && self.nodes@[t].0@ == k;
                lemma_kv_map_index(self.nodes@, t);
            }
        }
        r
    }

    /// Borrow every node whose property under `key` equals `value`;
    /// linear scan over all nodes.
    pub fn find_nodes_by_property(&self, key: &str, value: &PropertyValue) -> (r: Vec<&Node>)
        requires
            self.wf(),
        ensures
            forall|i: int|
                0 <= i < r@.len() ==> {
                    &&& self.has_node((#[trigger] r@[i]).id@)
                    &&& *r@[i] == self.nodes_map()[r@[i].id@]
                    &&& props_match(*r@[i], key@, *value)
                },
            forall|k: Seq<char>|
                #[trigger] self.has_node(k) && props_match(self.nodes_map()[k], key@, *value)
                    ==> exists|i: int| 0 <= i < r@.len() && (#[trigger] r@[i]).id@ == k,
            forall|i: int, j: int| 0 <= i < j < r@.len() ==> r@[i].id@ != r@[j].id@,
    {
        let mut r: Vec<&Node> = Vec::new();
        let mut i: usize = 0;
        while i < self.nodes.len()
            invariant
                self.wf(),
                0 <= i <= self.nodes@.len(),
                forall|j: int|
                    0 <= j < r@.len() ==> {
                        &&& self.has_node((#[trigger] r@[j]).id@)
                        &&& *r@[j] == self.nodes_map()[r@[j].id@]
                        &&& props_match(*r@[j], key@, *value)
                    },
                forall|t: int|
                    0 <= t < i && props_match((#[trigger] self.nodes@[t]).1, key@, *value)
                        ==> exists|j: int| 0 <= j < r@.len() && (#[trigger] r@[j]).id@
                        == self.nodes@[t].0@,
                forall|j: int|
                    0 <= j < r@.len() ==> exists|t: int|
                        0 <= t < i && (#[trigger] r@[j]).id@ == self.nodes@[t].0@,
                forall|a: int, b: int| 0 <= a < b < r@.len() ==> r@[a].id@ != r@[b].id@,
            decreases self.nodes@.len() - i,
        {
            proof {
                lemma_kv_map_index(self.nodes@, i as int);
                assert(self.has_node(self.nodes@[i as int].0@));
                assert(self.nodes@[i as int].1.id@ == self.nodes@[i as int].0@);
                assert(self.nodes@[i as int].1.wf());
            }
            let matched = match self.nodes[i].1.get_property(key) {
                Some(v) => v.eq_value(value),
                None => false,
            };
            if matched {
                let ghost rpre = r@;
                r.push(&self.nodes[i].1);
                proof {
                    assert(r@[r@.len() - 1] == &self.nodes@[i as int].1);
                    assert forall|a: int, b: int| 0 <= a < b < r@.len() implies r@[a].id@
                        != r@[b].id@ by {
                        if b == r@.len() - 1 {
                            let t = choose|t: int|
                                0 <= t < i && (#[trigger] rpre[a]).id@ == self.nodes@[t].0@;
                            assert(self.nodes@[t].0@ != self.nodes@[i as int].0@);
                        }
                    }
                    assert forall|t: int|
                        0 <= t < i + 1 && props_match(
                            (#[trigger] self.nodes@[t]).1,
                            key@,
                            *value,
                        ) implies exists|j: int|
                        0 <= j < r@.len() && (#[trigger] r@[j]).id@ == self.nodes@[t].0@ by {
                        if t == i {
                            assert(r@[r@.len() - 1].id@ == self.nodes@[t].0@);
                        } else {
                            let j = choose|j: int|
                                0 <= j < rpre.len() && (#[trigger] rpre[j]).id@
                                    == self.nodes@[t].0@;
                            assert(r@[j].id@ == self.nodes@[t].0@);
                        }
                    }
                }
            } else {
                proof {
                    assert(!props_match(self.nodes@[i as int].1, key@, *value));
                }
            }
            i = i + 1;
        }
        proof {
            assert forall|k: Seq<char>|
                #[trigger] self.has_node(k) && props_match(self.nodes_map()[k], key@, *value)
                implies exists|j: int| 0 <= j < r@.len() && (#[trigger] r@[j]).id@ == k by {
                lemma_kv_map_dom(self.nodes@, k);
                let t = choose|t: int| 0 <= t < self.nodes@.len() && self.nodes@[t].0@ == k;
                lemma_kv_map_index(self.nodes@, t);
            }
        }
        r
    }

    /// Borrow every node of the graph, in table order.
    pub fn nodes(&self) -> (r: Vec<&Node>)
        requires
            self.wf(),
        ensures
            r@.len() == self.nodes_map().dom().len(),
            forall|i: int|
                0 <= i < r@.len() ==> self.has_node((#[trigger] r@[i]).id@) && *r@[i]
                    == self.nodes_map()[r@[i].id@],
            forall|k: Seq<char>|
                #[trigger] self.has_node(k) ==> exists|i: int|
                    0 <= i < r@.len() && (#[trigger] r@[i]).id@ == k,
            forall|i: int, j: int| 0 <= i < j < r@.len() ==> r@[i].id@ != r@[j].id@,
    {
        proof {
            lemma_kv_map_len(self.nodes@);
        }
        let mut r: Vec<&Node> = Vec::new();
        let mut i: usize = 0;
        while i < self.nodes.len()
            invariant
                self.wf(),
                0 <= i <= self.nodes@.len(),
                r@.len() == i,
                forall|j: int|
                    0 <= j < i ==> self.has_node((#[trigger] r@[j]).id@) && *r@[j]
                        == self.nodes_map()[r@[j].id@] && r@[j].id@ == self.nodes@[j].0@,
            decreases self.nodes@.len() - i,
        {
            proof {
                lemma_kv_map_index(self.nodes@, i as int);
                assert(self.has_node(self.nodes@[i as int].0@));
                assert(self.nodes@[i as int].1.id@ == self.nodes@[i as int].0@);
            }
            r.push(&self.nodes[i].1);
            i = i + 1;
        }
        proof {
            assert forall|k: Seq<char>| #[trigger] self.has_node(k) implies exists|i: int|
                0 <= i < r@.len() && (#[trigger] r@[i]).id@ == k by {
                lemma_kv_map_dom(self.nodes@, k);
                let t = choose|t: int| 0 <= t < self.nodes@.len() && self.nodes@[t].0@ == k;
                assert(r@[t].id@ == k);
            }
        }
        r
    }

    /// Borrow every edge of the graph, in table order.
    pub fn edges(&self) -> (r: Vec<&Edge>)
        requires
            self.wf(),
        ensures
            r@.len() == self.edges_map().dom().len(),
            forall|i: int|
                0 <= i < r@.len() ==> self.has_edge((#[trigger] r@[i]).id@) && *r@[i]
                    == self.edges_map()[r@[i].id@],
            forall|k: Seq<char>|
                #[trigger] self.has_edge(k) ==> exists|i: int|
                    0 <= i < r@.len() && (#[trigger] r@[i]).id@ == k,
            forall|i: int, j: int| 0 <= i < j < r@.len() ==> r@[i].id@ != r@[j].id@,
    {
        proof {
            lemma_kv_map_len(self.edges@);
        }
        let mut r: Vec<&Edge> = Vec::new();
        let mut i: usize = 0;
        while i < self.edges.len()
            invariant
                self.wf(),
                0 <= i <= self.edges@.len(),
                r@.len() == i,
                forall|j: int|
                    0 <= j < i ==> self.has_edge((#[trigger] r@[j]).id@) && *r@[j]
                        == self.edges_map()[r@[j].id@] && r@[j].id@ == self.edges@[j].0@,
            decreases self.edges@.len() - i,
        {
            proof {
                lemma_kv_map_index(self.edges@, i as int);
                assert(self.has_edge(self.edges@[i as int].0@));
                assert(self.edges@[i as int].1.id@ == self.edges@[i as int].0@);
            }
            r.push(&self.edges[i].1);
            i = i + 1;
        }
        proof {
            assert forall|k: Seq<char>| #[trigger] self.has_edge(k) implies exists|i: int|
                0 <= i < r@.len() && (#[trigger] r@[i]).id@ == k by {
                lemma_kv_map_dom(self.edges@, k);
                let t = choose|t: int| 0 <= t < self.edges@.len() && self.edges@[t].0@ == k;
                assert(r@[t].id@ == k);
            }
        }
        r
    }
}

/// A well-formed graph has finitely many nodes and edges, so counts can be
/// reasoned about arithmetically.
pub proof fn lemma_tables_finite(g: Graph)
    requires
        g.wf(),
    ensures
        g.nodes_map().dom().finite(),
        g.edges_map().dom().finite(),
{
    lemma_kv_map_len(g.nodes@);
    lemma_kv_map_len(g.edges@);
}

/// Well-formedness survives replacing one stored node by another with the
/// same id, when nothing else changes.
#[verifier::spinoff_prover]
proof fn lemma_node_replace_wf(g0: Graph, g1: Graph, k: Seq<char>, n1: Node)
    requires
        g0.wf(),
        g0.has_node(k),
        n1.id@ == k,
        n1.wf(),
        kv_unique(g1.nodes@),
        g1.nodes_map() == g0.nodes_map().insert(k, n1),
        g1.edges == g0.edges,
        g1.outgoing_edges == g0.outgoing_edges,
        g1.incoming_edges == g0.incoming_edges,
    ensures
        g1.wf(),
{
    assert(g1.nodes_map().dom() =~= g0.nodes_map().dom());
    assert forall|k2: Seq<char>| #[trigger] g1.has_node(k2) implies g1.nodes_map()[k2].id@ == k2
        && g1.nodes_map()[k2].wf() by {
        if k2 != k {
            assert(g0.has_node(k2));
        }
    }
    assert forall|e: Seq<char>| #[trigger] g1.has_edge(e) implies g1.edges_map()[e].id@ == e
        && g1.edges_map()[e].wf() by {
        assert(g0.has_edge(e));
    }
    assert(g1.out_map().dom() =~= g1.nodes_map().dom());
    assert(g1.in_map().dom() =~= g1.nodes_map().dom());
    assert forall|n: Seq<char>| g1.out_map().dom().contains(n) implies id_list_unique(
        (#[trigger] g1.out_map()[n])@,
    ) by {
        assert(g0.out_map().dom().contains(n));
    }
    assert forall|n: Seq<char>| g1.in_map().dom().contains(n) implies id_list_unique(
        (#[trigger] g1.in_map()[n])@,
    ) by {
        assert(g0.in_map().dom().contains(n));
    }
    assert forall|n: Seq<char>, i: int|
        g1.out_map().dom().contains(n) && 0 <= i < g1.out_map()[n]@.len() implies {
        let e = (#[trigger] g1.out_map()[n]@[i])@;
        g1.has_edge(e) && g1.edges_map()[e].source_id@ == n
    } by {
        assert(g0.out_map().dom().contains(n));
        assert(g0.out_map()[n]@[i]@ == g1.out_map()[n]@[i]@);
    }
    assert forall|n: Seq<char>, i: int|
        g1.in_map().dom().contains(n) && 0 <= i < g1.in_map()[n]@.len() implies {
        let e = (#[trigger] g1.in_map()[n]@[i])@;
        g1.has_edge(e) && g1.edges_map()[e].target_id@ == n
    } by {
        assert(g0.in_map().dom().contains(n));
        assert(g0.in_map()[n]@[i]@ == g1.in_map()[n]@[i]@);
    }
    assert forall|e: Seq<char>| #[trigger] g1.has_edge(e) implies {
        let edge = g1.edges_map()[e];
        &&& g1.has_node(edge.source_id@)
        &&& g1.has_node(edge.target_id@)
        &&& id_list_has(g1.out_map()[edge.source_id@]@, e)
        &&& id_list_has(g1.in_map()[edge.target_id@]@, e)
    } by {
        assert(g0.has_edge(e));
        assert(g0.has_node(g0.edges_map()[e].source_id@));
        assert(g0.has_node(g0.edges_map()[e].target_id@));
    }
}

/// Well-formedness survives replacing one stored edge by another with the
/// same id and endpoints, when nothing else changes.
#[verifier::spinoff_prover]
proof fn lemma_edge_replace_wf(g0: Graph, g1: Graph, k: Seq<char>, e1: Edge)
    requires
        g0.wf(),
        g0.has_edge(k),
        e1.id@ == k,
        e1.source_id@ == g0.edges_map()[k].source_id@,
        e1.target_id@ == g0.edges_map()[k].target_id@,
        e1.wf(),
        kv_unique(g1.edges@),
        g1.edges_map() == g0.edges_map().insert(k, e1),
        g1.nodes == g0.nodes,
        g1.outgoing_edges == g0.outgoing_edges,
        g1.incoming_edges == g0.incoming_edges,
    ensures
        g1.wf(),
{
    assert(g1.edges_map().dom() =~= g0.edges_map().dom());
    assert forall|k2: Seq<char>| #[trigger] g1.has_node(k2) implies g1.nodes_map()[k2].id@ == k2
        && g1.nodes_map()[k2].wf() by {
        assert(g0.has_node(k2));
    }
    assert forall|e: Seq<char>| #[trigger] g1.has_edge(e) implies g1.edges_map()[e].id@ == e
        && g1.edges_map()[e].wf() by {
        if e != k {
            assert(g0.has_edge(e));
        }
    }
    assert(g1.out_map().dom() =~= g1.nodes_map().dom());
    assert(g1.in_map().dom() =~= g1.nodes_map().dom());
    assert forall|n: Seq<char>| g1.out_map().dom().contains(n) implies id_list_unique(
        (#[trigger] g1.out_map()[n])@,
    ) by {
        assert(g0.out_map().dom().contains(n));
    }
    assert forall|n: Seq<char>| g1.in_map().dom().contains(n) implies id_list_unique(
        (#[trigger] g1.in_map()[n])@,
    ) by {
        assert(g0.in_map().dom().contains(n));
    }
    assert forall|n: Seq<char>, i: int|
        g1.out_map().dom().contains(n) && 0 <= i < g1.out_map()[n]@.len() implies {
        let e = (#[trigger] g1.out_map()[n]@[i])@;
        g1.has_edge(e) && g1.edges_map()[e].source_id@ == n
    } by {
        assert(g0.out_map().dom().contains(n));
        assert(g0.out_map()[n]@[i]@ == g1.out_map()[n]@[i]@);
        let e = g1.out_map()[n]@[i]@;
        assert(g0.has_edge(e) && g0.edges_map()[e].source_id@ == n);
    }
    assert forall|n: Seq<char>, i: int|
        g1.in_map().dom().contains(n) && 0 <= i < g1.in_map()[n]@.len() implies {
        let e = (#[trigger] g1.in_map()[n]@[i])@;
        g1.has_edge(e) && g1.edges_map()[e].target_id@ == n
    } by {
        assert(g0.in_map().dom().contains(n));
        assert(g0.in_map()[n]@[i]@ == g1.in_map()[n]@[i]@);
        let e = g1.in_map()[n]@[i]@;
        assert(g0.has_edge(e) && g0.edges_map()[e].target_id@ == n);
    }
    assert forall|e: Seq<char>| #[trigger] g1.has_edge(e) implies {
        let edge = g1.edges_map()[e];
        &&& g1.has_node(edge.source_id@)
        &&& g1.has_node(edge.target_id@)
        &&& id_list_has(g1.out_map()[edge.source_id@]@, e)
        &&& id_list_has(g1.in_map()[edge.target_id@]@, e)
    } by {
        assert(g0.has_edge(e));
        assert(g0.has_node(g0.edges_map()[e].source_id@));
        assert(g0.has_node(g0.edges_map()[e].target_id@));
        assert(id_list_has(g0.out_map()[g0.edges_map()[e].source_id@]@, e));
        assert(id_list_has(g0.in_map()[g0.edges_map()[e].target_id@]@, e));
    }
}

impl Graph {
    /// Store a property on the stored node with this id; fails if absent.
    pub fn set_node_property(&mut self, node_id: &str, key: String, value: PropertyValue) -> (r:
        Result<(), NeoDbError>)
        requires
            old(self).wf(),
        ensures
            final(self).wf(),
            match r {
                Ok(()) => {
                    &&& old(self).has_node(node_id@)
                    &&& final(self).nodes_map().dom() =~= old(self).nodes_map().dom()
                    &&& {
                        let n0 = old(self).nodes_map()[node_id@];
                        let n1 = final(self).nodes_map()[node_id@];
                        &&& n1.id@ == n0.id@
                        &&& n1.labels == n0.labels
                        &&& n1.props() =~= n0.props().insert(key@, value)
                    }
                    &&& forall|k2: Seq<char>|
                        k2 != node_id@ && #[trigger] old(self).has_node(k2) ==> final(self).nodes_map()[k2] == old(self).nodes_map()[k2]
                    &&& final(self).edges_map() == old(self).edges_map()
                    &&& final(self).out_map() == old(self).out_map()
                    &&& final(self).in_map() == old(self).in_map()
                },
                Err(e) => {
                    &&& e matches NeoDbError::NodeNotFound { id } && id@ == node_id@
                    &&& !old(self).has_node(node_id@)
                    &&& *final(self) == *old(self)
                },
            },
    {
        let idx = match kv_find(&self.nodes, node_id) {
            Some(i) => i,
            None => {
                proof {
                    lemma_kv_map_dom(self.nodes@, node_id@);
                }
                return Err(NeoDbError::NodeNotFound { id: node_id.to_owned() });
            },
        };
        proof {
            lemma_kv_map_index(self.nodes@, idx as int);
            lemma_kv_map_remove(self.nodes@, idx as int);
            assert(self.has_node(node_id@));
            assert(self.nodes_map()[node_id@].wf());
        }
        let pair = self.nodes.remove(idx);
        let entry_key = pair.0;
        let mut node = pair.1;
        node.set_property(key, value);
        let ghost gnode = node;
        kv_set(&mut self.nodes, entry_key, node);
        proof {
            assert(self.nodes_map() =~= old(self).nodes_map().insert(node_id@, gnode));
            lemma_node_replace_wf(*old(self), *self, node_id@, gnode);
        }
        Ok(())
    }

    /// Remove a property from the stored node with this id; fails if the
    /// node is absent, and reports the removed value if it was present.
    pub fn remove_node_property(&mut self, node_id: &str, key: &str) -> (r: Result<
        Option<PropertyValue>,
        NeoDbError,
    >)
        requires
            old(self).wf(),
        ensures
            final(self).wf(),
            match r {
                Ok(removed) => {
                    &&& old(self).has_node(node_id@)
                    &&& final(self).nodes_map().dom() =~= old(self).nodes_map().dom()
                    &&& {
                        let n0 = old(self).nodes_map()[node_id@];
                        let n1 = final(self).nodes_map()[node_id@];
                        &&& n1.id@ == n0.id@
                        &&& n1.labels == n0.labels
                        &&& n1.props() =~= n0.props().remove(key@)
                        &&& match removed {
                            Some(v) => n0.props().dom().contains(key@) && v == n0.props()[key@],
                            None => !n0.props().dom().contains(key@),
                        }
                    }
                    &&& forall|k2: Seq<char>|
                        k2 != node_id@ && #[trigger] old(self).has_node(k2) ==> final(self).nodes_map()[k2] == old(self).nodes_map()[k2]
                    &&& final(self).edges_map() == old(self).edges_map()
                    &&& final(self).out_map() == old(self).out_map()
                    &&& final(self).in_map() == old(self).in_map()
                },
                Err(e) => {
                    &&& e matches NeoDbError::NodeNotFound { id } && id@ == node_id@
                    &&& !old(self).has_node(node_id@)
                    &&& *final(self) == *old(self)
                },
            },
    {
        let idx = match kv_find(&self.nodes, node_id) {
            Some(i) => i,
            None => {
                proof {
                    lemma_kv_map_dom(self.nodes@, node_id@);
                }
                return Err(NeoDbError::NodeNotFound { id: node_id.to_owned() });
            },
        };
        proof {
            lemma_kv_map_index(self.nodes@, idx as int);
            lemma_kv_map_remove(self.nodes@, idx as int);
            assert(self.has_node(node_id@));
            assert(self.nodes_map()[node_id@].wf());
        }
        let pair = self.nodes.remove(idx);
        let entry_key = pair.0;
        let mut node = pair.1;
        let removed = node.remove_property(key);
        let ghost gnode = node;
        kv_set(&mut self.nodes, entry_key, node);
        proof {
            assert(self.nodes_map() =~= old(self).nodes_map().insert(node_id@, gnode));
            lemma_node_replace_wf(*old(self), *self, node_id@, gnode);
        }
        Ok(removed)
    }

    /// Add a label to the stored node with this id; fails if absent.
    pub fn add_node_label(&mut self, node_id: &str, label: String) -> (r: Result<(), NeoDbError>)
        requires
            old(self).wf(),
        ensures
            final(self).wf(),
            match r {
                Ok(()) => {
                    &&& old(self).has_node(node_id@)
                    &&& final(self).nodes_map().dom() =~= old(self).nodes_map().dom()
                    &&& {
                        let n0 = old(self).nodes_map()[node_id@];
                        let n1 = final(self).nodes_map()[node_id@];
                        &&& n1.id@ == n0.id@
                        &&& n1.properties == n0.properties
                        &&& forall|l: Seq<char>|
                            n1.has_label_spec(l) <==> n0.has_label_spec(l) || l == label@
                    }
                    &&& forall|k2: Seq<char>|
                        k2 != node_id@ && #[trigger] old(self).has_node(k2) ==> final(self).nodes_map()[k2] == old(self).nodes_map()[k2]
                    &&& final(self).edges_map() == old(self).edges_map()
                    &&& final(self).out_map() == old(self).out_map()
                    &&& final(self).in_map() == old(self).in_map()
                },
                Err(e) => {
                    &&& e matches NeoDbError::NodeNotFound { id } && id@ == node_id@
                    &&& !old(self).has_node(node_id@)
                    &&& *final(self) == *old(self)
                },
            },
    {
        let idx = match kv_find(&self.nodes, node_id) {
            Some(i) => i,
            None => {
                proof {
                    lemma_kv_map_dom(self.nodes@, node_id@);
                }
                return Err(NeoDbError::NodeNotFound { id: node_id.to_owned() });
            },
        };
        proof {
            lemma_kv_map_index(self.nodes@, idx as int);
            lemma_kv_map_remove(self.nodes@, idx as int);
            assert(self.has_node(node_id@));
            assert(self.nodes_map()[node_id@].wf());
        }
        let pair = self.nodes.remove(idx);
        let entry_key = pair.0;
        let mut node = pair.1;
        node.add_label(label);
        let ghost gnode = node;
        kv_set(&mut self.nodes, entry_key, node);
        proof {
            assert(self.nodes_map() =~= old(self).nodes_map().insert(node_id@, gnode));
            lemma_node_replace_wf(*old(self), *self, node_id@, gnode);
        }
        Ok(())
    }

    /// Remove a label from the stored node with this id; fails if the node
    /// is absent, and reports whether the label was present.
    pub fn remove_node_label(&mut self, node_id: &str, label: &str) -> (r: Result<
        bool,
        NeoDbError,
    >)
        requires
            old(self).wf(),
        ensures
            final(self).wf(),
            match r {
                Ok(had) => {
                    &&& old(self).has_node(node_id@)
                    &&& final(self).nodes_map().dom() =~= old(self).nodes_map().dom()
                    &&& {
                        let n0 = old(self).nodes_map()[node_id@];
                        let n1 = final(self).nodes_map()[node_id@];
                        &&& n1.id@ == n0.id@
                        &&& n1.properties == n0.properties
                        &&& had == n0.has_label_spec(label@)
                        &&& forall|l: Seq<char>|
                            n1.has_label_spec(l) <==> n0.has_label_spec(l) && l != label@
                    }
                    &&& forall|k2: Seq<char>|
                        k2 != node_id@ && #[trigger] old(self).has_node(k2) ==> final(self).nodes_map()[k2] == old(self).nodes_map()[k2]
                    &&& final(self).edges_map() == old(self).edges_map()
                    &&& final(self).out_map() == old(self).out_map()
                    &&& final(self).in_map() == old(self).in_map()
                },
                Err(e) => {
                    &&& e matches NeoDbError::NodeNotFound { id } && id@ == node_id@
                    &&& !old(self).has_node(node_id@)
                    &&& *final(self) == *old(self)
                },
            },
    {
        let idx = match kv_find(&self.nodes, node_id) {
            Some(i) => i,
            None => {
                proof {
                    lemma_kv_map_dom(self.nodes@, node_id@);
                }
                return Err(NeoDbError::NodeNotFound { id: node_id.to_owned() });
            },
        };
        proof {
            lemma_kv_map_index(self.nodes@, idx as int);
            lemma_kv_map_remove(self.nodes@, idx as int);
            assert(self.has_node(node_id@));
            assert(self.nodes_map()[node_id@].wf());
        }
        let pair = self.nodes.remove(idx);
        let entry_key = pair.0;
        let mut node = pair.1;
        let had = node.remove_label(label);
        let ghost gnode = node;
        kv_set(&mut self.nodes, entry_key, node);
        proof {
            assert(self.nodes_map() =~= old(self).nodes_map().insert(node_id@, gnode));
            lemma_node_replace_wf(*old(self), *self, node_id@, gnode);
        }
        Ok(had)
    }

    /// Store a property on the stored edge with this id; fails if absent.
    pub fn set_edge_property(&mut self, edge_id: &str, key: String, value: PropertyValue) -> (r:
        Result<(), NeoDbError>)
        requires
            old(self).wf(),
        ensures
            final(self).wf(),
            match r {
                Ok(()) => {
                    &&& old(self).has_edge(edge_id@)
                    &&& final(self).edges_map().dom() =~= old(self).edges_map().dom()
                    &&& {
                        let e0 = old(self).edges_map()[edge_id@];
                        let e1 = final(self).edges_map()[edge_id@];
                        &&& e1.id@ == e0.id@
                        &&& e1.source_id == e0.source_id
                        &&& e1.target_id == e0.target_id
                        &&& e1.relationship_type == e0.relationship_type
                        &&& e1.props() =~= e0.props().insert(key@, value)
                    }
                    &&& forall|k2: Seq<char>|
                        k2 != edge_id@ && #[trigger] old(self).has_edge(k2) ==> final(self).edges_map()[k2] == old(self).edges_map()[k2]
                    &&& final(self).nodes_map() == old(self).nodes_map()
                    &&& final(self).out_map() == old(self).out_map()
                    &&& final(self).in_map() == old(self).in_map()
                },
                Err(e) => {
                    &&& e matches NeoDbError::EdgeNotFound { id } && id@ == edge_id@
                    &&& !old(self).has_edge(edge_id@)
                    &&& *final(self) == *old(self)
                },
            },
    {
        let idx = match kv_find(&self.edges, edge_id) {
            Some(i) => i,
            None => {
                proof {
                    lemma_kv_map_dom(self.edges@, edge_id@);
                }
                return Err(NeoDbError::EdgeNotFound { id: edge_id.to_owned() });
            },
        };
        proof {
            lemma_kv_map_index(self.edges@, idx as int);
            lemma_kv_map_remove(self.edges@, idx as int);
            assert(self.has_edge(edge_id@));
            assert(self.edges_map()[edge_id@].wf());
        }
        let pair = self.edges.remove(idx);
        let entry_key = pair.0;
        let mut edge = pair.1;
        edge.set_property(key, value);
        let ghost gedge = edge;
        kv_set(&mut self.edges, entry_key, edge);
        proof {
            assert(self.edges_map() =~= old(self).edges_map().insert(edge_id@, gedge));
            lemma_edge_replace_wf(*old(self), *self, edge_id@, gedge);
        }
        Ok(())
    }

    /// Remove a property from the stored edge with this id; fails if the
    /// edge is absent, and reports the removed value if it was present.
    pub fn remove_edge_property(&mut self, edge_id: &str, key: &str) -> (r: Result<
        Option<PropertyValue>,
        NeoDbError,
    >)
        requires
            old(self).wf(),
        ensures
            final(self).wf(),
            match r {
                Ok(removed) => {
                    &&& old(self).has_edge(edge_id@)
                    &&& final(self).edges_map().dom() =~= old(self).edges_map().dom()
                    &&& {
                        let e0 = old(self).edges_map()[edge_id@];
                        let e1 = final(self).edges_map()[edge_id@];
                        &&& e1.id@ == e0.id@
                        &&& e1.source_id == e0.source_id
                        &&& e1.target_id == e0.target_id
                        &&& e1.relationship_type == e0.relationship_type
                        &&& e1.props() =~= e0.props().remove(key@)
                        &&& match removed {
                            Some(v) => e0.props().dom().contains(key@) && v == e0.props()[key@],
                            None => !e0.props().dom().contains(key@),
                        }
                    }
                    &&& forall|k2: Seq<char>|
                        k2 != edge_id@ && #[trigger] old(self).has_edge(k2) ==> final(self).edges_map()[k2] == old(self).edges_map()[k2]
                    &&& final(self).nodes_map() == old(self).nodes_map()
                    &&& final(self).out_map() == old(self).out_map()
                    &&& final(self).in_map() == old(self).in_map()
                },
                Err(e) => {
                    &&& e matches NeoDbError::EdgeNotFound { id } && id@ == edge_id@
                    &&& !old(self).has_edge(edge_id@)
                    &&& *final(self) == *old(self)
                },
            },
    {
        let idx = match kv_find(&self.edges, edge_id) {
            Some(i) => i,
            None => {
                proof {
                    lemma_kv_map_dom(self.edges@, edge_id@);
                }
                return Err(NeoDbError::EdgeNotFound { id: edge_id.to_owned() });
            },
        };
        proof {
            lemma_kv_map_index(self.edges@, idx as int);
            lemma_kv_map_remove(self.edges@, idx as int);
            assert(self.has_edge(edge_id@));
            assert(self.edges_map()[edge_id@].wf());
        }
        let pair = self.edges.remove(idx);
        let entry_key = pair.0;
        let mut edge = pair.1;
        let removed = edge.remove_property(key);
        let ghost gedge = edge;
        kv_set(&mut self.edges, entry_key, edge);
        proof {
            assert(self.edges_map() =~= old(self).edges_map().insert(edge_id@, gedge));
            lemma_edge_replace_wf(*old(self), *self, edge_id@, gedge);
        }
        Ok(removed)
    }
}

} // verus!
