use vstd::prelude::*;

use crate::errors::NeoDbError;
use crate::external::rfc3339_now;
use crate::graph::{Edge, Graph, Node};
use crate::kv::kv_map;
use crate::value::PropertyValue;

verus! {

/// Database configuration options.
#[derive(Debug, Clone)]
pub struct DatabaseConfig {
    pub name: String,
    pub storage_path: Option<String>,
    pub cache_size: usize,
    pub enable_persistence: bool,
}

impl Default for DatabaseConfig {
    /// An in-memory database named "neodb" with a 1000-entry cache.
    fn default() -> (r: DatabaseConfig)
        ensures
            r.name@ == "neodb"@,
            r.storage_path is None,
            r.cache_size == 1000,
            !r.enable_persistence,
    {
        DatabaseConfig {
            name: "neodb".to_owned(),
            storage_path: None,
            cache_size: 1000,
            enable_persistence: false,
        }
    }
}

/// The facade over the graph store: it generates ids for new nodes and
/// edges and forwards every query and mutation to the graph.
#[derive(Debug)]
pub struct Database {
    config: DatabaseConfig,
    graph: Graph,
    metadata: Vec<(String, String)>,
}

impl Database {
    /// The underlying graph.
    pub closed spec fn graph_spec(self) -> Graph {
        self.graph
    }

    /// The configuration.
    pub closed spec fn config_spec(self) -> DatabaseConfig {
        self.config
    }

    /// The metadata entries: a version and a creation timestamp.
    pub closed spec fn metadata_spec(self) -> Seq<(String, String)> {
        self.metadata@
    }

    /// A database with the default configuration.
    pub fn new() -> (r: Database)
        ensures
            r.graph_spec().wf(),
            r.graph_spec().nodes_map().dom().len() == 0,
            r.graph_spec().edges_map().dom().len() == 0,
            r.config_spec().name@ == "neodb"@,
    {
        Self::with_config(DatabaseConfig::default())
    }

    /// A database with the given configuration and an empty graph; the
    /// metadata records the library version and the creation time.
    pub fn with_config(config: DatabaseConfig) -> (r: Database)
        ensures
            r.graph_spec().wf(),
            r.graph_spec().nodes_map().dom().len() == 0,
            r.graph_spec().edges_map().dom().len() == 0,
            r.config_spec() == config,
            r.metadata_spec().len() == 2,
            r.metadata_spec()[0].0@ == "version"@,
            r.metadata_spec()[1].0@ == "created_at"@,
    {
        let mut metadata: Vec<(String, String)> = Vec::new();
        metadata.push(("version".to_owned(), "0.1.0-rust".to_owned()));
        metadata.push(("created_at".to_owned(), rfc3339_now()));
        let graph = Graph::new();
        proof {
            assert(graph.nodes_map().dom() =~= Set::<Seq<char>>::empty());
            assert(graph.edges_map().dom() =~= Set::<Seq<char>>::empty());
        }
        Database { config, graph, metadata }
    }

    /// Create a node with a generated id, the given labels and properties;
    /// a later property value wins over an earlier one under the same key.
    /// Only a collision of the generated id can fail.
    pub fn create_node(
        &mut self,
        labels: Vec<String>,
        properties: Vec<(String, PropertyValue)>,
    ) -> (r: Result<String, NeoDbError>)
        requires
            old(self).graph_spec().wf(),
        ensures
            final(self).graph_spec().wf(),
            final(self).config_spec() == old(self).config_spec(),
            match r {
                Ok(id) => {
                    &&& !old(self).graph_spec().has_node(id@)
                    &&& final(self).graph_spec().has_node(id@)
                    &&& final(self).graph_spec().nodes_map().dom() =~= old(
                        self,
                    ).graph_spec().nodes_map().dom().insert(id@)
                    &&& {
                        let node = final(self).graph_spec().nodes_map()[id@];
                        &&& node.props() == kv_map(properties@)
                        &&& forall|l: Seq<char>|
                            node.has_label_spec(l) <==> exists|i: int|
                                0 <= i < labels@.len() && (#[trigger] labels@[i])@ == l
                    }
                    &&& final(self).graph_spec().edges_map() == old(self).graph_spec().edges_map()
                },
                Err(e) => {
                    &&& e matches NeoDbError::NodeAlreadyExists { id } && old(
                        self,
                    ).graph_spec().has_node(id@)
                    &&& *final(self) == *old(self)
                },
            },
    {
        let mut node = Node::new();
        let ghost gid = node.id@;
        let mut i: usize = 0;
        while i < labels.len()
            invariant
                node.wf(),
                node.id@ == gid,
                node.properties@.len() == 0,
                0 <= i <= labels@.len(),
                forall|l: Seq<char>|
                    node.has_label_spec(l) <==> exists|j: int|
                        0 <= j < i && (#[trigger] labels@[j])@ == l,
            decreases labels@.len() - i,
        {
            let ghost before = node;
            node.add_label(labels[i].clone());
            proof {
                assert forall|l: Seq<char>| node.has_label_spec(l) implies exists|j: int|
                    0 <= j < i + 1 && (#[trigger] labels@[j])@ == l by {
                    if before.has_label_spec(l) {
                    } else {
                        assert(labels@[i as int]@ == l);
                    }
                }
                assert forall|l: Seq<char>|
                    (exists|j: int| 0 <= j < i + 1 && (#[trigger] labels@[j])@ == l) implies
                node.has_label_spec(l) by {
                    let j = choose|j: int| 0 <= j < i + 1 && (#[trigger] labels@[j])@ == l;
                    if j < i {
                        assert(before.has_label_spec(l));
                    }
                }
            }
            i = i + 1;
        }
        let mut properties = properties;
        let ghost props = properties@;
        let mut k: usize = 0;
        proof {
            assert(node.props() =~= kv_map(props.subrange(0, 0)));
        }
        while k < properties.len()
            invariant
                node.wf(),
                node.id@ == gid,
                0 <= k <= properties@.len(),
                properties@.len() == props.len(),
                forall|j: int| k <= j < props.len() ==> (#[trigger] properties@[j]) == props[j],
                node.props() =~= kv_map(props.subrange(0, k as int)),
                forall|l: Seq<char>|
                    node.has_label_spec(l) <==> exists|j: int|
                        0 <= j < labels@.len() && (#[trigger] labels@[j])@ == l,
            decreases properties@.len() - k,
        {
            let ghost tbl_pre = properties@;
            let ghost node_pre = node;
            let pair = properties.remove(k);
            let key = pair.0.clone();
            proof {
                assert(pair == props[k as int]);
            }
            node.set_property(key, pair.1);
            properties.insert(k, (pair.0, PropertyValue::Null));
            proof {
                assert(node.labels == node_pre.labels);
                assert forall|l: Seq<char>| node.has_label_spec(l) <==> node_pre.has_label_spec(
                    l,
                ) by {}
                assert(props.subrange(0, k + 1).drop_last() =~= props.subrange(0, k as int));
                assert(props.subrange(0, k + 1).last() == props[k as int]);
                assert(kv_map(props.subrange(0, k + 1)) == kv_map(
                    props.subrange(0, k as int),
                ).insert(props[k as int].0@, props[k as int].1));
                assert forall|j: int| k + 1 <= j < props.len() implies (#[trigger] properties@[j])
                    == props[j] by {
                    assert(properties@[j] == tbl_pre[j]);
                }
            }
            k = k + 1;
        }
        proof {
            assert(props.subrange(0, props.len() as int) =~= props);
        }
        let node_id = node.id.clone();
        match self.graph.add_node(node) {
            Ok(_) => Ok(node_id),
            Err(e) => Err(e),
        }
    }

    /// Create an edge with a generated id between two existing nodes. Fails
    /// when an endpoint is missing (the source is checked first) or, only
    /// by collision of the generated id, when the id is taken.
    pub fn create_edge(
        &mut self,
        source_id: String,
        target_id: String,
        relationship_type: String,
        properties: Vec<(String, PropertyValue)>,
    ) -> (r: Result<String, NeoDbError>)
        requires
            old(self).graph_spec().wf(),
        ensures
            final(self).graph_spec().wf(),
            final(self).config_spec() == old(self).config_spec(),
            match r {
                Ok(id) => {
                    &&& !old(self).graph_spec().has_edge(id@)
                    &&& final(self).graph_spec().has_edge(id@)
                    &&& {
                        let edge = final(self).graph_spec().edges_map()[id@];
                        &&& edge.source_id@ == source_id@
                        &&& edge.target_id@ == target_id@
                        &&& edge.relationship_type@ == relationship_type@
                        &&& edge.props() == kv_map(properties@)
                    }
                    &&& final(self).graph_spec().nodes_map() == old(self).graph_spec().nodes_map()
                },
                Err(e) => {
                    &&& *final(self) == *old(self)
                    &&& match e {
                        NeoDbError::EdgeAlreadyExists { id } => old(self).graph_spec().has_edge(
                            id@,
                        ),
                        NeoDbError::NodeNotFound { id } => (id@ == source_id@ && !old(
                            self,
                        ).graph_spec().has_node(source_id@)) || (id@ == target_id@ && old(
                            self,
                        ).graph_spec().has_node(source_id@) && !old(self).graph_spec().has_node(
                            target_id@,
                        )),
                        _ => false,
                    }
                },
            },
    {
        let mut edge = Edge::new(source_id, target_id, relationship_type);
        let ghost gedge0 = edge;
        let mut properties = properties;
        let ghost props = properties@;
        let mut k: usize = 0;
        proof {
            assert(edge.props() =~= kv_map(props.subrange(0, 0)));
        }
        while k < properties.len()
            invariant
                edge.wf(),
                edge.id@ == gedge0.id@,
                edge.source_id@ == gedge0.source_id@,
                edge.target_id@ == gedge0.target_id@,
                edge.relationship_type@ == gedge0.relationship_type@,
                0 <= k <= properties@.len(),
                properties@.len() == props.len(),
                forall|j: int| k <= j < props.len() ==> (#[trigger] properties@[j]) == props[j],
                edge.props() =~= kv_map(props.subrange(0, k as int)),
            decreases properties@.len() - k,
        {
            let ghost tbl_pre = properties@;
            let pair = properties.remove(k);
            let key = pair.0.clone();
            proof {
                assert(pair == props[k as int]);
            }
            edge.set_property(key, pair.1);
            properties.insert(k, (pair.0, PropertyValue::Null));
            proof {
                assert(props.subrange(0, k + 1).drop_last() =~= props.subrange(0, k as int));
                assert(props.subrange(0, k + 1).last() == props[k as int]);
                assert(kv_map(props.subrange(0, k + 1)) == kv_map(
                    props.subrange(0, k as int),
                ).insert(props[k as int].0@, props[k as int].1));
                assert forall|j: int| k + 1 <= j < props.len() implies (#[trigger] properties@[j])
                    == props[j] by {
                    assert(properties@[j] == tbl_pre[j]);
                }
            }
            k = k + 1;
        }
        proof {
            assert(props.subrange(0, props.len() as int) =~= props);
        }
        let edge_id = edge.id.clone();
        match self.graph.add_edge(edge) {
            Ok(_) => Ok(edge_id),
            Err(e) => Err(e),
        }
    }

    /// Find nodes by label, or every node when no label is given. Every
    /// matching node appears exactly once.
    pub fn find_nodes(&self, label: Option<&str>) -> (r: Vec<&Node>)
        requires
            self.graph_spec().wf(),
        ensures
            forall|i: int|
                0 <= i < r@.len() ==> self.graph_spec().has_node((#[trigger] r@[i]).id@) && *r@[i]
                    == self.graph_spec().nodes_map()[r@[i].id@],
            label matches Some(l) ==> forall|i: int|
                0 <= i < r@.len() ==> (#[trigger] r@[i]).has_label_spec(l@),
            label matches Some(l) ==> forall|k: Seq<char>|
                #[trigger] self.graph_spec().has_node(k)
                    && self.graph_spec().nodes_map()[k].has_label_spec(l@) ==> exists|i: int|
                    0 <= i < r@.len() && (#[trigger] r@[i]).id@ == k,
            label is None ==> r@.len() == self.graph_spec().nodes_map().dom().len(),
            label is None ==> forall|k: Seq<char>|
                #[trigger] self.graph_spec().has_node(k) ==> exists|i: int|
                    0 <= i < r@.len() && (#[trigger] r@[i]).id@ == k,
            forall|i: int, j: int| 0 <= i < j < r@.len() ==> r@[i].id@ != r@[j].id@,
    {
        match label {
            Some(l) => self.graph.find_nodes_by_label(l),
            None => self.graph.nodes(),
        }
    }

    /// Find nodes whose property under `key` equals `value`. Every
    /// matching node appears exactly once.
    pub fn find_nodes_by_property(&self, key: &str, value: &PropertyValue) -> (r: Vec<&Node>)
        requires
            self.graph_spec().wf(),
        ensures
            forall|i: int|
                0 <= i < r@.len() ==> self.graph_spec().has_node((#[trigger] r@[i]).id@) && *r@[i]
                    == self.graph_spec().nodes_map()[r@[i].id@] && crate::graph::props_match(
                    *r@[i],
                    key@,
                    *value,
                ),
            forall|k: Seq<char>|
                #[trigger] self.graph_spec().has_node(k) && crate::graph::props_match(
                    self.graph_spec().nodes_map()[k],
                    key@,
                    *value,
                ) ==> exists|i: int| 0 <= i < r@.len() && (#[trigger] r@[i]).id@ == k,
            forall|i: int, j: int| 0 <= i < j < r@.len() ==> r@[i].id@ != r@[j].id@,
    {
        self.graph.find_nodes_by_property(key, value)
    }

    /// Borrow a node by id.
    pub fn get_node(&self, node_id: &str) -> (r: Option<&Node>)
        requires
            self.graph_spec().wf(),
        ensures
            match r {
                Some(n) => self.graph_spec().has_node(node_id@) && *n
                    == self.graph_spec().nodes_map()[node_id@],
                None => !self.graph_spec().has_node(node_id@),
            },
    {
        self.graph.get_node(node_id)
    }

    /// Borrow an edge by id.
    pub fn get_edge(&self, edge_id: &str) -> (r: Option<&Edge>)
        requires
            self.graph_spec().wf(),
        ensures
            match r {
                Some(e) => self.graph_spec().has_edge(edge_id@) && *e
                    == self.graph_spec().edges_map()[edge_id@],
                None => !self.graph_spec().has_edge(edge_id@),
            },
    {
        self.graph.get_edge(edge_id)
    }

    /// Delete a node and, by cascade, all its edges.
    pub fn delete_node(&mut self, node_id: &str) -> (r: Result<(), NeoDbError>)
        requires
            old(self).graph_spec().wf(),
        ensures
            final(self).graph_spec().wf(),
            match r {
                Ok(()) => {
                    &&& old(self).graph_spec().has_node(node_id@)
                    &&& final(self).graph_spec().nodes_map() =~= old(
                        self,
                    ).graph_spec().nodes_map().remove(node_id@)
                    &&& forall|e: Seq<char>|
                        #[trigger] final(self).graph_spec().has_edge(e) <==> old(
                            self,
                        ).graph_spec().has_edge(e) && !crate::graph::incident(
                            old(self).graph_spec().edges_map()[e],
                            node_id@,
                        )
                },
                Err(e) => {
                    &&& e matches NeoDbError::NodeNotFound { id } && id@ == node_id@
                    &&& !old(self).graph_spec().has_node(node_id@)
                },
            },
    {
        match self.graph.remove_node(node_id) {
            Ok(_) => Ok(()),
            Err(e) => Err(e),
        }
    }

    /// Delete an edge.
    pub fn delete_edge(&mut self, edge_id: &str) -> (r: Result<(), NeoDbError>)
        requires
            old(self).graph_spec().wf(),
        ensures
            final(self).graph_spec().wf(),
            match r {
                Ok(()) => {
                    &&& old(self).graph_spec().has_edge(edge_id@)
                    &&& final(self).graph_spec().edges_map() =~= old(
                        self,
                    ).graph_spec().edges_map().remove(edge_id@)
                    &&& final(self).graph_spec().nodes_map() == old(self).graph_spec().nodes_map()
                },
                Err(e) => {
                    &&& e matches NeoDbError::EdgeNotFound { id } && id@ == edge_id@
                    &&& !old(self).graph_spec().has_edge(edge_id@)
                },
            },
    {
        match self.graph.remove_edge(edge_id) {
            Ok(_) => Ok(()),
            Err(e) => Err(e),
        }
    }

    /// Borrow the neighbors of a node.
    pub fn get_neighbors(&self, node_id: &str) -> (r: Vec<&Node>)
        requires
            self.graph_spec().wf(),
        ensures
            self.graph_spec().has_node(node_id@) ==> r@.len() == self.graph_spec().out_map()[node_id@]@.len() + self.graph_spec().in_map()[node_id@]@.len(),
            !self.graph_spec().has_node(node_id@) ==> r@.len() == 0,
    {
        self.graph.get_neighbors(node_id)
    }

    /// Borrow every edge leaving or entering a node: first the outgoing
    /// ones, then the incoming ones.
    pub fn get_node_edges(&self, node_id: &str) -> (r: Vec<&Edge>)
        requires
            self.graph_spec().wf(),
        ensures
            self.graph_spec().has_node(node_id@) ==> r@.len() == self.graph_spec().out_map()[node_id@]@.len() + self.graph_spec().in_map()[node_id@]@.len(),
            !self.graph_spec().has_node(node_id@) ==> r@.len() == 0,
            forall|i: int|
                0 <= i < r@.len() ==> self.graph_spec().has_edge((#[trigger] r@[i]).id@),
    {
        let mut edges = self.graph.get_outgoing_edges(node_id);
        let mut incoming = self.graph.get_incoming_edges(node_id);
        let ghost pre = edges@;
        let ghost inc = incoming@;
        edges.append(&mut incoming);
        proof {
            if self.graph_spec().has_node(node_id@) {
                assert(edges@.len() == pre.len() + inc.len());
            }
            assert forall|i: int| 0 <= i < edges@.len() implies self.graph_spec().has_edge(
                (#[trigger] edges@[i]).id@,
            ) by {
                if !self.graph_spec().has_node(node_id@) {
                    assert(pre.len() == 0 && inc.len() == 0);
                } else {
                    assert(self.graph_spec().out_map().dom().contains(node_id@));
                    assert(self.graph_spec().in_map().dom().contains(node_id@));
                    if i < pre.len() {
                        assert(edges@[i] == pre[i]);
                        assert(*pre[i] == self.graph_spec().edges_map()[self.graph_spec().out_map()[node_id@]@[i]@]);
                        let e = self.graph_spec().out_map()[node_id@]@[i]@;
                        assert(self.graph_spec().has_edge(e));
                        assert(self.graph_spec().edges_map()[e].id@ == e);
                    } else {
                        assert(edges@[i] == inc[i - pre.len()]);
                        assert(*inc[i - pre.len()]
                            == self.graph_spec().edges_map()[self.graph_spec().in_map()[node_id@]@[i - pre.len()]@]);
                        let e = self.graph_spec().in_map()[node_id@]@[i - pre.len()]@;
                        assert(self.graph_spec().has_edge(e));
                        assert(self.graph_spec().edges_map()[e].id@ == e);
                    }
                }
            }
        }
        edges
    }

    /// Empty the graph.
    pub fn clear(&mut self)
        ensures
            final(self).graph_spec().wf(),
            final(self).graph_spec().nodes_map().dom().len() == 0,
            final(self).graph_spec().edges_map().dom().len() == 0,
            final(self).config_spec() == old(self).config_spec(),
    {
        self.graph.clear();
    }

    /// Database statistics: its name, the node and edge counts, and the
    /// metadata entries as an object of strings.
    pub fn stats(&self) -> (r: Vec<(String, PropertyValue)>)
        requires
            self.graph_spec().wf(),
        ensures
            r@.len() == 4,
            r@[0].0@ == "name"@ && (r@[0].1 matches PropertyValue::Str(s) && s@
                == self.config_spec().name@),
            r@[1].0@ == "node_count"@ && (r@[1].1 matches PropertyValue::Int(n) && (
            self.graph_spec().nodes_map().dom().len() <= i64::MAX ==> n
                == self.graph_spec().nodes_map().dom().len())),
            r@[2].0@ == "edge_count"@ && (r@[2].1 matches PropertyValue::Int(n) && (
            self.graph_spec().edges_map().dom().len() <= i64::MAX ==> n
                == self.graph_spec().edges_map().dom().len())),
            r@[3].0@ == "metadata"@ && (r@[3].1 matches PropertyValue::Object(entries) && {
                &&& entries@.len() == self.metadata_spec().len()
                &&& forall|i: int|
                    0 <= i < entries@.len() ==> (#[trigger] entries@[i]).0@
                        == self.metadata_spec()[i].0@ && (entries@[i].1 matches PropertyValue::Str(
                        v,
                    ) && v@ == self.metadata_spec()[i].1@)
            }),
    {
        let node_count = self.graph.node_count();
        let edge_count = self.graph.edge_count();
        let nodes_int: i64 = if node_count as u64 <= i64::MAX as u64 {
            node_count as i64
        } else {
            i64::MAX
        };
        let edges_int: i64 = if edge_count as u64 <= i64::MAX as u64 {
            edge_count as i64
        } else {
            i64::MAX
        };
        let mut meta_entries: Vec<(String, PropertyValue)> = Vec::new();
        let mut i: usize = 0;
        while i < self.metadata.len()
            invariant
                0 <= i <= self.metadata@.len(),
                meta_entries@.len() == i,
                forall|j: int|
                    0 <= j < i ==> (#[trigger] meta_entries@[j]).0@ == self.metadata@[j].0@ && (
                    meta_entries@[j].1 matches PropertyValue::Str(v) && v@
                        == self.metadata@[j].1@),
            decreases self.metadata@.len() - i,
        {
            meta_entries.push(
                (self.metadata[i].0.clone(), PropertyValue::Str(self.metadata[i].1.clone())),
            );
            i = i + 1;
        }
        let mut r: Vec<(String, PropertyValue)> = Vec::new();
        r.push(("name".to_owned(), PropertyValue::Str(self.config.name.clone())));
        r.push(("node_count".to_owned(), PropertyValue::Int(nodes_int)));
        r.push(("edge_count".to_owned(), PropertyValue::Int(edges_int)));
        r.push(("metadata".to_owned(), PropertyValue::Object(meta_entries)));
        r
    }

    /// Borrow the underlying graph.
    pub fn graph(&self) -> (r: &Graph)
        ensures
            *r == self.graph_spec(),
    {
        &self.graph
    }

    /// Borrow the configuration.
    pub fn config(&self) -> (r: &DatabaseConfig)
        ensures
            *r == self.config_spec(),
    {
        &self.config
    }
}

impl Default for Database {
    /// A database with the default configuration.
    fn default() -> (r: Database)
        ensures
            r.graph_spec().wf(),
            r.graph_spec().nodes_map().dom().len() == 0,
            r.graph_spec().edges_map().dom().len() == 0,
    {
        Database::new()
    }
}

} // verus!
