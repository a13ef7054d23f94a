use neodb::{
    Database, Index, IndexConfig, PersistenceConfig, PersistenceManager, PropertyValue,
    StorageEngine, StorageError,
};

#[test]
fn test_database_creation() {
    let db = Database::new();
    assert_eq!(db.graph().node_count(), 0);
    assert_eq!(db.graph().edge_count(), 0);
}

#[test]
fn database_test_node_creation() {
    let mut db = Database::new();

    let properties = vec![
        ("name".to_string(), PropertyValue::Str("John".to_string())),
        ("age".to_string(), PropertyValue::Int(30)),
    ];

    let node_id = db.create_node(vec!["Person".to_string()], properties).unwrap();

    let node = db.get_node(&node_id).unwrap();
    assert!(node.has_label("Person"));
    assert!(node
        .get_property("name")
        .unwrap()
        .eq_value(&PropertyValue::Str("John".to_string())));
    assert!(node.get_property("age").unwrap().eq_value(&PropertyValue::Int(30)));
}

#[test]
fn test_edge_creation() {
    let mut db = Database::new();

    // Create two nodes
    let node1_id = db.create_node(vec!["Person".to_string()], Vec::new()).unwrap();
    let node2_id = db.create_node(vec!["Person".to_string()], Vec::new()).unwrap();

    // Create edge between them
    let properties = vec![("since".to_string(), PropertyValue::Int(2020))];

    let edge_id = db
        .create_edge(node1_id.clone(), node2_id.clone(), "KNOWS".to_string(), properties)
        .unwrap();

    let edge = db.get_edge(&edge_id).unwrap();
    assert_eq!(edge.source_id, node1_id);
    assert_eq!(edge.target_id, node2_id);
    assert_eq!(edge.relationship_type, "KNOWS");
    assert!(edge.get_property("since").unwrap().eq_value(&PropertyValue::Int(2020)));
}

#[test]
fn test_database_stats() {
    let mut db = Database::new();

    db.create_node(vec!["Person".to_string()], Vec::new()).unwrap();
    db.create_node(vec!["Company".to_string()], Vec::new()).unwrap();

    let stats = db.stats();
    let node_count = stats.iter().find(|(k, _)| k == "node_count").unwrap();
    assert!(node_count.1.eq_value(&PropertyValue::Int(2)));
    let edge_count = stats.iter().find(|(k, _)| k == "edge_count").unwrap();
    assert!(edge_count.1.eq_value(&PropertyValue::Int(0)));
}

#[test]
fn database_metadata_has_creation_time() {
    let db = Database::new();
    let stats = db.stats();
    let metadata = stats.iter().find(|(k, _)| k == "metadata").unwrap();
    match &metadata.1 {
        PropertyValue::Object(entries) => {
            let created = entries.iter().find(|(k, _)| k == "created_at").unwrap();
            match &created.1 {
                PropertyValue::Str(s) => assert!(!s.is_empty()),
                _ => panic!("created_at should be a string"),
            }
        }
        _ => panic!("metadata should be an object"),
    }
}

#[test]
fn database_generated_ids_are_uuids() {
    let mut db = Database::new();
    let a = db.create_node(Vec::new(), Vec::new()).unwrap();
    let b = db.create_node(Vec::new(), Vec::new()).unwrap();
    assert_eq!(a.len(), 36);
    assert_eq!(b.len(), 36);
    assert_ne!(a, b);
}

#[test]
fn database_queries_and_deletion() {
    let mut db = Database::new();
    let a = db.create_node(vec!["Person".to_string()], Vec::new()).unwrap();
    let b = db.create_node(vec!["Person".to_string()], Vec::new()).unwrap();
    db.create_edge(a.clone(), b.clone(), "KNOWS".to_string(), Vec::new()).unwrap();

    assert_eq!(db.find_nodes(Some("Person")).len(), 2);
    assert_eq!(db.find_nodes(None).len(), 2);
    assert_eq!(db.get_neighbors(&a).len(), 1);
    assert_eq!(db.get_node_edges(&a).len(), 1);
    assert_eq!(db.get_node_edges(&b).len(), 1);

    db.delete_node(&a).unwrap();
    assert_eq!(db.graph().node_count(), 1);
    assert_eq!(db.graph().edge_count(), 0);

    db.clear();
    assert_eq!(db.graph().node_count(), 0);
}

#[test]
fn storage_engine_records_config() {
    let engine = StorageEngine::new();
    let _ = engine;
    let custom = neodb::StorageConfig {
        path: "/tmp/data".to_string(),
        cache_size: 16,
        compression_enabled: false,
        sync_writes: true,
    };
    let _engine = StorageEngine::with_config(custom);
}

#[test]
fn index_insert_get_remove() {
    let config = IndexConfig { name: "idx".to_string(), unique: false, btree_order: 8 };
    let mut index = Index::new(config);
    index.insert("k".to_string(), "r1".to_string()).unwrap();
    index.insert("k".to_string(), "r2".to_string()).unwrap();
    let ids = index.get("k").unwrap();
    assert_eq!(ids, vec!["r1".to_string(), "r2".to_string()]);
    assert!(index.remove("k", "r1").unwrap());
    assert!(!index.remove("k", "r1").unwrap());
    assert_eq!(index.get("k").unwrap(), vec!["r2".to_string()]);
    assert!(index.remove("k", "r2").unwrap());
    assert_eq!(index.get("k").unwrap().len(), 0);
}

#[test]
fn unique_index_refuses_duplicates() {
    let config = IndexConfig { name: "idx".to_string(), unique: true, btree_order: 8 };
    let mut index = Index::new(config);
    index.insert("k".to_string(), "r1".to_string()).unwrap();
    let err = index.insert("k".to_string(), "r2".to_string()).unwrap_err();
    assert!(matches!(err, StorageError::Index(_)));
}

#[test]
fn persistence_manager_holds_config() {
    let manager = PersistenceManager::new(PersistenceConfig::default());
    let _ = manager;
}
