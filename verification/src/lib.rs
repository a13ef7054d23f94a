use vstd::prelude::*;

mod algorithms;
mod database;
mod errors;
mod external;
mod graph;
mod kv;
mod lru;
mod manager;
mod path;
mod storage;
mod value;
mod visitor;

pub use algorithms::{BreadthFirstSearch, DepthFirstSearch};
pub use database::{Database, DatabaseConfig};
pub use errors::{CacheError, NeoDbError, StorageError, TraversalError};
pub use graph::{id_list_has, id_list_unique, incident, lemma_no_dangling_adjacency,
    lemma_tables_finite,
    lemma_referential_integrity, props_match, Edge, Graph, Node};
pub use kv::{kv_map, kv_unique};
pub use lru::LruCache;
pub use manager::{empty_tier, inc64, lemma_tier_exclusive, spec_expired, tier_contents,
    CacheConfig, CacheEntry, CacheManager, CacheStats};
pub use path::{linked_step, partial_path_ok, path_ok, Path, PathFinder};
pub use storage::{Index, IndexConfig, PersistenceConfig, PersistenceManager, StorageConfig, StorageEngine};
pub use value::{pv_eq, PropertyValue};
pub use visitor::{CollectingVisitor, DepthLimitingVisitor, FilteringVisitor, VisitResult, Visitor};

verus! {

/// Version string of the library.
pub const VERSION: &'static str = "0.1.0";

} // verus!
