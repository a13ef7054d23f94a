use vstd::prelude::*;

verus! {

/// Traversal-specific errors.
#[derive(Debug, Clone, PartialEq, Eq)]
pub enum TraversalError {
    /// The configured maximum depth was exceeded during a depth-first search.
    DepthLimitExceeded { limit: usize },
    /// A cycle was detected in the traversal.
    CycleDetected,
    /// The traversal configuration is invalid.
    InvalidConfig(String),
    /// A node referenced by the traversal does not exist.
    NodeNotFound(String),
    /// No path exists between the requested nodes.
    NoPathFound,
}


/// Storage-specific errors.
#[derive(Debug, Clone, PartialEq, Eq)]
pub enum StorageError {
    /// The storage engine has not been initialized.
    NotInitialized,
    /// No value is stored under the key.
    KeyNotFound(String),
    /// An index operation failed.
    Index(String),
}

/// Cache-specific errors.
#[derive(Debug, Clone, PartialEq, Eq)]
pub enum CacheError {
    /// The key is absent from the cache.
    Miss(String),
    /// The cache is full.
    Full,
    /// The cache reached an invalid state.
    InvalidState(String),
}

/// Main error type for graph and database operations.
#[derive(Debug, Clone, PartialEq, Eq)]
pub enum NeoDbError {
    /// A storage error, carried through.
    Storage(StorageError),
    /// A cache error, carried through.
    Cache(CacheError),
    /// A traversal error, carried through.
    Traversal(TraversalError),
    /// No node with this id exists.
    NodeNotFound { id: String },
    /// No edge with this id exists.
    EdgeNotFound { id: String },
    /// A node with this id already exists.
    NodeAlreadyExists { id: String },
    /// An edge with this id already exists.
    EdgeAlreadyExists { id: String },
    /// The requested operation is not valid.
    InvalidOperation { message: String },
}

} // verus!
