use vstd::prelude::*;

use crate::errors::StorageError;
use crate::kv::{kv_map, kv_unique, str_eq};

use vstd::string::StringExecFns;

verus! {

/// Configuration for the storage engine.
#[derive(Debug, Clone)]
pub struct StorageConfig {
    pub path: String,
    pub cache_size: usize,
    pub compression_enabled: bool,
    pub sync_writes: bool,
}

impl Default for StorageConfig {
    /// A local data directory with a 128 MiB cache.
    fn default() -> (r: StorageConfig)
        ensures
            r.path@ == "./neodb_data"@,
            r.cache_size == 0x8000000,
            r.compression_enabled,
            !r.sync_writes,
    {
        StorageConfig {
            path: "./neodb_data".to_owned(),
            cache_size: 0x8000000,
            compression_enabled: true,
            sync_writes: false,
        }
    }
}

/// The storage engine's verified shell: it holds the configuration that a
/// persistent backend would be opened with. The backend itself does file
/// input and output and lives outside this library.
#[derive(Debug)]
pub struct StorageEngine {
    config: StorageConfig,
}

impl StorageEngine {
    /// The configuration.
    pub closed spec fn config_spec(self) -> StorageConfig {
        self.config
    }

    /// An engine with the default configuration.
    pub fn new() -> (r: StorageEngine)
        ensures
            r.config_spec().path@ == "./neodb_data"@,
    {
        Self::with_config(StorageConfig::default())
    }

    /// An engine with the given configuration.
    pub fn with_config(config: StorageConfig) -> (r: StorageEngine)
        ensures
            r.config_spec() == config,
    {
        StorageEngine { config }
    }
}

impl Default for StorageEngine {
    /// An engine with the default configuration.
    fn default() -> (r: StorageEngine)
        ensures
            r.config_spec().path@ == "./neodb_data"@,
    {
        StorageEngine::new()
    }
}

/// Index configuration.
#[derive(Debug, Clone)]
pub struct IndexConfig {
    pub name: String,
    pub unique: bool,
    pub btree_order: usize,
}

/// An in-memory index from keys to lists of record ids.
#[derive(Debug)]
pub struct Index {
    config: IndexConfig,
    data: Vec<(String, Vec<String>)>,
}

impl Index {
    /// The configuration.
    pub closed spec fn config_spec(self) -> IndexConfig {
        self.config
    }

    /// The indexed records per key.
    pub closed spec fn data_map(self) -> Map<Seq<char>, Vec<String>> {
        kv_map(self.data@)
    }

    /// The table has unique keys.
    pub closed spec fn data_unique(self) -> bool {
        kv_unique(self.data@)
    }

    /// An empty index.
    pub fn new(config: IndexConfig) -> (r: Index)
        ensures
            r.config_spec() == config,
            r.data_unique(),
            r.data_map() =~= Map::<Seq<char>, Vec<String>>::empty(),
    {
        Index { config, data: Vec::new() }
    }

    /// Record `record_id` under `key`. A unique index refuses a key that is
    /// already present; otherwise the id is appended to the key's list.
    pub fn insert(&mut self, key: String, record_id: String) -> (r: Result<(), StorageError>)
        requires
            old(self).data_unique(),
        ensures
            final(self).data_unique(),
            final(self).config_spec() == old(self).config_spec(),
            match r {
                Ok(()) => {
                    &&& !(old(self).config_spec().unique && old(self).data_map().dom().contains(
                        key@,
                    ))
                    &&& final(self).data_map().dom() =~= old(self).data_map().dom().insert(key@)
                    &&& final(self).data_map()[key@]@ == (if old(self).data_map().dom().contains(
                        key@,
                    ) {
                        old(self).data_map()[key@]@
                    } else {
                        Seq::<String>::empty()
                    }).push(record_id)
                    &&& forall|k2: Seq<char>|
                        k2 != key@ && #[trigger] old(self).data_map().dom().contains(k2) ==> final(self).data_map()[k2] == old(self).data_map()[k2]
                },
                Err(e) => {
                    &&& e matches StorageError::Index(_)
                    &&& old(self).config_spec().unique
                    &&& old(self).data_map().dom().contains(key@)
                    &&& *final(self) == *old(self)
                },
            },
    {
        if self.config.unique && crate::kv::kv_contains(&self.data, key.as_str()) {
            let message = String::from_str("duplicate key in unique index: ").concat(key.as_str());
            return Err(StorageError::Index(message));
        }
        let mut list = match crate::kv::kv_remove(&mut self.data, key.as_str()) {
            Some(l) => l,
            None => Vec::new(),
        };
        list.push(record_id);
        crate::kv::kv_set(&mut self.data, key, list);
        Ok(())
    }

    /// The record ids stored under `key`; an absent key has none.
    pub fn get(&self, key: &str) -> (r: Result<Vec<String>, StorageError>)
        requires
            self.data_unique(),
        ensures
            match r {
                Ok(ids) => {
                    &&& self.data_map().dom().contains(key@) ==> ids@.len() == self.data_map()[key@]@.len() && (forall|i: int|
                        0 <= i < ids@.len() ==> (#[trigger] ids@[i])@ == self.data_map()[key@]@[i]@)
                    &&& !self.data_map().dom().contains(key@) ==> ids@.len() == 0
                },
                Err(_) => false,
            },
    {
        let list = match crate::kv::kv_get(&self.data, key) {
            Some(l) => l,
            None => {
                return Ok(Vec::new());
            },
        };
        let mut r: Vec<String> = Vec::new();
        let mut i: usize = 0;
        while i < list.len()
            invariant
                self.data_unique(),
                self.data_map().dom().contains(key@),
                *list == self.data_map()[key@],
                0 <= i <= list@.len(),
                r@.len() == i,
                forall|j: int| 0 <= j < i ==> (#[trigger] r@[j])@ == self.data_map()[key@]@[j]@,
            decreases list@.len() - i,
        {
            r.push(list[i].clone());
            i = i + 1;
        }
        Ok(r)
    }

    /// Remove one occurrence of `record_id` under `key`; a key whose list
    /// empties is dropped. Reports whether anything was removed.
    pub fn remove(&mut self, key: &str, record_id: &str) -> (r: Result<bool, StorageError>)
        requires
            old(self).data_unique(),
        ensures
            final(self).data_unique(),
            final(self).config_spec() == old(self).config_spec(),
            match r {
                Ok(b) => {
                    &&& b == (old(self).data_map().dom().contains(key@) && (exists|i: int|
                        0 <= i < old(self).data_map()[key@]@.len() && (#[trigger] old(self).data_map()[key@]@[i])@ == record_id@))
                    &&& !b ==> *final(self) == *old(self)
                },
                Err(_) => false,
            },
    {
        let list_opt = crate::kv::kv_get(&self.data, key);
        let found: Option<usize> = match list_opt {
            Some(list) => {
                let mut i: usize = 0;
                let mut hit: Option<usize> = None;
                while i < list.len()
                    invariant
                        0 <= i <= list@.len(),
                        match hit {
                            Some(p) => 0 <= p < list@.len() && list@[p as int]@ == record_id@,
                            None => forall|j: int|
                                0 <= j < i ==> (#[trigger] list@[j])@ != record_id@,
                        },
                    decreases list@.len() - i,
                {
                    if hit.is_none() && str_eq(list[i].as_str(), record_id) {
                        hit = Some(i);
                    }
                    i = i + 1;
                }
                hit
            },
            None => None,
        };
        match found {
            Some(pos) => {
                let mut list = match crate::kv::kv_remove(&mut self.data, key) {
                    Some(l) => l,
                    None => unreached(),
                };
                list.remove(pos);
                if list.len() == 0 {
                    // the emptied key is dropped
                } else {
                    crate::kv::kv_set(&mut self.data, key.to_owned(), list);
                }
                Ok(true)
            },
            None => Ok(false),
        }
    }
}

/// Persistence configuration.
#[derive(Debug, Clone)]
pub struct PersistenceConfig {
    pub snapshot_interval_seconds: u64,
    pub wal_enabled: bool,
    pub compression_enabled: bool,
}

impl Default for PersistenceConfig {
    /// Snapshots every five minutes, with a write-ahead log.
    fn default() -> (r: PersistenceConfig)
        ensures
            r.snapshot_interval_seconds == 300,
            r.wal_enabled,
            r.compression_enabled,
    {
        PersistenceConfig {
            snapshot_interval_seconds: 300,
            wal_enabled: true,
            compression_enabled: true,
        }
    }
}

/// Coordinates snapshots and the write-ahead log; the file operations
/// themselves live outside this library.
#[derive(Debug)]
pub struct PersistenceManager {
    config: PersistenceConfig,
}

impl PersistenceManager {
    /// The configuration.
    pub closed spec fn config_spec(self) -> PersistenceConfig {
        self.config
    }

    /// A manager with the given configuration.
    pub fn new(config: PersistenceConfig) -> (r: PersistenceManager)
        ensures
            r.config_spec() == config,
    {
        PersistenceManager { config }
    }
}

} // verus!
