//! Sections of a MongoDB server status, as plain records.
use vstd::prelude::*;

verus! {

/// The numbers of assertions raised since the server started.
#[derive(Debug, Clone, PartialEq, Eq)]
pub struct Asserts {
    pub regular: i64,
    pub warning: i64,
    pub msg: i64,
    pub user: i64,
    pub rollovers: i64,
}

/// Statistics of batched deletes.
#[derive(Debug, Clone, PartialEq, Eq)]
pub struct BatchedDeletes {
    pub batches: i64,
    pub docs: i64,
    pub staged_size_bytes: i64,
    pub time_in_batch_millis: i64,
    pub refetches_due_to_yield: i64,
}

/// Statistics of the time series bucket catalog.
#[derive(Debug, Clone, PartialEq, Eq)]
pub struct BucketCatalog {
    pub num_buckets: i64,
    pub num_open_buckets: i64,
    pub num_idle_buckets: i64,
    pub memory_usage: i64,
}

/// Numbers of collections and views in the catalog.
#[derive(Debug, Clone, PartialEq, Eq)]
pub struct CatalogStats {
    pub collections: i64,
    pub capped: i64,
    pub views: i64,
    pub timeseries: i64,
    pub internal_collections: i64,
    pub internal_views: i64,
}

/// Statistics of the connections to the server.
#[derive(Debug, Clone, PartialEq, Eq)]
pub struct Connections {
    pub current: Option<i64>,
    pub available: Option<i64>,
    pub total_created: Option<i64>,
    pub rejected: Option<i64>,
    pub active: Option<i64>,
    pub threaded: Option<i64>,
    pub exhaust_is_master: Option<i64>,
    pub exhaust_hello: Option<i64>,
    pub awaiting_topology_changes: Option<i64>,
    pub load_balanced: Option<i64>,
}

/// The default read concern.
#[derive(Debug, Clone, PartialEq, Eq)]
pub struct DefaultReadConcern {
    pub level: Option<String>,
}

/// The default write concern.
#[derive(Debug, Clone, PartialEq, Eq)]
pub struct DefaultWriteConcern {
    pub w: Option<String>,
    pub wtimeout: Option<i64>,
    pub j: Option<bool>,
}

} // verus!
