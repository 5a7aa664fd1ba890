//! Cluster health and statistics responses.
use vstd::prelude::*;

use crate::text::owned;

verus! {

/// The node's health report.
pub struct HealthResponse {
    pub cluster_name: String,
    pub status: String,
    pub timed_out: bool,
    pub number_of_nodes: u32,
    pub active_primary_shards: u32,
    pub active_shards: u32,
}

/// Shard counts of a response.
pub struct ShardsInfo {
    pub total: u32,
    pub successful: u32,
    pub skipped: u32,
    pub failed: u32,
}

/// Document counts.
pub struct DocsStats {
    pub count: u64,
    pub deleted: u64,
}

/// Storage size.
pub struct StoreStats {
    pub size_in_bytes: u64,
}

/// Statistics of a set of indexes.
pub struct IndexStats {
    pub docs: DocsStats,
    pub store: StoreStats,
}

/// Statistics of the primaries and of all copies.
pub struct IndicesStats {
    pub primaries: IndexStats,
    pub total: IndexStats,
}

/// The `/_stats` response.
pub struct StatsResponse {
    pub _shards: ShardsInfo,
    pub _all: IndicesStats,
}

impl HealthResponse {
    /// The health of the single-node cluster `edgewit`: always green, one
    /// node, no shards reported.
    pub fn current() -> (r: Self)
        ensures
            r.cluster_name@ == "edgewit"@,
            r.status@ == "green"@,
            !r.timed_out,
            r.number_of_nodes == 1,
            r.active_primary_shards == 0,
            r.active_shards == 0,
    {
        HealthResponse {
            cluster_name: owned("edgewit"),
            status: owned("green"),
            timed_out: false,
            number_of_nodes: 1,
            active_primary_shards: 0,
            active_shards: 0,
        }
    }
}

impl ShardsInfo {
    /// The shard counts of a search over `searched` indexes, all of which
    /// answered (the count is reported modulo 2^32, as `as u32` does).
    pub fn all_successful(searched: usize) -> (r: Self)
        ensures
            r.total == searched as u32,
            r.successful == searched as u32,
            r.skipped == 0,
            r.failed == 0,
    {
        ShardsInfo {
            total: searched as u32,
            successful: searched as u32,
            skipped: 0,
            failed: 0,
        }
    }
}

impl IndexStats {
    /// Statistics holding a document count and nothing else.
    pub fn with_doc_count(count: u64) -> (r: Self)
        ensures
            r.docs.count == count,
            r.docs.deleted == 0,
            r.store.size_in_bytes == 0,
    {
        IndexStats { docs: DocsStats { count, deleted: 0 }, store: StoreStats { size_in_bytes: 0 } }
    }
}

impl StatsResponse {
    /// The `/_stats` response for an index holding `num_docs` documents:
    /// the count is reported for the primaries and for the total, with no
    /// shards, no deletions and no size.
    pub fn for_doc_count(num_docs: u64) -> (r: Self)
        ensures
            r._shards.total == 0 && r._shards.successful == 0 && r._shards.skipped == 0
                && r._shards.failed == 0,
            r._all.primaries.docs.count == num_docs,
            r._all.total.docs.count == num_docs,
            r._all.primaries.docs.deleted == 0 && r._all.total.docs.deleted == 0,
            r._all.primaries.store.size_in_bytes == 0 && r._all.total.store.size_in_bytes == 0,
    {
        StatsResponse {
            _shards: ShardsInfo { total: 0, successful: 0, skipped: 0, failed: 0 },
            _all: IndicesStats {
                primaries: IndexStats::with_doc_count(num_docs),
                total: IndexStats::with_doc_count(num_docs),
            },
        }
    }
}

} // verus!
