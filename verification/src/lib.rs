use vstd::prelude::*;

pub mod text;
pub mod json;
pub mod schema;
pub mod ingestion;
pub mod registry;
pub mod wal;
pub mod wal_batch;
pub mod retention;
pub mod partition;
pub mod api;
pub mod wal_cleanup;
pub mod indexer;
pub mod settings;
pub mod compaction;
