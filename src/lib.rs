//! A segmented, append-only storage engine: segments guarded by a length
//! checksum record, a fixed pool of segments with pluggable routing and
//! caching, a tombstone log with compaction, and a fixed-capacity bucketed
//! index.

pub mod checksum;
pub mod layout;
pub mod segment;
pub mod placement;
pub mod cache;
pub mod metric;
pub mod pool;
pub mod ops;
pub mod storage;
pub mod bucket;
