//! Metadata index for a ledger backup subsystem: typed records describing
//! which backups exist and what epoch/version ranges they cover, a compaction
//! engine that merges contiguous runs of records under a verified continuity
//! invariant, and a deterministic naming and line-oriented encoding for
//! persisting records in a listable index.

pub mod codec;
pub mod decode;
pub mod metadata;
pub mod naming;
pub mod storage;
