//! Per-entity timelines of day offsets: a packed big-endian encoding, two merge
//! strategies (transactional with set semantics, atomic append with a capacity
//! cap), record ingestion with a bounded-concurrency flow, and the analysis that
//! classifies the gaps between consecutive events.

pub mod analysis;
pub mod codec;
pub mod flow;
pub mod ingest;
pub mod merge;
pub mod pipeline;
pub mod report;
pub mod store;
