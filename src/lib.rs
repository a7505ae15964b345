//! Incremental lossy mirror of a directory tree: the decisions of the
//! reconciliation engine, the orphan index, candidate selection and the
//! batching of durable outcomes, with their contracts.

pub mod cache;
pub mod db;
pub mod digest;
pub mod guarantees;
pub mod orphan;
pub mod pipeline;
pub mod scan;
pub mod util;
pub mod worker;
