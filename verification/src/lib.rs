//! Host-inspection helpers: ranking of process samples, a disk-throughput
//! probe driver, and human-readable byte formatting.

pub mod probe;
pub mod ranker;
pub mod utils;
