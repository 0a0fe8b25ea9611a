//! Synthetic benchmark-graph generation: chunked node-id partitioning,
//! fixed-point sampling arithmetic, row encoding, per-node generation and the
//! offset-planned merge of per-chunk tables.

pub mod chunk;
pub mod sample;
pub mod rows;
pub mod draw;
pub mod generate;
pub mod offsets;
pub mod merge;
pub mod run;
pub mod framing;
