//! Ingestion front-end for a line-based search tool: turns raw byte streams
//! into ordered batches of searchable items, tolerating invalid encoding and
//! lines split arbitrarily across reads.

pub mod ansi;
pub mod bulk;
pub mod fields;
pub mod ingest;
pub mod item;
pub mod laws;
pub mod lines;
pub mod stitch;
pub mod utf8;
