//! Report computation cache and aggregation engine: canonical request
//! fingerprints, chunk-wise merging of transaction rows into per-category
//! aggregates, admission control of concurrent generations, and expiry of
//! cached reports.

pub mod admission;
pub mod canonical;
pub mod framing;
pub mod filter;
pub mod fingerprint;
pub mod fields;
pub mod tally;
pub mod error;
pub mod text;
pub mod index_map;
pub mod row;
pub mod aggregate;
pub mod report_item;
pub mod cache;
pub mod report;
pub mod args;
pub mod responses;
pub mod helper;
pub mod tokens;
pub mod download;
pub mod chunks;
pub mod request;
