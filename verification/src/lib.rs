//! Relay: a columnar data engine core — types, schemas, expressions, plan
//! optimization and text-format scanning, specified and verified with Verus.
pub mod agg;
pub mod arena;
pub mod batch;
pub mod config;
pub mod csv;
pub mod csv_simd;
pub mod error;
pub mod expr;
pub mod filter;
pub mod ipc;
pub mod json;
pub mod logical_plan;
pub mod madvise;
pub mod optimizer;
pub mod plan;
pub mod scan_agg;
pub mod schema;
pub mod text;
pub mod types;
