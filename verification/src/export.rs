//! Exporters for finished benchmark results.

pub mod markdown;
