//! Collecting metrics.
pub mod exposition;
pub mod label_cache;
pub mod prometheus;
pub mod reading;
pub mod unix;
