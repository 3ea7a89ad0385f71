//! Log shipping: from a source of entries, in batches, to a sink.
pub mod journald;
pub mod loki;
pub mod shipper;
pub mod source;
