//! Forwarding metrics to a backend.
pub mod buffer;
pub mod otlp;
pub mod otlphttp;
