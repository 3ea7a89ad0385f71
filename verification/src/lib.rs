//! Telemetry agent core.
pub mod auth;
pub mod base64;
pub mod cli;
pub mod collector;
pub mod config;
pub mod error;
pub mod forwarder;
pub mod grouping;
pub mod http;
pub mod journal_log;
pub mod labels;
pub mod log;
pub mod number;
pub mod ordered;
pub mod path;
pub mod pattern;
pub mod pipeline;
pub mod signal;
pub mod text;
pub mod time;
pub mod tls;
