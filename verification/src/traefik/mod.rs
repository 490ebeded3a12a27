//! The guest that runs inside the proxy.
pub mod config;
pub mod entry;
pub mod host;
