//! The relay: from the proxy's log lines to signed webhooks.
pub mod admin;
pub mod config;
pub mod enrichers;
pub mod envelope;
pub mod event;
pub mod logged;
pub mod metrics;
pub mod parser;
pub mod pipeline;
pub mod secret;
pub mod signer;
pub mod sources;
pub mod subscribers;
pub mod supervise;
