//! Where events go.
pub mod dlq;
pub mod filter;
pub mod http;
pub mod retry;
