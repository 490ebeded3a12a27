//! The firewall as a proxy of its own, in front of one upstream.
pub mod config;
pub mod observe;
pub mod proxy;
pub mod request_model;
pub mod rules;
