//! A verified web application firewall: the detection engine, the audit
//! event relay and the proxy guest that are built around it.

pub mod audit;
pub mod bytes;
pub mod clock;
pub mod config;
pub mod detectors;
pub mod ip;
pub mod json;
pub mod labels;
pub mod numbers;
pub mod policy;
pub mod relay;
pub mod request;
pub mod sidecar;
pub mod text;
pub mod traefik;
