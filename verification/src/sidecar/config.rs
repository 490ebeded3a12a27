//! The proxy's configuration.
use vstd::prelude::*;

use crate::config::{BodyConfig, FailMode, Groups, Mode};

verus! {

/// An exception for some hosts and paths.
#[derive(Debug)]
pub struct Override {
    /// The host; any host if not set.
    pub host: Option<String>,
    /// What the path begins with; any path if not set.
    pub path_prefix: Option<String>,
    /// The groups that do not run there, by their tags.
    pub disable_groups: Vec<String>,
}

/// The proxy's configuration.
#[derive(Debug)]
pub struct Config {
    /// The global mode.
    pub mode: Mode,
    /// What happens when the firewall itself fails.
    pub fail_mode: FailMode,
    /// The body inspection limit.
    pub body: BodyConfig,
    /// The settings of each group.
    pub groups: Groups,
    /// The exceptions.
    pub overrides: Vec<Override>,
    /// Where requests are forwarded.
    pub upstream: String,
    /// Where the proxy listens.
    pub listen: String,
}

} // verus!
