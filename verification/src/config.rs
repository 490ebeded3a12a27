//! The engine's configuration: modes, limits and per-group settings.
use vstd::prelude::*;

use crate::detectors::Group;
use crate::labels::Labels;

verus! {

/// Global behaviour: only log, or block and log.
#[derive(Debug, Clone, Copy, PartialEq, Eq, Structural)]
pub enum Mode {
    /// Log detections but let every request through.
    Monitor,
    /// Block requests when a detector of an enforcing group fires.
    Enforce,
}

/// What happens to a request when the firewall itself fails.
#[derive(Debug, Clone, Copy, PartialEq, Eq, Structural)]
pub enum FailMode {
    /// Let the request through.
    FailOpen,
    /// Block the request.
    FailClosed,
}

/// The enforcement level of one detector group.
#[derive(Debug, Clone, Copy, PartialEq, Eq, Structural)]
pub enum GroupMode {
    /// Block matching requests, if the global mode enforces too.
    Enforce,
    /// Log, never block.
    Monitor,
    /// Ignore the group.
    Off,
}

/// What happens to a request whose body is larger than the inspection limit.
#[derive(Debug, Clone, Copy, PartialEq, Eq, Structural)]
pub enum OverCap {
    /// Let it through, though part of the body was not inspected.
    Pass,
    /// Block it.
    Block,
}

/// The limit on body inspection, and what happens beyond it.
#[derive(Debug, Clone, Copy, PartialEq, Eq, Structural)]
pub struct BodyConfig {
    /// The number of body bytes inspected.
    pub max_inspect_bytes: usize,
    /// What happens to a larger body.
    pub over_cap: OverCap,
}

/// Whether a detector group runs, and at which level.
#[derive(Debug, Clone, Copy, PartialEq, Eq, Structural)]
pub struct GroupConfig {
    /// Whether the group runs.
    pub enabled: bool,
    /// The group's enforcement level.
    pub mode: GroupMode,
}

/// The settings of a group that is mentioned without any: it runs and enforces.
pub open spec fn default_group_config() -> GroupConfig {
    GroupConfig { enabled: true, mode: GroupMode::Enforce }
}

impl Default for GroupConfig {
    fn default() -> (r: GroupConfig)
        ensures
            r == default_group_config(),
    {
        GroupConfig { enabled: true, mode: GroupMode::Enforce }
    }
}

/// One entry for each detector group; a missing one means the group is off.
#[derive(Debug, Clone, Copy, PartialEq, Eq, Structural)]
pub struct Groups {
    /// The injection detector.
    pub injection: Option<GroupConfig>,
    /// The signature detector.
    pub signatures: Option<GroupConfig>,
    /// The structural detector.
    pub structural: Option<GroupConfig>,
    /// The reputation detector.
    pub reputation: Option<GroupConfig>,
}

impl Default for Groups {
    fn default() -> (r: Groups)
        ensures
            r.injection is None && r.signatures is None && r.structural is None
                && r.reputation is None,
    {
        Groups { injection: None, signatures: None, structural: None, reputation: None }
    }
}

/// What is set for a group.
pub open spec fn setting(groups: Groups, g: Group) -> Option<GroupConfig> {
    match g {
        Group::Injection => groups.injection,
        Group::Signatures => groups.signatures,
        Group::Structure => groups.structural,
        Group::Reputation => groups.reputation,
    }
}

/// The level at which a group runs: off if it is not set or not enabled.
pub open spec fn effective_mode(groups: Groups, g: Group) -> GroupMode {
    match setting(groups, g) {
        Some(c) => if c.enabled {
            c.mode
        } else {
            GroupMode::Off
        },
        None => GroupMode::Off,
    }
}

impl Groups {
    /// The level at which a group runs.
    pub fn effective_mode_of(&self, g: Group) -> (r: GroupMode)
        ensures
            r == effective_mode(*self, g),
    {
        let c = match g {
            Group::Injection => self.injection,
            Group::Signatures => self.signatures,
            Group::Structure => self.structural,
            Group::Reputation => self.reputation,
        };
        match c {
            Some(c) => if c.enabled {
                c.mode
            } else {
                GroupMode::Off
            },
            None => GroupMode::Off,
        }
    }

    /// Every group enabled in monitor mode: the detectors run and report, and
    /// nothing is blocked. The safe choice when a configuration is unusable.
    pub fn all_monitor() -> (r: Groups)
        ensures
            ({
                let on = Some(GroupConfig { enabled: true, mode: GroupMode::Monitor });
                r.injection == on && r.signatures == on && r.structural == on && r.reputation == on
            }),
    {
        let on = Some(GroupConfig { enabled: true, mode: GroupMode::Monitor });
        Groups { injection: on, signatures: on, structural: on, reputation: on }
    }
}

/// How far `X-Forwarded-For` is trusted.
#[derive(Debug, Clone, Copy, PartialEq, Eq, Structural)]
pub struct XffConfig {
    /// The number of trusted rightmost hops to peel off; 0 trusts none.
    pub trusted_hops: usize,
}

impl Default for XffConfig {
    fn default() -> (r: XffConfig)
        ensures
            r.trusted_hops == 0,
    {
        XffConfig { trusted_hops: 0 }
    }
}

/// The requests per second allowed from one address, unless set.
pub const DEFAULT_PER_SECOND: u32 = 100;

/// The number of addresses the rate limiter tracks, unless set.
pub const DEFAULT_MAX_TRACKED_IPS: usize = 50_000;

/// The reputation detector's settings.
#[derive(Debug)]
pub struct ReputationConfig {
    /// The requests per second allowed from one address.
    pub per_second: u32,
    /// Addresses that are always flagged.
    pub deny_list: Vec<String>,
    /// The number of distinct addresses tracked at once.
    pub max_tracked_ips: usize,
}

impl Default for ReputationConfig {
    fn default() -> (r: ReputationConfig)
        ensures
            r.per_second == DEFAULT_PER_SECOND,
            r.deny_list@.len() == 0,
            r.max_tracked_ips == DEFAULT_MAX_TRACKED_IPS,
    {
        ReputationConfig {
            per_second: DEFAULT_PER_SECOND,
            deny_list: Vec::new(),
            max_tracked_ips: DEFAULT_MAX_TRACKED_IPS,
        }
    }
}

/// The engine's configuration.
#[derive(Debug)]
pub struct Config {
    /// The global mode.
    pub mode: Mode,
    /// What happens when the firewall itself fails.
    pub fail_mode: FailMode,
    /// The body inspection limit.
    pub body: BodyConfig,
    /// The settings of each group.
    pub groups: Groups,
    /// The reputation detector's settings.
    pub reputation: ReputationConfig,
    /// How far `X-Forwarded-For` is trusted.
    pub xff: XffConfig,
    /// The operator's labels, which every line of the audit log carries.
    pub labels: Labels,
}

/// Each group runs as its own entry says: off where the entry is missing or not enabled,
/// and else at the level set there. No group looks at the entry of another.
pub proof fn law_groups_run_as_set(groups: Groups)
    ensures
        groups.injection matches Some(c) ==> effective_mode(groups, Group::Injection) == (
        if c.enabled {
            c.mode
        } else {
            GroupMode::Off
        }),
        groups.signatures matches Some(c) ==> effective_mode(groups, Group::Signatures) == (
        if c.enabled {
            c.mode
        } else {
            GroupMode::Off
        }),
        groups.structural matches Some(c) ==> effective_mode(groups, Group::Structure) == (
        if c.enabled {
            c.mode
        } else {
            GroupMode::Off
        }),
        groups.reputation matches Some(c) ==> effective_mode(groups, Group::Reputation) == (
        if c.enabled {
            c.mode
        } else {
            GroupMode::Off
        }),
        groups.injection is None ==> effective_mode(groups, Group::Injection) == GroupMode::Off,
        groups.signatures is None ==> effective_mode(groups, Group::Signatures) == GroupMode::Off,
        groups.structural is None ==> effective_mode(groups, Group::Structure) == GroupMode::Off,
        groups.reputation is None ==> effective_mode(groups, Group::Reputation) == GroupMode::Off,
{
}

} // verus!
