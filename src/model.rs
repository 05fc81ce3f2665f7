//! The rollout plan and the snapshot of the world that the engine reads.

use crate::calendar::{Date, Weekday};
use vstd::prelude::*;

verus! {

/// One build of a release. A build with pinned subnets is a feature build:
/// only subnets whose textual id starts with one of `subnets` should run it.
#[derive(Clone, Debug)]
pub struct Version {
    pub name: String,
    /// The commit id that identifies the build.
    pub version: String,
    /// Prefixes of the subnet ids the build is pinned to; empty for the
    /// regular build.
    pub subnets: Vec<String>,
}

/// A release candidate: position 0 of `versions` is the regular build,
/// later positions are feature builds.
#[derive(Clone, Debug)]
pub struct Release {
    pub rc_name: String,
    pub start_date: Date,
    pub versions: Vec<Version>,
}

/// One stage of the rollout plan.
#[derive(Clone, Debug)]
pub enum Stage {
    /// Upgrade the subnets named by these id prefixes, then let them bake for
    /// `bake_time_secs` seconds; if `wait_for_next_week` is set, the stage
    /// may only start once a Monday has passed since the release started.
    Subnets { subnets: Vec<String>, bake_time_secs: i64, wait_for_next_week: bool },
    /// Upgrade the nodes that belong to no subnet.
    UnassignedNodes,
}

/// The declarative part of the plan.
#[derive(Clone, Debug)]
pub struct Rollout {
    pub pause: bool,
    pub skip_days: Vec<Weekday>,
    pub stages: Vec<Stage>,
}

/// The plan: the rollout and the release catalog, newest release first.
#[derive(Clone, Debug)]
pub struct Index {
    pub rollout: Rollout,
    pub releases: Vec<Release>,
}

/// A subnet of the fleet: its textual id and the version it runs.
#[derive(Clone, Debug)]
pub struct Subnet {
    pub principal: String,
    pub replica_version: String,
}

/// A bake telemetry sample: how long the subnet has run its current version,
/// in seconds. The reading is taken as it comes, negative values included.
/// A subnet should have at most one sample; where it has several, the first
/// one counts.
#[derive(Clone, Debug)]
pub struct BakeSample {
    pub subnet: String,
    pub observed_secs: i64,
}

/// What every governance proposal carries.
#[derive(Clone, Copy, Debug)]
pub struct ProposalInfo {
    pub id: u64,
    pub executed: bool,
}

/// A proposal to move one subnet to a version.
#[derive(Clone, Debug)]
pub struct SubnetUpdateProposal {
    pub info: ProposalInfo,
    pub subnet_id: String,
    pub replica_version_id: String,
}

/// A proposal to change the configuration of the unassigned nodes, possibly
/// their version.
#[derive(Clone, Debug)]
pub struct UnassignedNodesProposal {
    pub info: ProposalInfo,
    pub replica_version: Option<String>,
}

} // verus!
