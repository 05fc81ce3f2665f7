//! Decision engine of a staged, bake-time-gated rollout of replica versions
//! over a fleet of subnets.
//!
//! From a snapshot of the world (subnet versions, bake telemetry, governance
//! proposals, today's date) and a declarative rollout plan, the engine decides
//! the per-subnet actions that advance the rollout by at most one stage.

pub mod bake;
pub mod calendar;
pub mod error;
pub mod fleet;
pub mod laws;
pub mod model;
pub mod notifications;
pub mod proposals;
pub mod requests;
pub mod resolve;
pub mod stage_checks;
pub mod text;

pub use calendar::{week_passed, Date, Weekday};
pub use error::RolloutError;
pub use model::{BakeSample, Index, ProposalInfo, Release, Rollout, Stage, Subnet, SubnetUpdateProposal, UnassignedNodesProposal, Version};
pub use notifications::LastNotifiedProposal;
pub use requests::SubnetRequest;
pub use resolve::{desired_rollout_release_version, DesiredReleaseVersion};
pub use stage_checks::{check_stages, SubnetAction};
