//! Errors that end one evaluation of the rollout.

use vstd::prelude::*;

verus! {

/// Why the engine could not decide the next actions.
#[derive(Clone, Copy, Debug, PartialEq, Eq, Structural)]
pub enum RolloutError {
    /// The plan is inconsistent with itself or with the fleet: a stage names
    /// a prefix shorter than five characters, a subnet runs a version that no
    /// release lists, the fleet is empty, or the target release lists no
    /// version.
    InvalidPlan,
    /// A stage prefix matches more than one subnet.
    AmbiguousPrefix,
    /// A stage prefix matches no subnet.
    UnknownSubnet,
    /// A subnet runs its target version but no bake sample exists for it.
    UnknownBake,
    /// The fleet runs versions of more than two releases.
    TooManyActiveReleases,
    /// The release catalog is empty.
    EmptyReleaseCatalog,
}

impl RolloutError {
    /// A short description of the error.
    pub fn describe(&self) -> (r: &'static str)
        ensures
            r@ == match self {
                RolloutError::InvalidPlan => "invalid rollout plan"@,
                RolloutError::AmbiguousPrefix => "subnet prefix matches more than one subnet"@,
                RolloutError::UnknownSubnet => "subnet prefix matches no subnet"@,
                RolloutError::UnknownBake => "no bake status for subnet"@,
                RolloutError::TooManyActiveReleases => "more than two releases active"@,
                RolloutError::EmptyReleaseCatalog => "release catalog is empty"@,
            },
    {
        match self {
            RolloutError::InvalidPlan => "invalid rollout plan",
            RolloutError::AmbiguousPrefix => "subnet prefix matches more than one subnet",
            RolloutError::UnknownSubnet => "subnet prefix matches no subnet",
            RolloutError::UnknownBake => "no bake status for subnet",
            RolloutError::TooManyActiveReleases => "more than two releases active",
            RolloutError::EmptyReleaseCatalog => "release catalog is empty",
        }
    }
}

} // verus!
