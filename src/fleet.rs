//! Resolving the subnet id prefixes that a plan names against the fleet.

use crate::error::RolloutError;
use crate::model::Subnet;
use crate::text::has_prefix;
use vstd::prelude::*;

verus! {

/// Shortest subnet id prefix that a plan may use.
pub const MIN_PREFIX_LEN: usize = 5;

/// Position of the first subnet at or after `i` whose id starts with
/// `prefix`, or the fleet's size if there is none.
pub open spec fn subnet_position_from(subnets: Seq<Subnet>, prefix: Seq<char>, i: int) -> int
    decreases subnets.len() - i,
{
    if i < 0 || i >= subnets.len() {
        subnets.len() as int
    } else if prefix.is_prefix_of(subnets[i].principal@) {
        i
    } else {
        subnet_position_from(subnets, prefix, i + 1)
    }
}

/// The position of the one subnet whose id starts with `prefix`:
/// `InvalidPlan` for a prefix shorter than [`MIN_PREFIX_LEN`],
/// `UnknownSubnet` if no id starts with it, `AmbiguousPrefix` if several do.
pub open spec fn resolve_prefix(subnets: Seq<Subnet>, prefix: Seq<char>) -> Result<int, RolloutError> {
    let k = subnet_position_from(subnets, prefix, 0);
    if prefix.len() < MIN_PREFIX_LEN {
        Err(RolloutError::InvalidPlan)
    } else if k >= subnets.len() {
        Err(RolloutError::UnknownSubnet)
    } else if subnet_position_from(subnets, prefix, k + 1) < subnets.len() {
        Err(RolloutError::AmbiguousPrefix)
    } else {
        Ok(k)
    }
}

/// The first match at or after `i` lies between `i` and the fleet's size.
pub proof fn lemma_subnet_position_bounds(subnets: Seq<Subnet>, prefix: Seq<char>, i: int)
    requires
        0 <= i <= subnets.len(),
    ensures
        i <= subnet_position_from(subnets, prefix, i) <= subnets.len(),
    decreases subnets.len() - i,
{
    if i < subnets.len() && !prefix.is_prefix_of(subnets[i].principal@) {
        lemma_subnet_position_bounds(subnets, prefix, i + 1);
    }
}

/// Position of the first subnet at or after `start` whose id starts with
/// `prefix`, or the fleet's size.
fn find_subnet_from(subnets: &[Subnet], prefix: &str, start: usize) -> (k: usize)
    requires
        start <= subnets@.len(),
    ensures
        k as int == subnet_position_from(subnets@, prefix@, start as int),
{
    let mut k: usize = start;
    while k < subnets.len()
        invariant
            start <= k <= subnets@.len(),
            subnet_position_from(subnets@, prefix@, start as int) == subnet_position_from(subnets@, prefix@, k as int),
        decreases subnets@.len() - k,
    {
        if has_prefix(subnets[k].principal.as_str(), prefix) {
            return k;
        }
        k = k + 1;
    }
    k
}

/// The position in `subnets` of the one subnet whose id starts with `prefix`.
pub fn find_subnet(subnets: &[Subnet], prefix: &str) -> (r: Result<usize, RolloutError>)
    ensures
        match r {
            Ok(k) => resolve_prefix(subnets@, prefix@) == Ok::<int, RolloutError>(k as int),
            Err(e) => resolve_prefix(subnets@, prefix@) == Err::<int, RolloutError>(e),
        },
{
    if prefix.unicode_len() < MIN_PREFIX_LEN {
        return Err(RolloutError::InvalidPlan);
    }
    let k = find_subnet_from(subnets, prefix, 0);
    if k >= subnets.len() {
        return Err(RolloutError::UnknownSubnet);
    }
    if find_subnet_from(subnets, prefix, k + 1) < subnets.len() {
        return Err(RolloutError::AmbiguousPrefix);
    }
    Ok(k)
}

} // verus!
