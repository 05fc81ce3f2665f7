//! Bake clock: how long a subnet must still run its version before the
//! rollout may move on.

use crate::error::RolloutError;
use crate::model::{BakeSample, Subnet};
use vstd::prelude::*;

verus! {

/// Position of the first sample at or after `i` taken on subnet `id`, or the
/// number of samples if there is none.
pub open spec fn sample_position_from(samples: Seq<BakeSample>, id: Seq<char>, i: int) -> int
    decreases samples.len() - i,
{
    if i < 0 || i >= samples.len() {
        samples.len() as int
    } else if samples[i].subnet@ == id {
        i
    } else {
        sample_position_from(samples, id, i + 1)
    }
}

/// Seconds still to bake after `observed` seconds of a `required`-second bake.
pub open spec fn remaining_secs(observed: int, required: int) -> int {
    if observed >= required {
        0
    } else {
        required - observed
    }
}

/// Remaining bake time of subnet `id` for a stage that asks for `required`
/// seconds: `UnknownBake` if no sample exists for the subnet.
pub open spec fn remaining_bake(samples: Seq<BakeSample>, id: Seq<char>, required: int) -> Result<int, RolloutError> {
    let i = sample_position_from(samples, id, 0);
    if i < samples.len() {
        Ok(remaining_secs(samples[i].observed_secs as int, required))
    } else {
        Err(RolloutError::UnknownBake)
    }
}

/// Seconds that `subnet` must still bake on its current version before a
/// stage that asks for `stage_bake_time` seconds is done; zero once it has
/// baked long enough. Fails with `UnknownBake` when no sample exists for the
/// subnet. Both readings may be negative; the remaining time is their
/// difference whenever the subnet has baked less than the stage asks.
pub fn get_remaining_bake_time_for_subnet(
    last_bake_status: &[BakeSample],
    subnet: &Subnet,
    stage_bake_time: i64,
) -> (r: Result<u64, RolloutError>)
    ensures
        match r {
            Ok(secs) => remaining_bake(last_bake_status@, subnet.principal@, stage_bake_time as int) == Ok::<int, RolloutError>(secs as int),
            Err(e) => remaining_bake(last_bake_status@, subnet.principal@, stage_bake_time as int) == Err::<int, RolloutError>(e),
        },
{
    let mut i: usize = 0;
    while i < last_bake_status.len()
        invariant
            i <= last_bake_status@.len(),
            sample_position_from(last_bake_status@, subnet.principal@, 0) == sample_position_from(last_bake_status@, subnet.principal@, i as int),
        decreases last_bake_status@.len() - i,
    {
        if last_bake_status[i].subnet == subnet.principal {
            let observed = last_bake_status[i].observed_secs;
            if observed >= stage_bake_time {
                return Ok(0);
            } else {
                // The difference of two `i64` values below each other fits a `u64`.
                let remaining = (stage_bake_time as i128 - observed as i128) as u64;
                return Ok(remaining);
            }
        }
        i = i + 1;
    }
    Err(RolloutError::UnknownBake)
}

} // verus!
