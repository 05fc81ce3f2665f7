//! Properties of the engine that relate its results across inputs and calls.

use crate::bake::sample_position_from;
use crate::calendar::{week_passed_between, weekday_index, Date};
use crate::error::RolloutError;
use crate::fleet::{lemma_subnet_position_bounds, resolve_prefix, subnet_position_from};
use crate::model::{BakeSample, Index, Stage, Subnet, SubnetUpdateProposal, UnassignedNodesProposal, Version};
use crate::proposals::{opens_subnet_update, opens_unassigned_update, subnet_proposal_position_from, unassigned_proposal_position_from};
use crate::resolve::{
    active_release, desired_for, desired_release, pinned_position_from, resolve_active, spans_more_than_two, target_version,
    version_pins, DesiredModel,
};
use crate::stage_checks::{
    all_noop, prefix_actions, rollout_actions, rollout_held, stage_actions, stage_waits, subnet_action,
    unassigned_actions, wait_actions, walk_stages, ActionModel, Snapshot,
};
use vstd::prelude::*;

verus! {

/// What one stage yields, counting its calendar gate.
pub open spec fn stage_outcome(stage: Stage, w: Snapshot, d: DesiredModel, release_start: Date, now: Date) -> Result<Seq<ActionModel>, RolloutError> {
    if stage_waits(stage, release_start, now) {
        Ok(wait_actions(stage))
    } else {
        stage_actions(stage, w, d)
    }
}

/// Whether a stage is complete: not held by its calendar gate, and every
/// action it yields is a `Noop`.
pub open spec fn stage_complete(stage: Stage, w: Snapshot, d: DesiredModel, release_start: Date, now: Date) -> bool {
    !stage_waits(stage, release_start, now) && (stage_actions(stage, w, d) matches Ok(a) && all_noop(a))
}

/// The release start date that the walk over the stages uses.
pub open spec fn start_of(index: Index, d: DesiredModel) -> Date {
    index.releases@[d.release].start_date
}

/// A successful run over `n` prefixes yields one action per prefix, each the
/// action of its own prefix.
proof fn lemma_prefix_actions_ok(prefixes: Seq<String>, n: int, bake_time: int, w: Snapshot, d: DesiredModel, acts: Seq<ActionModel>)
    requires
        0 <= n,
        prefix_actions(prefixes, n, bake_time, w, d) == Ok::<Seq<ActionModel>, RolloutError>(acts),
    ensures
        acts.len() == n,
        forall|i: int| 0 <= i < n ==> #[trigger] subnet_action(prefixes[i]@, bake_time, w, d) == Ok::<ActionModel, RolloutError>(acts[i]),
    decreases n,
{
    if n > 0 {
        let prev = prefix_actions(prefixes, n - 1, bake_time, w, d);
        let acc = prev->Ok_0;
        lemma_prefix_actions_ok(prefixes, n - 1, bake_time, w, d, acc);
        assert(acts == acc.push(subnet_action(prefixes[n - 1]@, bake_time, w, d)->Ok_0));
        assert forall|i: int| 0 <= i < n implies #[trigger] subnet_action(prefixes[i]@, bake_time, w, d) == Ok::<ActionModel, RolloutError>(acts[i]) by {
            if i < n - 1 {
                assert(acts[i] == acc[i]);
            }
        }
    }
}

/// A walk from stage `i` that yields some action stops at a stage `k`: the
/// stages from `i` to `k` are complete and stage `k` yields exactly those
/// actions without being complete.
proof fn lemma_walk_stops_at_one_stage(stages: Seq<Stage>, i: int, w: Snapshot, d: DesiredModel, start: Date, now: Date, acts: Seq<ActionModel>)
    requires
        0 <= i,
        walk_stages(stages, i, w, d, start, now) == Ok::<Seq<ActionModel>, RolloutError>(acts),
        acts.len() > 0,
    ensures
        exists|k: int|
            i <= k < stages.len()
            && (forall|j: int| i <= j < k ==> #[trigger] stage_complete(stages[j], w, d, start, now))
            && stage_outcome(stages[k], w, d, start, now) == Ok::<Seq<ActionModel>, RolloutError>(acts)
            && !stage_complete(stages[k], w, d, start, now),
    decreases stages.len() - i,
{
    if i < stages.len() {
        if stage_waits(stages[i], start, now) {
            assert(!stage_complete(stages[i], w, d, start, now));
            assert(forall|j: int| i <= j < i ==> #[trigger] stage_complete(stages[j], w, d, start, now));
        } else {
            let r = stage_actions(stages[i], w, d);
            if r matches Ok(a) && all_noop(a) {
                lemma_walk_stops_at_one_stage(stages, i + 1, w, d, start, now, acts);
                let k = choose|k: int|
                    i + 1 <= k < stages.len()
                    && (forall|j: int| i + 1 <= j < k ==> #[trigger] stage_complete(stages[j], w, d, start, now))
                    && stage_outcome(stages[k], w, d, start, now) == Ok::<Seq<ActionModel>, RolloutError>(acts)
                    && !stage_complete(stages[k], w, d, start, now);
                assert(stage_complete(stages[i], w, d, start, now));
                assert forall|j: int| i <= j < k implies #[trigger] stage_complete(stages[j], w, d, start, now) by {}
            } else {
                assert(forall|j: int| i <= j < i ==> #[trigger] stage_complete(stages[j], w, d, start, now));
            }
        }
    }
}

/// Equal snapshots yield equal results: the result is a function of the plan,
/// the snapshot and the date alone.
pub proof fn lemma_deterministic(index1: Index, w1: Snapshot, now1: Date, index2: Index, w2: Snapshot, now2: Date)
    requires
        index1 == index2,
        w1 == w2,
        now1 == now2,
    ensures
        rollout_actions(index1, w1, now1) == rollout_actions(index2, w2, now2),
{
}

/// Actions come from one stage only: when a call yields actions, the rollout
/// is not held, the target is derived, and there is a stage whose earlier
/// stages are all complete, which is itself not complete, and which yields
/// exactly those actions.
pub proof fn lemma_single_advancing_stage(index: Index, w: Snapshot, now: Date)
    requires
        rollout_actions(index, w, now) matches Ok(acts) && acts.len() > 0,
    ensures
        !rollout_held(index, now),
        desired_release(index.releases@, w.subnets) matches Ok(d) && exists|k: int|
            0 <= k < index.rollout.stages@.len()
            && (forall|j: int| 0 <= j < k ==> #[trigger] stage_complete(index.rollout.stages@[j], w, d, start_of(index, d), now))
            && stage_outcome(index.rollout.stages@[k], w, d, start_of(index, d), now) == rollout_actions(index, w, now)
            && !stage_complete(index.rollout.stages@[k], w, d, start_of(index, d), now),
{
    let acts = rollout_actions(index, w, now)->Ok_0;
    let d = desired_release(index.releases@, w.subnets)->Ok_0;
    lemma_walk_stops_at_one_stage(index.rollout.stages@, 0, w, d, start_of(index, d), now, acts);
}

/// A fleet that spans more than two releases is refused with
/// `TooManyActiveReleases`, whenever the rollout is not held (paused or on a
/// skip day, it yields no action at all).
pub proof fn lemma_release_cardinality(index: Index, w: Snapshot, now: Date)
    requires
        !rollout_held(index, now),
        spans_more_than_two(index.releases@, w.subnets),
    ensures
        rollout_actions(index, w, now) == Err::<Seq<ActionModel>, RolloutError>(RolloutError::TooManyActiveReleases),
{
}

/// The first pinned build at or after `j` is pinned, and no pinned build
/// comes before it.
proof fn lemma_pinned_position(versions: Seq<Version>, id: Seq<char>, j: int)
    requires
        0 <= j <= versions.len(),
    ensures
        j <= pinned_position_from(versions, id, j) <= versions.len(),
        pinned_position_from(versions, id, j) < versions.len() ==> version_pins(versions[pinned_position_from(versions, id, j)], id),
        forall|q: int| j <= q < pinned_position_from(versions, id, j) ==> !version_pins(#[trigger] versions[q], id),
    decreases versions.len() - j,
{
    if j < versions.len() && !version_pins(versions[j], id) {
        lemma_pinned_position(versions, id, j + 1);
    }
}

/// Feature builds reach the subnets pinned to them: every `PlaceProposal`
/// for a subnet names a subnet of the fleet and carries the first build of
/// the target release pinned to it, or the regular build when none is.
pub proof fn lemma_feature_build_pinning(index: Index, w: Snapshot, now: Date, i: int)
    requires
        rollout_actions(index, w, now) matches Ok(acts) && 0 <= i < acts.len()
            && (acts[i] matches ActionModel::PlaceProposal { is_unassigned, .. } && !is_unassigned),
    ensures
        ({
            let acts = rollout_actions(index, w, now)->Ok_0;
            let s = acts[i]->subnet_principal;
            let v = acts[i]->version;
            let versions = index.releases@[active_release(index.releases@, w.subnets)].versions@;
            &&& exists|k: int| 0 <= k < w.subnets.len() && #[trigger] w.subnets[k].principal@ == s
            &&& v == target_version(versions, s)
            &&& (exists|j: int| 0 <= j < versions.len() && version_pins(#[trigger] versions[j], s))
                    ==> v == versions[pinned_position_from(versions, s, 0)].version@
            &&& (forall|j: int| 0 <= j < versions.len() ==> !version_pins(#[trigger] versions[j], s))
                    ==> v == versions[0].version@
        }),
{
    let acts = rollout_actions(index, w, now)->Ok_0;
    lemma_single_advancing_stage(index, w, now);
    let d = desired_release(index.releases@, w.subnets)->Ok_0;
    let a = resolve_active(index.releases@, w.subnets)->Ok_0;
    assert(d == desired_for(index.releases@, w.subnets, a));
    let start = start_of(index, d);
    let stages = index.rollout.stages@;
    let k = choose|k: int|
        0 <= k < stages.len()
        && (forall|j: int| 0 <= j < k ==> #[trigger] stage_complete(stages[j], w, d, start, now))
        && stage_outcome(stages[k], w, d, start, now) == rollout_actions(index, w, now)
        && !stage_complete(stages[k], w, d, start, now);
    let stage = stages[k];
    if stage_waits(stage, start, now) {
        assert(acts[i] is WaitForNextWeek);
    } else {
        match stage {
            Stage::UnassignedNodes => {
                assert(acts == unassigned_actions(w, d));
            },
            Stage::Subnets { subnets: prefixes, bake_time_secs, .. } => {
                lemma_prefix_actions_ok(prefixes@, prefixes@.len() as int, bake_time_secs as int, w, d, acts);
                let p = prefixes@[i]@;
                assert(subnet_action(p, bake_time_secs as int, w, d) == Ok::<ActionModel, RolloutError>(acts[i]));
                lemma_subnet_position_bounds(w.subnets, p, 0);
                let kk = resolve_prefix(w.subnets, p)->Ok_0;
                assert(0 <= kk < w.subnets.len());
                assert(acts[i]->subnet_principal == w.subnets[kk].principal@);
                assert(acts[i]->version == d.subnets[kk].1);
            },
        }
    }
    let s = acts[i]->subnet_principal;
    let versions = index.releases@[a].versions@;
    lemma_pinned_position(versions, s, 0);
}

/// The first open subnet proposal for `(id, v)` at or after `j` is open, and
/// none comes before it.
proof fn lemma_subnet_proposal_position(ps: Seq<SubnetUpdateProposal>, id: Seq<char>, v: Seq<char>, j: int)
    requires
        0 <= j <= ps.len(),
    ensures
        j <= subnet_proposal_position_from(ps, id, v, j) <= ps.len(),
        subnet_proposal_position_from(ps, id, v, j) < ps.len() ==> opens_subnet_update(ps[subnet_proposal_position_from(ps, id, v, j)], id, v),
        forall|q: int| j <= q < ps.len() && opens_subnet_update(#[trigger] ps[q], id, v) ==> subnet_proposal_position_from(ps, id, v, j) <= q,
    decreases ps.len() - j,
{
    if j < ps.len() && !opens_subnet_update(ps[j], id, v) {
        lemma_subnet_proposal_position(ps, id, v, j + 1);
    }
}

/// Searching `ps + ex` from `ps.len() + j` searches `ex` from `j`.
proof fn lemma_subnet_proposal_shift(ps: Seq<SubnetUpdateProposal>, ex: Seq<SubnetUpdateProposal>, id: Seq<char>, v: Seq<char>, j: int)
    requires
        0 <= j <= ex.len(),
    ensures
        subnet_proposal_position_from(ps + ex, id, v, ps.len() + j) == ps.len() + subnet_proposal_position_from(ex, id, v, j),
    decreases ex.len() - j,
{
    if j < ex.len() {
        assert((ps + ex)[ps.len() + j] == ex[j]);
        lemma_subnet_proposal_shift(ps, ex, id, v, j + 1);
    }
}

/// Appending proposals keeps an earlier match and otherwise finds the first
/// match among the appended ones.
proof fn lemma_subnet_proposal_append(ps: Seq<SubnetUpdateProposal>, ex: Seq<SubnetUpdateProposal>, id: Seq<char>, v: Seq<char>, i: int)
    requires
        0 <= i <= ps.len(),
    ensures
        subnet_proposal_position_from(ps + ex, id, v, i) == if subnet_proposal_position_from(ps, id, v, i) < ps.len() {
            subnet_proposal_position_from(ps, id, v, i)
        } else {
            ps.len() + subnet_proposal_position_from(ex, id, v, 0)
        },
    decreases ps.len() - i,
{
    if i < ps.len() {
        assert((ps + ex)[i] == ps[i]);
        lemma_subnet_proposal_append(ps, ex, id, v, i + 1);
    } else {
        lemma_subnet_proposal_shift(ps, ex, id, v, 0);
    }
}

/// The first open unassigned-nodes proposal for `v` at or after `j` is open,
/// and none comes before it.
proof fn lemma_unassigned_proposal_position(ps: Seq<UnassignedNodesProposal>, v: Seq<char>, j: int)
    requires
        0 <= j <= ps.len(),
    ensures
        j <= unassigned_proposal_position_from(ps, v, j) <= ps.len(),
        unassigned_proposal_position_from(ps, v, j) < ps.len() ==> opens_unassigned_update(ps[unassigned_proposal_position_from(ps, v, j)], v),
        forall|q: int| j <= q < ps.len() && opens_unassigned_update(#[trigger] ps[q], v) ==> unassigned_proposal_position_from(ps, v, j) <= q,
    decreases ps.len() - j,
{
    if j < ps.len() && !opens_unassigned_update(ps[j], v) {
        lemma_unassigned_proposal_position(ps, v, j + 1);
    }
}

/// Searching `ps + ex` from `ps.len() + j` searches `ex` from `j`.
proof fn lemma_unassigned_proposal_shift(ps: Seq<UnassignedNodesProposal>, ex: Seq<UnassignedNodesProposal>, v: Seq<char>, j: int)
    requires
        0 <= j <= ex.len(),
    ensures
        unassigned_proposal_position_from(ps + ex, v, ps.len() + j) == ps.len() + unassigned_proposal_position_from(ex, v, j),
    decreases ex.len() - j,
{
    if j < ex.len() {
        assert((ps + ex)[ps.len() + j] == ex[j]);
        lemma_unassigned_proposal_shift(ps, ex, v, j + 1);
    }
}

/// Appending proposals keeps an earlier match and otherwise finds the first
/// match among the appended ones.
proof fn lemma_unassigned_proposal_append(ps: Seq<UnassignedNodesProposal>, ex: Seq<UnassignedNodesProposal>, v: Seq<char>, i: int)
    requires
        0 <= i <= ps.len(),
    ensures
        unassigned_proposal_position_from(ps + ex, v, i) == if unassigned_proposal_position_from(ps, v, i) < ps.len() {
            unassigned_proposal_position_from(ps, v, i)
        } else {
            ps.len() + unassigned_proposal_position_from(ex, v, 0)
        },
    decreases ps.len() - i,
{
    if i < ps.len() {
        assert((ps + ex)[i] == ps[i]);
        lemma_unassigned_proposal_append(ps, ex, v, i + 1);
    } else {
        lemma_unassigned_proposal_shift(ps, ex, v, 0);
    }
}

/// The snapshot after the proposals `ex_sub` and `ex_un` were submitted.
pub open spec fn with_proposals(w: Snapshot, ex_sub: Seq<SubnetUpdateProposal>, ex_un: Seq<UnassignedNodesProposal>) -> Snapshot {
    Snapshot {
        bake: w.bake,
        subnet_proposals: w.subnet_proposals + ex_sub,
        unassigned_proposals: w.unassigned_proposals + ex_un,
        unassigned_version: w.unassigned_version,
        subnets: w.subnets,
    }
}

/// Whether a `PlaceProposal` action has been acted on: an open proposal in
/// `ex_sub` (or `ex_un` for the unassigned nodes) moves its subnet to its
/// version. Other actions need nothing.
pub open spec fn acted_on(a: ActionModel, ex_sub: Seq<SubnetUpdateProposal>, ex_un: Seq<UnassignedNodesProposal>) -> bool {
    match a {
        ActionModel::PlaceProposal { is_unassigned, subnet_principal, version } => if is_unassigned {
            exists|q: int| 0 <= q < ex_un.len() && opens_unassigned_update(#[trigger] ex_un[q], version)
        } else {
            exists|q: int| 0 <= q < ex_sub.len() && opens_subnet_update(#[trigger] ex_sub[q], subnet_principal, version)
        },
        _ => true,
    }
}

/// Whether `b` is what `a` becomes once placed proposals were submitted: a
/// `PlaceProposal` becomes a `PendingProposal` for one of the submitted
/// proposals that moves the same subnet (or the unassigned nodes) to the same
/// version; every other action stays as it was.
pub open spec fn becomes(a: ActionModel, b: ActionModel, ex_sub: Seq<SubnetUpdateProposal>, ex_un: Seq<UnassignedNodesProposal>) -> bool {
    match a {
        ActionModel::PlaceProposal { is_unassigned, subnet_principal, version } => b matches ActionModel::PendingProposal { proposal_id, .. }
            && if is_unassigned {
                exists|q: int| 0 <= q < ex_un.len() && opens_unassigned_update(#[trigger] ex_un[q], version) && ex_un[q].info.id == proposal_id
            } else {
                exists|q: int|
                    0 <= q < ex_sub.len() && opens_subnet_update(#[trigger] ex_sub[q], subnet_principal, version) && ex_sub[q].info.id == proposal_id
            },
        _ => b == a,
    }
}

/// Per subnet: errors and successes stay as they were once proposals are
/// appended, and an acted-on `PlaceProposal` becomes pending.
proof fn lemma_subnet_action_with_proposals(
    p: Seq<char>,
    bake_time: int,
    w: Snapshot,
    d: DesiredModel,
    ex_sub: Seq<SubnetUpdateProposal>,
    ex_un: Seq<UnassignedNodesProposal>,
)
    ensures
        ({
            let r1 = subnet_action(p, bake_time, w, d);
            let r2 = subnet_action(p, bake_time, with_proposals(w, ex_sub, ex_un), d);
            &&& r1 is Err ==> r2 == r1
            &&& r1 is Ok ==> r2 is Ok
            &&& (r1 is Ok && acted_on(r1->Ok_0, ex_sub, ex_un)) ==> becomes(r1->Ok_0, r2->Ok_0, ex_sub, ex_un)
        }),
{
    let w2 = with_proposals(w, ex_sub, ex_un);
    if let Ok(k) = resolve_prefix(w.subnets, p) {
        let s = w.subnets[k];
        let v = d.subnets[k].1;
        if s.replica_version@ != v {
            let ps = w.subnet_proposals;
            lemma_subnet_proposal_append(ps, ex_sub, s.principal@, v, 0);
            lemma_subnet_proposal_position(ps, s.principal@, v, 0);
            lemma_subnet_proposal_position(ex_sub, s.principal@, v, 0);
            let q1 = subnet_proposal_position_from(ps, s.principal@, v, 0);
            if q1 < ps.len() {
                assert((ps + ex_sub)[q1] == ps[q1]);
            } else {
                let q = subnet_proposal_position_from(ex_sub, s.principal@, v, 0);
                if q < ex_sub.len() {
                    assert((ps + ex_sub)[ps.len() + q] == ex_sub[q]);
                }
            }
        }
    }
}

/// Per run of prefixes: the same holds element by element.
proof fn lemma_prefix_actions_with_proposals(
    prefixes: Seq<String>,
    n: int,
    bake_time: int,
    w: Snapshot,
    d: DesiredModel,
    ex_sub: Seq<SubnetUpdateProposal>,
    ex_un: Seq<UnassignedNodesProposal>,
)
    requires
        0 <= n,
        prefix_actions(prefixes, n, bake_time, w, d) matches Ok(acts)
            && forall|j: int| 0 <= j < acts.len() ==> acted_on(#[trigger] acts[j], ex_sub, ex_un),
    ensures
        ({
            let acts = prefix_actions(prefixes, n, bake_time, w, d)->Ok_0;
            prefix_actions(prefixes, n, bake_time, with_proposals(w, ex_sub, ex_un), d) matches Ok(acts2)
                && acts2.len() == acts.len()
                && forall|j: int| 0 <= j < acts.len() ==> becomes(#[trigger] acts[j], acts2[j], ex_sub, ex_un)
        }),
    decreases n,
{
    if n > 0 {
        let w2 = with_proposals(w, ex_sub, ex_un);
        let acts = prefix_actions(prefixes, n, bake_time, w, d)->Ok_0;
        let acc = prefix_actions(prefixes, n - 1, bake_time, w, d)->Ok_0;
        let a = subnet_action(prefixes[n - 1]@, bake_time, w, d)->Ok_0;
        assert(acts == acc.push(a));
        assert forall|j: int| 0 <= j < acc.len() implies acted_on(#[trigger] acc[j], ex_sub, ex_un) by {
            assert(acc[j] == acts[j]);
        }
        assert(acted_on(acts[acc.len() as int], ex_sub, ex_un));
        lemma_prefix_actions_with_proposals(prefixes, n - 1, bake_time, w, d, ex_sub, ex_un);
        lemma_subnet_action_with_proposals(prefixes[n - 1]@, bake_time, w, d, ex_sub, ex_un);
        let acc2 = prefix_actions(prefixes, n - 1, bake_time, w2, d)->Ok_0;
        let b = subnet_action(prefixes[n - 1]@, bake_time, w2, d)->Ok_0;
        let acts2 = acc2.push(b);
        assert(prefix_actions(prefixes, n, bake_time, w2, d) == Ok::<Seq<ActionModel>, RolloutError>(acts2));
        assert forall|j: int| 0 <= j < acts.len() implies becomes(#[trigger] acts[j], acts2[j], ex_sub, ex_un) by {
            if j < acc.len() {
                assert(acts[j] == acc[j]);
                assert(acts2[j] == acc2[j]);
            }
        }
    }
}

/// Per stage: an acted-on stage keeps its shape, each `PlaceProposal`
/// becoming pending.
proof fn lemma_stage_actions_with_proposals(
    stage: Stage,
    w: Snapshot,
    d: DesiredModel,
    ex_sub: Seq<SubnetUpdateProposal>,
    ex_un: Seq<UnassignedNodesProposal>,
)
    requires
        stage_actions(stage, w, d) matches Ok(acts)
            && forall|j: int| 0 <= j < acts.len() ==> acted_on(#[trigger] acts[j], ex_sub, ex_un),
    ensures
        ({
            let acts = stage_actions(stage, w, d)->Ok_0;
            stage_actions(stage, with_proposals(w, ex_sub, ex_un), d) matches Ok(acts2)
                && acts2.len() == acts.len()
                && forall|j: int| 0 <= j < acts.len() ==> becomes(#[trigger] acts[j], acts2[j], ex_sub, ex_un)
        }),
{
    let w2 = with_proposals(w, ex_sub, ex_un);
    match stage {
        Stage::Subnets { subnets: prefixes, bake_time_secs, .. } => {
            lemma_prefix_actions_with_proposals(prefixes@, prefixes@.len() as int, bake_time_secs as int, w, d, ex_sub, ex_un);
        },
        Stage::UnassignedNodes => {
            let v = d.unassigned_nodes;
            let ps = w.unassigned_proposals;
            lemma_unassigned_proposal_append(ps, ex_un, v, 0);
            lemma_unassigned_proposal_position(ps, v, 0);
            lemma_unassigned_proposal_position(ex_un, v, 0);
            let acts = unassigned_actions(w, d);
            let acts2 = unassigned_actions(w2, d);
            assert(stage_actions(stage, w, d) == Ok::<Seq<ActionModel>, RolloutError>(acts));
            assert(acts.len() == 1);
            let q1 = unassigned_proposal_position_from(ps, v, 0);
            if w.unassigned_version != v {
                if q1 < ps.len() {
                    assert((ps + ex_un)[q1] == ps[q1]);
                } else {
                    let given = stage_actions(stage, w, d)->Ok_0;
                    assert(given == acts);
                    assert(0 < given.len());
                    assert(acted_on(given[0], ex_sub, ex_un));
                    let q = unassigned_proposal_position_from(ex_un, v, 0);
                    assert((ps + ex_un)[ps.len() + q] == ex_un[q]);
                    assert(becomes(acts[0], acts2[0], ex_sub, ex_un));
                }
            }
        },
    }
}

/// Per walk over the stages: completed stages stay complete, and the stage
/// that yields the actions yields them again with each `PlaceProposal`
/// pending.
proof fn lemma_walk_with_proposals(
    stages: Seq<Stage>,
    i: int,
    w: Snapshot,
    d: DesiredModel,
    start: Date,
    now: Date,
    ex_sub: Seq<SubnetUpdateProposal>,
    ex_un: Seq<UnassignedNodesProposal>,
)
    requires
        0 <= i,
        walk_stages(stages, i, w, d, start, now) matches Ok(acts)
            && forall|j: int| 0 <= j < acts.len() ==> acted_on(#[trigger] acts[j], ex_sub, ex_un),
    ensures
        ({
            let acts = walk_stages(stages, i, w, d, start, now)->Ok_0;
            walk_stages(stages, i, with_proposals(w, ex_sub, ex_un), d, start, now) matches Ok(acts2)
                && acts2.len() == acts.len()
                && forall|j: int| 0 <= j < acts.len() ==> becomes(#[trigger] acts[j], acts2[j], ex_sub, ex_un)
        }),
    decreases stages.len() - i,
{
    let w2 = with_proposals(w, ex_sub, ex_un);
    if i < stages.len() {
        let stage = stages[i];
        if stage_waits(stage, start, now) {
            let acts = wait_actions(stage);
            assert forall|j: int| 0 <= j < acts.len() implies becomes(#[trigger] acts[j], acts[j], ex_sub, ex_un) by {
                assert(acts[j] is WaitForNextWeek);
            }
        } else {
            let a = stage_actions(stage, w, d)->Ok_0;
            if all_noop(a) {
                assert forall|j: int| 0 <= j < a.len() implies acted_on(#[trigger] a[j], ex_sub, ex_un) by {
                    assert(a[j] is Noop);
                }
                lemma_stage_actions_with_proposals(stage, w, d, ex_sub, ex_un);
                let a2 = stage_actions(stage, w2, d)->Ok_0;
                assert forall|j: int| 0 <= j < a2.len() implies #[trigger] a2[j] is Noop by {
                    assert(a[j] is Noop);
                    assert(becomes(a[j], a2[j], ex_sub, ex_un));
                }
                lemma_walk_with_proposals(stages, i + 1, w, d, start, now, ex_sub, ex_un);
            } else {
                lemma_stage_actions_with_proposals(stage, w, d, ex_sub, ex_un);
                let a2 = stage_actions(stage, w2, d)->Ok_0;
                let j = choose|j: int| 0 <= j < a.len() && !(#[trigger] a[j] is Noop);
                assert(becomes(a[j], a2[j], ex_sub, ex_un));
                assert(!(a2[j] is Noop));
            }
        }
    }
}

/// Placed proposals are not placed again: if, after a call, the caller
/// submits an open proposal for every `PlaceProposal` it was told to place
/// (same subnet or unassigned nodes, same version) and calls again on the
/// same fleet, the second call yields as many actions, each `PlaceProposal`
/// having become a `PendingProposal` for one of those proposals and every
/// other action unchanged.
pub proof fn lemma_placed_proposals_become_pending(
    index: Index,
    w: Snapshot,
    now: Date,
    ex_sub: Seq<SubnetUpdateProposal>,
    ex_un: Seq<UnassignedNodesProposal>,
)
    requires
        rollout_actions(index, w, now) matches Ok(acts)
            && forall|j: int| 0 <= j < acts.len() ==> acted_on(#[trigger] acts[j], ex_sub, ex_un),
    ensures
        ({
            let acts = rollout_actions(index, w, now)->Ok_0;
            rollout_actions(index, with_proposals(w, ex_sub, ex_un), now) matches Ok(acts2)
                && acts2.len() == acts.len()
                && forall|j: int| 0 <= j < acts.len() ==> becomes(#[trigger] acts[j], acts2[j], ex_sub, ex_un)
        }),
{
    if !rollout_held(index, now) {
        let d = desired_release(index.releases@, w.subnets)->Ok_0;
        lemma_walk_with_proposals(index.rollout.stages@, 0, w, d, start_of(index, d), now, ex_sub, ex_un);
    }
}

/// Seconds that subnet `id` has baked on its current version, when sampled.
pub open spec fn observed_secs(bake: Seq<BakeSample>, id: Seq<char>) -> Option<int> {
    let i = sample_position_from(bake, id, 0);
    if i < bake.len() {
        Some(bake[i].observed_secs as int)
    } else {
        None
    }
}

/// Whether the snapshot `w2` only progressed from `w1` towards the targets
/// `d`: the same fleet, in the same order; a subnet on its target version
/// stays on it; bake samples do not disappear and do not go back; the
/// unassigned nodes stay on their target once on it. Proposals may change
/// in any way.
pub open spec fn progresses(w1: Snapshot, w2: Snapshot, d: DesiredModel) -> bool {
    &&& w2.subnets.len() == w1.subnets.len()
    &&& forall|k: int| 0 <= k < w1.subnets.len() ==> (#[trigger] w2.subnets[k]).principal@ == w1.subnets[k].principal@
    &&& forall|k: int|
        0 <= k < w1.subnets.len() && (#[trigger] w1.subnets[k]).replica_version@ == d.subnets[k].1
            ==> w2.subnets[k].replica_version@ == w1.subnets[k].replica_version@
    &&& forall|id: Seq<char>|
        #[trigger] observed_secs(w1.bake, id) is Some ==> (observed_secs(w2.bake, id) is Some
            && observed_secs(w2.bake, id)->Some_0 >= observed_secs(w1.bake, id)->Some_0)
    &&& w1.unassigned_version == d.unassigned_nodes ==> w2.unassigned_version == w1.unassigned_version
}

/// Prefix matching reads the subnets' ids alone.
proof fn lemma_subnet_position_same_ids(s1: Seq<Subnet>, s2: Seq<Subnet>, prefix: Seq<char>, i: int)
    requires
        0 <= i,
        s1.len() == s2.len(),
        forall|k: int| 0 <= k < s1.len() ==> (#[trigger] s2[k]).principal@ == s1[k].principal@,
    ensures
        subnet_position_from(s1, prefix, i) == subnet_position_from(s2, prefix, i),
    decreases s1.len() - i,
{
    if i < s1.len() {
        assert(s2[i].principal@ == s1[i].principal@);
        lemma_subnet_position_same_ids(s1, s2, prefix, i + 1);
    }
}

/// A subnet that is done (`Noop`) stays done as the snapshot progresses.
proof fn lemma_subnet_noop_stays(p: Seq<char>, bake_time: int, w1: Snapshot, w2: Snapshot, d: DesiredModel)
    requires
        progresses(w1, w2, d),
        subnet_action(p, bake_time, w1, d) matches Ok(a) && a is Noop,
    ensures
        subnet_action(p, bake_time, w2, d) == subnet_action(p, bake_time, w1, d),
{
    lemma_subnet_position_same_ids(w1.subnets, w2.subnets, p, 0);
    lemma_subnet_position_bounds(w1.subnets, p, 0);
    let k0 = subnet_position_from(w1.subnets, p, 0);
    lemma_subnet_position_same_ids(w1.subnets, w2.subnets, p, k0 + 1);
    assert(resolve_prefix(w2.subnets, p) == resolve_prefix(w1.subnets, p));
    let k = resolve_prefix(w1.subnets, p)->Ok_0;
    let s1 = w1.subnets[k];
    let s2 = w2.subnets[k];
    assert(s2.principal@ == s1.principal@);
    assert(s1.replica_version@ == d.subnets[k].1);
    assert(s2.replica_version@ == s1.replica_version@);
    assert(observed_secs(w1.bake, s1.principal@) is Some);
}

/// Every prefix done in `w1` gives a run of `Noop`s in `w2` as well.
proof fn lemma_prefix_noops_stay(prefixes: Seq<String>, n: int, bake_time: int, w1: Snapshot, w2: Snapshot, d: DesiredModel)
    requires
        0 <= n,
        progresses(w1, w2, d),
        prefix_actions(prefixes, n, bake_time, w1, d) matches Ok(a) && all_noop(a),
    ensures
        prefix_actions(prefixes, n, bake_time, w2, d) == prefix_actions(prefixes, n, bake_time, w1, d),
    decreases n,
{
    if n > 0 {
        let a = prefix_actions(prefixes, n, bake_time, w1, d)->Ok_0;
        let acc = prefix_actions(prefixes, n - 1, bake_time, w1, d)->Ok_0;
        let last = subnet_action(prefixes[n - 1]@, bake_time, w1, d)->Ok_0;
        assert(a == acc.push(last));
        assert(a[acc.len() as int] == last);
        assert forall|j: int| 0 <= j < acc.len() implies #[trigger] acc[j] is Noop by {
            assert(a[j] == acc[j]);
        }
        lemma_prefix_noops_stay(prefixes, n - 1, bake_time, w1, w2, d);
        lemma_subnet_noop_stays(prefixes[n - 1]@, bake_time, w1, w2, d);
    }
}

/// Completed stages stay complete: when the snapshot only progresses, the
/// date only moves forward, and the target release stays the same, a stage
/// complete in the first call is complete in the second.
pub proof fn lemma_no_regression(index: Index, w1: Snapshot, now1: Date, w2: Snapshot, now2: Date, k: int)
    requires
        0 <= k < index.rollout.stages@.len(),
        desired_release(index.releases@, w1.subnets) is Ok,
        desired_release(index.releases@, w2.subnets) == desired_release(index.releases@, w1.subnets),
        progresses(w1, w2, desired_release(index.releases@, w1.subnets)->Ok_0),
        now1.day_number() <= now2.day_number(),
        ({
            let d = desired_release(index.releases@, w1.subnets)->Ok_0;
            stage_complete(index.rollout.stages@[k], w1, d, start_of(index, d), now1)
        }),
    ensures
        ({
            let d = desired_release(index.releases@, w1.subnets)->Ok_0;
            stage_complete(index.rollout.stages@[k], w2, d, start_of(index, d), now2)
        }),
{
    let d = desired_release(index.releases@, w1.subnets)->Ok_0;
    let start = start_of(index, d);
    let stage = index.rollout.stages@[k];
    if stage matches Stage::Subnets { subnets, wait_for_next_week, .. } && wait_for_next_week && subnets@.len() > 0 {
        let day = choose|day: int| start.day_number() < day <= now1.day_number() && #[trigger] weekday_index(day) == 0;
        assert(week_passed_between(start.day_number(), now2.day_number())) by {
            assert(start.day_number() < day <= now2.day_number() && weekday_index(day) == 0);
        }
    }
    match stage {
        Stage::Subnets { subnets: prefixes, bake_time_secs, .. } => {
            lemma_prefix_noops_stay(prefixes@, prefixes@.len() as int, bake_time_secs as int, w1, w2, d);
        },
        Stage::UnassignedNodes => {
            let a = unassigned_actions(w1, d);
            assert(a[0] is Noop);
        },
    }
}

} // verus!
