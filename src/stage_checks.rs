//! Stage evaluator and rollout driver: the actions that advance the rollout
//! by at most one stage.

use crate::bake::{get_remaining_bake_time_for_subnet, remaining_bake};
use crate::calendar::{is_skip_day, week_passed, week_passed_between, weekday_from_index, weekday_index, Date};
use crate::error::RolloutError;
use crate::fleet::{find_subnet, resolve_prefix};
use crate::model::{BakeSample, Index, Stage, Subnet, SubnetUpdateProposal, UnassignedNodesProposal};
use crate::proposals::{
    get_open_proposal_for_subnet, get_open_unassigned_proposal, subnet_proposal_position_from,
    unassigned_proposal_position_from,
};
use crate::resolve::{desired_release, desired_rollout_release_version, DesiredModel, DesiredReleaseVersion};
use vstd::prelude::*;

verus! {

/// What the engine tells the outside world to do for one subnet, or for the
/// unassigned nodes.
#[derive(Debug)]
pub enum SubnetAction {
    /// The subnet runs its target version and has baked long enough.
    Noop { subnet_short: String },
    /// The subnet runs its target version and must bake `remaining` more
    /// seconds.
    Baking { subnet_short: String, remaining: u64 },
    /// An open proposal already moves the subnet to its target version.
    PendingProposal { subnet_short: String, proposal_id: u64 },
    /// A proposal moving the subnet (or the unassigned nodes) to `version`
    /// should be submitted.
    PlaceProposal { is_unassigned: bool, subnet_principal: String, version: String },
    /// The stage waits for the week after the release started.
    WaitForNextWeek { subnet_short: String },
}

/// A [`SubnetAction`] as plain values.
pub ghost enum ActionModel {
    Noop { subnet_short: Seq<char> },
    Baking { subnet_short: Seq<char>, remaining: int },
    PendingProposal { subnet_short: Seq<char>, proposal_id: u64 },
    PlaceProposal { is_unassigned: bool, subnet_principal: Seq<char>, version: Seq<char> },
    WaitForNextWeek { subnet_short: Seq<char> },
}

impl View for SubnetAction {
    type V = ActionModel;

    open spec fn view(&self) -> ActionModel {
        match self {
            SubnetAction::Noop { subnet_short } => ActionModel::Noop { subnet_short: subnet_short@ },
            SubnetAction::Baking { subnet_short, remaining } => ActionModel::Baking {
                subnet_short: subnet_short@,
                remaining: *remaining as int,
            },
            SubnetAction::PendingProposal { subnet_short, proposal_id } => ActionModel::PendingProposal {
                subnet_short: subnet_short@,
                proposal_id: *proposal_id,
            },
            SubnetAction::PlaceProposal { is_unassigned, subnet_principal, version } => ActionModel::PlaceProposal {
                is_unassigned: *is_unassigned,
                subnet_principal: subnet_principal@,
                version: version@,
            },
            SubnetAction::WaitForNextWeek { subnet_short } => ActionModel::WaitForNextWeek { subnet_short: subnet_short@ },
        }
    }
}

/// The actions of a list, as plain values.
pub open spec fn actions_view(actions: Seq<SubnetAction>) -> Seq<ActionModel> {
    actions.map_values(|a: SubnetAction| a@)
}

/// The live state that the engine reads, as one value.
pub ghost struct Snapshot {
    pub bake: Seq<BakeSample>,
    pub subnet_proposals: Seq<SubnetUpdateProposal>,
    pub unassigned_proposals: Seq<UnassignedNodesProposal>,
    pub unassigned_version: Seq<char>,
    pub subnets: Seq<Subnet>,
}

/// Gathers the engine's inputs into a [`Snapshot`].
pub open spec fn snapshot(
    bake: Seq<BakeSample>,
    subnet_proposals: Seq<SubnetUpdateProposal>,
    unassigned_proposals: Seq<UnassignedNodesProposal>,
    unassigned_version: Seq<char>,
    subnets: Seq<Subnet>,
) -> Snapshot {
    Snapshot { bake, subnet_proposals, unassigned_proposals, unassigned_version, subnets }
}

/// The action for the subnet named by `prefix` in a stage that bakes for
/// `bake_time` seconds.
pub open spec fn subnet_action(prefix: Seq<char>, bake_time: int, w: Snapshot, d: DesiredModel) -> Result<ActionModel, RolloutError> {
    match resolve_prefix(w.subnets, prefix) {
        Err(e) => Err(e),
        Ok(k) => {
            let s = w.subnets[k];
            let v = d.subnets[k].1;
            if s.replica_version@ == v {
                match remaining_bake(w.bake, s.principal@, bake_time) {
                    Err(e) => Err(e),
                    Ok(rem) => if rem == 0 {
                        Ok(ActionModel::Noop { subnet_short: prefix })
                    } else {
                        Ok(ActionModel::Baking { subnet_short: prefix, remaining: rem })
                    },
                }
            } else {
                let q = subnet_proposal_position_from(w.subnet_proposals, s.principal@, v, 0);
                if q < w.subnet_proposals.len() {
                    Ok(ActionModel::PendingProposal { subnet_short: prefix, proposal_id: w.subnet_proposals[q].info.id })
                } else {
                    Ok(ActionModel::PlaceProposal { is_unassigned: false, subnet_principal: s.principal@, version: v })
                }
            }
        },
    }
}

/// The actions for the first `n` prefixes of a subnet stage, or the first
/// error among them.
pub open spec fn prefix_actions(prefixes: Seq<String>, n: int, bake_time: int, w: Snapshot, d: DesiredModel) -> Result<Seq<ActionModel>, RolloutError>
    decreases n,
{
    if n <= 0 {
        Ok(Seq::empty())
    } else {
        match prefix_actions(prefixes, n - 1, bake_time, w, d) {
            Err(e) => Err(e),
            Ok(acc) => match subnet_action(prefixes[n - 1]@, bake_time, w, d) {
                Err(e) => Err(e),
                Ok(a) => Ok(acc.push(a)),
            },
        }
    }
}

/// The actions for the unassigned nodes.
pub open spec fn unassigned_actions(w: Snapshot, d: DesiredModel) -> Seq<ActionModel> {
    let v = d.unassigned_nodes;
    let q = unassigned_proposal_position_from(w.unassigned_proposals, v, 0);
    if w.unassigned_version == v {
        seq![ActionModel::Noop { subnet_short: "unassigned-nodes"@ }]
    } else if q < w.unassigned_proposals.len() {
        seq![ActionModel::PendingProposal { subnet_short: "unassigned-version"@, proposal_id: w.unassigned_proposals[q].info.id }]
    } else {
        seq![ActionModel::PlaceProposal { is_unassigned: true, subnet_principal: Seq::empty(), version: v }]
    }
}

/// The actions of one stage, not counting its calendar gate.
pub open spec fn stage_actions(stage: Stage, w: Snapshot, d: DesiredModel) -> Result<Seq<ActionModel>, RolloutError> {
    match stage {
        Stage::UnassignedNodes => Ok(unassigned_actions(w, d)),
        Stage::Subnets { subnets, bake_time_secs, .. } => prefix_actions(subnets@, subnets@.len() as int, bake_time_secs as int, w, d),
    }
}

/// Whether every action is a `Noop`.
pub open spec fn all_noop(actions: Seq<ActionModel>) -> bool {
    forall|i: int| 0 <= i < actions.len() ==> #[trigger] actions[i] is Noop
}

/// Whether a stage is held back until the week after the release started.
/// A stage that names no subnet emits nothing, so it is never held: it is
/// complete.
pub open spec fn stage_waits(stage: Stage, release_start: Date, now: Date) -> bool {
    stage matches Stage::Subnets { subnets, wait_for_next_week, .. } && wait_for_next_week && subnets@.len() > 0
        && !week_passed_between(release_start.day_number(), now.day_number())
}

/// One `WaitForNextWeek` per prefix of a subnet stage.
pub open spec fn wait_actions(stage: Stage) -> Seq<ActionModel> {
    match stage {
        Stage::Subnets { subnets, .. } => Seq::new(subnets@.len(), |j: int| ActionModel::WaitForNextWeek { subnet_short: subnets@[j]@ }),
        Stage::UnassignedNodes => Seq::empty(),
    }
}

/// The actions of the first stage at or after `i` that is not complete, or
/// none when all of them are.
pub open spec fn walk_stages(stages: Seq<Stage>, i: int, w: Snapshot, d: DesiredModel, release_start: Date, now: Date) -> Result<Seq<ActionModel>, RolloutError>
    decreases stages.len() - i,
{
    if i < 0 || i >= stages.len() {
        Ok(Seq::empty())
    } else if stage_waits(stages[i], release_start, now) {
        Ok(wait_actions(stages[i]))
    } else {
        match stage_actions(stages[i], w, d) {
            Err(e) => Err(e),
            Ok(a) => if all_noop(a) {
                walk_stages(stages, i + 1, w, d, release_start, now)
            } else {
                Ok(a)
            },
        }
    }
}

/// Whether the rollout is held today: paused, or today is a skip day.
pub open spec fn rollout_held(index: Index, now: Date) -> bool {
    index.rollout.pause || index.rollout.skip_days@.contains(weekday_from_index(weekday_index(now.day_number())))
}

/// The actions that advance the rollout, or the error that prevents them.
pub open spec fn rollout_actions(index: Index, w: Snapshot, now: Date) -> Result<Seq<ActionModel>, RolloutError> {
    if rollout_held(index, now) {
        Ok(Seq::empty())
    } else {
        match desired_release(index.releases@, w.subnets) {
            Err(e) => Err(e),
            Ok(d) => walk_stages(index.rollout.stages@, 0, w, d, index.releases@[d.release].start_date, now),
        }
    }
}

/// Once the first `n` prefixes end in an error, so do all longer runs.
proof fn lemma_prefix_error_persists(prefixes: Seq<String>, n: int, m: int, bake_time: int, w: Snapshot, d: DesiredModel)
    requires
        0 <= n <= m,
        prefix_actions(prefixes, n, bake_time, w, d) is Err,
    ensures
        prefix_actions(prefixes, m, bake_time, w, d) == prefix_actions(prefixes, n, bake_time, w, d),
    decreases m - n,
{
    if m > n {
        lemma_prefix_error_persists(prefixes, n, m - 1, bake_time, w, d);
    }
}

/// The action for the subnet named by `prefix`.
fn check_subnet(
    prefix: &String,
    bake_time: i64,
    last_bake_status: &[BakeSample],
    subnet_update_proposals: &[SubnetUpdateProposal],
    subnets: &[Subnet],
    desired: &DesiredReleaseVersion,
    Ghost(w): Ghost<Snapshot>,
) -> (r: Result<SubnetAction, RolloutError>)
    requires
        desired@.subnets.len() == subnets@.len(),
        w.bake == last_bake_status@,
        w.subnet_proposals == subnet_update_proposals@,
        w.subnets == subnets@,
    ensures
        match r {
            Ok(a) => subnet_action(prefix@, bake_time as int, w, desired@) == Ok::<ActionModel, RolloutError>(a@),
            Err(e) => subnet_action(prefix@, bake_time as int, w, desired@) == Err::<ActionModel, RolloutError>(e),
        },
{
    let k = match find_subnet(subnets, prefix.as_str()) {
        Ok(k) => k,
        Err(e) => return Err(e),
    };
    let subnet = &subnets[k];
    let target = &desired.subnets[k].1;
    assert(target@ == desired@.subnets[k as int].1);
    if subnet.replica_version == *target {
        match get_remaining_bake_time_for_subnet(last_bake_status, subnet, bake_time) {
            Err(e) => Err(e),
            Ok(remaining) => {
                if remaining == 0 {
                    Ok(SubnetAction::Noop { subnet_short: prefix.clone() })
                } else {
                    Ok(SubnetAction::Baking { subnet_short: prefix.clone(), remaining })
                }
            },
        }
    } else {
        match get_open_proposal_for_subnet(subnet_update_proposals, subnet, target.as_str()) {
            Some(proposal) => Ok(SubnetAction::PendingProposal { subnet_short: prefix.clone(), proposal_id: proposal.info.id }),
            None => Ok(SubnetAction::PlaceProposal {
                is_unassigned: false,
                subnet_principal: subnet.principal.clone(),
                version: target.clone(),
            }),
        }
    }
}

/// The actions of one stage, not counting its calendar gate.
fn check_stage(
    last_bake_status: &[BakeSample],
    subnet_update_proposals: &[SubnetUpdateProposal],
    unassigned_node_update_proposals: &[UnassignedNodesProposal],
    stage: &Stage,
    unassigned_version: &String,
    subnets: &[Subnet],
    desired: &DesiredReleaseVersion,
) -> (r: Result<Vec<SubnetAction>, RolloutError>)
    requires
        desired@.subnets.len() == subnets@.len(),
    ensures
        ({
            let w = snapshot(last_bake_status@, subnet_update_proposals@, unassigned_node_update_proposals@, unassigned_version@, subnets@);
            match r {
                Ok(a) => stage_actions(*stage, w, desired@) == Ok::<Seq<ActionModel>, RolloutError>(actions_view(a@)),
                Err(e) => stage_actions(*stage, w, desired@) == Err::<Seq<ActionModel>, RolloutError>(e),
            }
        }),
{
    let ghost w = snapshot(last_bake_status@, subnet_update_proposals@, unassigned_node_update_proposals@, unassigned_version@, subnets@);
    let mut actions: Vec<SubnetAction> = Vec::new();
    match stage {
        Stage::UnassignedNodes => {
            let target = &desired.unassigned_nodes;
            if *unassigned_version == *target {
                actions.push(SubnetAction::Noop { subnet_short: String::from_str("unassigned-nodes") });
            } else {
                match get_open_unassigned_proposal(unassigned_node_update_proposals, target.as_str()) {
                    Some(proposal) => actions.push(SubnetAction::PendingProposal {
                        subnet_short: String::from_str("unassigned-version"),
                        proposal_id: proposal.info.id,
                    }),
                    None => actions.push(SubnetAction::PlaceProposal {
                        is_unassigned: true,
                        subnet_principal: String::new(),
                        version: target.clone(),
                    }),
                }
            }
            assert(actions_view(actions@) =~= unassigned_actions(w, desired@));
            Ok(actions)
        },
        Stage::Subnets { subnets: prefixes, bake_time_secs, .. } => {
            let mut j: usize = 0;
            assert(stage_actions(*stage, w, desired@) == prefix_actions(prefixes@, prefixes@.len() as int, *bake_time_secs as int, w, desired@));
            assert(actions_view(actions@) =~= Seq::<ActionModel>::empty());
            while j < prefixes.len()
                invariant
                    j <= prefixes@.len(),
                    desired@.subnets.len() == subnets@.len(),
                    w == snapshot(last_bake_status@, subnet_update_proposals@, unassigned_node_update_proposals@, unassigned_version@, subnets@),
                    prefix_actions(prefixes@, j as int, *bake_time_secs as int, w, desired@)
                        == Ok::<Seq<ActionModel>, RolloutError>(actions_view(actions@)),
                    stage_actions(*stage, w, desired@)
                        == prefix_actions(prefixes@, prefixes@.len() as int, *bake_time_secs as int, w, desired@),
                decreases prefixes@.len() - j,
            {
                match check_subnet(&prefixes[j], *bake_time_secs, last_bake_status, subnet_update_proposals, subnets, desired, Ghost(w)) {
                    Err(e) => {
                        proof {
                            assert(prefix_actions(prefixes@, j + 1, *bake_time_secs as int, w, desired@) == Err::<Seq<ActionModel>, RolloutError>(e));
                            lemma_prefix_error_persists(prefixes@, j + 1, prefixes@.len() as int, *bake_time_secs as int, w, desired@);
                        }
                        return Err(e);
                    },
                    Ok(action) => {
                        let ghost before = actions@;
                        let ghost seen = action@;
                        actions.push(action);
                        assert(actions_view(actions@) =~= actions_view(before).push(seen));
                    },
                }
                j = j + 1;
            }
            Ok(actions)
        },
    }
}

/// Whether every action is a `Noop`.
fn is_all_noop(actions: &Vec<SubnetAction>) -> (r: bool)
    ensures
        r == all_noop(actions_view(actions@)),
{
    let mut i: usize = 0;
    while i < actions.len()
        invariant
            i <= actions@.len(),
            forall|q: int| 0 <= q < i ==> (#[trigger] actions_view(actions@)[q]) is Noop,
        decreases actions@.len() - i,
    {
        match &actions[i] {
            SubnetAction::Noop { .. } => {},
            _ => {
                assert(!(actions_view(actions@)[i as int] is Noop));
                return false;
            },
        }
        i = i + 1;
    }
    true
}

/// One `WaitForNextWeek` per prefix.
fn wait_for_next_week_actions(prefixes: &Vec<String>) -> (r: Vec<SubnetAction>)
    ensures
        actions_view(r@) == Seq::new(prefixes@.len(), |j: int| ActionModel::WaitForNextWeek { subnet_short: prefixes@[j]@ }),
{
    let mut actions: Vec<SubnetAction> = Vec::new();
    let mut j: usize = 0;
    while j < prefixes.len()
        invariant
            j <= prefixes@.len(),
            actions@.len() == j,
            actions_view(actions@) == Seq::new(j as nat, |q: int| ActionModel::WaitForNextWeek { subnet_short: prefixes@[q]@ }),
        decreases prefixes@.len() - j,
    {
        let ghost before = actions@;
        let prefix = prefixes[j].clone();
        assert(prefix@ == prefixes@[j as int]@);
        actions.push(SubnetAction::WaitForNextWeek { subnet_short: prefix });
        assert(actions_view(actions@) =~= actions_view(before).push(ActionModel::WaitForNextWeek { subnet_short: prefixes@[j as int]@ }));
        assert(actions_view(actions@) =~= Seq::new((j + 1) as nat, |q: int| ActionModel::WaitForNextWeek { subnet_short: prefixes@[q]@ }));
        j = j + 1;
    }
    actions
}

/// Decides the actions that advance the rollout described by `index`.
///
/// Nothing happens while the rollout is paused or on one of its skip days.
/// Otherwise the target release is derived from the fleet and the catalog,
/// and the stages are walked in order: a stage that must wait for the week
/// after the release started yields one `WaitForNextWeek` per subnet; the
/// first stage whose actions are not all `Noop` yields its actions; when
/// every stage is complete the rollout is finished and no action is left.
/// The first error met on the way is returned instead.
pub fn check_stages(
    last_bake_status: &[BakeSample],
    subnet_update_proposals: &[SubnetUpdateProposal],
    unassigned_node_update_proposals: &[UnassignedNodesProposal],
    index: Index,
    unassigned_version: &String,
    subnets: &[Subnet],
    now: Date,
) -> (r: Result<Vec<SubnetAction>, RolloutError>)
    ensures
        ({
            let w = snapshot(last_bake_status@, subnet_update_proposals@, unassigned_node_update_proposals@, unassigned_version@, subnets@);
            match r {
                Ok(a) => rollout_actions(index, w, now) == Ok::<Seq<ActionModel>, RolloutError>(actions_view(a@)),
                Err(e) => rollout_actions(index, w, now) == Err::<Seq<ActionModel>, RolloutError>(e),
            }
        }),
{
    let ghost w = snapshot(last_bake_status@, subnet_update_proposals@, unassigned_node_update_proposals@, unassigned_version@, subnets@);
    if index.rollout.pause || is_skip_day(index.rollout.skip_days.as_slice(), now.weekday()) {
        let none: Vec<SubnetAction> = Vec::new();
        assert(actions_view(none@) =~= Seq::<ActionModel>::empty());
        return Ok(none);
    }
    let desired = match desired_rollout_release_version(subnets, index.releases.as_slice()) {
        Ok(d) => d,
        Err(e) => return Err(e),
    };
    assert(desired@.subnets.len() == subnets@.len());
    let start = index.releases[desired.release].start_date;
    let stages = &index.rollout.stages;
    let mut i: usize = 0;
    while i < stages.len()
        invariant
            i <= stages@.len(),
            desired@.subnets.len() == subnets@.len(),
            w == snapshot(last_bake_status@, subnet_update_proposals@, unassigned_node_update_proposals@, unassigned_version@, subnets@),
            rollout_actions(index, w, now) == walk_stages(stages@, i as int, w, desired@, start, now),
        decreases stages@.len() - i,
    {
        let stage = &stages[i];
        let waits = match stage {
            Stage::Subnets { subnets: prefixes, wait_for_next_week, .. } => {
                *wait_for_next_week && prefixes.len() > 0 && !week_passed(start, now)
            },
            Stage::UnassignedNodes => false,
        };
        if waits {
            match stage {
                Stage::Subnets { subnets: prefixes, .. } => return Ok(wait_for_next_week_actions(prefixes)),
                Stage::UnassignedNodes => {},
            }
        }
        match check_stage(
            last_bake_status,
            subnet_update_proposals,
            unassigned_node_update_proposals,
            stage,
            unassigned_version,
            subnets,
            &desired,
        ) {
            Err(e) => return Err(e),
            Ok(actions) => {
                if !is_all_noop(&actions) {
                    return Ok(actions);
                }
            },
        }
        i = i + 1;
    }
    let none: Vec<SubnetAction> = Vec::new();
    assert(actions_view(none@) =~= Seq::<ActionModel>::empty());
    Ok(none)
}

} // verus!
