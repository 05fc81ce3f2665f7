//! Proposal index: open governance proposals that already move a subnet or
//! the unassigned nodes to a version.

use crate::model::{Subnet, SubnetUpdateProposal, UnassignedNodesProposal};
use crate::text::same_text;
use vstd::prelude::*;

verus! {

/// Whether `p` is an open proposal that moves subnet `id` to version `v`.
pub open spec fn opens_subnet_update(p: SubnetUpdateProposal, id: Seq<char>, v: Seq<char>) -> bool {
    p.subnet_id@ == id && p.replica_version_id@ == v && !p.info.executed
}

/// Position of the first proposal at or after `i` that is open and moves
/// subnet `id` to `v`, or the number of proposals if there is none.
pub open spec fn subnet_proposal_position_from(
    proposals: Seq<SubnetUpdateProposal>,
    id: Seq<char>,
    v: Seq<char>,
    i: int,
) -> int
    decreases proposals.len() - i,
{
    if i < 0 || i >= proposals.len() {
        proposals.len() as int
    } else if opens_subnet_update(proposals[i], id, v) {
        i
    } else {
        subnet_proposal_position_from(proposals, id, v, i + 1)
    }
}

/// Whether `p` is an open proposal that moves the unassigned nodes to `v`.
pub open spec fn opens_unassigned_update(p: UnassignedNodesProposal, v: Seq<char>) -> bool {
    !p.info.executed && (p.replica_version matches Some(s) && s@ == v)
}

/// Position of the first proposal at or after `i` that is open and moves the
/// unassigned nodes to `v`, or the number of proposals if there is none.
pub open spec fn unassigned_proposal_position_from(
    proposals: Seq<UnassignedNodesProposal>,
    v: Seq<char>,
    i: int,
) -> int
    decreases proposals.len() - i,
{
    if i < 0 || i >= proposals.len() {
        proposals.len() as int
    } else if opens_unassigned_update(proposals[i], v) {
        i
    } else {
        unassigned_proposal_position_from(proposals, v, i + 1)
    }
}

/// The first open proposal that moves `subnet` to `desired_version`, if any.
pub fn get_open_proposal_for_subnet<'a>(
    subnet_update_proposals: &'a [SubnetUpdateProposal],
    subnet: &Subnet,
    desired_version: &str,
) -> (r: Option<&'a SubnetUpdateProposal>)
    ensures
        ({
            let i = subnet_proposal_position_from(subnet_update_proposals@, subnet.principal@, desired_version@, 0);
            match r {
                Some(p) => i < subnet_update_proposals@.len() && *p == subnet_update_proposals@[i],
                None => i == subnet_update_proposals@.len(),
            }
        }),
{
    let mut i: usize = 0;
    while i < subnet_update_proposals.len()
        invariant
            i <= subnet_update_proposals@.len(),
            subnet_proposal_position_from(subnet_update_proposals@, subnet.principal@, desired_version@, 0)
                == subnet_proposal_position_from(subnet_update_proposals@, subnet.principal@, desired_version@, i as int),
        decreases subnet_update_proposals@.len() - i,
    {
        let p = &subnet_update_proposals[i];
        if p.subnet_id == subnet.principal && same_text(p.replica_version_id.as_str(), desired_version) && !p.info.executed {
            return Some(p);
        }
        i = i + 1;
    }
    None
}

/// The first open proposal that moves the unassigned nodes to
/// `desired_version`, if any.
pub fn get_open_unassigned_proposal<'a>(
    unassigned_node_update_proposals: &'a [UnassignedNodesProposal],
    desired_version: &str,
) -> (r: Option<&'a UnassignedNodesProposal>)
    ensures
        ({
            let i = unassigned_proposal_position_from(unassigned_node_update_proposals@, desired_version@, 0);
            match r {
                Some(p) => i < unassigned_node_update_proposals@.len() && *p == unassigned_node_update_proposals@[i],
                None => i == unassigned_node_update_proposals@.len(),
            }
        }),
{
    let mut i: usize = 0;
    while i < unassigned_node_update_proposals.len()
        invariant
            i <= unassigned_node_update_proposals@.len(),
            unassigned_proposal_position_from(unassigned_node_update_proposals@, desired_version@, 0)
                == unassigned_proposal_position_from(unassigned_node_update_proposals@, desired_version@, i as int),
        decreases unassigned_node_update_proposals@.len() - i,
    {
        let p = &unassigned_node_update_proposals[i];
        if !p.info.executed {
            match &p.replica_version {
                Some(v) => {
                    if same_text(v.as_str(), desired_version) {
                        return Some(p);
                    }
                },
                None => {},
            }
        }
        i = i + 1;
    }
    None
}

} // verus!
