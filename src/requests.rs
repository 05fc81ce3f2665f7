//! Requests that name a subnet.

use vstd::prelude::*;

verus! {

/// A request about one subnet, named by its textual id.
#[derive(Clone, Debug)]
pub struct SubnetRequest {
    pub id: String,
}

} // verus!
