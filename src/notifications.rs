//! Which governance proposals a notifier has already announced.

use vstd::prelude::*;

verus! {

/// The id of the last proposal a notification went out for, and the path
/// of the file where that id is kept between runs.
#[derive(Clone, Debug)]
pub struct LastNotifiedProposal {
    file_path: String,
    last_notified_proposal_id: Option<u64>,
}

impl LastNotifiedProposal {
    /// The id of the last announced proposal, if any.
    pub closed spec fn last_id(&self) -> Option<u64> {
        self.last_notified_proposal_id
    }

    /// Where the last announced id is kept.
    pub closed spec fn path(&self) -> Seq<char> {
        self.file_path@
    }

    /// The tracker as read back from `file_path`, which held
    /// `last_notified_proposal_id` (or did not exist: `None`).
    pub fn from_saved(file_path: String, last_notified_proposal_id: Option<u64>) -> (r: Self)
        ensures
            r.path() == file_path@,
            r.last_id() == last_notified_proposal_id,
    {
        LastNotifiedProposal { file_path, last_notified_proposal_id }
    }

    /// The id of the last announced proposal, if any.
    pub fn get(&self) -> (r: Option<u64>)
        ensures
            r == self.last_id(),
    {
        self.last_notified_proposal_id
    }

    /// Where the last announced id is kept.
    pub fn file_path(&self) -> (r: &String)
        ensures
            r@ == self.path(),
    {
        &self.file_path
    }

    /// Records that proposal `id` was announced and its id written to the file.
    pub fn mark_saved(&mut self, id: u64)
        ensures
            final(self).last_id() == Some(id),
            final(self).path() == old(self).path(),
    {
        self.last_notified_proposal_id = Some(id);
    }

    /// Whether proposal `proposal_id` still has to be announced: nothing was
    /// announced yet, or its id is past the last announced one.
    pub fn is_new(&self, proposal_id: u64) -> (r: bool)
        ensures
            r == match self.last_id() {
                Some(last) => proposal_id > last,
                None => true,
            },
    {
        match self.last_notified_proposal_id {
            Some(last) => proposal_id > last,
            None => true,
        }
    }
}

} // verus!
