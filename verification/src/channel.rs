//! Channels, and paths of channels from a root down to a descendant.

use vstd::prelude::*;
use crate::clock::Global;
use crate::proto::ChannelVisibility;
use std::ops::Deref;

verus! {

/// Identifies a channel.
pub type ChannelId = u64;

/// What a [`Channel`] holds.
#[verifier::ext_equal]
pub struct ChannelModel {
    pub id: ChannelId,
    pub name: Seq<char>,
    pub visibility: ChannelVisibility,
    /// The epoch and the version of the channel's notes up to which changes are unseen.
    pub unseen_note_version: Option<(u64, Seq<u32>)>,
    /// The latest message that has not been seen.
    pub unseen_message_id: Option<u64>,
}

/// A channel that the user takes part in.
#[derive(Debug)]
pub struct Channel {
    pub id: ChannelId,
    pub name: String,
    pub visibility: ChannelVisibility,
    pub unseen_note_version: Option<(u64, Global)>,
    pub unseen_message_id: Option<u64>,
}

impl View for Channel {
    type V = ChannelModel;

    open spec fn view(&self) -> ChannelModel {
        ChannelModel {
            id: self.id,
            name: self.name@,
            visibility: self.visibility,
            unseen_note_version: match self.unseen_note_version {
                Some((epoch, version)) => Some((epoch, version@)),
                None => None,
            },
            unseen_message_id: self.unseen_message_id,
        }
    }
}

impl Clone for Channel {
    fn clone(&self) -> (copy: Self)
        ensures
            copy@ == self@,
    {
        Channel {
            id: self.id,
            name: self.name.clone(),
            visibility: self.visibility,
            unseen_note_version: match &self.unseen_note_version {
                Some((epoch, version)) => Some((*epoch, version.clone())),
                None => None,
            },
            unseen_message_id: self.unseen_message_id,
        }
    }
}

/// A chain of channels, each the parent of the next.
#[derive(Debug)]
pub struct ChannelPath {
    ids: Vec<ChannelId>,
}

impl View for ChannelPath {
    type V = Seq<ChannelId>;

    closed spec fn view(&self) -> Seq<ChannelId> {
        self.ids@
    }
}

impl ChannelPath {
    pub fn new(ids: Vec<ChannelId>) -> (path: Self)
        ensures
            path@ == ids@,
    {
        ChannelPath { ids }
    }

    pub fn len(&self) -> (len: usize)
        ensures
            len == self@.len(),
    {
        self.ids.len()
    }

    /// The channel at a position of the path.
    pub fn channel_at(&self, position: usize) -> (id: ChannelId)
        requires
            position < self@.len(),
        ensures
            id == self@[position as int],
    {
        self.ids[position]
    }
}

impl Clone for ChannelPath {
    fn clone(&self) -> (copy: Self)
        ensures
            copy@ == self@,
    {
        let mut ids: Vec<ChannelId> = Vec::with_capacity(self.ids.len());
        ids.extend_from_slice(self.ids.as_slice());
        assert(ids@ =~= self.ids@);
        ChannelPath { ids }
    }
}

impl Deref for ChannelPath {
    type Target = [ChannelId];

    fn deref(&self) -> (ids: &[ChannelId])
        ensures
            ids@ == self@,
    {
        self.ids.as_slice()
    }
}

impl PartialEq for ChannelPath {
    fn eq(&self, other: &Self) -> (equal: bool) {
        same_ids(&self.ids, &other.ids)
    }
}

impl vstd::std_specs::cmp::PartialEqSpecImpl for ChannelPath {
    open spec fn obeys_eq_spec() -> bool {
        true
    }

    open spec fn eq_spec(&self, other: &Self) -> bool {
        self@ == other@
    }
}

impl Eq for ChannelPath {

}

/// Whether two lists hold the same channels in the same order.
fn same_ids(left: &Vec<ChannelId>, right: &Vec<ChannelId>) -> (same: bool)
    ensures
        same == (left@ == right@),
{
    if left.len() != right.len() {
        return false;
    }
    let mut i: usize = 0;
    while i < left.len()
        invariant
            left.len() == right.len(),
            forall|j: int| 0 <= j < i ==> left[j] == right[j],
        decreases left.len() - i,
    {
        if left[i] != right[i] {
            return false;
        }
        i += 1;
    }
    assert(left@ =~= right@);
    true
}

} // verus!
