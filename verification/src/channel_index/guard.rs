//! A series of insertions into a channel index.

use vstd::prelude::*;
use crate::channel::{ChannelId, ChannelPath};
use crate::channel_index::edges::{
    any_path_contains, keep_paths_without_edge, plan_edge, remove_positions, root_positions_ascend,
};
use crate::channel_index::index::ChannelIndex;
use crate::channel_index::laws::unseen_keeps_tidied;
use crate::channel_index::model::{path_models, IndexModel};
use crate::clock::Global;
use crate::proto;

verus! {

/// The paths of a series of insertions, in the order in which the insertions leave them.
#[derive(Debug)]
pub struct InsertedPaths {
    paths: Vec<ChannelPath>,
}

impl View for InsertedPaths {
    type V = Seq<Seq<ChannelId>>;

    closed spec fn view(&self) -> Seq<Seq<ChannelId>> {
        path_models(self.paths@)
    }
}

/// A guard for ensuring that the paths index maintains its sort and uniqueness
/// invariants after a series of insertions.
///
/// After each insertion the index holds the inserted paths sorted and unique, so the series ends
/// wherever the guard is let go.
#[derive(Debug)]
pub struct ChannelPathsInsertGuard<'a> {
    /// The index, as the series leaves it if it ends here.
    pub index: &'a mut ChannelIndex,
    pub inserted: InsertedPaths,
}

impl<'a> View for ChannelPathsInsertGuard<'a> {
    type V = IndexModel;

    open spec fn view(&self) -> IndexModel {
        IndexModel { paths: self.inserted@, channels: self.index@.channels }
    }
}

impl<'a> ChannelPathsInsertGuard<'a> {
    /// The index is what the end of the series leaves: the channels, and the paths sorted and unique.
    pub open spec fn is_tidied(&self) -> bool {
        self@.tidied_to(self.index@)
    }

    pub(crate) fn new(index: &'a mut ChannelIndex) -> (guard: Self)
        ensures
            guard@ == old(index)@,
            guard.is_tidied(),
            *final(index) == *final(guard.index),
    {
        let paths = index.take_paths();
        index.set_paths(&paths);
        ChannelPathsInsertGuard { index, inserted: InsertedPaths { paths } }
    }

    /// Records that the notes of a channel changed to `version` in `epoch`.
    pub fn note_changed(&mut self, channel_id: ChannelId, epoch: u64, version: &Global)
        ensures
            final(self)@ == old(self)@.note_changed(channel_id, epoch, version@),
            old(self).is_tidied() ==> final(self).is_tidied(),
            *final(final(self).index) == *final(old(self).index),
    {
        self.index.note_changed(channel_id, epoch, version);
        proof {
            let channel = old(self)@.channels[channel_id].note_changed(epoch, version@);
            unseen_keeps_tidied(old(self)@, old(self).index@, channel_id, channel);
        }
    }

    /// Records that message `message_id` arrived in a channel.
    pub fn new_messages(&mut self, channel_id: ChannelId, message_id: u64)
        ensures
            final(self)@ == old(self)@.message_received(channel_id, message_id),
            old(self).is_tidied() ==> final(self).is_tidied(),
            *final(final(self).index) == *final(old(self).index),
    {
        self.index.new_message(channel_id, message_id);
        proof {
            let channel = old(self)@.channels[channel_id].message_received(message_id);
            unseen_keeps_tidied(old(self)@, old(self).index@, channel_id, channel);
        }
    }

    /// Remove the given edge from this index. This will not remove the channel. If no path goes
    /// through the channel any more, it becomes a root.
    pub fn delete_edge(&mut self, parent_id: ChannelId, channel_id: ChannelId)
        ensures
            final(self)@ == old(self)@.edge_deleted(parent_id, channel_id),
            final(self).is_tidied(),
            *final(final(self).index) == *final(old(self).index),
    {
        let mut paths: Vec<ChannelPath> = Vec::new();
        std::mem::swap(&mut paths, &mut self.inserted.paths);
        self.inserted.paths = keep_paths_without_edge(paths, parent_id, channel_id);
        // Ensure that there is at least one channel path in the index
        if !any_path_contains(&self.inserted.paths, channel_id) {
            self.insert_root(channel_id);
        }
        self.index.set_paths(&self.inserted.paths);
    }

    /// Inserts the edge from `parent_id` to `channel_id`: whatever goes on from the channel goes on
    /// behind each path that ends at the parent, and the channel is no root any more.
    pub fn insert_edge(&mut self, channel_id: ChannelId, parent_id: ChannelId)
        ensures
            final(self)@ == old(self)@.edge_inserted(channel_id, parent_id),
            old(self).is_tidied() ==> final(self).is_tidied(),
            *final(final(self).index) == *final(old(self).index),
    {
        let plan = plan_edge(&self.inserted.paths, channel_id, parent_id);
        if let Some((positions, mut new_paths)) = plan {
            let ghost models = path_models(self.inserted.paths@);
            proof {
                let marks = positions@.map_values(|position: usize| position as int);
                root_positions_ascend(models, channel_id, parent_id, models.len() as int);
                assert forall|i: int, j: int| 0 <= i < j < positions@.len() implies positions@[i]
                    < positions@[j] by {
                    assert(marks[i] < marks[j]);
                }
                assert forall|j: int| 0 <= j < positions@.len() implies (
                #[trigger] positions@[j]) < self.inserted.paths@.len() by {
                    assert(marks[j] < models.len());
                }
            }
            remove_positions(&mut self.inserted.paths, &positions);
            let ghost kept = path_models(self.inserted.paths@);
            let ghost added = path_models(new_paths@);
            self.inserted.paths.append(&mut new_paths);
            assert(path_models(self.inserted.paths@) =~= kept + added);
            self.index.set_paths(&self.inserted.paths);
        }
    }

    /// Adds a path that consists of one channel.
    fn insert_root(&mut self, channel_id: ChannelId)
        ensures
            final(self)@ == old(self)@.root_inserted(channel_id),
            *final(final(self).index) == *final(old(self).index),
    {
        let root: Vec<ChannelId> = vec![channel_id];
        assert(root@ =~= seq![channel_id]);
        self.inserted.paths.push(ChannelPath::new(root));
        assert(path_models(self.inserted.paths@) =~= path_models(old(self).inserted.paths@).push(seq![channel_id]));
    }

    /// Inserts a channel as the server describes it, or updates its name and visibility.
    pub fn insert(&mut self, channel_proto: proto::Channel)
        ensures
            final(self)@ == old(self)@.channel_inserted(channel_proto),
            final(self).is_tidied(),
            *final(final(self).index) == *final(old(self).index),
    {
        let channel_id: ChannelId = channel_proto.id;
        let is_new = self.index.record_channel(channel_proto);
        if is_new {
            self.insert_root(channel_id);
        }
        self.index.set_paths(&self.inserted.paths);
    }
}

} // verus!
