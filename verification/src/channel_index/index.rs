//! The channel index.

use vstd::prelude::*;
use crate::channel::{Channel, ChannelId, ChannelPath};
use crate::channel_index::guard::ChannelPathsInsertGuard;
use crate::channel_index::model::{
    all_known, channel_models, index_model, path_models, IndexModel,
};
use crate::channel_index::sorting::tidy_paths;
use crate::clock::Global;
use crate::proto;
use std::collections::BTreeMap;
use std::ops::Deref;
use std::sync::Arc;

verus! {

broadcast use {
    vstd::std_specs::btree::group_btree_axioms,
    vstd::laws_cmp::group_laws_cmp,
};

/// The known channels by id, and the paths from root channels down.
#[derive(Debug)]
pub struct ChannelIndex {
    paths: Vec<ChannelPath>,
    channels_by_id: BTreeMap<ChannelId, Arc<Channel>>,
}

impl View for ChannelIndex {
    type V = IndexModel;

    closed spec fn view(&self) -> IndexModel {
        index_model(self.paths@, self.channels_by_id@)
    }
}

impl Default for ChannelIndex {
    fn default() -> (index: Self)
        ensures
            index@ == IndexModel::empty(),
    {
        let index = ChannelIndex { paths: Vec::new(), channels_by_id: BTreeMap::new() };
        assert(index@ =~= IndexModel::empty());
        index
    }
}

impl ChannelIndex {
    /// The known channels by id.
    pub fn by_id(&self) -> (channels_by_id: &BTreeMap<ChannelId, Arc<Channel>>)
        ensures
            channel_models(channels_by_id@) == self@.channels,
    {
        &self.channels_by_id
    }

    /// Forgets every channel and every path.
    pub fn clear(&mut self)
        ensures
            final(self)@ == IndexModel::empty(),
    {
        self.paths.clear();
        self.channels_by_id.clear();
        assert(self@ =~= IndexModel::empty());
    }

    /// Deletes the given channels from this index.
    pub fn delete_channels(&mut self, channels: &[ChannelId])
        ensures
            final(self)@ == old(self)@.channels_deleted(channels@),
    {
        remove_channels(&mut self.channels_by_id, channels);
        let mut paths: Vec<ChannelPath> = Vec::new();
        std::mem::swap(&mut paths, &mut self.paths);
        self.paths = keep_known_paths(paths, &self.channels_by_id);
    }

    /// Starts a series of insertions, which ends when the guard is let go.
    pub fn bulk_insert(&mut self) -> (guard: ChannelPathsInsertGuard<'_>)
        ensures
            guard@ == old(self)@,
            guard.is_tidied(),
            *final(self) == *final(guard.index),
    {
        ChannelPathsInsertGuard::new(self)
    }

    /// Takes the paths out of the index.
    pub(crate) fn take_paths(&mut self) -> (paths: Vec<ChannelPath>)
        ensures
            path_models(paths@) == old(self)@.paths,
            final(self)@.channels == old(self)@.channels,
    {
        let mut paths: Vec<ChannelPath> = Vec::new();
        std::mem::swap(&mut paths, &mut self.paths);
        paths
    }

    /// Has the index hold `paths`, sorted by the names along them and of equal paths only the first.
    pub(crate) fn set_paths(&mut self, paths: &Vec<ChannelPath>)
        ensures
            final(self)@.channels == old(self)@.channels,
            (IndexModel {
                paths: path_models(paths@),
                channels: old(self)@.channels,
            }).tidied_to(final(self)@),
    {
        self.paths = tidy_paths(paths, &self.channels_by_id);
    }

    /// Records a channel as the server describes it, or updates its name and visibility, and says
    /// whether it was unknown. The paths stay as they are.
    pub(crate) fn record_channel(&mut self, channel_proto: proto::Channel) -> (is_new: bool)
        ensures
            is_new == !old(self)@.channels.contains_key(channel_proto.id),
            final(self)@.channels == old(self)@.channel_inserted(channel_proto).channels,
    {
        let ghost record = channel_proto;
        let known: Option<Channel> = match self.channels_by_id.get(&channel_proto.id) {
            Some(existing_channel) => Some(channel_copy(existing_channel)),
            None => None,
        };
        let is_new = known.is_none();
        match known {
            Some(mut existing_channel) => {
                existing_channel.visibility = channel_proto.visibility;
                existing_channel.name = channel_proto.name;
                replace_channel(&mut self.channels_by_id, channel_proto.id, existing_channel);
            },
            None => {
                replace_channel(
                    &mut self.channels_by_id,
                    channel_proto.id,
                    Channel {
                        id: channel_proto.id,
                        visibility: channel_proto.visibility,
                        name: channel_proto.name,
                        unseen_note_version: None,
                        unseen_message_id: None,
                    },
                );
            },
        }
        assert(self@.channels =~= old(self)@.channel_inserted(record).channels);
        is_new
    }

    /// Records that the notes of a channel were seen as of `version` in `epoch`.
    pub fn acknowledge_note_version(
        &mut self,
        channel_id: ChannelId,
        epoch: u64,
        version: &Global,
    )
        ensures
            final(self)@ == old(self)@.note_acknowledged(channel_id, epoch, version@),
    {
        let acknowledged: Option<Channel> = match self.channels_by_id.get(&channel_id) {
            Some(channel) => match &channel.unseen_note_version {
                Some((unseen_epoch, unseen_version)) => {
                    if epoch > *unseen_epoch || (epoch == *unseen_epoch && version.observed_all(
                        unseen_version,
                    )) {
                        let mut channel = channel_copy(channel);
                        channel.unseen_note_version = None;
                        Some(channel)
                    } else {
                        None
                    }
                },
                None => None,
            },
            None => None,
        };
        if let Some(channel) = acknowledged {
            replace_channel(&mut self.channels_by_id, channel_id, channel);
        }
        assert(self@ =~= old(self)@.note_acknowledged(channel_id, epoch, version@));
    }

    /// Records that the messages of a channel were seen up to `message_id`.
    pub fn acknowledge_message_id(&mut self, channel_id: ChannelId, message_id: u64)
        ensures
            final(self)@ == old(self)@.message_acknowledged(channel_id, message_id),
    {
        let acknowledged: Option<Channel> = match self.channels_by_id.get(&channel_id) {
            Some(channel) => match channel.unseen_message_id {
                Some(unseen_message_id) => {
                    if message_id >= unseen_message_id {
                        let mut channel = channel_copy(channel);
                        channel.unseen_message_id = None;
                        Some(channel)
                    } else {
                        None
                    }
                },
                None => None,
            },
            None => None,
        };
        if let Some(channel) = acknowledged {
            replace_channel(&mut self.channels_by_id, channel_id, channel);
        }
        assert(self@ =~= old(self)@.message_acknowledged(channel_id, message_id));
    }

    /// Records that the notes of a channel changed to `version` in `epoch`.
    pub fn note_changed(&mut self, channel_id: ChannelId, epoch: u64, version: &Global)
        ensures
            final(self)@ == old(self)@.note_changed(channel_id, epoch, version@),
    {
        insert_note_changed(&mut self.channels_by_id, channel_id, epoch, version);
    }

    /// Records that message `message_id` arrived in a channel.
    pub fn new_message(&mut self, channel_id: ChannelId, message_id: u64)
        ensures
            final(self)@ == old(self)@.message_received(channel_id, message_id),
    {
        insert_new_message(&mut self.channels_by_id, channel_id, message_id);
    }
}

impl Deref for ChannelIndex {
    type Target = [ChannelPath];

    fn deref(&self) -> (paths: &[ChannelPath])
        ensures
            path_models(paths@) == self@.paths,
    {
        self.paths.as_slice()
    }
}

/// Copies a shared channel, so that the copy can be changed.
fn channel_copy(channel: &Arc<Channel>) -> (copy: Channel)
    ensures
        copy@ == channel@,
{
    let shared: &Channel = &**channel;
    shared.clone()
}

/// Puts `channel` in the place of a known channel.
fn replace_channel(
    channels_by_id: &mut BTreeMap<ChannelId, Arc<Channel>>,
    channel_id: ChannelId,
    channel: Channel,
)
    ensures
        channel_models(final(channels_by_id)@) == channel_models(old(channels_by_id)@).insert(
            channel_id,
            channel@,
        ),
{
    channels_by_id.insert(channel_id, Arc::new(channel));
    assert(channel_models(channels_by_id@) =~= channel_models(old(channels_by_id)@).insert(
        channel_id,
        channel@,
    ));
}

/// Removes each of `ids` from the known channels.
fn remove_channels(channels_by_id: &mut BTreeMap<ChannelId, Arc<Channel>>, ids: &[ChannelId])
    ensures
        channel_models(final(channels_by_id)@) == channel_models(
            old(channels_by_id)@,
        ).remove_keys(ids@.to_set()),
{
    let mut i: usize = 0;
    while i < ids.len()
        invariant
            i <= ids@.len(),
            channels_by_id@ == old(channels_by_id)@.remove_keys(ids@.take(i as int).to_set()),
        decreases ids@.len() - i,
    {
        channels_by_id.remove(&ids[i]);
        proof {
            let seen = ids@.take(i as int);
            let id = ids@[i as int];
            assert(ids@.take(i + 1) =~= seen.push(id));
            assert forall|other: ChannelId| seen.push(id).contains(other) == (seen.contains(other)
                || other == id) by {
                if seen.contains(other) {
                    let k = choose|k: int| 0 <= k < seen.len() && seen[k] == other;
                    assert(seen.push(id)[k] == other);
                }
                assert(seen.push(id)[seen.len() as int] == id);
            }
            assert(channels_by_id@ =~= old(channels_by_id)@.remove_keys(seen.push(id).to_set()));
        }
        i += 1;
    }
    assert(ids@.take(ids@.len() as int) =~= ids@);
    assert(channel_models(channels_by_id@) =~= channel_models(old(channels_by_id)@).remove_keys(
        ids@.to_set(),
    ));
}

/// Whether a path goes through known channels only.
fn is_all_known(
    path: &ChannelPath,
    channels_by_id: &BTreeMap<ChannelId, Arc<Channel>>,
) -> (known: bool)
    ensures
        known == all_known(path@, channel_models(channels_by_id@)),
{
    let mut i: usize = 0;
    while i < path.len()
        invariant
            i <= path@.len(),
            forall|j: int|
                0 <= j < i ==> channel_models(channels_by_id@).contains_key(#[trigger] path@[j]),
        decreases path@.len() - i,
    {
        if !channels_by_id.contains_key(&path.channel_at(i)) {
            assert(!channel_models(channels_by_id@).contains_key(path@[i as int]));
            return false;
        }
        i += 1;
    }
    true
}

/// Keeps the paths that go through known channels only.
fn keep_known_paths(
    paths: Vec<ChannelPath>,
    channels_by_id: &BTreeMap<ChannelId, Arc<Channel>>,
) -> (kept: Vec<ChannelPath>)
    ensures
        path_models(kept@) == path_models(paths@).filter(
            |path: Seq<ChannelId>| all_known(path, channel_models(channels_by_id@)),
        ),
{
    let ghost known = |path: Seq<ChannelId>| all_known(path, channel_models(channels_by_id@));
    let ghost input = path_models(paths@);
    let mut kept: Vec<ChannelPath> = Vec::new();
    for path in it: paths
        invariant
            known == (|path: Seq<ChannelId>| all_known(path, channel_models(channels_by_id@))),
            input == path_models(it.seq()),
            path_models(kept@) == input.take(it.index()).filter(known),
    {
        let ghost n = it.index();
        let ghost output = path_models(kept@);
        proof {
            reveal(Seq::filter);
            assert(input[n] == path@);
            assert(input.take(n + 1).drop_last() =~= input.take(n));
        }
        if is_all_known(&path, channels_by_id) {
            kept.push(path);
            assert(path_models(kept@) =~= output.push(input[n]));
        }
    }
    assert(input.take(input.len() as int) =~= input);
    kept
}

/// Records that the notes of a channel changed to `version` in `epoch`.
fn insert_note_changed(
    channels_by_id: &mut BTreeMap<ChannelId, Arc<Channel>>,
    channel_id: ChannelId,
    epoch: u64,
    version: &Global,
)
    ensures
        forall|paths: Seq<ChannelPath>| #[trigger]
            index_model(paths, final(channels_by_id)@) == index_model(
                paths,
                old(channels_by_id)@,
            ).note_changed(channel_id, epoch, version@),
{
    let changed: Option<Channel> = match channels_by_id.get(&channel_id) {
        Some(channel) => {
            let mut channel = channel_copy(channel);
            let (unseen_epoch, mut unseen_version) = match channel.unseen_note_version {
                Some(unseen) => unseen,
                None => (0u64, Global::new()),
            };
            channel.unseen_note_version = Some(
                if epoch > unseen_epoch {
                    (epoch, version.clone())
                } else {
                    unseen_version.join(version);
                    (unseen_epoch, unseen_version)
                },
            );
            Some(channel)
        },
        None => None,
    };
    if let Some(channel) = changed {
        replace_channel(channels_by_id, channel_id, channel);
    }
    assert forall|paths: Seq<ChannelPath>| #[trigger]
        index_model(paths, channels_by_id@) == index_model(
            paths,
            old(channels_by_id)@,
        ).note_changed(channel_id, epoch, version@) by {
        assert(index_model(paths, channels_by_id@) =~= index_model(
            paths,
            old(channels_by_id)@,
        ).note_changed(channel_id, epoch, version@));
    }
}

/// Records that message `message_id` arrived in a channel.
fn insert_new_message(
    channels_by_id: &mut BTreeMap<ChannelId, Arc<Channel>>,
    channel_id: ChannelId,
    message_id: u64,
)
    ensures
        forall|paths: Seq<ChannelPath>| #[trigger]
            index_model(paths, final(channels_by_id)@) == index_model(
                paths,
                old(channels_by_id)@,
            ).message_received(channel_id, message_id),
{
    let received: Option<Channel> = match channels_by_id.get(&channel_id) {
        Some(channel) => {
            let mut channel = channel_copy(channel);
            let unseen_message_id: u64 = match channel.unseen_message_id {
                Some(unseen) => unseen,
                None => 0,
            };
            channel.unseen_message_id = Some(
                if message_id > unseen_message_id {
                    message_id
                } else {
                    unseen_message_id
                },
            );
            Some(channel)
        },
        None => None,
    };
    if let Some(channel) = received {
        replace_channel(channels_by_id, channel_id, channel);
    }
    assert forall|paths: Seq<ChannelPath>| #[trigger]
        index_model(paths, channels_by_id@) == index_model(
            paths,
            old(channels_by_id)@,
        ).message_received(channel_id, message_id) by {
        assert(index_model(paths, channels_by_id@) =~= index_model(
            paths,
            old(channels_by_id)@,
        ).message_received(channel_id, message_id));
    }
}

} // verus!
