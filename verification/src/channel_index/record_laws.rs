//! What is recorded of the notes and the messages of a channel, said of epochs, replicas and ids.

use vstd::prelude::*;
use crate::channel::{ChannelId, ChannelModel};
use crate::channel_index::model::IndexModel;
use crate::clock::{entry, joined};
use crate::proto;

verus! {

/// The notes are seen once an acknowledgement has come as far as the change for every replica, or is
/// of a later epoch; nothing else of the channel changes.
pub proof fn seen_notes_are_acknowledged(
    channel: ChannelModel,
    unseen_epoch: u64,
    unseen: Seq<u32>,
    epoch: u64,
    version: Seq<u32>,
)
    requires
        channel.unseen_note_version == Some((unseen_epoch, unseen)),
        epoch > unseen_epoch || (epoch == unseen_epoch && forall|r: int|
            0 <= r < unseen.len() ==> (#[trigger] unseen[r]) <= if r < version.len() {
                version[r]
            } else {
                0
            }),
    ensures
        channel.note_acknowledged(epoch, version) == (ChannelModel {
            unseen_note_version: None,
            ..channel
        }),
{
}

/// An acknowledgement of an earlier epoch, or one that lags behind the change for some replica,
/// leaves the channel as it was; so does any where nothing is unseen.
pub proof fn lagging_acknowledgement_changes_nothing(
    channel: ChannelModel,
    epoch: u64,
    version: Seq<u32>,
    replica: int,
)
    requires
        channel.unseen_note_version matches Some((unseen_epoch, unseen)) ==> epoch < unseen_epoch
            || (epoch == unseen_epoch && 0 <= replica < unseen.len() && unseen[replica] > if replica
            < version.len() {
            version[replica]
        } else {
            0
        }),
    ensures
        channel.note_acknowledged(epoch, version) == channel,
{
    if let Some((unseen_epoch, unseen)) = channel.unseen_note_version {
        assert(epoch < unseen_epoch || entry(version, replica) < entry(unseen, replica));
    }
}

/// A change of the notes in a later epoch takes the place of what was unseen. One in the same or in
/// an earlier epoch adds to it, for each replica the later of the two. Nothing else of the channel
/// changes.
pub proof fn changed_notes_are_unseen(
    channel: ChannelModel,
    epoch: u64,
    version: Seq<u32>,
    replica: int,
)
    ensures
        channel.note_changed(epoch, version) == (ChannelModel {
            unseen_note_version: channel.note_changed(epoch, version).unseen_note_version,
            ..channel
        }),
        channel.unseen_note_version is None ==> channel.note_changed(
            epoch,
            version,
        ).unseen_note_version == Some((epoch, version)),
        channel.unseen_note_version matches Some((unseen_epoch, unseen)) ==> {
            &&& epoch > unseen_epoch ==> channel.note_changed(epoch, version).unseen_note_version
                == Some((epoch, version))
            &&& epoch <= unseen_epoch ==> {
                &&& channel.note_changed(epoch, version).unseen_note_version matches Some(
                    (recorded_epoch, recorded),
                )
                &&& recorded_epoch == unseen_epoch
                &&& recorded.len() == if unseen.len() > version.len() {
                    unseen.len()
                } else {
                    version.len()
                }
                &&& 0 <= replica < recorded.len() ==> {
                    let before = if replica < unseen.len() {
                        unseen[replica]
                    } else {
                        0
                    };
                    let arrived = if replica < version.len() {
                        version[replica]
                    } else {
                        0
                    };
                    recorded[replica] == if before > arrived {
                        before
                    } else {
                        arrived
                    }
                }
            }
        },
{
    if channel.unseen_note_version is None {
        assert(joined(Seq::empty(), version) =~= version);
    }
}

/// The latest message that arrived is the one that is unseen; nothing else of the channel changes.
pub proof fn latest_message_is_unseen(channel: ChannelModel, message_id: u64)
    ensures
        channel.message_received(message_id) == (ChannelModel {
            unseen_message_id: channel.message_received(message_id).unseen_message_id,
            ..channel
        }),
        channel.unseen_message_id is None ==> channel.message_received(message_id).unseen_message_id
            == Some(message_id),
        channel.unseen_message_id matches Some(unseen) ==> channel.message_received(
            message_id,
        ).unseen_message_id == Some(
            if message_id > unseen {
                message_id
            } else {
                unseen
            },
        ),
{
}

/// Acknowledging the unseen message or a later one leaves no message unseen. Acknowledging an
/// earlier one leaves the channel as it was, and so does acknowledging any where none is unseen.
pub proof fn messages_are_seen_up_to_the_acknowledged_one(channel: ChannelModel, message_id: u64)
    ensures
        channel.unseen_message_id is None ==> channel.message_acknowledged(message_id) == channel,
        channel.unseen_message_id matches Some(unseen) ==> {
            &&& message_id < unseen ==> channel.message_acknowledged(message_id) == channel
            &&& message_id >= unseen ==> channel.message_acknowledged(message_id) == (ChannelModel {
                unseen_message_id: None,
                ..channel
            })
        },
{
}

/// Acknowledging one message after the other comes to the same as acknowledging the later one.
pub proof fn acknowledgements_combine(channel: ChannelModel, a: u64, b: u64)
    ensures
        channel.message_acknowledged(a).message_acknowledged(b) == channel.message_acknowledged(
            if a > b {
                a
            } else {
                b
            },
        ),
{
}

/// What is recorded of a known channel replaces that channel in the index and nothing else; of an
/// unknown channel nothing is recorded.
pub proof fn records_replace_the_channel(
    index: IndexModel,
    channel_id: ChannelId,
    epoch: u64,
    version: Seq<u32>,
    message_id: u64,
)
    ensures
        !index.channels.contains_key(channel_id) ==> {
            &&& index.note_changed(channel_id, epoch, version) == index
            &&& index.note_acknowledged(channel_id, epoch, version) == index
            &&& index.message_received(channel_id, message_id) == index
            &&& index.message_acknowledged(channel_id, message_id) == index
        },
        index.channels.contains_key(channel_id) ==> {
            let channel = index.channels[channel_id];
            &&& index.note_changed(channel_id, epoch, version) == (IndexModel {
                channels: index.channels.insert(channel_id, channel.note_changed(epoch, version)),
                ..index
            })
            &&& index.note_acknowledged(channel_id, epoch, version) == (IndexModel {
                channels: index.channels.insert(
                    channel_id,
                    channel.note_acknowledged(epoch, version),
                ),
                ..index
            })
            &&& index.message_received(channel_id, message_id) == (IndexModel {
                channels: index.channels.insert(channel_id, channel.message_received(message_id)),
                ..index
            })
            &&& index.message_acknowledged(channel_id, message_id) == (IndexModel {
                channels: index.channels.insert(
                    channel_id,
                    channel.message_acknowledged(message_id),
                ),
                ..index
            })
        },
{
}

/// A channel that the server describes takes over its name and visibility, and keeps its id and what
/// is unseen of it; an unknown one has nothing unseen and becomes the last path, as a root. No other
/// channel and no other path changes.
pub proof fn described_channel_is_recorded(
    index: IndexModel,
    channel: proto::Channel,
    other: ChannelId,
    i: int,
)
    ensures
        ({
            let after = index.channel_inserted(channel);
            let recorded = after.channels[channel.id];
            &&& after.channels.contains_key(channel.id)
            &&& recorded.name == channel.name@
            &&& recorded.visibility == channel.visibility
            &&& other != channel.id ==> after.channels.contains_key(other)
                == index.channels.contains_key(other)
            &&& other != channel.id ==> after.channels[other] == index.channels[other]
            &&& index.channels.contains_key(channel.id) ==> {
                &&& after.paths == index.paths
                &&& recorded.id == index.channels[channel.id].id
                &&& recorded.unseen_note_version
                    == index.channels[channel.id].unseen_note_version
                &&& recorded.unseen_message_id == index.channels[channel.id].unseen_message_id
            }
            &&& !index.channels.contains_key(channel.id) ==> {
                &&& after.paths.len() == index.paths.len() + 1
                &&& 0 <= i < index.paths.len() ==> after.paths[i] == index.paths[i]
                &&& after.paths[index.paths.len() as int].len() == 1
                &&& after.paths[index.paths.len() as int][0] == channel.id
                &&& recorded.id == channel.id
                &&& recorded.unseen_note_version is None
                &&& recorded.unseen_message_id is None
            }
        }),
{
}

} // verus!
