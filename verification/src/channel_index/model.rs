//! What a channel index holds, and what each operation makes of it.

use vstd::prelude::*;
use crate::channel::{Channel, ChannelId, ChannelModel, ChannelPath};
use crate::clock::{joined, observed};
use crate::order::{first_occurrences, lex_before, sorted_by, stable_sort_of};
use crate::proto;
use std::sync::Arc;
use vstd::utf8::encode_utf8;

verus! {

/// The channels that each path goes through.
pub open spec fn path_models(paths: Seq<ChannelPath>) -> Seq<Seq<ChannelId>> {
    Seq::new(paths.len(), |i: int| paths[i]@)
}

/// What each known channel holds.
pub open spec fn channel_models(channels: Map<ChannelId, Arc<Channel>>) -> Map<
    ChannelId,
    ChannelModel,
> {
    Map::new(|id: ChannelId| channels.contains_key(id), |id: ChannelId| channels[id]@)
}

/// `path` goes from `parent_id` straight to `channel_id`.
pub open spec fn has_edge(
    path: Seq<ChannelId>,
    parent_id: ChannelId,
    channel_id: ChannelId,
) -> bool {
    exists|i: int|
        0 <= i < path.len() - 1 && #[trigger] path[i] == parent_id && path[i + 1] == channel_id
}

/// Some path goes through `channel_id`.
pub open spec fn some_contains(paths: Seq<Seq<ChannelId>>, channel_id: ChannelId) -> bool {
    exists|i: int| 0 <= i < paths.len() && #[trigger] paths[i].contains(channel_id)
}

/// Some path goes from `parent_id` straight to `channel_id`.
pub open spec fn some_has_edge(
    paths: Seq<Seq<ChannelId>>,
    parent_id: ChannelId,
    channel_id: ChannelId,
) -> bool {
    exists|i: int| 0 <= i < paths.len() && has_edge(#[trigger] paths[i], parent_id, channel_id)
}

/// `path` ends at `channel_id`.
pub open spec fn ends_at(path: Seq<ChannelId>, channel_id: ChannelId) -> bool {
    path.len() > 0 && path.last() == channel_id
}

/// `path` goes through known channels only.
pub open spec fn all_known(
    path: Seq<ChannelId>,
    channels: Map<ChannelId, ChannelModel>,
) -> bool {
    forall|i: int| 0 <= i < path.len() ==> channels.contains_key(#[trigger] path[i])
}

/// The part of `path` from the first occurrence of `channel_id` on.
pub open spec fn from_channel(path: Seq<ChannelId>, channel_id: ChannelId) -> Seq<ChannelId>
    decreases path.len(),
{
    if path.len() == 0 || path[0] == channel_id {
        path
    } else {
        from_channel(path.drop_first(), channel_id)
    }
}

/// The paths, in order, that end at `parent_id`.
pub open spec fn parent_paths(paths: Seq<Seq<ChannelId>>, parent_id: ChannelId) -> Seq<
    Seq<ChannelId>,
> {
    paths.filter(|path: Seq<ChannelId>| ends_at(path, parent_id))
}

/// `path` goes through `channel_id` and does not end at `parent_id`.
pub open spec fn is_descent(
    path: Seq<ChannelId>,
    channel_id: ChannelId,
    parent_id: ChannelId,
) -> bool {
    !ends_at(path, parent_id) && path.contains(channel_id)
}

/// `path` starts at `channel_id` and does not end at `parent_id`.
pub open spec fn is_rooted_at(
    path: Seq<ChannelId>,
    channel_id: ChannelId,
    parent_id: ChannelId,
) -> bool {
    !ends_at(path, parent_id) && path.len() > 0 && path[0] == channel_id
}

/// How the paths that do not end at `parent_id` go on from `channel_id`, in the order of the paths.
pub open spec fn descents(
    paths: Seq<Seq<ChannelId>>,
    channel_id: ChannelId,
    parent_id: ChannelId,
) -> Seq<Seq<ChannelId>> {
    paths.filter(
        |path: Seq<ChannelId>| is_descent(path, channel_id, parent_id),
    ).map_values(|path: Seq<ChannelId>| from_channel(path, channel_id))
}

/// Each of `tails` behind `head`.
pub open spec fn extended(head: Seq<ChannelId>, tails: Seq<Seq<ChannelId>>) -> Seq<
    Seq<ChannelId>,
> {
    tails.map_values(|tail: Seq<ChannelId>| head + tail)
}

/// Each of `tails` behind each of `heads`, head by head.
pub open spec fn grafted(heads: Seq<Seq<ChannelId>>, tails: Seq<Seq<ChannelId>>) -> Seq<
    Seq<ChannelId>,
>
    decreases heads.len(),
{
    if heads.len() == 0 {
        Seq::empty()
    } else {
        grafted(heads.drop_last(), tails) + extended(heads.last(), tails)
    }
}

/// The paths that a new edge from `parent_id` to `channel_id` gives: each way on from the channel,
/// or just the channel where there is none, behind each path that ends at the parent.
pub open spec fn edge_paths(
    paths: Seq<Seq<ChannelId>>,
    channel_id: ChannelId,
    parent_id: ChannelId,
) -> Seq<Seq<ChannelId>> {
    let tails = descents(paths, channel_id, parent_id);
    grafted(
        parent_paths(paths, parent_id),
        if tails.len() == 0 {
            seq![seq![channel_id]]
        } else {
            tails
        },
    )
}

/// The positions below `n`, ascending, of the paths that start at `channel_id`.
pub open spec fn root_positions(
    paths: Seq<Seq<ChannelId>>,
    channel_id: ChannelId,
    parent_id: ChannelId,
    n: int,
) -> Seq<int>
    decreases n,
{
    if n <= 0 {
        Seq::empty()
    } else if is_rooted_at(paths[n - 1], channel_id, parent_id) {
        root_positions(paths, channel_id, parent_id, n - 1).push(n - 1)
    } else {
        root_positions(paths, channel_id, parent_id, n - 1)
    }
}

/// `items` with its last item moved to the place of item `position`, which is gone.
pub open spec fn swap_removed<T>(items: Seq<T>, position: int) -> Seq<T> {
    items.update(position, items.last()).drop_last()
}

/// `items` after the items at `positions` were swap-removed, the last position first.
pub open spec fn swap_removed_all<T>(items: Seq<T>, positions: Seq<int>) -> Seq<T>
    decreases positions.len(),
{
    if positions.len() == 0 {
        items
    } else {
        swap_removed_all(swap_removed(items, positions.last()), positions.drop_last())
    }
}

/// Whether a name comes before another: no name comes first, then the order of the encoded bytes.
pub open spec fn name_before(left: Option<Seq<u8>>, right: Option<Seq<u8>>) -> bool {
    match (left, right) {
        (None, Some(_)) => true,
        (Some(l), Some(r)) => lex_before(l, r, |a: u8, b: u8| a < b),
        _ => false,
    }
}

/// The encoded name of a channel, where the channel is known.
pub open spec fn encoded_name(id: ChannelId, channels: Map<ChannelId, ChannelModel>) -> Option<
    Seq<u8>,
> {
    if channels.contains_key(id) {
        Some(encode_utf8(channels[id].name))
    } else {
        None
    }
}

/// The names along a path: what paths are sorted by.
pub open spec fn sorting_key(
    path: Seq<ChannelId>,
    channels: Map<ChannelId, ChannelModel>,
) -> Seq<Option<Seq<u8>>> {
    Seq::new(path.len(), |i: int| encoded_name(path[i], channels))
}

/// The order of paths by the names along them.
pub open spec fn path_before(channels: Map<ChannelId, ChannelModel>) -> spec_fn(
    Seq<ChannelId>,
    Seq<ChannelId>,
) -> bool {
    |left: Seq<ChannelId>, right: Seq<ChannelId>|
        lex_before(
            sorting_key(left, channels),
            sorting_key(right, channels),
            |a: Option<Seq<u8>>, b: Option<Seq<u8>>| name_before(a, b),
        )
}

impl ChannelModel {
    /// The channel after its notes changed to `version` in `epoch`.
    pub open spec fn note_changed(self, epoch: u64, version: Seq<u32>) -> ChannelModel {
        let (unseen_epoch, unseen_version) = match self.unseen_note_version {
            Some(unseen) => unseen,
            None => (0u64, Seq::empty()),
        };
        ChannelModel {
            unseen_note_version: Some(
                if epoch > unseen_epoch {
                    (epoch, version)
                } else {
                    (unseen_epoch, joined(unseen_version, version))
                },
            ),
            ..self
        }
    }

    /// The channel after its notes were seen as of `version` in `epoch`.
    pub open spec fn note_acknowledged(self, epoch: u64, version: Seq<u32>) -> ChannelModel {
        match self.unseen_note_version {
            Some((unseen_epoch, unseen_version)) if epoch > unseen_epoch || (epoch == unseen_epoch
                && observed(version, unseen_version)) => ChannelModel {
                unseen_note_version: None,
                ..self
            },
            _ => self,
        }
    }

    /// The channel after message `message_id` arrived.
    pub open spec fn message_received(self, message_id: u64) -> ChannelModel {
        ChannelModel {
            unseen_message_id: Some(
                match self.unseen_message_id {
                    Some(unseen) if unseen > message_id => unseen,
                    _ => message_id,
                },
            ),
            ..self
        }
    }

    /// The channel after the messages up to `message_id` were seen.
    pub open spec fn message_acknowledged(self, message_id: u64) -> ChannelModel {
        match self.unseen_message_id {
            Some(unseen) if message_id >= unseen => ChannelModel {
                unseen_message_id: None,
                ..self
            },
            _ => self,
        }
    }
}

/// What a channel index holds.
#[verifier::ext_equal]
pub struct IndexModel {
    pub paths: Seq<Seq<ChannelId>>,
    pub channels: Map<ChannelId, ChannelModel>,
}

/// The model of an index that holds `paths` and `channels`.
pub open spec fn index_model(
    paths: Seq<ChannelPath>,
    channels: Map<ChannelId, Arc<Channel>>,
) -> IndexModel {
    IndexModel { paths: path_models(paths), channels: channel_models(channels) }
}

impl IndexModel {
    /// The index that holds nothing.
    pub open spec fn empty() -> IndexModel {
        IndexModel { paths: Seq::empty(), channels: Map::empty() }
    }

    /// The index with a known channel replaced; an unknown channel stays unknown.
    pub open spec fn with_channel(self, id: ChannelId, channel: ChannelModel) -> IndexModel {
        if self.channels.contains_key(id) {
            IndexModel { channels: self.channels.insert(id, channel), ..self }
        } else {
            self
        }
    }

    /// The index without the channels `ids` and without the paths that go through an unknown
    /// channel.
    pub open spec fn channels_deleted(self, ids: Seq<ChannelId>) -> IndexModel {
        let channels = self.channels.remove_keys(ids.to_set());
        IndexModel {
            paths: self.paths.filter(|path: Seq<ChannelId>| all_known(path, channels)),
            channels,
        }
    }

    /// The index with one more root path.
    pub open spec fn root_inserted(self, channel_id: ChannelId) -> IndexModel {
        IndexModel { paths: self.paths.push(seq![channel_id]), ..self }
    }

    /// Some path goes through `channel_id`.
    pub open spec fn reaches(self, channel_id: ChannelId) -> bool {
        some_contains(self.paths, channel_id)
    }

    /// Some path has the edge from `parent_id` to `channel_id`.
    pub open spec fn holds_edge(self, parent_id: ChannelId, channel_id: ChannelId) -> bool {
        some_has_edge(self.paths, parent_id, channel_id)
    }

    /// The index without the paths that have the edge; the channel becomes a root where no path
    /// goes through it any more.
    pub open spec fn edge_deleted(self, parent_id: ChannelId, channel_id: ChannelId) -> IndexModel {
        let kept = IndexModel {
            paths: self.paths.filter(
                |path: Seq<ChannelId>| !has_edge(path, parent_id, channel_id),
            ),
            ..self
        };
        if kept.reaches(channel_id) {
            kept
        } else {
            kept.root_inserted(channel_id)
        }
    }

    /// The index with the edge: the paths that it gives stand at the end, and the paths that
    /// started at the channel are gone. An edge that is there changes nothing.
    pub open spec fn edge_inserted(
        self,
        channel_id: ChannelId,
        parent_id: ChannelId,
    ) -> IndexModel {
        if self.holds_edge(parent_id, channel_id) {
            self
        } else {
            IndexModel {
                paths: swap_removed_all(
                    self.paths,
                    root_positions(
                        self.paths,
                        channel_id,
                        parent_id,
                        self.paths.len() as int,
                    ),
                ) + edge_paths(self.paths, channel_id, parent_id),
                ..self
            }
        }
    }

    /// The index with the channel that the server described: a known one takes over name and
    /// visibility, an unknown one becomes a root.
    pub open spec fn channel_inserted(self, channel: proto::Channel) -> IndexModel {
        if self.channels.contains_key(channel.id) {
            self.with_channel(
                channel.id,
                ChannelModel {
                    name: channel.name@,
                    visibility: channel.visibility,
                    ..self.channels[channel.id]
                },
            )
        } else {
            IndexModel {
                channels: self.channels.insert(
                    channel.id,
                    ChannelModel {
                        id: channel.id,
                        name: channel.name@,
                        visibility: channel.visibility,
                        unseen_note_version: None,
                        unseen_message_id: None,
                    },
                ),
                ..self
            }.root_inserted(channel.id)
        }
    }

    /// The notes of a channel changed.
    pub open spec fn note_changed(
        self,
        channel_id: ChannelId,
        epoch: u64,
        version: Seq<u32>,
    ) -> IndexModel {
        self.with_channel(channel_id, self.channels[channel_id].note_changed(epoch, version))
    }

    /// The notes of a channel were seen.
    pub open spec fn note_acknowledged(
        self,
        channel_id: ChannelId,
        epoch: u64,
        version: Seq<u32>,
    ) -> IndexModel {
        self.with_channel(channel_id, self.channels[channel_id].note_acknowledged(epoch, version))
    }

    /// A message arrived in a channel.
    pub open spec fn message_received(self, channel_id: ChannelId, message_id: u64) -> IndexModel {
        self.with_channel(channel_id, self.channels[channel_id].message_received(message_id))
    }

    /// Messages of a channel were seen.
    pub open spec fn message_acknowledged(
        self,
        channel_id: ChannelId,
        message_id: u64,
    ) -> IndexModel {
        self.with_channel(channel_id, self.channels[channel_id].message_acknowledged(message_id))
    }

    /// The paths are sorted by the names along them.
    pub open spec fn is_sorted(self) -> bool {
        sorted_by(self.paths, path_before(self.channels))
    }

    /// Each path stands in the index once.
    pub open spec fn is_unique(self) -> bool {
        self.paths.no_duplicates()
    }

    /// `other` is this index with its paths sorted by the names along them, paths with the same
    /// names in the order that they had, and then of equal paths only the first.
    pub open spec fn tidied_to(self, other: IndexModel) -> bool {
        &&& other.channels == self.channels
        &&& exists|sorted: Seq<Seq<ChannelId>>| #[trigger]
            stable_sort_of(self.paths, sorted, path_before(self.channels)) && other.paths
                == first_occurrences(sorted)
    }
}

} // verus!
