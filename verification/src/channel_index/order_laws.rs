//! In which order the paths of an index stand, said of the bytes of the names along them.

use vstd::prelude::*;
use crate::channel::{Channel, ChannelId, ChannelModel, ChannelPath};
use crate::channel_index::guard::ChannelPathsInsertGuard;
use crate::channel_index::laws::{tidying_makes_paths_unique, tidying_sorts};
use crate::channel_index::model::{
    channel_models, index_model, name_before, path_before, path_models, sorting_key, IndexModel,
};
use crate::channel_index::sorting::path_order_is_weak;
use crate::order::{
    arranged_by, first_occurrences, first_occurrences_sources, lex_before, lex_skip_common,
    stable_sort_of,
};
use std::sync::Arc;
use vstd::utf8::encode_utf8;

verus! {

/// Two channels have the same name, or neither is known.
pub open spec fn same_name(
    channels: Map<ChannelId, ChannelModel>,
    a: ChannelId,
    b: ChannelId,
) -> bool {
    channels.contains_key(a) == channels.contains_key(b) && (channels.contains_key(a)
        ==> channels[a].name == channels[b].name)
}

/// The root path of a channel stands before the root path of another one where the first byte in
/// which their encoded names differ is the smaller one, or where its name is a beginning of the
/// other name.
pub proof fn roots_stand_by_name(
    index: IndexModel,
    tidy: IndexModel,
    a: ChannelId,
    b: ChannelId,
    byte: int,
    i: int,
    j: int,
)
    requires
        index.tidied_to(tidy),
        tidy.channels.contains_key(a),
        tidy.channels.contains_key(b),
        0 <= i < tidy.paths.len(),
        0 <= j < tidy.paths.len(),
        tidy.paths[i] == seq![a],
        tidy.paths[j] == seq![b],
        ({
            let smaller = encode_utf8(tidy.channels[a].name);
            let greater = encode_utf8(tidy.channels[b].name);
            &&& 0 <= byte <= smaller.len()
            &&& byte < greater.len()
            &&& forall|m: int| 0 <= m < byte ==> smaller[m] == greater[m]
            &&& byte < smaller.len() ==> smaller[byte] < greater[byte]
        }),
    ensures
        i < j,
{
    paths_stand_by_names(index, tidy, i, j, 0, byte);
}

/// A path stands before another one where the two have the same names up to `place` and there the
/// first ends, or there the first goes to an unknown channel and the second to a known one, or there
/// the first goes to a channel with the smaller name: smaller in the first byte in which the encoded
/// names differ, or a beginning of the other name.
pub proof fn paths_stand_by_names(
    index: IndexModel,
    tidy: IndexModel,
    i: int,
    j: int,
    place: int,
    byte: int,
)
    requires
        index.tidied_to(tidy),
        0 <= i < tidy.paths.len(),
        0 <= j < tidy.paths.len(),
        0 <= place <= tidy.paths[i].len(),
        place < tidy.paths[j].len(),
        forall|m: int|
            0 <= m < place ==> same_name(
                tidy.channels,
                #[trigger] tidy.paths[i][m],
                tidy.paths[j][m],
            ),
        place < tidy.paths[i].len() ==> {
            let a = tidy.paths[i][place];
            let b = tidy.paths[j][place];
            let smaller = encode_utf8(tidy.channels[a].name);
            let greater = encode_utf8(tidy.channels[b].name);
            &&& tidy.channels.contains_key(b)
            &&& tidy.channels.contains_key(a) ==> {
                &&& 0 <= byte <= smaller.len()
                &&& byte < greater.len()
                &&& forall|m: int| 0 <= m < byte ==> smaller[m] == greater[m]
                &&& byte < smaller.len() ==> smaller[byte] < greater[byte]
            }
        },
    ensures
        i < j,
{
    let channels = tidy.channels;
    let names = |a: Option<Seq<u8>>, b: Option<Seq<u8>>| name_before(a, b);
    let bytes = |a: u8, b: u8| a < b;
    let upper = sorting_key(tidy.paths[i], channels);
    let lower = sorting_key(tidy.paths[j], channels);
    tidying_sorts(index, tidy);
    path_order_is_weak(channels);
    assert forall|m: int| 0 <= m < place implies upper[m] == lower[m] by {
        assert(same_name(channels, tidy.paths[i][m], tidy.paths[j][m]));
    }
    lex_skip_common(upper, lower, place, names);
    if place < upper.len() && channels.contains_key(tidy.paths[i][place]) {
        let smaller = encode_utf8(channels[tidy.paths[i][place]].name);
        let greater = encode_utf8(channels[tidy.paths[j][place]].name);
        lex_skip_common(smaller, greater, byte, bytes);
        assert(lex_before(smaller, greater, bytes));
        assert(smaller != greater);
        assert(name_before(upper[place], lower[place]));
    }
    assert(lex_before(upper, lower, names));
    let before = path_before(channels);
    assert(before(tidy.paths[i], tidy.paths[j]));
    assert(!before(tidy.paths[i], tidy.paths[i]));
}

/// Of two paths with the same names along them, the one comes first that came first when the series
/// of insertions ended.
pub proof fn namesakes_keep_their_order(
    index: IndexModel,
    tidy: IndexModel,
    i: int,
    j: int,
    first: int,
    second: int,
)
    requires
        index.tidied_to(tidy),
        0 <= i < tidy.paths.len(),
        0 <= j < tidy.paths.len(),
        tidy.paths[i].len() == tidy.paths[j].len(),
        forall|m: int|
            0 <= m < tidy.paths[i].len() ==> same_name(
                tidy.channels,
                #[trigger] tidy.paths[i][m],
                tidy.paths[j][m],
            ),
        0 <= first < second < index.paths.len(),
        index.paths[first] == tidy.paths[i],
        index.paths[second] == tidy.paths[j],
        forall|m: int| 0 <= m < second ==> #[trigger] index.paths[m] != tidy.paths[j],
    ensures
        i < j,
{
    let channels = index.channels;
    let before = path_before(channels);
    let input = index.paths;
    path_order_is_weak(channels);
    let s = choose|s: Seq<Seq<ChannelId>>| #[trigger]
        stable_sort_of(input, s, before) && tidy.paths == first_occurrences(s);
    let p = choose|p: Seq<int>| arranged_by(input, s, before, p);
    let sources = first_occurrences_sources(s);
    let x = tidy.paths[i];
    let y = tidy.paths[j];
    assert(sorting_key(x, channels) =~= sorting_key(y, channels)) by {
        assert forall|m: int| 0 <= m < x.len() implies sorting_key(x, channels)[m] == sorting_key(
            y,
            channels,
        )[m] by {
            assert(same_name(channels, tidy.paths[i][m], tidy.paths[j][m]));
        }
    }
    assert(!before(x, y) && !before(y, x));
    assert(p.contains(first));
    let a = choose|a: int| 0 <= a < p.len() && p[a] == first;
    let b = sources[j];
    assert(s[a] == x && s[b] == y && s[sources[i]] == x);
    assert(input[p[b]] == y);
    assert(p[b] >= second);
    assert(a < b) by {
        if b < a {
            assert(before(s[b], s[a]) || p[b] < p[a]);
        }
    }
    assert(sources[i] <= a) by {
        if a < sources[i] {
            assert(s[a] != s[sources[i]]);
        }
    }
    if j <= i {
        assert(sources[j] <= sources[i]);
    }
}

/// After a series of insertions the index has the paths that were inserted, each in one place only,
/// and the channels that were inserted.
pub proof fn tidied_paths_are_the_inserted_ones(
    index: IndexModel,
    tidy: IndexModel,
    path: Seq<ChannelId>,
    i: int,
    j: int,
)
    requires
        index.tidied_to(tidy),
    ensures
        (exists|k: int| 0 <= k < tidy.paths.len() && #[trigger] tidy.paths[k] == path) == (exists|
            k: int,
        | 0 <= k < index.paths.len() && #[trigger] index.paths[k] == path),
        0 <= i < j < tidy.paths.len() ==> tidy.paths[i] != tidy.paths[j],
        tidy.channels == index.channels,
{
    tidying_sorts(index, tidy);
    tidying_makes_paths_unique(index, tidy);
    assert(tidy.paths.contains(path) == index.paths.contains(path));
}

/// A guard stands for its paths and the channels of its index; a tidied one leaves the index that
/// the end of the series leaves.
pub proof fn guards_leave_a_tidied_index()
    ensures
        forall|guard: ChannelPathsInsertGuard<'_>|
            #![trigger guard.is_tidied()]
            guard@.paths == guard.inserted@ && guard@.channels == guard.index@.channels && (
            guard.is_tidied() ==> guard@.tidied_to(guard.index@)),
{
}

/// An index is its paths, each as the channels along it, and its channels by id.
pub proof fn index_is_paths_and_channels(
    paths: Seq<ChannelPath>,
    channels: Map<ChannelId, Arc<Channel>>,
    i: int,
    id: ChannelId,
)
    ensures
        path_models(paths).len() == paths.len(),
        0 <= i < paths.len() ==> path_models(paths)[i] == paths[i]@,
        channel_models(channels).contains_key(id) == channels.contains_key(id),
        channels.contains_key(id) ==> {
            let channel = *channels[id];
            let model = channel_models(channels)[id];
            &&& model.id == channel.id
            &&& model.name == channel.name@
            &&& model.visibility == channel.visibility
            &&& model.unseen_message_id == channel.unseen_message_id
            &&& (model.unseen_note_version is Some) == (channel.unseen_note_version is Some)
            &&& channel.unseen_note_version matches Some((epoch, version))
                ==> model.unseen_note_version == Some((epoch, version@))
        },
        index_model(paths, channels).paths == path_models(paths),
        index_model(paths, channels).channels == channel_models(channels),
        IndexModel::empty().paths.len() == 0,
        !IndexModel::empty().channels.contains_key(id),
{
}

} // verus!
