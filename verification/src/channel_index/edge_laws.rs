//! Which paths an index has after channels or edges were deleted or inserted, and in which order,
//! said of the channels along the paths.

use vstd::prelude::*;
use crate::channel::ChannelId;
use crate::channel_index::edges::root_positions_ascend;
use crate::channel_index::model::{
    all_known, descents, edge_paths, ends_at, extended, from_channel, grafted, has_edge,
    is_descent, is_rooted_at, parent_paths, root_positions, some_contains, swap_removed,
    swap_removed_all, IndexModel,
};

verus! {

/// `positions` are the positions of `items`, ascending, at which `pred` holds.
pub open spec fn lists<T>(positions: Seq<int>, items: Seq<T>, pred: spec_fn(T) -> bool) -> bool {
    &&& forall|i: int|
        0 <= i < positions.len() ==> 0 <= #[trigger] positions[i] < items.len() && pred(
            items[positions[i]],
        )
    &&& forall|i: int, j: int| 0 <= i < j < positions.len() ==> positions[i] < positions[j]
    &&& forall|k: int|
        0 <= k < items.len() && pred(#[trigger] items[k]) ==> exists|i: int|
            0 <= i < positions.len() && #[trigger] positions[i] == k
}

/// `path` goes from `parent_id` straight to `channel_id`.
pub open spec fn goes_straight(
    path: Seq<ChannelId>,
    parent_id: ChannelId,
    channel_id: ChannelId,
) -> bool {
    exists|i: int|
        0 <= i && i + 1 < path.len() && #[trigger] path[i] == parent_id && path[i + 1]
            == channel_id
}

/// `path` goes through `channel_id`.
pub open spec fn goes_through(path: Seq<ChannelId>, channel_id: ChannelId) -> bool {
    exists|i: int| 0 <= i < path.len() && #[trigger] path[i] == channel_id
}

/// `path` ends at `channel_id`.
pub open spec fn leads_to(path: Seq<ChannelId>, channel_id: ChannelId) -> bool {
    path.len() > 0 && path[path.len() - 1] == channel_id
}

/// The positions at which a condition holds can be listed, in one way.
pub proof fn positions_can_be_listed<T>(items: Seq<T>, pred: spec_fn(T) -> bool) -> (positions: Seq<
    int,
>)
    ensures
        lists(positions, items, pred),
        forall|other: Seq<int>| #[trigger] lists(other, items, pred) ==> other == positions,
    decreases items.len(),
{
    let positions = if items.len() == 0 {
        Seq::empty()
    } else {
        let rest = items.drop_last();
        let fewer = positions_can_be_listed(rest, pred);
        let n = items.len() - 1;
        if pred(items[n]) {
            let more = fewer.push(n);
            assert forall|k: int| 0 <= k < items.len() && pred(#[trigger] items[k]) implies exists|
                i: int,
            | 0 <= i < more.len() && #[trigger] more[i] == k by {
                if k < n {
                    assert(pred(rest[k]));
                    let i = choose|i: int| 0 <= i < fewer.len() && #[trigger] fewer[i] == k;
                    assert(more[i] == k);
                } else {
                    assert(more[fewer.len() as int] == k);
                }
            }
            assert forall|i: int| 0 <= i < more.len() implies 0 <= #[trigger] more[i] < items.len()
                && pred(items[more[i]]) by {
                if i < fewer.len() {
                    assert(pred(rest[fewer[i]]));
                }
            }
            more
        } else {
            assert forall|k: int| 0 <= k < items.len() && pred(#[trigger] items[k]) implies exists|
                i: int,
            | 0 <= i < fewer.len() && #[trigger] fewer[i] == k by {
                assert(pred(rest[k]));
            }
            assert forall|i: int| 0 <= i < fewer.len() implies 0 <= #[trigger] fewer[i]
                < items.len() && pred(items[fewer[i]]) by {
                assert(pred(rest[fewer[i]]));
            }
            fewer
        }
    };
    assert forall|other: Seq<int>| #[trigger] lists(other, items, pred) implies other
        == positions by {
        lists_are_filtered(positions, items, pred);
        lists_are_filtered(other, items, pred);
        lists_agree(positions, other, items, pred, positions.len() as int);
        assert(other =~= positions);
    }
    positions
}

/// Two lists of the same positions agree from the start.
proof fn lists_agree<T>(
    a: Seq<int>,
    b: Seq<int>,
    items: Seq<T>,
    pred: spec_fn(T) -> bool,
    n: int,
)
    requires
        lists(a, items, pred),
        lists(b, items, pred),
        a.len() == b.len(),
        0 <= n <= a.len(),
    ensures
        forall|i: int| 0 <= i < n ==> a[i] == b[i],
    decreases n,
{
    if n > 0 {
        lists_agree(a, b, items, pred, n - 1);
        let m = n - 1;
        assert(pred(items[a[m]]) && pred(items[b[m]]));
        let i = choose|i: int| 0 <= i < b.len() && #[trigger] b[i] == a[m];
        let j = choose|j: int| 0 <= j < a.len() && #[trigger] a[j] == b[m];
        if a[m] < b[m] {
            assert(i < m) by {
                if i > m {
                    assert(b[m] < b[i]);
                }
            }
            assert(a[i] == b[i]);
            assert(a[i] < a[m]);
        } else if b[m] < a[m] {
            assert(j < m) by {
                if j > m {
                    assert(a[m] < a[j]);
                }
            }
            assert(a[j] == b[j]);
            assert(b[j] < b[m]);
        }
    }
}

/// The items at the listed positions are the filtered items.
proof fn lists_are_filtered<T>(positions: Seq<int>, items: Seq<T>, pred: spec_fn(T) -> bool)
    requires
        lists(positions, items, pred),
    ensures
        items.filter(pred).len() == positions.len(),
        items.filter(pred) == Seq::new(positions.len(), |i: int| items[positions[i]]),
    decreases items.len(),
{
    reveal(Seq::filter);
    let picked = Seq::new(positions.len(), |i: int| items[positions[i]]);
    if items.len() == 0 {
        if positions.len() > 0 {
            assert(0 <= positions[0] < items.len());
        }
        assert(picked =~= Seq::empty());
    } else {
        let n = items.len() - 1;
        let rest = items.drop_last();
        if pred(items[n]) {
            let last = choose|i: int| 0 <= i < positions.len() && #[trigger] positions[i] == n;
            if last < positions.len() - 1 {
                assert(positions[last] < positions[positions.len() - 1]);
            }
            let fewer = positions.drop_last();
            assert forall|i: int| 0 <= i < fewer.len() implies 0 <= #[trigger] fewer[i] < rest.len()
                && pred(rest[fewer[i]]) by {
                assert(positions[i] < positions[positions.len() - 1]);
                assert(pred(items[positions[i]]));
            }
            assert forall|k: int| 0 <= k < rest.len() && pred(#[trigger] rest[k]) implies exists|
                i: int,
            | 0 <= i < fewer.len() && #[trigger] fewer[i] == k by {
                assert(pred(items[k]));
                let i = choose|i: int| 0 <= i < positions.len() && #[trigger] positions[i] == k;
                assert(fewer[i] == k);
            }
            lists_are_filtered(fewer, rest, pred);
            assert(picked =~= Seq::new(fewer.len(), |i: int| rest[fewer[i]]).push(items[n]));
        } else {
            assert forall|i: int| 0 <= i < positions.len() implies 0 <= #[trigger] positions[i]
                < rest.len() && pred(rest[positions[i]]) by {
                assert(pred(items[positions[i]]));
            }
            assert forall|k: int| 0 <= k < rest.len() && pred(#[trigger] rest[k]) implies exists|
                i: int,
            | 0 <= i < positions.len() && #[trigger] positions[i] == k by {
                assert(pred(items[k]));
            }
            lists_are_filtered(positions, rest, pred);
            assert(picked =~= Seq::new(positions.len(), |i: int| rest[positions[i]]));
        }
    }
}

/// After channels were deleted, the others are as they were, and in the order that they had those
/// paths are left that go through known channels only, none of them deleted.
pub proof fn paths_left_by_deleted_channels(
    index: IndexModel,
    ids: Seq<ChannelId>,
    left: Seq<int>,
    id: ChannelId,
)
    requires
        lists(
            left,
            index.paths,
            |path: Seq<ChannelId>|
                forall|m: int|
                    0 <= m < path.len() ==> index.channels.contains_key(#[trigger] path[m])
                        && !goes_through(ids, path[m]),
        ),
    ensures
        ({
            let after = index.channels_deleted(ids);
            &&& after.channels.contains_key(id) == (index.channels.contains_key(id)
                && !goes_through(ids, id))
            &&& after.channels.contains_key(id) ==> after.channels[id] == index.channels[id]
            &&& after.paths.len() == left.len()
            &&& forall|i: int|
                0 <= i < left.len() ==> #[trigger] after.paths[i] == index.paths[left[i]]
        }),
{
    let after = index.channels_deleted(ids);
    let known = |path: Seq<ChannelId>| all_known(path, after.channels);
    let pred = |path: Seq<ChannelId>|
        forall|m: int|
            0 <= m < path.len() ==> index.channels.contains_key(#[trigger] path[m])
                && !goes_through(ids, path[m]);
    assert forall|x: ChannelId| #[trigger] after.channels.contains_key(x) == (
    index.channels.contains_key(x) && !goes_through(ids, x)) by {
        assert(ids.contains(x) == goes_through(ids, x));
    }
    assert forall|path: Seq<ChannelId>| #[trigger] known(path) == pred(path) by {
        if known(path) {
            assert forall|m: int| 0 <= m < path.len() implies index.channels.contains_key(
                #[trigger] path[m],
            ) && !goes_through(ids, path[m]) by {
                assert(after.channels.contains_key(path[m]));
            }
        }
        if pred(path) {
            assert forall|m: int| 0 <= m < path.len() implies after.channels.contains_key(
                #[trigger] path[m],
            ) by {
                assert(index.channels.contains_key(path[m]));
            }
        }
    }
    assert(known =~= pred);
    lists_are_filtered(left, index.paths, pred);
}

/// After an edge was deleted, the paths that did not have it are left in the order that they had.
/// Behind them stands the channel as a root exactly where none of them goes through it.
pub proof fn paths_left_by_deleted_edge(
    index: IndexModel,
    parent_id: ChannelId,
    channel_id: ChannelId,
    left: Seq<int>,
)
    requires
        lists(
            left,
            index.paths,
            |path: Seq<ChannelId>| !goes_straight(path, parent_id, channel_id),
        ),
    ensures
        ({
            let after = index.edge_deleted(parent_id, channel_id);
            let is_reached = exists|i: int|
                0 <= i < left.len() && goes_through(
                    index.paths[#[trigger] left[i]],
                    channel_id,
                );
            &&& after.channels == index.channels
            &&& forall|i: int|
                0 <= i < left.len() ==> #[trigger] after.paths[i] == index.paths[left[i]]
            &&& is_reached ==> after.paths.len() == left.len()
            &&& !is_reached ==> {
                &&& after.paths.len() == left.len() + 1
                &&& after.paths[left.len() as int].len() == 1
                &&& after.paths[left.len() as int][0] == channel_id
            }
        }),
{
    let pred = |path: Seq<ChannelId>| !goes_straight(path, parent_id, channel_id);
    let free = |path: Seq<ChannelId>| !has_edge(path, parent_id, channel_id);
    assert forall|path: Seq<ChannelId>| #[trigger] free(path) == pred(path) by {
        edge_means(path, parent_id, channel_id);
    }
    assert(free =~= pred);
    lists_are_filtered(left, index.paths, pred);
    let kept = index.paths.filter(free);
    if some_contains(kept, channel_id) {
        let i = choose|i: int| 0 <= i < kept.len() && #[trigger] kept[i].contains(channel_id);
        let m = choose|m: int| 0 <= m < kept[i].len() && kept[i][m] == channel_id;
        assert(index.paths[left[i]][m] == channel_id);
        assert(goes_through(index.paths[left[i]], channel_id));
    }
    if exists|i: int| 0 <= i < left.len() && goes_through(index.paths[#[trigger] left[i]], channel_id)
    {
        let i = choose|i: int|
            0 <= i < left.len() && goes_through(index.paths[#[trigger] left[i]], channel_id);
        assert(kept[i] == index.paths[left[i]]);
        let m = choose|m: int|
            0 <= m < kept[i].len() && #[trigger] index.paths[left[i]][m] == channel_id;
        assert(kept[i].contains(channel_id));
    }
}

proof fn edge_means(path: Seq<ChannelId>, parent_id: ChannelId, channel_id: ChannelId)
    ensures
        has_edge(path, parent_id, channel_id) == goes_straight(path, parent_id, channel_id),
{
    if has_edge(path, parent_id, channel_id) {
        let i = choose|i: int|
            0 <= i < path.len() - 1 && #[trigger] path[i] == parent_id && path[i + 1]
                == channel_id;
        assert(path[i] == parent_id);
    }
    if goes_straight(path, parent_id, channel_id) {
        let i = choose|i: int|
            0 <= i && i + 1 < path.len() && #[trigger] path[i] == parent_id && path[i + 1]
                == channel_id;
        assert(path[i] == parent_id);
    }
}

/// The first position of a channel on a path that goes through it.
pub open spec fn is_first_on(path: Seq<ChannelId>, channel_id: ChannelId, place: int) -> bool {
    &&& 0 <= place < path.len()
    &&& path[place] == channel_id
    &&& forall|m: int| 0 <= m < place ==> path[m] != channel_id
}

/// An edge that some path has already changes nothing.
pub proof fn present_edge_changes_nothing(
    index: IndexModel,
    channel_id: ChannelId,
    parent_id: ChannelId,
    i: int,
)
    requires
        0 <= i < index.paths.len(),
        goes_straight(index.paths[i], parent_id, channel_id),
    ensures
        index.edge_inserted(channel_id, parent_id) == index,
{
    edge_means(index.paths[i], parent_id, channel_id);
    assert(has_edge(index.paths[i], parent_id, channel_id));
}

/// What a new edge gives. Gone are the paths that start at the channel, unless they end at the
/// parent. At the end, for each path that ends at the parent, stand the paths behind it that go on
/// from the channel: how each other path through the channel goes on from there, or just the channel
/// where there is none.
pub proof fn paths_given_by_new_edge(
    index: IndexModel,
    channel_id: ChannelId,
    parent_id: ChannelId,
    starts: Seq<int>,
    heads: Seq<int>,
    ways: Seq<int>,
    h: int,
    w: int,
    place: int,
)
    requires
        forall|i: int|
            0 <= i < index.paths.len() ==> !goes_straight(
                #[trigger] index.paths[i],
                parent_id,
                channel_id,
            ),
        lists(
            starts,
            index.paths,
            |path: Seq<ChannelId>|
                path.len() > 0 && path[0] == channel_id && !leads_to(path, parent_id),
        ),
        lists(heads, index.paths, |path: Seq<ChannelId>| leads_to(path, parent_id)),
        lists(
            ways,
            index.paths,
            |path: Seq<ChannelId>| !leads_to(path, parent_id) && goes_through(path, channel_id),
        ),
    ensures
        ({
            let after = index.edge_inserted(channel_id, parent_id);
            let kept = index.paths.len() - starts.len();
            let width = if ways.len() == 0 {
                1
            } else {
                ways.len() as int
            };
            &&& after.channels == index.channels
            &&& after.paths.len() == kept + heads.len() * width
            &&& 0 <= h < heads.len() && ways.len() == 0 ==> after.paths[kept + h]
                == index.paths[heads[h]] + seq![channel_id]
            &&& 0 <= h < heads.len() && 0 <= w < ways.len() && is_first_on(
                index.paths[ways[w]],
                channel_id,
                place,
            ) ==> after.paths[kept + h * width + w] == index.paths[heads[h]]
                + index.paths[ways[w]].skip(place)
        }),
{
    let paths = index.paths;
    let n = paths.len() as int;
    let after = index.edge_inserted(channel_id, parent_id);
    no_edge_at_all(index, channel_id, parent_id);
    let positions = root_positions(paths, channel_id, parent_id, n);
    root_positions_listed(paths, channel_id, parent_id, starts);
    let kept = swap_removed_all(paths, positions);
    swap_removed_all_len(paths, positions);
    let at_parent = |path: Seq<ChannelId>| ends_at(path, parent_id);
    let leads = |path: Seq<ChannelId>| leads_to(path, parent_id);
    assert(at_parent =~= leads);
    lists_are_filtered(heads, paths, leads);
    let tops = parent_paths(paths, parent_id);
    assert(tops.len() == heads.len());
    let goes_on = |path: Seq<ChannelId>| is_descent(path, channel_id, parent_id);
    let passes = |path: Seq<ChannelId>|
        !leads_to(path, parent_id) && goes_through(path, channel_id);
    assert forall|path: Seq<ChannelId>| #[trigger] goes_on(path) == passes(path) by {
        assert(path.contains(channel_id) == goes_through(path, channel_id));
    }
    assert(goes_on =~= passes);
    lists_are_filtered(ways, paths, passes);
    let rests = descents(paths, channel_id, parent_id);
    assert(rests.len() == ways.len());
    let tails = if rests.len() == 0 {
        seq![seq![channel_id]]
    } else {
        rests
    };
    let given = edge_paths(paths, channel_id, parent_id);
    assert(given == grafted(tops, tails));
    grafted_len(tops, tails);
    if 0 <= h < heads.len() && ways.len() == 0 {
        grafted_at(tops, tails, h, 0);
        assert(h * 1 == h);
        assert(after.paths[kept.len() + h] == given[h]);
    }
    if 0 <= h < heads.len() && 0 <= w < ways.len() && is_first_on(
        paths[ways[w]],
        channel_id,
        place,
    ) {
        grafted_at(tops, tails, h, w);
        from_first(paths[ways[w]], channel_id, place);
        assert(rests[w] == from_channel(paths[ways[w]], channel_id));
        assert(after.paths[kept.len() + h * tails.len() + w] == given[h * tails.len() + w]);
    }
}

proof fn no_edge_at_all(index: IndexModel, channel_id: ChannelId, parent_id: ChannelId)
    requires
        forall|i: int|
            0 <= i < index.paths.len() ==> !goes_straight(
                #[trigger] index.paths[i],
                parent_id,
                channel_id,
            ),
    ensures
        !index.holds_edge(parent_id, channel_id),
{
    if index.holds_edge(parent_id, channel_id) {
        let i = choose|i: int|
            0 <= i < index.paths.len() && has_edge(
                #[trigger] index.paths[i],
                parent_id,
                channel_id,
            );
        edge_means(index.paths[i], parent_id, channel_id);
    }
}

/// The root positions are the listed ones.
proof fn root_positions_listed(
    paths: Seq<Seq<ChannelId>>,
    channel_id: ChannelId,
    parent_id: ChannelId,
    starts: Seq<int>,
)
    requires
        lists(
            starts,
            paths,
            |path: Seq<ChannelId>|
                path.len() > 0 && path[0] == channel_id && !leads_to(path, parent_id),
        ),
    ensures
        root_positions(paths, channel_id, parent_id, paths.len() as int) == starts,
{
    let n = paths.len() as int;
    let pred = |path: Seq<ChannelId>|
        path.len() > 0 && path[0] == channel_id && !leads_to(path, parent_id);
    let positions = root_positions(paths, channel_id, parent_id, n);
    root_positions_ascend(paths, channel_id, parent_id, n);
    assert forall|i: int| 0 <= i < positions.len() implies 0 <= #[trigger] positions[i]
        < paths.len() && pred(paths[positions[i]]) by {
        assert(is_rooted_at(paths[positions[i]], channel_id, parent_id));
    }
    assert forall|k: int| 0 <= k < n && pred(#[trigger] paths[k]) implies exists|i: int|
        0 <= i < positions.len() && #[trigger] positions[i] == k by {
        assert(is_rooted_at(paths[k], channel_id, parent_id));
        assert(positions.contains(k));
    }
    assert(lists(positions, paths, pred));
    let listed = positions_can_be_listed(paths, pred);
    assert(lists(starts, paths, pred));
}

proof fn swap_removed_all_len<T>(items: Seq<T>, positions: Seq<int>)
    requires
        forall|i: int, j: int| 0 <= i < j < positions.len() ==> positions[i] < positions[j],
        forall|j: int| 0 <= j < positions.len() ==> 0 <= #[trigger] positions[j] < items.len(),
    ensures
        swap_removed_all(items, positions).len() == items.len() - positions.len(),
    decreases positions.len(),
{
    if positions.len() > 0 {
        let rest = positions.drop_last();
        let fewer = swap_removed(items, positions.last());
        assert forall|j: int| 0 <= j < rest.len() implies 0 <= #[trigger] rest[j] < fewer.len() by {
            assert(positions[j] < positions[positions.len() - 1]);
        }
        swap_removed_all_len(fewer, rest);
    }
}

proof fn grafted_len(heads: Seq<Seq<ChannelId>>, tails: Seq<Seq<ChannelId>>)
    ensures
        grafted(heads, tails).len() == heads.len() * tails.len(),
    decreases heads.len(),
{
    if heads.len() > 0 {
        grafted_len(heads.drop_last(), tails);
        assert(heads.len() * tails.len() == (heads.len() - 1) * tails.len() + tails.len())
            by (nonlinear_arith);
    } else {
        assert(0 * tails.len() == 0);
    }
}

proof fn grafted_at(heads: Seq<Seq<ChannelId>>, tails: Seq<Seq<ChannelId>>, h: int, t: int)
    requires
        0 <= h < heads.len(),
        0 <= t < tails.len(),
    ensures
        0 <= h * tails.len() + t < grafted(heads, tails).len(),
        grafted(heads, tails)[h * tails.len() + t] == heads[h] + tails[t],
    decreases heads.len(),
{
    let fewer = heads.drop_last();
    let before = grafted(fewer, tails);
    grafted_len(fewer, tails);
    grafted_len(heads, tails);
    if h < fewer.len() {
        grafted_at(fewer, tails, h, t);
        assert(grafted(heads, tails)[h * tails.len() + t] == before[h * tails.len() + t]);
        assert(before.len() <= grafted(heads, tails).len());
    } else {
        assert(h == fewer.len());
        assert(h * tails.len() == before.len());
        assert(grafted(heads, tails)[before.len() + t] == extended(heads.last(), tails)[t]);
    }
}

proof fn from_first(path: Seq<ChannelId>, channel_id: ChannelId, place: int)
    requires
        is_first_on(path, channel_id, place),
    ensures
        from_channel(path, channel_id) == path.skip(place),
    decreases path.len(),
{
    if place == 0 {
        assert(path.skip(0) =~= path);
    } else {
        assert(path[0] != channel_id);
        let rest = path.drop_first();
        assert(rest[place - 1] == channel_id);
        from_first(rest, channel_id, place - 1);
        assert(rest.skip(place - 1) =~= path.skip(place));
    }
}

/// Where no path starts at the channel and ends elsewhere than at the parent, a new edge leaves
/// every path in its place.
pub proof fn new_edge_without_starts(
    index: IndexModel,
    channel_id: ChannelId,
    parent_id: ChannelId,
    i: int,
)
    requires
        forall|k: int|
            0 <= k < index.paths.len() ==> {
                &&& !goes_straight(#[trigger] index.paths[k], parent_id, channel_id)
                &&& index.paths[k].len() > 0 && index.paths[k][0] == channel_id ==> leads_to(
                    index.paths[k],
                    parent_id,
                )
            },
        0 <= i < index.paths.len(),
    ensures
        index.edge_inserted(channel_id, parent_id).paths.len() >= index.paths.len(),
        index.edge_inserted(channel_id, parent_id).paths[i] == index.paths[i],
{
    no_edge_at_all(index, channel_id, parent_id);
    let none = Seq::<int>::empty();
    assert forall|k: int|
        0 <= k < index.paths.len() && #[trigger] index.paths[k].len() > 0 && index.paths[k][0]
            == channel_id && !leads_to(index.paths[k], parent_id) implies false by {
        assert(!goes_straight(index.paths[k], parent_id, channel_id));
    }
    let pred = |path: Seq<ChannelId>|
        path.len() > 0 && path[0] == channel_id && !leads_to(path, parent_id);
    assert(forall|k: int| 0 <= k < index.paths.len() ==> !pred(#[trigger] index.paths[k]));
    assert(lists(none, index.paths, pred));
    root_positions_listed(index.paths, channel_id, parent_id, none);
}

/// A new edge takes the paths away that start at the channel, the last one first, and each time the
/// last path of all takes the place: the paths that are left are those that would be left had that
/// path been missing from the start.
pub proof fn new_edge_takes_the_last_start_first(
    index: IndexModel,
    channel_id: ChannelId,
    parent_id: ChannelId,
    starts: Seq<int>,
    fewer: IndexModel,
    i: int,
)
    requires
        forall|k: int|
            0 <= k < index.paths.len() ==> !goes_straight(
                #[trigger] index.paths[k],
                parent_id,
                channel_id,
            ),
        lists(
            starts,
            index.paths,
            |path: Seq<ChannelId>|
                path.len() > 0 && path[0] == channel_id && !leads_to(path, parent_id),
        ),
        starts.len() > 0,
        fewer.channels == index.channels,
        fewer.paths.len() == index.paths.len() - 1,
        forall|k: int|
            0 <= k < fewer.paths.len() ==> #[trigger] fewer.paths[k] == if k
                == starts[starts.len() - 1] {
                index.paths[index.paths.len() - 1]
            } else {
                index.paths[k]
            },
        0 <= i < index.paths.len() - starts.len(),
    ensures
        index.edge_inserted(channel_id, parent_id).paths[i] == fewer.edge_inserted(
            channel_id,
            parent_id,
        ).paths[i],
{
    let pred = |path: Seq<ChannelId>|
        path.len() > 0 && path[0] == channel_id && !leads_to(path, parent_id);
    let n = index.paths.len() as int;
    let last = starts.last();
    let rest = starts.drop_last();
    assert(0 <= starts[starts.len() - 1] < n);
    assert forall|k: int| last < k < n implies !pred(#[trigger] index.paths[k]) by {
        if pred(index.paths[k]) {
            let m = choose|m: int| 0 <= m < starts.len() && #[trigger] starts[m] == k;
            if m < starts.len() - 1 {
                assert(starts[m] < starts[starts.len() - 1]);
            }
        }
    }
    assert(fewer.paths =~= swap_removed(index.paths, last));
    assert forall|k: int| 0 <= k < fewer.paths.len() implies !goes_straight(
        #[trigger] fewer.paths[k],
        parent_id,
        channel_id,
    ) by {
        assert(!goes_straight(index.paths[k], parent_id, channel_id));
        assert(!goes_straight(index.paths[n - 1], parent_id, channel_id));
    }
    no_edge_at_all(index, channel_id, parent_id);
    no_edge_at_all(fewer, channel_id, parent_id);
    assert forall|j: int| 0 <= j < rest.len() implies 0 <= #[trigger] rest[j] < fewer.paths.len()
        && pred(fewer.paths[rest[j]]) by {
        assert(starts[j] < starts[starts.len() - 1]);
        assert(pred(index.paths[starts[j]]));
    }
    assert forall|k: int| 0 <= k < fewer.paths.len() && pred(#[trigger] fewer.paths[k]) implies exists|
        j: int,
    | 0 <= j < rest.len() && #[trigger] rest[j] == k by {
        if k == last {
            assert(pred(index.paths[n - 1]));
        } else {
            assert(pred(index.paths[k]));
            let m = choose|m: int| 0 <= m < starts.len() && #[trigger] starts[m] == k;
            assert(rest[m] == k);
        }
    }
    assert(lists(rest, fewer.paths, pred));
    assert(lists(starts, index.paths, pred));
    root_positions_listed(index.paths, channel_id, parent_id, starts);
    root_positions_listed(fewer.paths, channel_id, parent_id, rest);
    swap_removed_all_len(index.paths, starts);
    swap_removed_all_len(fewer.paths, rest);
}

} // verus!
