//! What holds of a channel index across its operations.

use vstd::prelude::*;
use crate::channel::{ChannelId, ChannelModel};
use crate::channel_index::edges::root_positions_ascend;
use crate::channel_index::model::{
    all_known, descents, edge_paths, ends_at, extended, from_channel, grafted, has_edge,
    is_descent, is_rooted_at, name_before, parent_paths, path_before, root_positions,
    some_contains, sorting_key, swap_removed, swap_removed_all, IndexModel,
};
use crate::channel_index::sorting::path_order_is_weak;
use crate::clock::{join_is_least_upper_bound, joined, observed, observed_is_a_preorder};
use crate::order::{
    first_occurrences, first_occurrences_keep_sorted, first_occurrences_of_unique,
    first_occurrences_properties, lex_skip_common, push_contains, stable_sort_is_sorted,
    stable_sort_is_unique, stable_sort_keeps_items, stable_sort_of, stable_sort_of_sorted,
};
use crate::proto;

verus! {

/// Every known channel is filed under its own id.
pub open spec fn filed_by_id(index: IndexModel) -> bool {
    forall|id: ChannelId| #[trigger]
        index.channels.contains_key(id) ==> index.channels[id].id == id
}

/// The end of a series of insertions is determined: there is one index that it can leave.
pub proof fn tidying_is_determined(index: IndexModel, a: IndexModel, b: IndexModel)
    requires
        index.tidied_to(a),
        index.tidied_to(b),
    ensures
        a == b,
{
    let before = path_before(index.channels);
    path_order_is_weak(index.channels);
    let s = choose|s: Seq<Seq<ChannelId>>| #[trigger]
        stable_sort_of(index.paths, s, before) && a.paths == first_occurrences(s);
    let t = choose|t: Seq<Seq<ChannelId>>| #[trigger]
        stable_sort_of(index.paths, t, before) && b.paths == first_occurrences(t);
    stable_sort_is_unique(index.paths, s, t, before);
}

/// After a series of insertions the paths are sorted, and the paths and channels are those that were
/// inserted.
pub proof fn tidying_sorts(index: IndexModel, tidy: IndexModel)
    requires
        index.tidied_to(tidy),
    ensures
        tidy.is_sorted(),
        tidy.channels == index.channels,
        forall|path: Seq<ChannelId>| #[trigger]
            tidy.paths.contains(path) == index.paths.contains(path),
{
    let before = path_before(index.channels);
    path_order_is_weak(index.channels);
    let s = choose|s: Seq<Seq<ChannelId>>| #[trigger]
        stable_sort_of(index.paths, s, before) && tidy.paths == first_occurrences(s);
    stable_sort_is_sorted(index.paths, s, before);
    stable_sort_keeps_items(index.paths, s, before);
    first_occurrences_keep_sorted(s, before);
    first_occurrences_properties(s);
    assert forall|path: Seq<ChannelId>| #[trigger]
        tidy.paths.contains(path) == index.paths.contains(path) by {
        assert(s.contains(path) == index.paths.contains(path));
    }
}

/// After a series of insertions each path stands in the index once.
pub proof fn tidying_makes_paths_unique(index: IndexModel, tidy: IndexModel)
    requires
        index.tidied_to(tidy),
    ensures
        tidy.is_unique(),
{
    let s = choose|s: Seq<Seq<ChannelId>>| #[trigger]
        stable_sort_of(index.paths, s, path_before(index.channels)) && tidy.paths
            == first_occurrences(s);
    first_occurrences_properties(s);
}

/// A series of no insertions leaves an index as it is whose paths are sorted and unique, and so an
/// index that a series of insertions left.
pub proof fn tidying_twice(index: IndexModel, tidy: IndexModel)
    requires
        index.tidied_to(tidy),
    ensures
        tidy.tidied_to(tidy),
        index.is_sorted() && index.is_unique() ==> tidy == index,
{
    tidying_sorts(index, tidy);
    tidying_makes_paths_unique(index, tidy);
    stable_sort_of_sorted(tidy.paths, path_before(tidy.channels));
    first_occurrences_of_unique(tidy.paths);
    if index.is_sorted() && index.is_unique() {
        stable_sort_of_sorted(index.paths, path_before(index.channels));
        first_occurrences_of_unique(index.paths);
        tidying_is_determined(index, index, tidy);
    }
}

/// Among sorted paths, the path to a channel comes before every path that goes on from there.
pub proof fn ancestors_come_first(index: IndexModel, above: int, below: int)
    requires
        index.is_sorted(),
        0 <= above < index.paths.len(),
        0 <= below < index.paths.len(),
        index.paths[above].len() < index.paths[below].len(),
        index.paths[above] == index.paths[below].take(index.paths[above].len() as int),
    ensures
        above < below,
{
    let n = index.paths[above].len() as int;
    let upper = sorting_key(index.paths[above], index.channels);
    let lower = sorting_key(index.paths[below], index.channels);
    assert forall|i: int| 0 <= i < n implies upper[i] == lower[i] by {
        assert(index.paths[above][i] == index.paths[below][i]);
    }
    lex_skip_common(
        upper,
        lower,
        n,
        |a: Option<Seq<u8>>, b: Option<Seq<u8>>| name_before(a, b),
    );
    assert(path_before(index.channels)(index.paths[above], index.paths[below]));
}

/// After channels were deleted they are unknown, the others are as they were, and every path that
/// is left goes through known channels only.
pub proof fn deleted_channels_are_gone(index: IndexModel, ids: Seq<ChannelId>)
    ensures
        forall|id: ChannelId| #[trigger]
            index.channels_deleted(ids).channels.contains_key(id) == (
            index.channels.contains_key(id) && !ids.contains(id)),
        forall|id: ChannelId| #[trigger]
            index.channels_deleted(ids).channels.contains_key(id)
                ==> index.channels_deleted(ids).channels[id] == index.channels[id],
        forall|i: int|
            0 <= i < index.channels_deleted(ids).paths.len() ==> all_known(
                #[trigger] index.channels_deleted(ids).paths[i],
                index.channels_deleted(ids).channels,
            ),
        forall|id: ChannelId| ids.contains(id) ==> !#[trigger] index.channels_deleted(ids).reaches(id),
        forall|path: Seq<ChannelId>| #[trigger]
            index.channels_deleted(ids).paths.contains(path) == (index.paths.contains(path)
                && all_known(path, index.channels_deleted(ids).channels)),
{
    let after = index.channels_deleted(ids);
    let known = |path: Seq<ChannelId>| all_known(path, after.channels);
    assert(after.paths == index.paths.filter(known));
    broadcast use vstd::seq_lib::group_filter_ensures;

    assert forall|i: int| 0 <= i < after.paths.len() implies all_known(
        #[trigger] after.paths[i],
        after.channels,
    ) by {
        assert(known(index.paths.filter(known)[i]));
    }
    assert forall|id: ChannelId| ids.contains(id) implies !#[trigger] after.reaches(id) by {
        if after.reaches(id) {
            let i = choose|i: int|
                0 <= i < after.paths.len() && #[trigger] after.paths[i].contains(id);
            let j = choose|j: int| 0 <= j < after.paths[i].len() && after.paths[i][j] == id;
            assert(all_known(after.paths[i], after.channels));
            assert(after.channels.contains_key(after.paths[i][j]));
        }
    }
    assert forall|path: Seq<ChannelId>| #[trigger]
        after.paths.contains(path) == (index.paths.contains(path) && all_known(
            path,
            after.channels,
        )) by {
        filter_contains(index.paths, known, path);
    }
}

/// A filtered sequence holds what the sequence holds and the filter lets through.
proof fn filter_contains<T>(items: Seq<T>, pred: spec_fn(T) -> bool, item: T)
    ensures
        items.filter(pred).contains(item) == (items.contains(item) && pred(item)),
    decreases items.len(),
{
    reveal(Seq::filter);
    if items.len() > 0 {
        let rest = items.drop_last();
        filter_contains(rest, pred, item);
        let kept = rest.filter(pred);
        let all = items.filter(pred);
        if rest.contains(item) {
            let i = choose|i: int| 0 <= i < rest.len() && rest[i] == item;
            assert(items[i] == item);
        }
        if items.contains(item) && !rest.contains(item) {
            let i = choose|i: int| 0 <= i < items.len() && items[i] == item;
            if i < items.len() - 1 {
                assert(rest[i] == item);
            }
            assert(items.last() == item);
        }
        assert(items[items.len() - 1] == items.last());
        if pred(items.last()) {
            assert(all == kept.push(items.last()));
            if kept.contains(item) {
                let i = choose|i: int| 0 <= i < kept.len() && kept[i] == item;
                assert(all[i] == item);
            }
            assert(all[all.len() - 1] == items.last());
            if all.contains(item) && !kept.contains(item) {
                let i = choose|i: int| 0 <= i < all.len() && all[i] == item;
                if i < kept.len() {
                    assert(kept[i] == item);
                }
            }
        }
    }
}

/// Each position of a filtered sequence comes from a position of the sequence, in the same order.
proof fn filter_sources<T>(items: Seq<T>, pred: spec_fn(T) -> bool) -> (sources: Seq<int>)
    ensures
        sources.len() == items.filter(pred).len(),
        forall|i: int|
            0 <= i < sources.len() ==> 0 <= #[trigger] sources[i] < items.len() && items.filter(
                pred,
            )[i] == items[sources[i]],
        forall|i: int, j: int| 0 <= i < j < sources.len() ==> sources[i] < sources[j],
    decreases items.len(),
{
    reveal(Seq::filter);
    if items.len() == 0 {
        Seq::empty()
    } else {
        let rest = filter_sources(items.drop_last(), pred);
        if pred(items.last()) {
            rest.push(items.len() - 1)
        } else {
            rest
        }
    }
}

/// Deleting channels keeps the paths sorted, and keeps them unique where they were.
pub proof fn deleting_channels_keeps_order(index: IndexModel, ids: Seq<ChannelId>)
    ensures
        index.is_sorted() ==> index.channels_deleted(ids).is_sorted(),
        index.is_unique() ==> index.channels_deleted(ids).is_unique(),
{
    let after = index.channels_deleted(ids);
    let known = |path: Seq<ChannelId>| all_known(path, after.channels);
    let sources = filter_sources(index.paths, known);
    deleted_channels_are_gone(index, ids);
    assert forall|i: int| 0 <= i < after.paths.len() implies sorting_key(
        #[trigger] after.paths[i],
        after.channels,
    ) == sorting_key(after.paths[i], index.channels) by {
        assert(all_known(after.paths[i], after.channels));
        assert(sorting_key(after.paths[i], after.channels) =~= sorting_key(
            after.paths[i],
            index.channels,
        ));
    }
    if index.is_sorted() {
        assert forall|i: int, j: int| 0 <= i < j < after.paths.len() implies !path_before(
            after.channels,
        )(#[trigger] after.paths[j], #[trigger] after.paths[i]) by {
            assert(sources[i] < sources[j]);
            assert(!path_before(index.channels)(index.paths[sources[j]], index.paths[sources[i]]));
        }
    }
    if index.is_unique() {
        assert forall|i: int, j: int|
            0 <= i < after.paths.len() && 0 <= j < after.paths.len() && i
                != j implies after.paths[i] != after.paths[j] by {
            if i < j {
                assert(sources[i] < sources[j]);
            } else {
                assert(sources[j] < sources[i]);
            }
        }
    }
}

/// Filtering by a condition after a weaker one is filtering by the condition.
proof fn filter_again<T>(items: Seq<T>, weaker: spec_fn(T) -> bool, pred: spec_fn(T) -> bool)
    requires
        forall|item: T| #[trigger] pred(item) ==> weaker(item),
    ensures
        items.filter(weaker).filter(pred) == items.filter(pred),
    decreases items.len(),
{
    reveal(Seq::filter);
    if items.len() > 0 {
        filter_again(items.drop_last(), weaker, pred);
        if weaker(items.last()) {
            let kept = items.drop_last().filter(weaker);
            assert(kept.push(items.last()).drop_last() =~= kept);
        }
    }
}

/// Deleting channels in two goes is deleting all of them at once, and it does not matter in which
/// order, and how often, they are listed.
pub proof fn deletions_combine(index: IndexModel, first: Seq<ChannelId>, second: Seq<ChannelId>)
    ensures
        index.channels_deleted(first).channels_deleted(second) == index.channels_deleted(
            first + second,
        ),
        index.channels_deleted(first).channels_deleted(second) == index.channels_deleted(
            second,
        ).channels_deleted(first),
        first.to_set() == second.to_set() ==> index.channels_deleted(first)
            == index.channels_deleted(second),
{
    deletion_in_two_goes(index, first, second);
    deletion_in_two_goes(index, second, first);
    assert((first + second).to_set() =~= (second + first).to_set()) by {
        to_set_of_both(first, second);
        to_set_of_both(second, first);
    }
}

/// The items of two sequences together.
proof fn to_set_of_both<T>(first: Seq<T>, second: Seq<T>)
    ensures
        (first + second).to_set() == first.to_set().union(second.to_set()),
{
    assert forall|item: T| #[trigger] (first + second).contains(item) == (first.contains(item)
        || second.contains(item)) by {
        if first.contains(item) {
            let i = choose|i: int| 0 <= i < first.len() && first[i] == item;
            assert((first + second)[i] == item);
        }
        if second.contains(item) {
            let i = choose|i: int| 0 <= i < second.len() && second[i] == item;
            assert((first + second)[first.len() + i] == item);
        }
    }
    assert((first + second).to_set() =~= first.to_set().union(second.to_set()));
}

/// Deleting channels in two goes is deleting all of them at once.
proof fn deletion_in_two_goes(index: IndexModel, first: Seq<ChannelId>, second: Seq<ChannelId>)
    ensures
        index.channels_deleted(first).channels_deleted(second) == index.channels_deleted(
            first + second,
        ),
{
    let some = index.channels_deleted(first);
    let both = some.channels_deleted(second);
    let once = index.channels_deleted(first + second);
    to_set_of_both(first, second);
    assert(both.channels =~= once.channels);
    let weaker = |path: Seq<ChannelId>| all_known(path, some.channels);
    let pred = |path: Seq<ChannelId>| all_known(path, both.channels);
    assert forall|path: Seq<ChannelId>| #[trigger] pred(path) implies weaker(path) by {
        assert forall|i: int| 0 <= i < path.len() implies some.channels.contains_key(
            #[trigger] path[i],
        ) by {
            assert(both.channels.contains_key(path[i]));
        }
    }
    filter_again(index.paths, weaker, pred);
}

/// After an edge was deleted no path has it, the channel is still there and some path goes through
/// it, and no path was lost that did not have the edge.
pub proof fn deleted_edge_is_gone(index: IndexModel, parent_id: ChannelId, channel_id: ChannelId)
    ensures
        !index.edge_deleted(parent_id, channel_id).holds_edge(parent_id, channel_id),
        index.edge_deleted(parent_id, channel_id).reaches(channel_id),
        index.edge_deleted(parent_id, channel_id).channels == index.channels,
        forall|path: Seq<ChannelId>|
            index.paths.contains(path) && !has_edge(path, parent_id, channel_id)
                ==> #[trigger] index.edge_deleted(parent_id, channel_id).paths.contains(path),
        forall|path: Seq<ChannelId>| #[trigger]
            index.edge_deleted(parent_id, channel_id).paths.contains(path) ==> index.paths.contains(
                path,
            ) || path == seq![channel_id],
{
    let free = |path: Seq<ChannelId>| !has_edge(path, parent_id, channel_id);
    let kept = index.paths.filter(free);
    let after = index.edge_deleted(parent_id, channel_id);
    let root = seq![channel_id];
    assert(after.paths == kept || after.paths == kept.push(root));
    broadcast use vstd::seq_lib::group_filter_ensures;

    if after.holds_edge(parent_id, channel_id) {
        let i = choose|i: int|
            0 <= i < after.paths.len() && has_edge(
                #[trigger] after.paths[i],
                parent_id,
                channel_id,
            );
        if i < kept.len() {
            assert(after.paths[i] == kept[i]);
            assert(free(index.paths.filter(free)[i]));
        }
        assert(false);
    }
    if !some_contains(kept, channel_id) {
        assert(root[0] == channel_id);
        assert(after.paths[kept.len() as int] == root);
        assert(after.paths[kept.len() as int].contains(channel_id));
    }
    assert forall|path: Seq<ChannelId>| #[trigger] after.paths.contains(path) implies
        index.paths.contains(path) || path == root by {
        let i = choose|i: int| 0 <= i < after.paths.len() && after.paths[i] == path;
        if i < kept.len() {
            assert(kept[i] == path);
            filter_contains(index.paths, free, path);
        }
    }
    assert forall|path: Seq<ChannelId>|
        index.paths.contains(path) && !has_edge(
            path,
            parent_id,
            channel_id,
        ) implies #[trigger] after.paths.contains(path) by {
        filter_contains(index.paths, free, path);
        let i = choose|i: int| 0 <= i < kept.len() && kept[i] == path;
        assert(after.paths[i] == path);
    }
}

/// Swap-removing positions leaves the items that stand at the other positions.
proof fn swap_removed_all_contains<T>(items: Seq<T>, positions: Seq<int>, item: T)
    requires
        forall|i: int, j: int| 0 <= i < j < positions.len() ==> positions[i] < positions[j],
        forall|j: int| 0 <= j < positions.len() ==> 0 <= #[trigger] positions[j] < items.len(),
    ensures
        swap_removed_all(items, positions).contains(item) == (exists|i: int|
            0 <= i < items.len() && !positions.contains(i) && #[trigger] items[i] == item),
    decreases positions.len(),
{
    let result = swap_removed_all(items, positions);
    if positions.len() == 0 {
        if exists|i: int| 0 <= i < items.len() && #[trigger] items[i] == item {
            let i = choose|i: int| 0 <= i < items.len() && #[trigger] items[i] == item;
            assert(!positions.contains(i));
        }
    } else {
        let last = positions.last();
        let rest = positions.drop_last();
        let fewer = swap_removed(items, last);
        let end = items.len() - 1;
        assert forall|j: int| 0 <= j < rest.len() implies 0 <= #[trigger] rest[j] < fewer.len() by {
            assert(positions[j] < positions[positions.len() - 1]);
        }
        swap_removed_all_contains(fewer, rest, item);
        assert forall|v: int| #[trigger] positions.contains(v) == (rest.contains(v) || v == last) by {
            if positions.contains(v) {
                let j = choose|j: int| 0 <= j < positions.len() && positions[j] == v;
                if j < rest.len() {
                    assert(rest[j] == v);
                }
            }
            if rest.contains(v) {
                let j = choose|j: int| 0 <= j < rest.len() && rest[j] == v;
                assert(positions[j] == v);
            }
            assert(positions[positions.len() - 1] == last);
        }
        assert forall|v: int| #[trigger] rest.contains(v) implies v < last by {
            let j = choose|j: int| 0 <= j < rest.len() && rest[j] == v;
            assert(positions[j] < positions[positions.len() - 1]);
        }
        if exists|i: int| 0 <= i < items.len() && !positions.contains(i) && #[trigger] items[i] == item {
            let i = choose|i: int|
                0 <= i < items.len() && !positions.contains(i) && #[trigger] items[i] == item;
            if i == end {
                assert(fewer[last] == item);
                assert(!rest.contains(last));
            } else {
                assert(fewer[i] == item);
                assert(!rest.contains(i));
            }
        }
        if exists|i: int| 0 <= i < fewer.len() && !rest.contains(i) && #[trigger] fewer[i] == item {
            let i = choose|i: int|
                0 <= i < fewer.len() && !rest.contains(i) && #[trigger] fewer[i] == item;
            if i == last {
                assert(items[end] == item);
                assert(!positions.contains(end));
            } else {
                assert(items[i] == item);
                assert(!positions.contains(i));
            }
        }
    }
}

/// `path` is head `h` with tail `t` behind it.
spec fn is_graft(
    heads: Seq<Seq<ChannelId>>,
    tails: Seq<Seq<ChannelId>>,
    path: Seq<ChannelId>,
    h: int,
    t: int,
) -> bool {
    0 <= h < heads.len() && 0 <= t < tails.len() && path == heads[h] + tails[t]
}

/// Grafting gives nothing but heads with tails behind them.
proof fn grafted_holds_grafts(
    heads: Seq<Seq<ChannelId>>,
    tails: Seq<Seq<ChannelId>>,
    path: Seq<ChannelId>,
) -> (at: (int, int))
    requires
        grafted(heads, tails).contains(path),
    ensures
        is_graft(heads, tails, path, at.0, at.1),
    decreases heads.len(),
{
    let all = grafted(heads, tails);
    let fewer = heads.drop_last();
    let before = grafted(fewer, tails);
    let row = extended(heads.last(), tails);
    let i = choose|i: int| 0 <= i < all.len() && all[i] == path;
    if i < before.len() {
        assert(before[i] == path);
        let at = grafted_holds_grafts(fewer, tails, path);
        assert(fewer[at.0] == heads[at.0]);
        at
    } else {
        let t = i - before.len();
        assert(row[t] == path);
        (heads.len() - 1, t)
    }
}

/// Grafting gives each head with each tail behind it.
proof fn grafts_are_grafted(
    heads: Seq<Seq<ChannelId>>,
    tails: Seq<Seq<ChannelId>>,
    h: int,
    t: int,
)
    requires
        0 <= h < heads.len(),
        0 <= t < tails.len(),
    ensures
        grafted(heads, tails).contains(heads[h] + tails[t]),
    decreases heads.len(),
{
    let all = grafted(heads, tails);
    let fewer = heads.drop_last();
    let before = grafted(fewer, tails);
    let row = extended(heads.last(), tails);
    let path = heads[h] + tails[t];
    if h < fewer.len() {
        grafts_are_grafted(fewer, tails, h, t);
        let i = choose|i: int| 0 <= i < before.len() && before[i] == path;
        assert(all[i] == path);
    } else {
        assert(row[t] == path);
        assert(all[before.len() + t] == row[t]);
    }
}

/// From a channel that it goes through, a path goes on from that channel.
proof fn from_channel_starts_there(path: Seq<ChannelId>, channel_id: ChannelId)
    requires
        path.contains(channel_id),
    ensures
        from_channel(path, channel_id).len() > 0,
        from_channel(path, channel_id)[0] == channel_id,
    decreases path.len(),
{
    if path[0] != channel_id {
        let i = choose|i: int| 0 <= i < path.len() && path[i] == channel_id;
        assert(path.drop_first()[i - 1] == channel_id);
        from_channel_starts_there(path.drop_first(), channel_id);
    }
}

/// Each path that an edge gives has the edge.
proof fn edge_paths_have_edge(
    paths: Seq<Seq<ChannelId>>,
    channel_id: ChannelId,
    parent_id: ChannelId,
    path: Seq<ChannelId>,
)
    requires
        edge_paths(paths, channel_id, parent_id).contains(path),
    ensures
        has_edge(path, parent_id, channel_id),
        path.contains(channel_id),
{
    let heads = parent_paths(paths, parent_id);
    let ways = descents(paths, channel_id, parent_id);
    let tails = if ways.len() == 0 {
        seq![seq![channel_id]]
    } else {
        ways
    };
    let (h, t) = grafted_holds_grafts(heads, tails, path);
    broadcast use vstd::seq_lib::group_filter_ensures;

    let at_parent = |path: Seq<ChannelId>| ends_at(path, parent_id);
    assert(at_parent(paths.filter(at_parent)[h]));
    assert(tails[t].len() > 0 && tails[t][0] == channel_id) by {
        if ways.len() > 0 {
            let goes_on = |path: Seq<ChannelId>| is_descent(path, channel_id, parent_id);
            assert(goes_on(paths.filter(goes_on)[t]));
            from_channel_starts_there(paths.filter(goes_on)[t], channel_id);
        }
    }
    let n = heads[h].len() - 1;
    assert(path[n] == parent_id && path[n + 1] == channel_id);
}

/// Inserting an edge that is not there keeps the paths that do not start at the channel, adds the
/// paths that the edge gives, and leaves no other path and no other channel behind. A path that
/// ends at the parent is kept wherever it starts.
pub proof fn inserted_edge_replaces_roots(
    index: IndexModel,
    channel_id: ChannelId,
    parent_id: ChannelId,
)
    requires
        !index.holds_edge(parent_id, channel_id),
    ensures
        index.edge_inserted(channel_id, parent_id).channels == index.channels,
        forall|path: Seq<ChannelId>| #[trigger]
            index.edge_inserted(channel_id, parent_id).paths.contains(path) == ((
            index.paths.contains(path) && !is_rooted_at(path, channel_id, parent_id)) || edge_paths(
                index.paths,
                channel_id,
                parent_id,
            ).contains(path)),
{
    let n = index.paths.len() as int;
    let positions = root_positions(index.paths, channel_id, parent_id, n);
    root_positions_ascend(index.paths, channel_id, parent_id, n);
    let kept = swap_removed_all(index.paths, positions);
    let given = edge_paths(index.paths, channel_id, parent_id);
    let after = index.edge_inserted(channel_id, parent_id);
    assert forall|path: Seq<ChannelId>| #[trigger]
        after.paths.contains(path) == ((index.paths.contains(path) && !is_rooted_at(
            path,
            channel_id,
            parent_id,
        )) || given.contains(path)) by {
        swap_removed_all_contains(index.paths, positions, path);
        if after.paths.contains(path) {
            let i = choose|i: int| 0 <= i < after.paths.len() && after.paths[i] == path;
            if i < kept.len() {
                assert(kept[i] == path);
            } else {
                assert(given[i - kept.len()] == path);
            }
        }
        if kept.contains(path) {
            let i = choose|i: int| 0 <= i < kept.len() && kept[i] == path;
            assert(after.paths[i] == path);
            let k = choose|k: int|
                0 <= k < index.paths.len() && !positions.contains(k) && #[trigger] index.paths[k]
                    == path;
            assert(!is_rooted_at(index.paths[k], channel_id, parent_id));
        }
        if given.contains(path) {
            let i = choose|i: int| 0 <= i < given.len() && given[i] == path;
            assert(after.paths[kept.len() + i] == path);
        }
        if index.paths.contains(path) && !is_rooted_at(path, channel_id, parent_id) {
            let k = choose|k: int| 0 <= k < index.paths.len() && index.paths[k] == path;
            if positions.contains(k) {
                let j = choose|j: int| 0 <= j < positions.len() && positions[j] == k;
                assert(is_rooted_at(index.paths[positions[j]], channel_id, parent_id));
            }
        }
    }
}

/// After an edge was inserted below a channel that some path ends at, some path has the edge.
pub proof fn inserted_edge_is_there(
    index: IndexModel,
    channel_id: ChannelId,
    parent_id: ChannelId,
)
    requires
        exists|i: int| 0 <= i < index.paths.len() && ends_at(#[trigger] index.paths[i], parent_id),
    ensures
        index.edge_inserted(channel_id, parent_id).holds_edge(parent_id, channel_id),
        index.edge_inserted(channel_id, parent_id).reaches(channel_id),
{
    let after = index.edge_inserted(channel_id, parent_id);
    if index.holds_edge(parent_id, channel_id) {
        let i = choose|i: int|
            0 <= i < index.paths.len() && has_edge(
                #[trigger] index.paths[i],
                parent_id,
                channel_id,
            );
        edge_leads_to_channel(index.paths[i], parent_id, channel_id);
    } else {
        let i = choose|i: int|
            0 <= i < index.paths.len() && ends_at(#[trigger] index.paths[i], parent_id);
        let heads = parent_paths(index.paths, parent_id);
        let ways = descents(index.paths, channel_id, parent_id);
        let tails = if ways.len() == 0 {
            seq![seq![channel_id]]
        } else {
            ways
        };
        let at_parent = |path: Seq<ChannelId>| ends_at(path, parent_id);
        filter_contains(index.paths, at_parent, index.paths[i]);
        assert(heads.contains(index.paths[i]));
        let path = heads[0] + tails[0];
        grafts_are_grafted(heads, tails, 0, 0);
        let given = edge_paths(index.paths, channel_id, parent_id);
        assert(given.contains(path));
        edge_paths_have_edge(index.paths, channel_id, parent_id, path);
        inserted_edge_replaces_roots(index, channel_id, parent_id);
        assert(after.paths.contains(path));
        let k = choose|k: int| 0 <= k < after.paths.len() && after.paths[k] == path;
        assert(has_edge(after.paths[k], parent_id, channel_id));
        assert(after.paths[k].contains(channel_id));
    }
}

/// Where no path ends at the parent, an edge gives no paths.
proof fn edge_below_nothing(
    paths: Seq<Seq<ChannelId>>,
    channel_id: ChannelId,
    parent_id: ChannelId,
)
    requires
        forall|i: int| 0 <= i < paths.len() ==> !ends_at(#[trigger] paths[i], parent_id),
    ensures
        edge_paths(paths, channel_id, parent_id) == Seq::<Seq<ChannelId>>::empty(),
{
    let heads = parent_paths(paths, parent_id);
    let at_parent = |path: Seq<ChannelId>| ends_at(path, parent_id);
    if heads.len() > 0 {
        filter_contains(paths, at_parent, heads[0]);
        assert(heads.contains(heads[0]));
    }
}

/// Where no path starts at the channel, an edge replaces no path.
proof fn no_roots_no_positions(
    paths: Seq<Seq<ChannelId>>,
    channel_id: ChannelId,
    parent_id: ChannelId,
)
    requires
        forall|i: int|
            0 <= i < paths.len() ==> !is_rooted_at(#[trigger] paths[i], channel_id, parent_id),
    ensures
        root_positions(paths, channel_id, parent_id, paths.len() as int) == Seq::<int>::empty(),
{
    let n = paths.len() as int;
    let positions = root_positions(paths, channel_id, parent_id, n);
    root_positions_ascend(paths, channel_id, parent_id, n);
    if positions.len() > 0 {
        assert(is_rooted_at(paths[positions[0]], channel_id, parent_id));
    }
    assert(positions =~= Seq::empty());
}

/// Inserting an edge again changes nothing.
pub proof fn inserting_an_edge_again(
    index: IndexModel,
    channel_id: ChannelId,
    parent_id: ChannelId,
)
    ensures
        index.edge_inserted(channel_id, parent_id).edge_inserted(channel_id, parent_id)
            == index.edge_inserted(channel_id, parent_id),
{
    let after = index.edge_inserted(channel_id, parent_id);
    if index.holds_edge(parent_id, channel_id) {
    } else if exists|i: int|
        0 <= i < index.paths.len() && ends_at(#[trigger] index.paths[i], parent_id) {
        inserted_edge_is_there(index, channel_id, parent_id);
    } else {
        edge_below_nothing(index.paths, channel_id, parent_id);
        inserted_edge_replaces_roots(index, channel_id, parent_id);
        assert forall|i: int| 0 <= i < after.paths.len() implies !ends_at(
            #[trigger] after.paths[i],
            parent_id,
        ) && !is_rooted_at(after.paths[i], channel_id, parent_id) by {
            assert(after.paths.contains(after.paths[i]));
            let k = choose|k: int| 0 <= k < index.paths.len() && index.paths[k] == after.paths[i];
            assert(!ends_at(index.paths[k], parent_id));
        }
        edge_below_nothing(after.paths, channel_id, parent_id);
        no_roots_no_positions(after.paths, channel_id, parent_id);
        assert(after.edge_inserted(channel_id, parent_id) =~= after);
    }
}

/// Inserting an edge below a channel that some path ends at loses no channel: what some path went
/// through, some path goes through.
pub proof fn inserted_edge_loses_no_channel(
    index: IndexModel,
    channel_id: ChannelId,
    parent_id: ChannelId,
    id: ChannelId,
)
    requires
        exists|i: int| 0 <= i < index.paths.len() && ends_at(#[trigger] index.paths[i], parent_id),
        index.reaches(id),
    ensures
        index.edge_inserted(channel_id, parent_id).reaches(id),
{
    let after = index.edge_inserted(channel_id, parent_id);
    if !index.holds_edge(parent_id, channel_id) {
        inserted_edge_replaces_roots(index, channel_id, parent_id);
        let i = choose|i: int| 0 <= i < index.paths.len() && #[trigger] index.paths[i].contains(id);
        let path = index.paths[i];
        if !is_rooted_at(path, channel_id, parent_id) {
            assert(after.paths.contains(path));
            let k = choose|k: int| 0 <= k < after.paths.len() && after.paths[k] == path;
            assert(after.paths[k].contains(id));
        } else {
            let p = choose|p: int|
                0 <= p < index.paths.len() && ends_at(#[trigger] index.paths[p], parent_id);
            let heads = parent_paths(index.paths, parent_id);
            let tails = descents(index.paths, channel_id, parent_id);
            let at_parent = |path: Seq<ChannelId>| ends_at(path, parent_id);
            filter_contains(index.paths, at_parent, index.paths[p]);
            assert(heads.contains(index.paths[p]));
            assert(path[0] == channel_id);
            assert(path.contains(channel_id));
            descent_is_a_tail(index.paths, channel_id, parent_id, path);
            assert(from_channel(path, channel_id) == path);
            let t = choose|t: int| 0 <= t < tails.len() && tails[t] == path;
            grafts_are_grafted(heads, tails, 0, t);
            let grown = heads[0] + path;
            assert(after.paths.contains(grown));
            let j = choose|j: int| 0 <= j < path.len() && path[j] == id;
            assert(grown[heads[0].len() + j] == id);
            let k = choose|k: int| 0 <= k < after.paths.len() && after.paths[k] == grown;
            assert(after.paths[k].contains(id));
        }
    }
}

/// How a path goes on from the channel is among the ways on from it.
proof fn descent_is_a_tail(
    paths: Seq<Seq<ChannelId>>,
    channel_id: ChannelId,
    parent_id: ChannelId,
    path: Seq<ChannelId>,
)
    requires
        paths.contains(path),
        is_descent(path, channel_id, parent_id),
    ensures
        descents(paths, channel_id, parent_id).contains(from_channel(path, channel_id)),
{
    let goes_on = |path: Seq<ChannelId>| is_descent(path, channel_id, parent_id);
    filter_contains(paths, goes_on, path);
    let kept = paths.filter(goes_on);
    let k = choose|k: int| 0 <= k < kept.len() && kept[k] == path;
    assert(descents(paths, channel_id, parent_id)[k] == from_channel(path, channel_id));
}

/// Each way on from the channel comes from a path.
proof fn tail_is_a_descent(
    paths: Seq<Seq<ChannelId>>,
    channel_id: ChannelId,
    parent_id: ChannelId,
    t: int,
) -> (path: Seq<ChannelId>)
    requires
        0 <= t < descents(paths, channel_id, parent_id).len(),
    ensures
        paths.contains(path),
        is_descent(path, channel_id, parent_id),
        descents(paths, channel_id, parent_id)[t] == from_channel(path, channel_id),
{
    let goes_on = |path: Seq<ChannelId>| is_descent(path, channel_id, parent_id);
    let kept = paths.filter(goes_on);
    filter_contains(paths, goes_on, kept[t]);
    assert(kept.contains(kept[t]));
    kept[t]
}

/// Without its last channel, a path goes on from the channel as before, less the last channel.
proof fn from_channel_drop_last(path: Seq<ChannelId>, channel_id: ChannelId)
    requires
        path.contains(channel_id),
        from_channel(path, channel_id).len() > 1,
    ensures
        path.drop_last().contains(channel_id),
        from_channel(path.drop_last(), channel_id) == from_channel(path, channel_id).drop_last(),
    decreases path.len(),
{
    let shorter = path.drop_last();
    if path[0] == channel_id {
        assert(shorter[0] == channel_id);
    } else {
        let i = choose|i: int| 0 <= i < path.len() && path[i] == channel_id;
        assert(path.drop_first()[i - 1] == channel_id);
        from_channel_drop_last(path.drop_first(), channel_id);
        assert(path.drop_first().drop_last() =~= shorter.drop_first());
        let j = choose|j: int|
            0 <= j < shorter.drop_first().len() && shorter.drop_first()[j] == channel_id;
        assert(shorter[j + 1] == channel_id);
    }
}

/// No path is empty, and with each path the index has the path to the channel before its last.
pub open spec fn closed_upwards(index: IndexModel) -> bool {
    &&& forall|path: Seq<ChannelId>| #[trigger] index.paths.contains(path) ==> path.len() > 0
    &&& forall|path: Seq<ChannelId>| #[trigger]
        index.paths.contains(path) && path.len() > 1 ==> index.paths.contains(path.drop_last())
}

/// An edge from `parent_id` to `channel_id` closes no cycle: no path that ends at the parent goes
/// through the channel.
pub open spec fn closes_no_cycle(
    index: IndexModel,
    channel_id: ChannelId,
    parent_id: ChannelId,
) -> bool {
    forall|path: Seq<ChannelId>| #[trigger]
        index.paths.contains(path) && ends_at(path, parent_id) ==> !path.contains(channel_id)
}

/// Inserting an edge that closes no cycle keeps an index closed upwards: whoever is shown below a
/// channel is shown below a channel that is shown.
pub proof fn inserted_edge_keeps_closed_upwards(
    index: IndexModel,
    channel_id: ChannelId,
    parent_id: ChannelId,
)
    requires
        closed_upwards(index),
        closes_no_cycle(index, channel_id, parent_id),
    ensures
        closed_upwards(index.edge_inserted(channel_id, parent_id)),
{
    let after = index.edge_inserted(channel_id, parent_id);
    if !index.holds_edge(parent_id, channel_id) {
        inserted_edge_replaces_roots(index, channel_id, parent_id);
        let heads = parent_paths(index.paths, parent_id);
        let ways = descents(index.paths, channel_id, parent_id);
        let tails = if ways.len() == 0 {
            seq![seq![channel_id]]
        } else {
            ways
        };
        let given = edge_paths(index.paths, channel_id, parent_id);
        let at_parent = |path: Seq<ChannelId>| ends_at(path, parent_id);
        assert forall|path: Seq<ChannelId>| #[trigger] after.paths.contains(path) implies path.len()
            > 0 by {
            if given.contains(path) {
                edge_paths_have_edge(index.paths, channel_id, parent_id, path);
            }
        }
        assert forall|path: Seq<ChannelId>| #[trigger]
            after.paths.contains(path) && path.len() > 1 implies after.paths.contains(
            path.drop_last(),
        ) by {
            if given.contains(path) {
                let (h, t) = grafted_holds_grafts(heads, tails, path);
                let head = heads[h];
                filter_contains(index.paths, at_parent, head);
                assert(heads.contains(head));
                assert(ends_at(head, parent_id) && index.paths.contains(head));
                if tails[t].len() == 1 {
                    assert(path.drop_last() =~= head);
                } else {
                    let below = tail_is_a_descent(index.paths, channel_id, parent_id, t);
                    from_channel_starts_there(below, channel_id);
                    from_channel_drop_last(below, channel_id);
                    let above = below.drop_last();
                    assert(below.len() > 1);
                    assert(index.paths.contains(above));
                    assert(is_descent(above, channel_id, parent_id));
                    descent_is_a_tail(index.paths, channel_id, parent_id, above);
                    let u = choose|u: int|
                        0 <= u < ways.len() && ways[u] == from_channel(above, channel_id);
                    grafts_are_grafted(heads, tails, h, u);
                    assert(path.drop_last() =~= head + tails[u]);
                }
            } else {
                assert(index.paths.contains(path));
                let above = path.drop_last();
                assert(index.paths.contains(above));
                if is_rooted_at(above, channel_id, parent_id) {
                    assert(path[0] == channel_id);
                    assert(path.contains(channel_id));
                    assert(ends_at(path, parent_id));
                    assert(false);
                }
            }
        }
    }
}

/// Every other operation keeps an index closed upwards.
pub proof fn operations_keep_closed_upwards(
    index: IndexModel,
    tidy: IndexModel,
    channel: proto::Channel,
    channel_id: ChannelId,
    parent_id: ChannelId,
    ids: Seq<ChannelId>,
)
    requires
        closed_upwards(index),
        index.tidied_to(tidy),
    ensures
        closed_upwards(IndexModel::empty()),
        closed_upwards(tidy),
        closed_upwards(index.channels_deleted(ids)),
        closed_upwards(index.channel_inserted(channel)),
        closed_upwards(index.edge_deleted(parent_id, channel_id)),
{
    tidying_sorts(index, tidy);
    deleted_channels_are_gone(index, ids);
    let fewer = index.channels_deleted(ids);
    assert forall|path: Seq<ChannelId>| #[trigger]
        fewer.paths.contains(path) && path.len() > 1 implies fewer.paths.contains(
        path.drop_last(),
    ) by {
        assert(index.paths.contains(path.drop_last()));
        assert forall|i: int| 0 <= i < path.drop_last().len() implies fewer.channels.contains_key(
            #[trigger] path.drop_last()[i],
        ) by {
            assert(fewer.channels.contains_key(path[i]));
        }
        assert(all_known(path.drop_last(), fewer.channels));
    }
    assert(closed_upwards(index.channel_inserted(channel))) by {
        let after = index.channel_inserted(channel);
        if !index.channels.contains_key(channel.id) {
            root_keeps_closed_upwards(index, after, channel.id);
        }
    }
    deleted_edge_is_gone(index, parent_id, channel_id);
    let free = |path: Seq<ChannelId>| !has_edge(path, parent_id, channel_id);
    let kept = IndexModel { paths: index.paths.filter(free), ..index };
    assert(closed_upwards(kept)) by {
        assert forall|path: Seq<ChannelId>| #[trigger] kept.paths.contains(path) implies path.len()
            > 0 by {
            filter_contains(index.paths, free, path);
        }
        assert forall|path: Seq<ChannelId>| #[trigger]
            kept.paths.contains(path) && path.len() > 1 implies kept.paths.contains(
            path.drop_last(),
        ) by {
            filter_contains(index.paths, free, path);
            filter_contains(index.paths, free, path.drop_last());
            let above = path.drop_last();
            if has_edge(above, parent_id, channel_id) {
                let i = choose|i: int|
                    0 <= i < above.len() - 1 && #[trigger] above[i] == parent_id && above[i + 1]
                        == channel_id;
                assert(path[i] == parent_id && path[i + 1] == channel_id);
            }
        }
    }
    if !kept.reaches(channel_id) {
        root_keeps_closed_upwards(kept, kept.root_inserted(channel_id), channel_id);
    }
}

/// One more root keeps an index closed upwards.
proof fn root_keeps_closed_upwards(before: IndexModel, after: IndexModel, channel_id: ChannelId)
    requires
        closed_upwards(before),
        after.paths == before.paths.push(seq![channel_id]),
    ensures
        closed_upwards(after),
{
    let root = seq![channel_id];
    assert forall|path: Seq<ChannelId>| #[trigger] after.paths.contains(path) == (
    before.paths.contains(path) || path == root) by {
        if before.paths.contains(path) {
            let i = choose|i: int| 0 <= i < before.paths.len() && before.paths[i] == path;
            assert(after.paths[i] == path);
        }
        if after.paths.contains(path) {
            let i = choose|i: int| 0 <= i < after.paths.len() && after.paths[i] == path;
            if i < before.paths.len() {
                assert(before.paths[i] == path);
            }
        }
        assert(after.paths[before.paths.len() as int] == root);
    }
}

/// A filter that lets everything through changes nothing, and one that lets nothing through leaves
/// nothing.
proof fn filter_all_or_none<T>(items: Seq<T>, pred: spec_fn(T) -> bool)
    ensures
        (forall|i: int| 0 <= i < items.len() ==> pred(#[trigger] items[i])) ==> items.filter(pred)
            == items,
        (forall|i: int| 0 <= i < items.len() ==> !pred(#[trigger] items[i])) ==> items.filter(pred)
            == Seq::<T>::empty(),
    decreases items.len(),
{
    reveal(Seq::filter);
    if items.len() > 0 {
        let rest = items.drop_last();
        filter_all_or_none(rest, pred);
        assert(items =~= rest.push(items.last()));
        assert(items.last() == items[items.len() - 1]);
        assert(forall|i: int| 0 <= i < rest.len() ==> #[trigger] rest[i] == items[i]);
    } else {
        assert(items =~= Seq::empty());
    }
}

/// Among the paths after an edge was inserted, those without the edge are those that the insertion
/// left in place: the paths that do not start at the channel.
proof fn paths_without_inserted_edge(
    index: IndexModel,
    channel_id: ChannelId,
    parent_id: ChannelId,
)
    requires
        !index.holds_edge(parent_id, channel_id),
    ensures
        ({
            let kept = swap_removed_all(
                index.paths,
                root_positions(index.paths, channel_id, parent_id, index.paths.len() as int),
            );
            &&& index.edge_inserted(channel_id, parent_id).paths.filter(
                |path: Seq<ChannelId>| !has_edge(path, parent_id, channel_id),
            ) == kept
            &&& forall|path: Seq<ChannelId>| #[trigger]
                kept.contains(path) == (index.paths.contains(path) && !is_rooted_at(
                    path,
                    channel_id,
                    parent_id,
                ))
        }),
{
    let n = index.paths.len() as int;
    let positions = root_positions(index.paths, channel_id, parent_id, n);
    let kept = swap_removed_all(index.paths, positions);
    let given = edge_paths(index.paths, channel_id, parent_id);
    let free = |path: Seq<ChannelId>| !has_edge(path, parent_id, channel_id);
    root_positions_ascend(index.paths, channel_id, parent_id, n);
    assert forall|path: Seq<ChannelId>| #[trigger] kept.contains(path) == (index.paths.contains(path)
        && !is_rooted_at(path, channel_id, parent_id)) by {
        swap_removed_all_contains(index.paths, positions, path);
        if kept.contains(path) {
            let k = choose|k: int|
                0 <= k < n && !positions.contains(k) && #[trigger] index.paths[k] == path;
            assert(!is_rooted_at(index.paths[k], channel_id, parent_id));
        }
        if index.paths.contains(path) && !is_rooted_at(path, channel_id, parent_id) {
            let k = choose|k: int| 0 <= k < n && index.paths[k] == path;
            if positions.contains(k) {
                let j = choose|j: int| 0 <= j < positions.len() && positions[j] == k;
                assert(is_rooted_at(index.paths[positions[j]], channel_id, parent_id));
            }
        }
    }
    assert forall|i: int| 0 <= i < kept.len() implies free(#[trigger] kept[i]) by {
        assert(kept.contains(kept[i]));
        let k = choose|k: int| 0 <= k < n && index.paths[k] == kept[i];
        assert(!has_edge(index.paths[k], parent_id, channel_id));
    }
    assert forall|i: int| 0 <= i < given.len() implies !free(#[trigger] given[i]) by {
        assert(given.contains(given[i]));
        edge_paths_have_edge(index.paths, channel_id, parent_id, given[i]);
    }
    filter_all_or_none(kept, free);
    filter_all_or_none(given, free);
    Seq::filter_distributes_over_add(kept, given, free);
    assert(kept + Seq::empty() =~= kept);
}

/// Moving an item to the end after the last item took its place only reorders the items.
proof fn swap_removed_then_pushed<T>(items: Seq<T>, position: int)
    requires
        0 <= position < items.len(),
    ensures
        swap_removed(items, position).push(items[position]).to_multiset() == items.to_multiset(),
{
    broadcast use vstd::multiset::group_multiset_axioms;

    let item = items[position];
    let moved = items.update(position, items.last());
    let fewer = swap_removed(items, position);
    assert(moved =~= fewer.push(items.last()));
    vstd::seq_lib::to_multiset_update(items, position, items.last());
    vstd::seq_lib::to_multiset_build(fewer, items.last());
    vstd::seq_lib::to_multiset_build(fewer, item);
    vstd::seq_lib::to_multiset_contains(items, item);
    assert(items.contains(item));
    let all = items.to_multiset();
    let rest = fewer.to_multiset();
    assert forall|v: T| #[trigger] rest.insert(item).count(v) == all.count(v) by {
        assert(rest.insert(items.last()).count(v) == all.insert(items.last()).remove(item).count(v));
    }
    assert(rest.insert(item) =~= all);
}

/// A channel is a root and nothing else: its root path stands in the index once, and no other path
/// goes through it.
pub open spec fn is_lone_root(index: IndexModel, channel_id: ChannelId) -> bool {
    exists|k: int|
        0 <= k < index.paths.len() && #[trigger] index.paths[k] == seq![channel_id] && forall|i: int|
            0 <= i < index.paths.len() && i != k ==> !#[trigger] index.paths[i].contains(channel_id)
}

/// A channel is reached, and an edge to it from `parent_id` would be new and replace no path.
pub open spec fn only_gains_paths(
    index: IndexModel,
    channel_id: ChannelId,
    parent_id: ChannelId,
) -> bool {
    &&& !index.holds_edge(parent_id, channel_id)
    &&& index.reaches(channel_id)
    &&& forall|i: int|
        0 <= i < index.paths.len() ==> !is_rooted_at(
            #[trigger] index.paths[i],
            channel_id,
            parent_id,
        )
}

/// Deleting an edge takes back its insertion: no path has it, and some path goes through the
/// channel. The paths are again those from before the insertion, perhaps in another order, exactly
/// where the channel was a lone root or the edge only added paths.
pub proof fn insert_then_delete_edge(
    index: IndexModel,
    channel_id: ChannelId,
    parent_id: ChannelId,
)
    ensures
        ({
            let back = index.edge_inserted(channel_id, parent_id).edge_deleted(
                parent_id,
                channel_id,
            );
            &&& !back.holds_edge(parent_id, channel_id)
            &&& back.reaches(channel_id)
            &&& back.channels == index.channels
            &&& back.paths.to_multiset() == index.paths.to_multiset() <==> is_lone_root(
                index,
                channel_id,
            ) || only_gains_paths(index, channel_id, parent_id)
            &&& only_gains_paths(index, channel_id, parent_id) ==> back == index
        }),
{
    let after = index.edge_inserted(channel_id, parent_id);
    deleted_edge_is_gone(after, parent_id, channel_id);
    if only_gains_paths(index, channel_id, parent_id) {
        edge_that_only_adds_is_taken_back(index, channel_id, parent_id);
    } else if is_lone_root(index, channel_id) {
        lone_root_is_put_back(index, channel_id, parent_id);
    } else {
        other_insertions_are_not_taken_back(index, channel_id, parent_id);
    }
}

/// Where an edge only adds paths, deleting it takes them away again.
proof fn edge_that_only_adds_is_taken_back(
    index: IndexModel,
    channel_id: ChannelId,
    parent_id: ChannelId,
)
    requires
        only_gains_paths(index, channel_id, parent_id),
    ensures
        index.edge_inserted(channel_id, parent_id).edge_deleted(parent_id, channel_id) == index,
{
    no_roots_no_positions(index.paths, channel_id, parent_id);
    paths_without_inserted_edge(index, channel_id, parent_id);
}

/// A path that has an edge goes through the channel at its end.
proof fn edge_leads_to_channel(
    path: Seq<ChannelId>,
    parent_id: ChannelId,
    channel_id: ChannelId,
)
    requires
        has_edge(path, parent_id, channel_id),
    ensures
        path.len() > 1,
        path.contains(channel_id),
{
    let j = choose|j: int|
        0 <= j < path.len() - 1 && #[trigger] path[j] == parent_id && path[j + 1] == channel_id;
    assert(path[j + 1] == channel_id);
}

/// Where one path alone starts at the channel, it is the one that an edge replaces.
proof fn one_root_one_position(
    paths: Seq<Seq<ChannelId>>,
    channel_id: ChannelId,
    parent_id: ChannelId,
    k: int,
)
    requires
        0 <= k < paths.len(),
        forall|i: int|
            0 <= i < paths.len() ==> is_rooted_at(#[trigger] paths[i], channel_id, parent_id) == (i
                == k),
    ensures
        swap_removed_all(
            paths,
            root_positions(paths, channel_id, parent_id, paths.len() as int),
        ) == swap_removed(paths, k),
{
    let positions = root_positions(paths, channel_id, parent_id, paths.len() as int);
    root_positions_ascend(paths, channel_id, parent_id, paths.len() as int);
    assert(is_rooted_at(paths[k], channel_id, parent_id));
    assert(positions.contains(k));
    if positions.len() > 1 {
        assert(positions[0] < positions[1]);
        assert(is_rooted_at(paths[positions[0]], channel_id, parent_id));
        assert(is_rooted_at(paths[positions[1]], channel_id, parent_id));
    }
    assert(positions.len() == 1);
    assert(is_rooted_at(paths[positions[0]], channel_id, parent_id));
    assert(positions.last() == k);
    reveal_with_fuel(swap_removed_all, 2);
}

/// A lone root that an edge replaced is put back when the edge is deleted.
proof fn lone_root_is_put_back(index: IndexModel, channel_id: ChannelId, parent_id: ChannelId)
    requires
        is_lone_root(index, channel_id),
        !only_gains_paths(index, channel_id, parent_id),
    ensures
        index.edge_inserted(channel_id, parent_id).edge_deleted(
            parent_id,
            channel_id,
        ).paths.to_multiset() == index.paths.to_multiset(),
{
    let root = seq![channel_id];
    let n = index.paths.len() as int;
    let k = choose|k: int|
        0 <= k < index.paths.len() && #[trigger] index.paths[k] == root && forall|i: int|
            0 <= i < index.paths.len() && i != k ==> !#[trigger] index.paths[i].contains(
                channel_id,
            );
    assert(root[0] == channel_id);
    assert(index.paths[k].contains(channel_id));
    if index.holds_edge(parent_id, channel_id) {
        let i = choose|i: int|
            0 <= i < n && has_edge(#[trigger] index.paths[i], parent_id, channel_id);
        edge_leads_to_channel(index.paths[i], parent_id, channel_id);
        assert(i == k);
    }
    assert(!index.holds_edge(parent_id, channel_id));
    assert(index.reaches(channel_id));
    assert forall|i: int|
        0 <= i < n && is_rooted_at(#[trigger] index.paths[i], channel_id, parent_id) implies i
        == k by {
        assert(index.paths[i][0] == channel_id);
        assert(index.paths[i].contains(channel_id));
    }
    assert(is_rooted_at(index.paths[k], channel_id, parent_id));
    one_root_one_position(index.paths, channel_id, parent_id, k);
    paths_without_inserted_edge(index, channel_id, parent_id);
    let kept = swap_removed(index.paths, k);
    if some_contains(kept, channel_id) {
        let i = choose|i: int| 0 <= i < kept.len() && #[trigger] kept[i].contains(channel_id);
        assert(kept.contains(kept[i]));
        let m = choose|m: int| 0 <= m < n && index.paths[m] == kept[i];
        assert(index.paths[m].contains(channel_id));
    }
    assert(!some_contains(kept, channel_id));
    swap_removed_then_pushed(index.paths, k);
}

/// Where a channel is no lone root and an edge does more than add paths, deleting the edge does not
/// bring the paths back.
proof fn other_insertions_are_not_taken_back(
    index: IndexModel,
    channel_id: ChannelId,
    parent_id: ChannelId,
)
    requires
        !is_lone_root(index, channel_id),
        !only_gains_paths(index, channel_id, parent_id),
    ensures
        index.edge_inserted(channel_id, parent_id).edge_deleted(
            parent_id,
            channel_id,
        ).paths.to_multiset() != index.paths.to_multiset(),
{
    broadcast use vstd::multiset::group_multiset_axioms;
    broadcast use vstd::seq_lib::to_multiset_contains;

    let root = seq![channel_id];
    let n = index.paths.len() as int;
    let after = index.edge_inserted(channel_id, parent_id);
    let back = after.edge_deleted(parent_id, channel_id);
    deleted_edge_is_gone(after, parent_id, channel_id);
    assert(root[0] == channel_id);
    if index.holds_edge(parent_id, channel_id) {
        let i = choose|i: int|
            0 <= i < n && has_edge(#[trigger] index.paths[i], parent_id, channel_id);
        let lost = index.paths[i];
        assert(index.paths.contains(lost));
        if back.paths.contains(lost) {
            let j = choose|j: int| 0 <= j < back.paths.len() && back.paths[j] == lost;
            assert(has_edge(back.paths[j], parent_id, channel_id));
        }
        assert(back.paths.to_multiset().count(lost) == 0);
        assert(index.paths.to_multiset().count(lost) > 0);
    } else if !index.reaches(channel_id) {
        let i = choose|i: int|
            0 <= i < back.paths.len() && #[trigger] back.paths[i].contains(channel_id);
        let gained = back.paths[i];
        assert(back.paths.contains(gained));
        if index.paths.contains(gained) {
            let j = choose|j: int| 0 <= j < n && index.paths[j] == gained;
            assert(index.paths[j].contains(channel_id));
        }
        assert(index.paths.to_multiset().count(gained) == 0);
        assert(back.paths.to_multiset().count(gained) > 0);
    } else {
        paths_without_inserted_edge(index, channel_id, parent_id);
        let kept = swap_removed_all(
            index.paths,
            root_positions(index.paths, channel_id, parent_id, n),
        );
        assert(back.paths == if some_contains(kept, channel_id) {
            kept
        } else {
            kept.push(root)
        });
        push_contains(kept, root);
        let k = choose|k: int|
            0 <= k < n && is_rooted_at(#[trigger] index.paths[k], channel_id, parent_id);
        let start = index.paths[k];
        assert(index.paths.contains(start));
        assert(!kept.contains(start));
        assert(index.paths.to_multiset().count(start) > 0);
        if start != root {
            assert(!back.paths.contains(start));
            assert(back.paths.to_multiset().count(start) == 0);
        } else {
            let i = choose|i: int|
                0 <= i < n && i != k && #[trigger] index.paths[i].contains(channel_id);
            if some_contains(kept, channel_id) {
                assert(back.paths.to_multiset().count(root) == 0);
            } else {
                let other = index.paths[i];
                assert(index.paths.contains(other));
                assert(is_rooted_at(other, channel_id, parent_id)) by {
                    if kept.contains(other) {
                        let j = choose|j: int| 0 <= j < kept.len() && kept[j] == other;
                        assert(kept[j].contains(channel_id));
                    }
                }
                assert(!kept.contains(root));
                if other == root {
                    two_places_count_twice(index.paths, i, k);
                    vstd::seq_lib::to_multiset_build(kept, root);
                    assert(kept.to_multiset().count(root) == 0);
                    assert(back.paths.to_multiset().count(root) == 1);
                } else {
                    assert(!back.paths.contains(other));
                    assert(back.paths.to_multiset().count(other) == 0);
                    assert(index.paths.to_multiset().count(other) > 0);
                }
            }
        }
    }
}

/// An item that stands at two places counts twice.
proof fn two_places_count_twice<T>(items: Seq<T>, i: int, k: int)
    requires
        0 <= i < items.len(),
        0 <= k < items.len(),
        i != k,
        items[i] == items[k],
    ensures
        items.to_multiset().count(items[i]) >= 2,
{
    broadcast use vstd::multiset::group_multiset_axioms;

    let item = items[i];
    let fewer = items.remove(i);
    vstd::seq_lib::to_multiset_remove(items, i);
    vstd::seq_lib::to_multiset_contains(fewer, item);
    if k < i {
        assert(fewer[k] == item);
    } else {
        assert(fewer[k - 1] == item);
    }
}

/// A channel that the server describes is known afterwards under the name and visibility that it
/// gave, what was unseen of it stays unseen, and an unknown one is reached as a root. Describing
/// it again changes nothing.
pub proof fn inserted_channel_is_known(index: IndexModel, channel: proto::Channel)
    ensures
        index.channel_inserted(channel).channels.contains_key(channel.id),
        index.channel_inserted(channel).channels[channel.id].name == channel.name@,
        index.channel_inserted(channel).channels[channel.id].visibility == channel.visibility,
        index.channels.contains_key(channel.id) ==> {
            &&& index.channel_inserted(channel).paths == index.paths
            &&& index.channel_inserted(channel).channels[channel.id].unseen_note_version
                == index.channels[channel.id].unseen_note_version
            &&& index.channel_inserted(channel).channels[channel.id].unseen_message_id
                == index.channels[channel.id].unseen_message_id
        },
        !index.channels.contains_key(channel.id) ==> index.channel_inserted(channel).reaches(
            channel.id,
        ),
        index.channel_inserted(channel).channel_inserted(channel) == index.channel_inserted(
            channel,
        ),
{
    let after = index.channel_inserted(channel);
    if !index.channels.contains_key(channel.id) {
        let last = after.paths.len() - 1;
        assert(after.paths[last][0] == channel.id);
        assert(after.paths[last].contains(channel.id));
    }
    assert(after.channel_inserted(channel) =~= after);
}

/// What is unseen of a channel does not matter for the order of paths.
proof fn unseen_keeps_path_order(index: IndexModel, id: ChannelId, channel: ChannelModel)
    requires
        channel.name == index.channels[id].name,
    ensures
        path_before(index.with_channel(id, channel).channels) == path_before(index.channels),
{
    let after = index.with_channel(id, channel);
    assert forall|path: Seq<ChannelId>| #[trigger] sorting_key(path, after.channels) == sorting_key(
        path,
        index.channels,
    ) by {
        assert(sorting_key(path, after.channels) =~= sorting_key(path, index.channels));
    }
    assert(path_before(after.channels) =~= path_before(index.channels));
}

/// What is unseen of a channel does not matter for whether the paths are sorted.
proof fn unseen_keeps_order(index: IndexModel, id: ChannelId, channel: ChannelModel)
    requires
        channel.name == index.channels[id].name,
    ensures
        index.with_channel(id, channel).paths == index.paths,
        index.is_sorted() == index.with_channel(id, channel).is_sorted(),
{
    unseen_keeps_path_order(index, id, channel);
}

/// Recording what is unseen of a channel during a series of insertions comes to the same as
/// recording it after the series.
pub proof fn unseen_keeps_tidied(
    index: IndexModel,
    tidy: IndexModel,
    id: ChannelId,
    channel: ChannelModel,
)
    requires
        channel.name == index.channels[id].name,
    ensures
        index.tidied_to(tidy) ==> index.with_channel(id, channel).tidied_to(
            tidy.with_channel(id, channel),
        ),
{
    unseen_keeps_path_order(index, id, channel);
    if index.tidied_to(tidy) {
        let before = path_before(index.channels);
        let s = choose|s: Seq<Seq<ChannelId>>| #[trigger]
            stable_sort_of(index.paths, s, before) && tidy.paths == first_occurrences(s);
        assert(stable_sort_of(
            index.with_channel(id, channel).paths,
            s,
            path_before(index.with_channel(id, channel).channels),
        ));
    }
}

/// Every operation of an index outside a series of insertions keeps its paths sorted and unique.
pub proof fn operations_keep_order(
    index: IndexModel,
    channel_id: ChannelId,
    epoch: u64,
    version: Seq<u32>,
    message_id: u64,
    ids: Seq<ChannelId>,
)
    requires
        index.is_sorted(),
        index.is_unique(),
    ensures
        IndexModel::empty().is_sorted(),
        IndexModel::empty().is_unique(),
        index.channels_deleted(ids).is_sorted(),
        index.channels_deleted(ids).is_unique(),
        index.note_changed(channel_id, epoch, version).is_sorted(),
        index.note_changed(channel_id, epoch, version).is_unique(),
        index.note_acknowledged(channel_id, epoch, version).is_sorted(),
        index.note_acknowledged(channel_id, epoch, version).is_unique(),
        index.message_received(channel_id, message_id).is_sorted(),
        index.message_received(channel_id, message_id).is_unique(),
        index.message_acknowledged(channel_id, message_id).is_sorted(),
        index.message_acknowledged(channel_id, message_id).is_unique(),
{
    deleting_channels_keeps_order(index, ids);
    let channel = index.channels[channel_id];
    unseen_keeps_order(index, channel_id, channel.note_changed(epoch, version));
    unseen_keeps_order(index, channel_id, channel.note_acknowledged(epoch, version));
    unseen_keeps_order(index, channel_id, channel.message_received(message_id));
    unseen_keeps_order(index, channel_id, channel.message_acknowledged(message_id));
}

/// Every operation keeps each channel filed under its own id.
pub proof fn operations_keep_ids(
    index: IndexModel,
    tidy: IndexModel,
    channel: proto::Channel,
    channel_id: ChannelId,
    parent_id: ChannelId,
    epoch: u64,
    version: Seq<u32>,
    message_id: u64,
    ids: Seq<ChannelId>,
)
    requires
        filed_by_id(index),
        index.tidied_to(tidy),
    ensures
        filed_by_id(IndexModel::empty()),
        filed_by_id(tidy),
        filed_by_id(index.channels_deleted(ids)),
        filed_by_id(index.channel_inserted(channel)),
        filed_by_id(index.edge_inserted(channel_id, parent_id)),
        filed_by_id(index.edge_deleted(parent_id, channel_id)),
        filed_by_id(index.note_changed(channel_id, epoch, version)),
        filed_by_id(index.note_acknowledged(channel_id, epoch, version)),
        filed_by_id(index.message_received(channel_id, message_id)),
        filed_by_id(index.message_acknowledged(channel_id, message_id)),
{
    deleted_edge_is_gone(index, parent_id, channel_id);
}

/// What is recorded of the notes or the messages of a channel changes no path and no other
/// channel, and nothing at all where the channel is unknown.
pub proof fn records_touch_one_channel(
    index: IndexModel,
    channel_id: ChannelId,
    epoch: u64,
    version: Seq<u32>,
    message_id: u64,
    other: ChannelId,
)
    requires
        other != channel_id || !index.channels.contains_key(channel_id),
    ensures
        ({
            let after = index.note_changed(channel_id, epoch, version);
            after.paths == index.paths && after.channels.dom() == index.channels.dom()
                && after.channels[other] == index.channels[other]
        }),
        ({
            let after = index.note_acknowledged(channel_id, epoch, version);
            after.paths == index.paths && after.channels.dom() == index.channels.dom()
                && after.channels[other] == index.channels[other]
        }),
        ({
            let after = index.message_received(channel_id, message_id);
            after.paths == index.paths && after.channels.dom() == index.channels.dom()
                && after.channels[other] == index.channels[other]
        }),
        ({
            let after = index.message_acknowledged(channel_id, message_id);
            after.paths == index.paths && after.channels.dom() == index.channels.dom()
                && after.channels[other] == index.channels[other]
        }),
{
    assert(index.note_changed(channel_id, epoch, version).channels.dom()
        =~= index.channels.dom());
    assert(index.note_acknowledged(channel_id, epoch, version).channels.dom()
        =~= index.channels.dom());
    assert(index.message_received(channel_id, message_id).channels.dom()
        =~= index.channels.dom());
    assert(index.message_acknowledged(channel_id, message_id).channels.dom()
        =~= index.channels.dom());
}

/// A change of the notes is unseen until it is acknowledged: an acknowledgement that leaves nothing
/// unseen is of a later epoch or has observed the change.
pub proof fn changed_notes_stay_unseen(
    channel: ChannelModel,
    epoch: u64,
    version: Seq<u32>,
    seen_epoch: u64,
    seen_version: Seq<u32>,
)
    ensures
        channel.note_changed(epoch, version).unseen_note_version is Some,
        channel.note_changed(epoch, version).note_acknowledged(
            seen_epoch,
            seen_version,
        ).unseen_note_version is None ==> seen_epoch > epoch || observed(seen_version, version),
{
    let unseen = match channel.unseen_note_version {
        Some((_, unseen)) => unseen,
        None => Seq::empty(),
    };
    join_is_least_upper_bound(unseen, version, seen_version);
    observed_is_a_preorder(seen_version, joined(unseen, version), version);
}

/// Acknowledging the notes as they are recorded to have changed, or as of any later epoch, leaves
/// nothing unseen.
pub proof fn acknowledging_notes_clears_them(
    channel: ChannelModel,
    epoch: u64,
    version: Seq<u32>,
    later: u64,
)
    requires
        channel.unseen_note_version == Some((epoch, version)),
        later > epoch,
    ensures
        channel.note_acknowledged(epoch, version).unseen_note_version is None,
        channel.note_acknowledged(later, Seq::empty()).unseen_note_version is None,
{
    observed_is_a_preorder(version, version, version);
}

/// Where nothing was unseen, a change of the notes that is acknowledged leaves the channel as it
/// was.
pub proof fn change_then_acknowledge(channel: ChannelModel, epoch: u64, version: Seq<u32>)
    requires
        channel.unseen_note_version is None,
    ensures
        channel.note_changed(epoch, version).note_acknowledged(epoch, version) == channel,
{
    join_is_least_upper_bound(Seq::empty(), version, version);
    observed_is_a_preorder(version, version, version);
    assert(observed(version, Seq::empty()));
}

/// The recorded epoch of unseen notes never goes down, and within an epoch the recorded version
/// only grows.
pub proof fn unseen_notes_grow(channel: ChannelModel, epoch: u64, version: Seq<u32>)
    ensures
        ({
            let (new_epoch, new_version) = channel.note_changed(
                epoch,
                version,
            ).unseen_note_version->0;
            &&& new_epoch >= epoch
            &&& new_epoch == epoch ==> observed(new_version, version)
            &&& channel.unseen_note_version matches Some((old_epoch, old_version)) ==> {
                &&& new_epoch >= old_epoch
                &&& new_epoch == old_epoch ==> observed(new_version, old_version)
            }
        }),
{
    let unseen = match channel.unseen_note_version {
        Some((_, unseen)) => unseen,
        None => Seq::empty(),
    };
    join_is_least_upper_bound(unseen, version, version);
    observed_is_a_preorder(version, version, version);
}

/// A message is unseen until a message at least as late is acknowledged.
pub proof fn received_message_stays_unseen(channel: ChannelModel, received: u64, seen: u64)
    ensures
        channel.message_received(received).unseen_message_id is Some,
        channel.message_received(received).message_acknowledged(seen).unseen_message_id is None
            == (seen >= received && (channel.unseen_message_id matches Some(unseen) ==> seen
            >= unseen)),
        channel.unseen_message_id is None ==> channel.message_received(
            received,
        ).message_acknowledged(received) == channel,
{
}

/// The order in which messages arrive, and how often, does not matter: two messages come to the same
/// as the later one alone.
pub proof fn messages_arrive_in_any_order(channel: ChannelModel, a: u64, b: u64)
    ensures
        channel.message_received(a).message_received(b) == channel.message_received(
            if a > b {
                a
            } else {
                b
            },
        ),
        channel.message_received(a).message_received(b) == channel.message_received(
            b,
        ).message_received(a),
        channel.message_received(a).message_received(a) == channel.message_received(a),
{
}

} // verus!
