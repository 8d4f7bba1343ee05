//! Edges between channels, as the paths of an index hold them.

use vstd::prelude::*;
use crate::channel::{ChannelId, ChannelPath};
use crate::channel_index::model::{
    descents, edge_paths, ends_at, extended, from_channel, grafted, has_edge, is_descent,
    is_rooted_at, parent_paths, path_models, root_positions, some_contains, some_has_edge,
    swap_removed, swap_removed_all,
};
use std::ops::Deref;

verus! {

/// Whether a path goes from `parent_id` straight to `channel_id`.
fn path_has_edge(path: &[ChannelId], parent_id: ChannelId, channel_id: ChannelId) -> (found: bool)
    ensures
        found == has_edge(path@, parent_id, channel_id),
{
    let mut i: usize = 1;
    while i < path.len()
        invariant
            1 <= i,
            forall|j: int|
                0 <= j < i - 1 && j < path@.len() - 1 ==> !(#[trigger] path@[j] == parent_id && path@[j + 1]
                    == channel_id),
        decreases path@.len() - i,
    {
        if path[i - 1] == parent_id && path[i] == channel_id {
            assert(path@[i - 1] == parent_id && path@[i - 1 + 1] == channel_id);
            return true;
        }
        i += 1;
    }
    false
}

/// The first position of a channel on a path.
fn position_of(path: &[ChannelId], channel_id: ChannelId) -> (position: Option<usize>)
    ensures
        position is Some == path@.contains(channel_id),
        position matches Some(p) ==> p < path@.len() && path@[p as int] == channel_id && forall|j: int|
            0 <= j < p ==> path@[j] != channel_id,
{
    let mut i: usize = 0;
    while i < path.len()
        invariant
            i <= path@.len(),
            forall|j: int| 0 <= j < i ==> path@[j] != channel_id,
        decreases path@.len() - i,
    {
        if path[i] == channel_id {
            assert(path@[i as int] == channel_id);
            return Some(i);
        }
        i += 1;
    }
    None
}

/// Whether some path goes through a channel.
pub(crate) fn any_path_contains(paths: &Vec<ChannelPath>, channel_id: ChannelId) -> (found: bool)
    ensures
        found == some_contains(path_models(paths@), channel_id),
{
    let ghost models = path_models(paths@);
    let mut i: usize = 0;
    while i < paths.len()
        invariant
            i <= paths@.len(),
            models == path_models(paths@),
            forall|j: int| 0 <= j < i ==> !(#[trigger] models[j].contains(channel_id)),
        decreases paths@.len() - i,
    {
        if position_of(paths[i].deref(), channel_id).is_some() {
            assert(models[i as int].contains(channel_id));
            return true;
        }
        i += 1;
    }
    false
}

/// Keeps the paths that do not go from `parent_id` straight to `channel_id`.
pub(crate) fn keep_paths_without_edge(
    paths: Vec<ChannelPath>,
    parent_id: ChannelId,
    channel_id: ChannelId,
) -> (kept: Vec<ChannelPath>)
    ensures
        path_models(kept@) == path_models(paths@).filter(
            |path: Seq<ChannelId>| !has_edge(path, parent_id, channel_id),
        ),
{
    let ghost free = |path: Seq<ChannelId>| !has_edge(path, parent_id, channel_id);
    let ghost input = path_models(paths@);
    let mut kept: Vec<ChannelPath> = Vec::new();
    for path in it: paths
        invariant
            free == (|path: Seq<ChannelId>| !has_edge(path, parent_id, channel_id)),
            input == path_models(it.seq()),
            path_models(kept@) == input.take(it.index()).filter(free),
    {
        let ghost n = it.index();
        let ghost output = path_models(kept@);
        proof {
            reveal(Seq::filter);
            assert(input[n] == path@);
            assert(input.take(n + 1).drop_last() =~= input.take(n));
        }
        if !path_has_edge(path.deref(), parent_id, channel_id) {
            kept.push(path);
            assert(path_models(kept@) =~= output.push(input[n]));
        }
    }
    assert(input.take(input.len() as int) =~= input);
    kept
}

/// What each slice holds.
spec fn slice_models(slices: Seq<&[ChannelId]>) -> Seq<Seq<ChannelId>> {
    Seq::new(slices.len(), |i: int| slices[i]@)
}

/// From the first position of a channel on, a path is what [`from_channel`] says.
proof fn from_channel_is_skip(path: Seq<ChannelId>, channel_id: ChannelId, position: int)
    requires
        0 <= position < path.len(),
        path[position] == channel_id,
        forall|j: int| 0 <= j < position ==> path[j] != channel_id,
    ensures
        from_channel(path, channel_id) == path.skip(position),
    decreases path.len(),
{
    if position == 0 {
        assert(path.skip(0) =~= path);
    } else {
        assert(path[0] != channel_id);
        from_channel_is_skip(path.drop_first(), channel_id, position - 1);
        assert(path.drop_first().skip(position - 1) =~= path.skip(position));
    }
}

/// What one more path adds to the paths that end at the parent.
proof fn parent_paths_step(paths: Seq<Seq<ChannelId>>, parent_id: ChannelId, n: int)
    requires
        0 <= n < paths.len(),
    ensures
        parent_paths(paths.take(n + 1), parent_id) == if ends_at(paths[n], parent_id) {
            parent_paths(paths.take(n), parent_id).push(paths[n])
        } else {
            parent_paths(paths.take(n), parent_id)
        },
{
    reveal(Seq::filter);
    assert(paths.take(n + 1).drop_last() =~= paths.take(n));
}

/// What one more path adds to the ways on from the channel.
proof fn descents_step(
    paths: Seq<Seq<ChannelId>>,
    channel_id: ChannelId,
    parent_id: ChannelId,
    n: int,
)
    requires
        0 <= n < paths.len(),
    ensures
        descents(paths.take(n + 1), channel_id, parent_id) == if is_descent(
            paths[n],
            channel_id,
            parent_id,
        ) {
            descents(paths.take(n), channel_id, parent_id).push(from_channel(paths[n], channel_id))
        } else {
            descents(paths.take(n), channel_id, parent_id)
        },
{
    reveal(Seq::filter);
    assert(paths.take(n + 1).drop_last() =~= paths.take(n));
    if is_descent(paths[n], channel_id, parent_id) {
        assert(descents(paths.take(n + 1), channel_id, parent_id) =~= descents(
            paths.take(n),
            channel_id,
            parent_id,
        ).push(from_channel(paths[n], channel_id)));
    }
}

/// Root positions ascend and are positions.
pub proof fn root_positions_ascend(
    paths: Seq<Seq<ChannelId>>,
    channel_id: ChannelId,
    parent_id: ChannelId,
    n: int,
)
    requires
        0 <= n <= paths.len(),
    ensures
        forall|j: int|
            0 <= j < root_positions(paths, channel_id, parent_id, n).len() ==> 0
                <= #[trigger] root_positions(paths, channel_id, parent_id, n)[j] < n
                && is_rooted_at(
                paths[root_positions(paths, channel_id, parent_id, n)[j]],
                channel_id,
                parent_id,
            ),
        forall|i: int, j: int|
            0 <= i < j < root_positions(paths, channel_id, parent_id, n).len()
                ==> root_positions(paths, channel_id, parent_id, n)[i] < root_positions(
                paths,
                channel_id,
                parent_id,
                n,
            )[j],
        forall|k: int|
            0 <= k < n && is_rooted_at(paths[k], channel_id, parent_id)
                ==> #[trigger] root_positions(paths, channel_id, parent_id, n).contains(k),
    decreases n,
{
    if n > 0 {
        root_positions_ascend(paths, channel_id, parent_id, n - 1);
        let before = root_positions(paths, channel_id, parent_id, n - 1);
        let positions = root_positions(paths, channel_id, parent_id, n);
        assert forall|k: int|
            0 <= k < n && is_rooted_at(
                paths[k],
                channel_id,
                parent_id,
            ) implies #[trigger] positions.contains(k) by {
            if k == n - 1 {
                assert(positions[positions.len() - 1] == k);
            } else {
                assert(before.contains(k));
                let j = choose|j: int| 0 <= j < before.len() && before[j] == k;
                assert(positions[j] == k);
            }
        }
    }
}

/// A new path: `head` and then `tail`.
fn extend_path(head: &[ChannelId], tail: &[ChannelId]) -> (path: ChannelPath)
    ensures
        path@ == head@ + tail@,
{
    let mut ids: Vec<ChannelId> = Vec::new();
    ids.extend_from_slice(head);
    ids.extend_from_slice(tail);
    assert(ids@ =~= head@ + tail@);
    ChannelPath::new(ids)
}

/// Each of `tails` behind each of `heads`, head by head.
fn graft(heads: &Vec<&[ChannelId]>, tails: &Vec<&[ChannelId]>) -> (paths: Vec<ChannelPath>)
    ensures
        path_models(paths@) == grafted(slice_models(heads@), slice_models(tails@)),
{
    let ghost head_models = slice_models(heads@);
    let ghost tail_models = slice_models(tails@);
    let mut paths: Vec<ChannelPath> = Vec::new();
    let mut i: usize = 0;
    assert(path_models(paths@) =~= Seq::empty());
    while i < heads.len()
        invariant
            i <= heads@.len(),
            head_models == slice_models(heads@),
            tail_models == slice_models(tails@),
            path_models(paths@) == grafted(head_models.take(i as int), tail_models),
        decreases heads@.len() - i,
    {
        let ghost done = path_models(paths@);
        let ghost row = extended(head_models[i as int], tail_models);
        let mut j: usize = 0;
        assert(done + row.take(0) =~= done);
        while j < tails.len()
            invariant
                i < heads@.len(),
                j <= tails@.len(),
                head_models == slice_models(heads@),
                tail_models == slice_models(tails@),
                row == extended(head_models[i as int], tail_models),
                path_models(paths@) == done + row.take(j as int),
            decreases tails@.len() - j,
        {
            let ghost previous = path_models(paths@);
            paths.push(extend_path(heads[i], tails[j]));
            assert(path_models(paths@) =~= previous.push(row[j as int]));
            assert(done + row.take(j + 1) =~= (done + row.take(j as int)).push(row[j as int]));
            j += 1;
        }
        proof {
            assert(row.take(tails@.len() as int) =~= row);
            assert(head_models.take(i + 1).drop_last() =~= head_models.take(i as int));
        }
        i += 1;
    }
    assert(head_models.take(heads@.len() as int) =~= head_models);
    paths
}

/// What a new edge from `parent_id` to `channel_id` does to `paths`: the positions, ascending, of
/// the paths that it replaces, and the paths that it gives; none where the edge is there.
pub(crate) fn plan_edge(
    paths: &Vec<ChannelPath>,
    channel_id: ChannelId,
    parent_id: ChannelId,
) -> (plan: Option<(Vec<usize>, Vec<ChannelPath>)>)
    ensures
        plan is None == some_has_edge(path_models(paths@), parent_id, channel_id),
        plan matches Some((positions, new_paths)) ==> {
            &&& positions@.map_values(|position: usize| position as int) == root_positions(
                path_models(paths@),
                channel_id,
                parent_id,
                paths@.len() as int,
            )
            &&& path_models(new_paths@) == edge_paths(path_models(paths@), channel_id, parent_id)
        },
{
    let ghost models = path_models(paths@);
    let mut parents: Vec<&[ChannelId]> = Vec::new();
    let mut descendants: Vec<&[ChannelId]> = Vec::new();
    let mut positions: Vec<usize> = Vec::new();
    let mut ix: usize = 0;
    proof {
        reveal(Seq::filter);
        assert(slice_models(parents@) =~= parent_paths(models.take(0), parent_id));
        assert(slice_models(descendants@) =~= descents(models.take(0), channel_id, parent_id));
        assert(positions@.map_values(|position: usize| position as int) =~= Seq::empty());
    }
    while ix < paths.len()
        invariant
            ix <= paths@.len(),
            models == path_models(paths@),
            forall|j: int| 0 <= j < ix ==> !has_edge(#[trigger] models[j], parent_id, channel_id),
            slice_models(parents@) == parent_paths(models.take(ix as int), parent_id),
            slice_models(descendants@) == descents(models.take(ix as int), channel_id, parent_id),
            positions@.map_values(|position: usize| position as int) == root_positions(
                models,
                channel_id,
                parent_id,
                ix as int,
            ),
        decreases paths@.len() - ix,
    {
        let path: &[ChannelId] = paths[ix].deref();
        assert(models[ix as int] == path@);
        if path_has_edge(path, parent_id, channel_id) {
            // We already have this edge in the index
            return None;
        }
        proof {
            parent_paths_step(models, parent_id, ix as int);
            descents_step(models, channel_id, parent_id, ix as int);
        }
        let ghost old_parents = slice_models(parents@);
        let ghost old_descendants = slice_models(descendants@);
        let ghost old_positions = positions@;
        if path.len() > 0 && path[path.len() - 1] == parent_id {
            parents.push(path);
            assert(slice_models(parents@) =~= old_parents.push(path@));
        } else if let Some(position) = position_of(path, channel_id) {
            if position == 0 {
                positions.push(ix);
                assert(positions@.map_values(|position: usize| position as int)
                    =~= old_positions.map_values(|position: usize| position as int).push(
                    ix as int,
                ));
            } else {
                assert(path@[0] != channel_id);
            }
            let (_, descendant) = path.split_at(position);
            proof {
                from_channel_is_skip(path@, channel_id, position as int);
                assert(descendant@ =~= path@.skip(position as int));
            }
            descendants.push(descendant);
            assert(slice_models(descendants@) =~= old_descendants.push(descendant@));
        } else {
            assert(!path@.contains(channel_id));
            assert(path@.len() > 0 ==> path@[0] != channel_id);
        }
        ix += 1;
    }
    proof {
        assert(models.take(models.len() as int) =~= models);
    }
    if descendants.is_empty() {
        let alone: Vec<ChannelId> = vec![channel_id];
        let tails: Vec<&[ChannelId]> = vec![alone.as_slice()];
        assert(alone@ =~= seq![channel_id]);
        assert(slice_models(tails@) =~= seq![seq![channel_id]]);
        let new_paths = graft(&parents, &tails);
        Some((positions, new_paths))
    } else {
        let new_paths = graft(&parents, &descendants);
        Some((positions, new_paths))
    }
}

/// Swap-removes the paths at `positions`, the last position first.
pub(crate) fn remove_positions(paths: &mut Vec<ChannelPath>, positions: &Vec<usize>)
    requires
        forall|i: int, j: int| 0 <= i < j < positions@.len() ==> positions@[i] < positions@[j],
        forall|j: int|
            0 <= j < positions@.len() ==> (#[trigger] positions@[j]) < old(paths)@.len(),
    ensures
        path_models(final(paths)@) == swap_removed_all(
            path_models(old(paths)@),
            positions@.map_values(|position: usize| position as int),
        ),
{
    let ghost marks = positions@.map_values(|position: usize| position as int);
    let mut k: usize = positions.len();
    assert(marks.take(k as int) =~= marks);
    while k > 0
        invariant
            k <= positions@.len(),
            marks == positions@.map_values(|position: usize| position as int),
            forall|i: int, j: int| 0 <= i < j < positions@.len() ==> positions@[i] < positions@[j],
            forall|j: int| 0 <= j < k ==> (#[trigger] positions@[j]) < paths@.len(),
            swap_removed_all(path_models(old(paths)@), marks) == swap_removed_all(
                path_models(paths@),
                marks.take(k as int),
            ),
        decreases k,
    {
        let ghost before = path_models(paths@);
        let position: usize = positions[k - 1];
        paths.swap_remove(position);
        proof {
            assert(path_models(paths@) =~= swap_removed(before, position as int));
            assert(marks.take(k as int).drop_last() =~= marks.take(k - 1));
            assert(marks.take(k as int).last() == position);
        }
        k -= 1;
    }
    assert(marks.take(0) =~= Seq::empty());
}

} // verus!
