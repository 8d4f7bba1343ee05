//! Sorting paths by the names along them.

use vstd::prelude::*;
use crate::channel::{Channel, ChannelId, ChannelModel, ChannelPath};
use crate::channel_index::model::{
    channel_models, encoded_name, index_model, name_before, path_before, path_models, sorting_key,
};
use crate::order::{
    arranged_by, first_occurrences, is_permutation, lex_before, lex_is_strict_total_order,
    lex_skip_common, sorted_by, stable_sort_is_sorted, stable_sort_of,
    stable_sort_of_sorted, strict_total_order, strict_weak_order,
};
use std::collections::BTreeMap;
use std::sync::Arc;
use vstd::utf8::encode_utf8;

verus! {

broadcast use {
    vstd::std_specs::btree::group_btree_axioms,
    vstd::laws_cmp::group_laws_cmp,
};

/// How one thing stands to another in an order.
#[derive(Clone, Copy, PartialEq, Eq, Structural)]
enum Rank {
    Before,
    Level,
    After,
}

/// The order of bytes is a strict total order.
proof fn byte_order_is_total()
    ensures
        strict_total_order(|a: u8, b: u8| a < b),
{
}

/// The order of names is a strict total order.
pub proof fn name_order_is_total()
    ensures
        strict_total_order(|a: Option<Seq<u8>>, b: Option<Seq<u8>>| name_before(a, b)),
{
    let bytes = |a: u8, b: u8| a < b;
    byte_order_is_total();
    lex_is_strict_total_order(bytes);
    let lex = |a: Seq<u8>, b: Seq<u8>| lex_before(a, b, bytes);
    let names = |a: Option<Seq<u8>>, b: Option<Seq<u8>>| name_before(a, b);
    assert forall|a: Option<Seq<u8>>| !#[trigger] names(a, a) by {
        if let Some(x) = a {
            assert(!lex(x, x));
        }
    }
    assert forall|a: Option<Seq<u8>>, b: Option<Seq<u8>>| #[trigger]
        names(a, b) || a == b || names(b, a) by {
        if let (Some(x), Some(y)) = (a, b) {
            assert(lex(x, y) || x == y || lex(y, x));
        }
    }
    assert forall|a: Option<Seq<u8>>, b: Option<Seq<u8>>, c: Option<Seq<u8>>| #[trigger]
        names(a, b) && #[trigger] names(b, c) implies names(a, c) by {
        if let (Some(x), Some(y), Some(z)) = (a, b, c) {
            assert(lex(x, y) && lex(y, z));
            assert(lex(x, z));
        }
    }
}

/// Paths are ranked by the names along them; paths with the same names share a rank.
pub proof fn path_order_is_weak(channels: Map<ChannelId, ChannelModel>)
    ensures
        strict_weak_order(path_before(channels)),
        forall|a: Seq<ChannelId>, b: Seq<ChannelId>|
            !#[trigger] path_before(channels)(a, b) && !path_before(channels)(b, a)
                <==> sorting_key(a, channels) == sorting_key(b, channels),
{
    let names = |a: Option<Seq<u8>>, b: Option<Seq<u8>>| name_before(a, b);
    name_order_is_total();
    lex_is_strict_total_order(names);
    let lex = |a: Seq<Option<Seq<u8>>>, b: Seq<Option<Seq<u8>>>| lex_before(a, b, names);
    let before = path_before(channels);
    assert forall|a: Seq<ChannelId>, b: Seq<ChannelId>| #[trigger] before(a, b) == lex(
        sorting_key(a, channels),
        sorting_key(b, channels),
    ) by {}
    assert forall|a: Seq<ChannelId>| !#[trigger] before(a, a) by {
        assert(!lex(sorting_key(a, channels), sorting_key(a, channels)));
    }
    assert forall|a: Seq<ChannelId>, b: Seq<ChannelId>, c: Seq<ChannelId>| #[trigger]
        before(a, b) && #[trigger] before(b, c) implies before(a, c) by {
        let (x, y, z) = (sorting_key(a, channels), sorting_key(b, channels), sorting_key(c, channels));
        assert(lex(x, y) && lex(y, z));
        assert(lex(x, z));
    }
    assert forall|a: Seq<ChannelId>, b: Seq<ChannelId>, c: Seq<ChannelId>|
        !#[trigger] before(a, b) && !#[trigger] before(b, c) implies !before(a, c) by {
        let (x, y, z) = (sorting_key(a, channels), sorting_key(b, channels), sorting_key(c, channels));
        assert(!lex(x, y) && !lex(y, z));
        assert(lex(x, y) || x == y || lex(y, x));
        assert(lex(y, z) || y == z || lex(z, y));
        if lex(x, z) {
            if x != y && y != z {
                assert(lex(z, y) && lex(y, x));
                assert(lex(z, x));
                assert(lex(z, x) && lex(x, z));
                assert(lex(z, z));
            } else {
                assert(lex(z, x) && lex(x, z) || x == z);
                assert(!lex(x, x) && !lex(z, z));
            }
        }
    }
    assert forall|a: Seq<ChannelId>, b: Seq<ChannelId>|
        !#[trigger] before(a, b) && !before(b, a) <==> sorting_key(a, channels) == sorting_key(
            b,
            channels,
        ) by {
        let (x, y) = (sorting_key(a, channels), sorting_key(b, channels));
        assert(lex(x, y) || x == y || lex(y, x));
        assert(!lex(x, x));
    }
}

/// How `left` stands to `right` in the order of their bytes.
fn rank_bytes(left: &[u8], right: &[u8]) -> (rank: Rank)
    ensures
        (rank == Rank::Before) == lex_before(left@, right@, |a: u8, b: u8| a < b),
        (rank == Rank::Level) == (left@ == right@),
        (rank == Rank::After) == lex_before(right@, left@, |a: u8, b: u8| a < b),
{
    let ghost bytes = |a: u8, b: u8| a < b;
    let mut i: usize = 0;
    while i < left.len() && i < right.len()
        invariant
            i <= left.len(),
            i <= right.len(),
            bytes == (|a: u8, b: u8| a < b),
            forall|j: int| 0 <= j < i ==> left@[j] == right@[j],
        decreases left.len() - i,
    {
        if left[i] != right[i] {
            proof {
                lex_skip_common(left@, right@, i as int, bytes);
                lex_skip_common(right@, left@, i as int, bytes);
            }
            return if left[i] < right[i] {
                Rank::Before
            } else {
                Rank::After
            };
        }
        i += 1;
    }
    proof {
        lex_skip_common(left@, right@, i as int, bytes);
        lex_skip_common(right@, left@, i as int, bytes);
        if left@.len() == right@.len() {
            assert(left@ =~= right@);
        }
    }
    if i < right.len() {
        Rank::Before
    } else if i < left.len() {
        Rank::After
    } else {
        Rank::Level
    }
}

/// The bytes of a name, where there is one.
spec fn name_model(name: Option<&str>) -> Option<Seq<u8>> {
    match name {
        Some(text) => Some(encode_utf8(text@)),
        None => None,
    }
}

/// The bytes of each name.
spec fn key_model(key: Seq<Option<&str>>) -> Seq<Option<Seq<u8>>> {
    Seq::new(key.len(), |i: int| name_model(key[i]))
}

/// How `left` stands to `right` in the order of names.
fn rank_names(left: Option<&str>, right: Option<&str>) -> (rank: Rank)
    ensures
        (rank == Rank::Before) == name_before(name_model(left), name_model(right)),
        (rank == Rank::Level) == (name_model(left) == name_model(right)),
        (rank == Rank::After) == name_before(name_model(right), name_model(left)),
{
    match left {
        Some(l) => match right {
            Some(r) => rank_bytes(l.as_bytes(), r.as_bytes()),
            None => Rank::After,
        },
        None => match right {
            Some(_) => Rank::Before,
            None => Rank::Level,
        },
    }
}

/// Whether `left` comes before `right` in the lexicographic order of names.
fn key_before(left: &Vec<Option<&str>>, right: &Vec<Option<&str>>) -> (before: bool)
    ensures
        before == lex_before(
            key_model(left@),
            key_model(right@),
            |a: Option<Seq<u8>>, b: Option<Seq<u8>>| name_before(a, b),
        ),
{
    let ghost names = |a: Option<Seq<u8>>, b: Option<Seq<u8>>| name_before(a, b);
    let ghost l = key_model(left@);
    let ghost r = key_model(right@);
    let mut i: usize = 0;
    while i < left.len() && i < right.len()
        invariant
            i <= left.len(),
            i <= right.len(),
            l == key_model(left@),
            r == key_model(right@),
            names == (|a: Option<Seq<u8>>, b: Option<Seq<u8>>| name_before(a, b)),
            forall|j: int| 0 <= j < i ==> l[j] == r[j],
        decreases left.len() - i,
    {
        let rank = rank_names(left[i], right[i]);
        if rank != Rank::Level {
            proof {
                lex_skip_common(l, r, i as int, names);
            }
            return rank == Rank::Before;
        }
        i += 1;
    }
    proof {
        lex_skip_common(l, r, i as int, names);
    }
    i < right.len()
}

/// The names along a path, none for an unknown channel.
fn channel_path_sorting_key<'a>(
    path: &ChannelPath,
    channels_by_id: &'a BTreeMap<ChannelId, Arc<Channel>>,
) -> (key: Vec<Option<&'a str>>)
    ensures
        key_model(key@) == sorting_key(path@, channel_models(channels_by_id@)),
{
    let ghost channels = channel_models(channels_by_id@);
    let mut key: Vec<Option<&'a str>> = Vec::with_capacity(path.len());
    let mut i: usize = 0;
    while i < path.len()
        invariant
            i <= path@.len(),
            channels == channel_models(channels_by_id@),
            key@.len() == i,
            forall|j: int| 0 <= j < i ==> name_model(#[trigger] key@[j]) == encoded_name(path@[j], channels),
        decreases path@.len() - i,
    {
        let name: Option<&'a str> = match channels_by_id.get(&path.channel_at(i)) {
            Some(channel) => Some(channel.name.as_str()),
            None => None,
        };
        key.push(name);
        i += 1;
    }
    assert(key_model(key@) =~= sorting_key(path@, channels));
    key
}

/// Adding an item behind everything that it does not come before keeps a stable sort.
proof fn arrange_one_more<T>(
    input: Seq<T>,
    output: Seq<T>,
    before: spec_fn(T, T) -> bool,
    n: int,
    at: int,
)
    requires
        strict_weak_order(before),
        0 <= n < input.len(),
        stable_sort_of(input.take(n), output, before),
        0 <= at <= output.len(),
        forall|i: int| 0 <= i < at ==> !before(input[n], #[trigger] output[i]),
        forall|i: int| at <= i < output.len() ==> before(input[n], #[trigger] output[i]),
    ensures
        stable_sort_of(input.take(n + 1), output.insert(at, input[n]), before),
{
    let p = choose|p: Seq<int>| arranged_by(input.take(n), output, before, p);
    let q = p.insert(at, n);
    let longer = output.insert(at, input[n]);
    let whole = input.take(n + 1);
    assert forall|v: int| 0 <= v < n + 1 implies #[trigger] q.contains(v) by {
        if v == n {
            assert(q[at] == n);
        } else {
            assert(p.contains(v));
            let k = choose|k: int| 0 <= k < p.len() && p[k] == v;
            if k < at {
                assert(q[k] == v);
            } else {
                assert(q[k + 1] == v);
            }
        }
    }
    assert(is_permutation(q, (n + 1) as nat));
    assert forall|i: int| 0 <= i < longer.len() implies #[trigger] longer[i] == whole[q[i]] by {
        if i < at {
            assert(output[i] == input.take(n)[p[i]]);
        } else if i > at {
            assert(output[i - 1] == input.take(n)[p[i - 1]]);
        }
    }
    assert forall|i: int, j: int| 0 <= i < j < longer.len() implies before(
        #[trigger] longer[i],
        #[trigger] longer[j],
    ) || (!before(longer[j], longer[i]) && q[i] < q[j]) by {
        if j == at {
            assert(longer[i] == output[i]);
            assert(p[i] < n);
        } else if i == at {
            assert(longer[j] == output[j - 1]);
        } else {
            let s = if i < at { i } else { i - 1 };
            let t = if j < at { j } else { j - 1 };
            assert(longer[i] == output[s] && longer[j] == output[t]);
            assert(before(output[s], output[t]) || (!before(output[t], output[s]) && p[s] < p[t]));
        }
    }
    assert(arranged_by(whole, longer, before, q));
}

/// Where the path with sorting key `key` belongs among `paths`, which are sorted and have the
/// sorting keys `keys`: behind everything that it does not come before.
fn insertion_point(
    key: &Vec<Option<&str>>,
    keys: &Vec<Vec<Option<&str>>>,
    Ghost(path): Ghost<Seq<ChannelId>>,
    Ghost(paths): Ghost<Seq<Seq<ChannelId>>>,
    Ghost(channels): Ghost<Map<ChannelId, ChannelModel>>,
) -> (at: usize)
    requires
        key_model(key@) == sorting_key(path, channels),
        keys@.len() == paths.len(),
        forall|i: int|
            0 <= i < paths.len() ==> key_model(#[trigger] keys@[i]@) == sorting_key(
                paths[i],
                channels,
            ),
        sorted_by(paths, path_before(channels)),
    ensures
        at <= paths.len(),
        forall|i: int| 0 <= i < at ==> !path_before(channels)(path, #[trigger] paths[i]),
        forall|i: int| at <= i < paths.len() ==> path_before(channels)(path, #[trigger] paths[i]),
{
    let ghost before = path_before(channels);
    let mut low: usize = 0;
    let mut high: usize = keys.len();
    proof {
        path_order_is_weak(channels);
    }
    while low < high
        invariant
            low <= high <= keys@.len(),
            before == path_before(channels),
            strict_weak_order(before),
            sorted_by(paths, before),
            key_model(key@) == sorting_key(path, channels),
            keys@.len() == paths.len(),
            forall|i: int|
                0 <= i < paths.len() ==> key_model(#[trigger] keys@[i]@) == sorting_key(
                    paths[i],
                    channels,
                ),
            forall|i: int| 0 <= i < low ==> !before(path, #[trigger] paths[i]),
            forall|i: int| high <= i < paths.len() ==> before(path, #[trigger] paths[i]),
        decreases high - low,
    {
        let middle: usize = low + (high - low) / 2;
        if key_before(key, &keys[middle]) {
            assert(before(path, paths[middle as int]));
            assert forall|i: int| middle <= i < paths.len() implies before(
                path,
                #[trigger] paths[i],
            ) by {
                if i > middle {
                    assert(!before(paths[i], paths[middle as int]));
                    if !before(path, paths[i]) {
                        assert(!before(path, paths[middle as int]));
                    }
                }
            }
            high = middle;
        } else {
            assert(!before(path, paths[middle as int]));
            assert forall|i: int| 0 <= i <= middle implies !before(path, #[trigger] paths[i]) by {
                if i < middle {
                    assert(!before(paths[middle as int], paths[i]));
                }
            }
            low = middle + 1;
        }
    }
    low
}

/// The items at `positions`, in that order.
spec fn picked<T>(items: Seq<T>, positions: Seq<usize>) -> Seq<T> {
    Seq::new(positions.len(), |i: int| items[positions[i] as int])
}

/// Where each path goes when they are sorted by the names along them: the positions of the paths in
/// that order, paths with the same names in the order that they have, and their sorting keys.
fn sort_paths<'a>(
    paths: &Vec<ChannelPath>,
    channels_by_id: &'a BTreeMap<ChannelId, Arc<Channel>>,
) -> (sorted: (Vec<usize>, Vec<Vec<Option<&'a str>>>))
    ensures
        forall|i: int| 0 <= i < sorted.0@.len() ==> (#[trigger] sorted.0@[i]) < paths@.len(),
        stable_sort_of(
            path_models(paths@),
            picked(path_models(paths@), sorted.0@),
            path_before(channel_models(channels_by_id@)),
        ),
        sorted.1@.len() == sorted.0@.len(),
        forall|i: int|
            0 <= i < sorted.1@.len() ==> key_model(#[trigger] sorted.1@[i]@) == sorting_key(
                picked(path_models(paths@), sorted.0@)[i],
                channel_models(channels_by_id@),
            ),
{
    let ghost channels = channel_models(channels_by_id@);
    let ghost before = path_before(channels);
    let ghost input = path_models(paths@);
    let mut positions: Vec<usize> = Vec::with_capacity(paths.len());
    let mut keys: Vec<Vec<Option<&'a str>>> = Vec::with_capacity(paths.len());
    let mut ix: usize = 0;
    proof {
        path_order_is_weak(channels);
        assert(input.take(0) =~= Seq::empty());
        assert(picked(input, positions@) =~= Seq::empty());
        stable_sort_of_sorted(Seq::<Seq<ChannelId>>::empty(), before);
    }
    while ix < paths.len()
        invariant
            ix <= paths@.len(),
            channels == channel_models(channels_by_id@),
            before == path_before(channels),
            strict_weak_order(before),
            input == path_models(paths@),
            forall|i: int| 0 <= i < positions@.len() ==> (#[trigger] positions@[i]) < paths@.len(),
            stable_sort_of(input.take(ix as int), picked(input, positions@), before),
            keys@.len() == positions@.len(),
            forall|i: int|
                0 <= i < keys@.len() ==> key_model(#[trigger] keys@[i]@) == sorting_key(
                    picked(input, positions@)[i],
                    channels,
                ),
        decreases paths@.len() - ix,
    {
        let ghost output = picked(input, positions@);
        proof {
            stable_sort_is_sorted(input.take(ix as int), output, before);
        }
        let key = channel_path_sorting_key(&paths[ix], channels_by_id);
        let at: usize = insertion_point(
            &key,
            &keys,
            Ghost(paths@[ix as int]@),
            Ghost(output),
            Ghost(channels),
        );
        proof {
            arrange_one_more(input, output, before, ix as int, at as int);
        }
        positions.insert(at, ix);
        keys.insert(at, key);
        assert(picked(input, positions@) =~= output.insert(at as int, input[ix as int]));
        ix += 1;
    }
    assert(input.take(input.len() as int) =~= input);
    (positions, keys)
}

/// Whether the path in place `place` of the sorted paths stands in an earlier place too. Only the
/// places with the same names along their paths come into question.
fn is_repeated(
    paths: &Vec<ChannelPath>,
    positions: &Vec<usize>,
    keys: &Vec<Vec<Option<&str>>>,
    place: usize,
    Ghost(channels): Ghost<Map<ChannelId, ChannelModel>>,
) -> (repeated: bool)
    requires
        place < positions@.len(),
        forall|i: int| 0 <= i < positions@.len() ==> (#[trigger] positions@[i]) < paths@.len(),
        keys@.len() == positions@.len(),
        forall|i: int|
            0 <= i < keys@.len() ==> key_model(#[trigger] keys@[i]@) == sorting_key(
                picked(path_models(paths@), positions@)[i],
                channels,
            ),
        sorted_by(picked(path_models(paths@), positions@), path_before(channels)),
    ensures
        repeated == picked(path_models(paths@), positions@).take(place as int).contains(
            picked(path_models(paths@), positions@)[place as int],
        ),
{
    let ghost sorted = picked(path_models(paths@), positions@);
    let ghost before = path_before(channels);
    let mut i: usize = place;
    proof {
        path_order_is_weak(channels);
    }
    while i > 0
        invariant
            i <= place < positions@.len(),
            sorted == picked(path_models(paths@), positions@),
            before == path_before(channels),
            strict_weak_order(before),
            sorted_by(sorted, before),
            forall|j: int| 0 <= j < positions@.len() ==> (#[trigger] positions@[j]) < paths@.len(),
            keys@.len() == positions@.len(),
            forall|j: int|
                0 <= j < keys@.len() ==> key_model(#[trigger] keys@[j]@) == sorting_key(
                    sorted[j],
                    channels,
                ),
            forall|j: int| i <= j < place ==> #[trigger] sorted[j] != sorted[place as int],
        decreases i,
    {
        if key_before(&keys[i - 1], &keys[place]) {
            assert(before(sorted[i - 1], sorted[place as int]));
            assert forall|j: int| 0 <= j < place implies #[trigger] sorted[j] != sorted[place as int]
                by {
                if j < i - 1 {
                    assert(!before(sorted[i - 1], sorted[j]));
                } else if j == i - 1 {
                    assert(!before(sorted[j], sorted[j]));
                }
            }
            return false;
        }
        i -= 1;
        if paths[positions[i]] == paths[positions[place]] {
            assert(sorted.take(place as int)[i as int] == sorted[place as int]);
            return true;
        }
    }
    false
}

/// The paths sorted by the names along them, paths with the same names in the order that they have,
/// and of equal paths only the first.
pub(crate) fn tidy_paths(
    paths: &Vec<ChannelPath>,
    channels_by_id: &BTreeMap<ChannelId, Arc<Channel>>,
) -> (tidy: Vec<ChannelPath>)
    ensures
        index_model(paths@, channels_by_id@).tidied_to(index_model(tidy@, channels_by_id@)),
{
    let ghost channels = channel_models(channels_by_id@);
    let ghost before = path_before(channels);
    let (positions, keys) = sort_paths(paths, channels_by_id);
    let ghost sorted = picked(path_models(paths@), positions@);
    let mut tidy: Vec<ChannelPath> = Vec::with_capacity(positions.len());
    let mut place: usize = 0;
    proof {
        path_order_is_weak(channels);
        stable_sort_is_sorted(path_models(paths@), sorted, before);
        assert(path_models(tidy@) =~= first_occurrences(sorted.take(0)));
    }
    while place < positions.len()
        invariant
            place <= positions@.len(),
            sorted == picked(path_models(paths@), positions@),
            sorted_by(sorted, path_before(channels)),
            forall|i: int| 0 <= i < positions@.len() ==> (#[trigger] positions@[i]) < paths@.len(),
            keys@.len() == positions@.len(),
            forall|i: int|
                0 <= i < keys@.len() ==> key_model(#[trigger] keys@[i]@) == sorting_key(
                    sorted[i],
                    channels,
                ),
            path_models(tidy@) == first_occurrences(sorted.take(place as int)),
        decreases positions@.len() - place,
    {
        let ghost output = path_models(tidy@);
        assert(sorted.take(place + 1).drop_last() =~= sorted.take(place as int));
        if !is_repeated(paths, &positions, &keys, place, Ghost(channels)) {
            tidy.push(paths[positions[place]].clone());
            assert(path_models(tidy@) =~= output.push(sorted[place as int]));
        }
        place += 1;
    }
    assert(sorted.take(sorted.len() as int) =~= sorted);
    proof {
        let index = index_model(paths@, channels_by_id@);
        assert(stable_sort_of(index.paths, sorted, path_before(index.channels)));
        assert(index_model(tidy@, channels_by_id@).paths == first_occurrences(sorted));
    }
    tidy
}

} // verus!
