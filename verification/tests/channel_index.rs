use collab_core::channel::ChannelPath;
use collab_core::channel_index::{ChannelIndex, ChannelPathsInsertGuard};
use collab_core::clock::Global;
use collab_core::proto::{Channel, ChannelVisibility};
use std::sync::Arc;

fn channel(id: u64, name: &str) -> Channel {
    Channel {
        id,
        name: name.to_string(),
        visibility: ChannelVisibility::Members,
    }
}

fn paths(index: &ChannelIndex) -> Vec<Vec<u64>> {
    index.iter().map(|path| path.to_vec()).collect()
}

fn guard_paths(guard: &ChannelPathsInsertGuard) -> Vec<Vec<u64>> {
    paths(guard.index)
}

fn index_of(channels: &[(u64, &str)], edges: &[(u64, u64)]) -> ChannelIndex {
    let mut index = ChannelIndex::default();
    let mut guard = index.bulk_insert();
    for (id, name) in channels {
        guard.insert(channel(*id, name));
    }
    for (channel_id, parent_id) in edges {
        guard.insert_edge(*channel_id, *parent_id);
    }
    drop(guard);
    index
}

fn version(entries: &[(u16, u32)]) -> Global {
    let mut version = Global::new();
    for (replica_id, value) in entries {
        version.observe(*replica_id, *value);
    }
    version
}

#[test]
fn default_index_is_empty() {
    let index = ChannelIndex::default();
    assert!(index.is_empty());
    assert!(index.by_id().is_empty());
}

#[test]
fn path_holds_its_channels() {
    let path = ChannelPath::new(vec![3, 1, 2]);
    assert_eq!(path.len(), 3);
    assert_eq!(path.channel_at(0), 3);
    assert_eq!(path.to_vec(), vec![3, 1, 2]);
    assert!(path == ChannelPath::new(vec![3, 1, 2]));
    assert!(path != ChannelPath::new(vec![3, 1]));
    assert!(path != ChannelPath::new(vec![3, 1, 4]));
}

#[test]
fn inserted_channels_are_roots_sorted_by_name() {
    let index = index_of(&[(1, "zoo"), (2, "ant"), (3, "Zebra"), (4, "mole")], &[]);
    assert_eq!(paths(&index), vec![vec![3], vec![2], vec![4], vec![1]]);
    assert_eq!(index.by_id().keys().copied().collect::<Vec<u64>>(), vec![1, 2, 3, 4]);
    let inserted = &index.by_id()[&3];
    assert_eq!(inserted.id, 3);
    assert_eq!(inserted.name, "Zebra");
    assert_eq!(inserted.visibility, ChannelVisibility::Members);
    assert!(inserted.unseen_note_version.is_none());
    assert_eq!(inserted.unseen_message_id, None);
}

#[test]
fn series_ends_wherever_the_guard_is_let_go() {
    let mut index = ChannelIndex::default();
    {
        let mut guard = index.bulk_insert();
        guard.insert(channel(1, "b"));
        guard.insert(channel(2, "a"));
    }
    assert_eq!(paths(&index), vec![vec![2], vec![1]]);
    index.bulk_insert().insert(channel(3, "aa"));
    assert_eq!(paths(&index), vec![vec![2], vec![3], vec![1]]);
    index.bulk_insert().insert_edge(2, 1);
    assert_eq!(paths(&index), vec![vec![3], vec![1], vec![1, 2]]);
    index.bulk_insert().delete_edge(1, 2);
    assert_eq!(paths(&index), vec![vec![2], vec![3], vec![1]]);
}

#[test]
fn namesakes_keep_the_order_that_the_whole_series_leaves() {
    // The edge moves the last path to the front, where a later name gives it namesakes.
    let mut index = ChannelIndex::default();
    let mut guard = index.bulk_insert();
    for (id, name) in [(2, "x"), (1, "y"), (4, "y"), (3, "z")] {
        guard.insert(channel(id, name));
    }
    guard.insert_edge(2, 1);
    guard.insert(channel(3, "y"));
    drop(guard);
    assert_eq!(paths(&index), vec![vec![3], vec![1], vec![4], vec![1, 2]]);
}

#[test]
fn names_are_ordered_by_their_bytes() {
    let index = index_of(&[(1, "\u{e9}t\u{e9}"), (2, "ete"), (3, "et"), (4, ""), (5, "\u{1f600}"), (6, "\u{ffff}")], &[]);
    assert_eq!(paths(&index), vec![vec![4], vec![3], vec![2], vec![1], vec![6], vec![5]]);
}

#[test]
fn channels_with_one_name_keep_the_order_of_insertion() {
    let index = index_of(&[(9, "same"), (2, "same"), (5, "same"), (1, "other")], &[]);
    assert_eq!(paths(&index), vec![vec![1], vec![9], vec![2], vec![5]]);
}

#[test]
fn inserting_a_known_channel_updates_it() {
    let mut index = index_of(&[(1, "b"), (2, "c")], &[]);
    index.new_message(1, 8);
    let mut guard = index.bulk_insert();
    guard.insert(Channel {
        id: 1,
        name: "d".to_string(),
        visibility: ChannelVisibility::Public,
    });
    drop(guard);
    assert_eq!(paths(&index), vec![vec![2], vec![1]]);
    let updated = &index.by_id()[&1];
    assert_eq!(updated.name, "d");
    assert_eq!(updated.visibility, ChannelVisibility::Public);
    assert_eq!(updated.unseen_message_id, Some(8));
}

#[test]
fn edges_make_paths() {
    let index = index_of(&[(1, "a"), (2, "b"), (3, "c")], &[(2, 1), (3, 2)]);
    assert_eq!(paths(&index), vec![vec![1], vec![1, 2], vec![1, 2, 3]]);
}

#[test]
fn edge_moves_everything_below_the_channel() {
    let index = index_of(&[(1, "a"), (2, "b"), (3, "c")], &[(3, 2), (2, 1)]);
    assert_eq!(paths(&index), vec![vec![1], vec![1, 2], vec![1, 2, 3]]);
}

#[test]
fn channel_with_two_parents_has_two_paths() {
    let index = index_of(&[(1, "a"), (2, "b"), (3, "c"), (4, "d")], &[(3, 1), (4, 3), (3, 2)]);
    assert_eq!(
        paths(&index),
        vec![
            vec![1],
            vec![1, 3],
            vec![1, 3, 4],
            vec![2],
            vec![2, 3],
            vec![2, 3, 4],
        ]
    );
}

#[test]
fn inserting_an_edge_twice_changes_nothing() {
    let once = index_of(&[(1, "a"), (2, "b")], &[(2, 1)]);
    let twice = index_of(&[(1, "a"), (2, "b")], &[(2, 1), (2, 1)]);
    assert_eq!(paths(&once), paths(&twice));
}

#[test]
fn edge_below_a_channel_without_paths_takes_the_roots_away() {
    let index = index_of(&[(1, "a"), (2, "b")], &[(2, 7)]);
    assert_eq!(paths(&index), vec![vec![1]]);
    assert_eq!(index.by_id().len(), 2);
}

#[test]
fn edge_loses_no_channel() {
    let index = index_of(
        &[(1, "a"), (2, "b"), (3, "c"), (4, "d")],
        &[(3, 2), (4, 3), (2, 1)],
    );
    for id in [1, 2, 3, 4] {
        assert!(paths(&index).iter().any(|path| path.contains(&id)));
    }
}

fn is_closed_upwards(paths: &[Vec<u64>]) -> bool {
    paths
        .iter()
        .all(|path| path.len() == 1 || paths.contains(&path[..path.len() - 1].to_vec()))
}

#[test]
fn with_each_path_there_is_the_path_above_it() {
    let mut index = index_of(
        &[(1, "a"), (2, "b"), (3, "c"), (4, "d")],
        &[(4, 3), (3, 1), (3, 2), (2, 1)],
    );
    assert!(is_closed_upwards(&paths(&index)));
    let mut guard = index.bulk_insert();
    guard.delete_edge(1, 2);
    drop(guard);
    assert!(is_closed_upwards(&paths(&index)));
    index.delete_channels(&[3]);
    assert_eq!(paths(&index), vec![vec![1], vec![2]]);
}

#[test]
fn edge_that_closes_a_cycle_can_leave_a_path_without_the_one_above_it() {
    let mut index = index_of(&[(1, "a"), (2, "b")], &[(2, 1)]);
    let mut guard = index.bulk_insert();
    guard.insert_edge(1, 2);
    drop(guard);
    assert_eq!(paths(&index), vec![vec![1, 2], vec![1, 2, 1]]);
    assert!(!is_closed_upwards(&paths(&index)));
}

#[test]
fn inserting_an_edge_below_nothing_again_changes_nothing() {
    let once = index_of(&[(1, "a"), (2, "b")], &[(2, 7)]);
    let twice = index_of(&[(1, "a"), (2, "b")], &[(2, 7), (2, 7)]);
    assert_eq!(paths(&once), paths(&twice));
}

#[test]
fn deleting_an_edge_that_only_added_paths_takes_them_away() {
    let mut index = index_of(&[(1, "a"), (2, "b"), (3, "c")], &[(3, 1)]);
    let before = paths(&index);
    let mut guard = index.bulk_insert();
    guard.insert_edge(3, 2);
    guard.delete_edge(2, 3);
    assert_eq!(guard_paths(&guard), before);
    drop(guard);
    assert_eq!(paths(&index), before);
}

#[test]
fn deleting_an_edge_does_not_bring_back_what_was_below_a_root() {
    let mut index = index_of(&[(1, "a"), (2, "b"), (3, "c")], &[(3, 2)]);
    let mut guard = index.bulk_insert();
    guard.insert_edge(2, 1);
    guard.delete_edge(1, 2);
    drop(guard);
    assert_eq!(paths(&index), vec![vec![1], vec![2]]);
}

#[test]
fn channels_can_be_deleted_in_any_order() {
    let channels = [(1, "a"), (2, "b"), (3, "c"), (4, "d")];
    let edges = [(3, 1), (3, 2), (4, 3)];
    let mut together = index_of(&channels, &edges);
    together.delete_channels(&[1, 4]);
    let mut one_by_one = index_of(&channels, &edges);
    one_by_one.delete_channels(&[4]);
    one_by_one.delete_channels(&[1, 1]);
    assert_eq!(paths(&together), vec![vec![2], vec![2, 3]]);
    assert_eq!(paths(&one_by_one), paths(&together));
    assert_eq!(one_by_one.by_id().len(), together.by_id().len());
}

#[test]
fn ancestors_come_first() {
    let index = index_of(&[(1, "same"), (2, "same"), (3, "same")], &[(1, 2), (2, 3)]);
    assert_eq!(paths(&index), vec![vec![3], vec![3, 2], vec![3, 2, 1]]);
}

#[test]
fn deleting_an_inserted_edge_makes_the_channel_a_root_again() {
    let mut index = index_of(&[(1, "a"), (2, "b")], &[(2, 1)]);
    assert_eq!(paths(&index), vec![vec![1], vec![1, 2]]);
    let mut guard = index.bulk_insert();
    guard.delete_edge(1, 2);
    drop(guard);
    assert_eq!(paths(&index), vec![vec![1], vec![2]]);
}

#[test]
fn edge_to_an_unknown_channel_sorts_it_first() {
    let index = index_of(&[(1, "a"), (2, "b")], &[(2, 1), (9, 1)]);
    assert_eq!(paths(&index), vec![vec![1], vec![1, 9], vec![1, 2]]);
}

#[test]
fn roots_are_swap_removed_from_the_end() {
    let mut index = ChannelIndex::default();
    let mut guard = index.bulk_insert();
    for id in [5, 1, 2, 3, 4] {
        guard.insert(channel(id, "same"));
    }
    guard.insert_edge(2, 1);
    assert_eq!(guard_paths(&guard), vec![vec![5], vec![1], vec![4], vec![3], vec![1, 2]]);
    guard.insert_edge(1, 3);
    assert_eq!(
        guard_paths(&guard),
        vec![vec![5], vec![3], vec![4], vec![3, 1], vec![3, 1, 2]]
    );
    drop(guard);
    assert_eq!(
        paths(&index),
        vec![vec![5], vec![3], vec![4], vec![3, 1], vec![3, 1, 2]]
    );
}

#[test]
fn repeated_paths_are_removed() {
    let index = index_of(
        &[(5, "p"), (6, "q"), (7, "r"), (3, "m")],
        &[(3, 5), (3, 6), (3, 7)],
    );
    assert_eq!(
        paths(&index),
        vec![
            vec![5],
            vec![5, 3],
            vec![6],
            vec![6, 3],
            vec![7],
            vec![7, 3],
        ]
    );
}

fn index_with_namesakes(fourth: &str, fourteenth: &str) -> ChannelIndex {
    index_of(
        &[(5, "p"), (6, "q"), (7, "r"), (3, "m"), (4, fourth), (14, fourteenth)],
        &[(4, 3), (14, 3), (3, 5), (3, 6), (3, 7)],
    )
}

#[test]
fn paths_with_distinct_names_are_unique() {
    let index = index_with_namesakes("x", "y");
    assert_eq!(
        paths(&index),
        vec![
            vec![5],
            vec![5, 3],
            vec![5, 3, 4],
            vec![5, 3, 14],
            vec![6],
            vec![6, 3],
            vec![6, 3, 4],
            vec![6, 3, 14],
            vec![7],
            vec![7, 3],
            vec![7, 3, 4],
            vec![7, 3, 14],
        ]
    );
}

#[test]
fn equal_paths_around_a_namesake_are_kept_once() {
    let index = index_with_namesakes("x", "x");
    assert_eq!(
        paths(&index),
        vec![
            vec![5],
            vec![5, 3],
            vec![5, 3, 4],
            vec![5, 3, 14],
            vec![6],
            vec![6, 3],
            vec![6, 3, 4],
            vec![6, 3, 14],
            vec![7],
            vec![7, 3],
            vec![7, 3, 4],
            vec![7, 3, 14],
        ]
    );
}

#[test]
fn roots_around_a_namesake_are_kept_once() {
    let mut index = ChannelIndex::default();
    let mut guard = index.bulk_insert();
    guard.delete_edge(1, 99);
    guard.insert(channel(98, "a"));
    guard.insert(channel(99, "a"));
    assert_eq!(guard_paths(&guard), vec![vec![99], vec![98]]);
    drop(guard);
    assert_eq!(paths(&index), vec![vec![99], vec![98]]);
}

#[test]
fn series_of_no_insertions_changes_nothing() {
    let mut index = index_with_namesakes("x", "x");
    let before = paths(&index);
    drop(index.bulk_insert());
    assert_eq!(paths(&index), before);
}

#[test]
fn deleted_edge_leaves_a_root() {
    let mut index = index_of(&[(1, "a"), (2, "b"), (3, "c")], &[(2, 1), (3, 2)]);
    let mut guard = index.bulk_insert();
    guard.delete_edge(1, 2);
    drop(guard);
    assert_eq!(paths(&index), vec![vec![1], vec![2]]);
    assert_eq!(index.by_id().len(), 3);
}

#[test]
fn deleted_edge_leaves_other_paths_to_the_channel() {
    let mut index = index_of(&[(1, "a"), (2, "b"), (3, "c")], &[(3, 1), (3, 2)]);
    let mut guard = index.bulk_insert();
    guard.delete_edge(1, 3);
    drop(guard);
    assert_eq!(paths(&index), vec![vec![1], vec![2], vec![2, 3]]);
}

#[test]
fn deleting_an_edge_that_is_not_there_changes_nothing() {
    let mut index = index_of(&[(1, "a"), (2, "b")], &[(2, 1)]);
    let mut guard = index.bulk_insert();
    guard.delete_edge(2, 1);
    drop(guard);
    assert_eq!(paths(&index), vec![vec![1], vec![1, 2]]);
}

#[test]
fn deleted_channels_take_their_paths_along() {
    let mut index = index_of(
        &[(1, "a"), (2, "b"), (3, "c"), (4, "d")],
        &[(3, 1), (3, 2), (4, 3)],
    );
    index.delete_channels(&[1, 77]);
    assert_eq!(paths(&index), vec![vec![2], vec![2, 3], vec![2, 3, 4]]);
    assert_eq!(index.by_id().keys().copied().collect::<Vec<u64>>(), vec![2, 3, 4]);
    index.delete_channels(&[3]);
    assert_eq!(paths(&index), vec![vec![2]]);
    assert_eq!(index.by_id().keys().copied().collect::<Vec<u64>>(), vec![2, 4]);
}

#[test]
fn deleting_channels_drops_paths_through_unknown_channels() {
    let mut index = index_of(&[(1, "a")], &[(9, 1)]);
    assert_eq!(paths(&index), vec![vec![1], vec![1, 9]]);
    index.delete_channels(&[]);
    assert_eq!(paths(&index), vec![vec![1]]);
}

#[test]
fn cleared_index_is_empty() {
    let mut index = index_of(&[(1, "a"), (2, "b")], &[(2, 1)]);
    index.clear();
    assert!(index.is_empty());
    assert!(index.by_id().is_empty());
}

fn unseen_notes(index: &ChannelIndex, id: u64) -> Option<(u64, u32, u32)> {
    index.by_id()[&id]
        .unseen_note_version
        .as_ref()
        .map(|(epoch, version)| (*epoch, version.get(0), version.get(1)))
}

#[test]
fn note_changes_are_joined_within_an_epoch() {
    let mut index = index_of(&[(1, "a")], &[]);
    index.note_changed(1, 1, &version(&[(0, 3)]));
    assert_eq!(unseen_notes(&index, 1), Some((1, 3, 0)));
    index.note_changed(1, 1, &version(&[(0, 2), (1, 5)]));
    assert_eq!(unseen_notes(&index, 1), Some((1, 3, 5)));
    index.note_changed(1, 2, &version(&[(0, 1)]));
    assert_eq!(unseen_notes(&index, 1), Some((2, 1, 0)));
    index.note_changed(1, 1, &version(&[(1, 9)]));
    assert_eq!(unseen_notes(&index, 1), Some((2, 1, 9)));
}

#[test]
fn first_note_change_can_be_of_epoch_zero() {
    let mut index = index_of(&[(1, "a")], &[]);
    index.note_changed(1, 0, &version(&[(1, 4)]));
    assert_eq!(unseen_notes(&index, 1), Some((0, 0, 4)));
}

#[test]
fn notes_are_acknowledged_by_what_has_observed_them() {
    let mut index = index_of(&[(1, "a")], &[]);
    index.note_changed(1, 2, &version(&[(0, 3), (1, 1)]));
    index.acknowledge_note_version(1, 1, &version(&[(0, 9), (1, 9)]));
    assert_eq!(unseen_notes(&index, 1), Some((2, 3, 1)));
    index.acknowledge_note_version(1, 2, &version(&[(0, 9)]));
    assert_eq!(unseen_notes(&index, 1), Some((2, 3, 1)));
    index.acknowledge_note_version(1, 2, &version(&[(0, 3), (1, 1)]));
    assert_eq!(unseen_notes(&index, 1), None);
    index.note_changed(1, 2, &version(&[(0, 3)]));
    index.acknowledge_note_version(1, 3, &Global::new());
    assert_eq!(unseen_notes(&index, 1), None);
}

#[test]
fn messages_are_unseen_up_to_the_latest() {
    let mut index = index_of(&[(1, "a"), (2, "b")], &[]);
    index.new_message(1, 5);
    index.new_message(1, 3);
    assert_eq!(index.by_id()[&1].unseen_message_id, Some(5));
    assert_eq!(index.by_id()[&2].unseen_message_id, None);
    index.acknowledge_message_id(1, 4);
    assert_eq!(index.by_id()[&1].unseen_message_id, Some(5));
    index.acknowledge_message_id(1, 5);
    assert_eq!(index.by_id()[&1].unseen_message_id, None);
}

#[test]
fn unknown_channels_stay_unknown() {
    let mut index = index_of(&[(1, "a")], &[]);
    index.new_message(2, 5);
    index.note_changed(2, 1, &Global::new());
    index.acknowledge_message_id(2, 5);
    index.acknowledge_note_version(2, 1, &Global::new());
    assert_eq!(index.by_id().len(), 1);
    assert_eq!(paths(&index), vec![vec![1]]);
}

#[test]
fn guard_records_notes_and_messages() {
    let mut index = index_of(&[(1, "a")], &[]);
    let mut guard = index.bulk_insert();
    guard.new_messages(1, 6);
    guard.note_changed(1, 4, &version(&[(0, 2)]));
    drop(guard);
    assert_eq!(index.by_id()[&1].unseen_message_id, Some(6));
    assert_eq!(unseen_notes(&index, 1), Some((4, 2, 0)));
}

#[test]
fn shared_channels_are_copied_before_they_change() {
    let mut index = index_of(&[(1, "a")], &[]);
    let shared = Arc::clone(&index.by_id()[&1]);
    index.new_message(1, 6);
    assert_eq!(shared.unseen_message_id, None);
    assert_eq!(index.by_id()[&1].unseen_message_id, Some(6));
}
