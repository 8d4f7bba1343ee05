use collab_core::clock::Global;

fn version(entries: &[(u16, u32)]) -> Global {
    let mut version = Global::new();
    for (replica_id, value) in entries {
        version.observe(*replica_id, *value);
    }
    version
}

#[test]
fn new_version_has_observed_nothing() {
    let version = Global::default();
    assert_eq!(version.get(0), 0);
    assert_eq!(version.get(65535), 0);
}

#[test]
fn observing_keeps_the_latest() {
    let version = version(&[(2, 7), (2, 4), (0, 1), (5, 0)]);
    assert_eq!(version.get(0), 1);
    assert_eq!(version.get(1), 0);
    assert_eq!(version.get(2), 7);
    assert_eq!(version.get(5), 0);
}

#[test]
fn join_takes_the_greater_entries() {
    let mut left = version(&[(0, 3), (1, 1)]);
    left.join(&version(&[(1, 4), (3, 2)]));
    assert_eq!(
        [left.get(0), left.get(1), left.get(2), left.get(3)],
        [3, 4, 0, 2]
    );
    left.join(&Global::new());
    assert_eq!(
        [left.get(0), left.get(1), left.get(2), left.get(3)],
        [3, 4, 0, 2]
    );
}

#[test]
fn observed_all_compares_every_entry() {
    let small = version(&[(0, 3)]);
    let large = version(&[(0, 3), (4, 1)]);
    let other = version(&[(1, 1)]);
    assert!(large.observed_all(&small));
    assert!(!small.observed_all(&large));
    assert!(small.observed_all(&small));
    assert!(!small.observed_all(&other));
    assert!(!other.observed_all(&small));
    assert!(small.observed_all(&Global::new()));
    assert!(!Global::new().observed_all(&small));
}

#[test]
fn clones_are_independent() {
    let mut first = version(&[(0, 3)]);
    let second = first.clone();
    first.observe(0, 9);
    assert_eq!(first.get(0), 9);
    assert_eq!(second.get(0), 3);
}
