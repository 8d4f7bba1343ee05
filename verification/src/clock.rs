//! Version vectors: for each replica, the latest operation that has been observed.

use vstd::prelude::*;

verus! {

/// The entry of replica `replica` in a version vector; replicas past the end were never observed.
pub open spec fn entry(version: Seq<u32>, replica: int) -> u32 {
    if 0 <= replica < version.len() {
        version[replica]
    } else {
        0
    }
}

/// `left` has observed every operation that `right` has observed.
pub open spec fn observed(left: Seq<u32>, right: Seq<u32>) -> bool {
    forall|replica: int| #[trigger] entry(left, replica) >= entry(right, replica)
}

/// The version vector that has observed exactly what `left` or `right` has observed.
pub open spec fn joined(left: Seq<u32>, right: Seq<u32>) -> Seq<u32> {
    Seq::new(
        if left.len() >= right.len() {
            left.len()
        } else {
            right.len()
        },
        |replica: int|
            if entry(left, replica) >= entry(right, replica) {
                entry(left, replica)
            } else {
                entry(right, replica)
            },
    )
}

/// The version vector `version` after operation `value` of replica `replica` was observed.
pub open spec fn with_observed(version: Seq<u32>, replica: int, value: u32) -> Seq<u32>
    recommends
        0 <= replica,
{
    if value == 0 {
        version
    } else {
        Seq::new(
            if version.len() > replica {
                version.len()
            } else {
                (replica + 1) as nat
            },
            |r: int|
                if r == replica && value > entry(version, r) {
                    value
                } else {
                    entry(version, r)
                },
        )
    }
}

/// A version vector.
#[derive(Debug)]
pub struct Global {
    values: Vec<u32>,
}

impl View for Global {
    type V = Seq<u32>;

    closed spec fn view(&self) -> Seq<u32> {
        self.values@
    }
}

impl Clone for Global {
    fn clone(&self) -> (copy: Self)
        ensures
            copy@ == self@,
    {
        let mut values: Vec<u32> = Vec::with_capacity(self.values.len());
        let mut i: usize = 0;
        while i < self.values.len()
            invariant
                i <= self.values.len(),
                values@ == self.values@.take(i as int),
            decreases self.values.len() - i,
        {
            values.push(self.values[i]);
            i += 1;
        }
        assert(values@ =~= self.values@);
        Global { values }
    }
}

impl Default for Global {
    fn default() -> (version: Self)
        ensures
            version@ == Seq::<u32>::empty(),
    {
        Global::new()
    }
}

impl Global {
    /// The version vector that has observed nothing.
    pub fn new() -> (version: Self)
        ensures
            version@ == Seq::<u32>::empty(),
    {
        Global { values: Vec::new() }
    }

    /// The latest observed operation of a replica, 0 where none was observed.
    pub fn get(&self, replica_id: u16) -> (value: u32)
        ensures
            value == entry(self@, replica_id as int),
    {
        let index: usize = replica_id as usize;
        if index < self.values.len() {
            self.values[index]
        } else {
            0
        }
    }

    /// Records that operation `value` of replica `replica_id` was observed.
    pub fn observe(&mut self, replica_id: u16, value: u32)
        ensures
            final(self)@ == with_observed(old(self)@, replica_id as int, value),
    {
        if value > 0 {
            let index: usize = replica_id as usize;
            while self.values.len() <= index
                invariant
                    old(self).values.len() <= self.values.len(),
                    self.values.len() <= old(self).values.len() || self.values.len() <= index + 1,
                    forall|r: int|
                        0 <= r < self.values.len() ==> self.values[r] == entry(old(self)@, r),
                decreases index + 1 - self.values.len(),
            {
                self.values.push(0);
            }
            if value > self.values[index] {
                self.values[index] = value;
            }
            assert(self.values@ =~= with_observed(old(self)@, replica_id as int, value));
        }
    }

    /// Adds everything that `other` has observed.
    pub fn join(&mut self, other: &Self)
        ensures
            final(self)@ == joined(old(self)@, other@),
    {
        let mut i: usize = 0;
        while i < other.values.len()
            invariant
                i <= other.values.len(),
                old(self).values.len() <= self.values.len(),
                self.values.len() <= old(self).values.len() || self.values.len() <= i,
                i <= self.values.len(),
                forall|r: int|
                    0 <= r < i ==> #[trigger] self.values[r] == joined(old(self)@, other@)[r],
                forall|r: int|
                    i <= r < self.values.len() ==> #[trigger] self.values[r] == old(self).values[r],
            decreases other.values.len() - i,
        {
            if i < self.values.len() {
                if other.values[i] > self.values[i] {
                    self.values[i] = other.values[i];
                }
            } else {
                self.values.push(other.values[i]);
            }
            i += 1;
        }
        assert(self.values@ =~= joined(old(self)@, other@));
    }

    /// Whether everything that `other` has observed has been observed here too.
    pub fn observed_all(&self, other: &Self) -> (all: bool)
        ensures
            all == observed(self@, other@),
    {
        let mut i: usize = 0;
        while i < other.values.len()
            invariant
                i <= other.values.len(),
                forall|r: int| 0 <= r < i ==> #[trigger] entry(self@, r) >= entry(other@, r),
            decreases other.values.len() - i,
        {
            let seen: u32 = if i < self.values.len() {
                self.values[i]
            } else {
                0
            };
            if seen < other.values[i] {
                assert(entry(self@, i as int) < entry(other@, i as int));
                return false;
            }
            i += 1;
        }
        true
    }
}

/// Observation is a preorder: every version has observed itself, and what it has observed of a
/// version it has observed of everything that the version has observed.
pub proof fn observed_is_a_preorder(a: Seq<u32>, b: Seq<u32>, c: Seq<u32>)
    ensures
        observed(a, a),
        observed(a, b) && observed(b, c) ==> observed(a, c),
{
    if observed(a, b) && observed(b, c) {
        assert forall|r: int| #[trigger] entry(a, r) >= entry(c, r) by {
            assert(entry(b, r) >= entry(c, r));
        }
    }
}

/// Joining gives the least version that has observed both arguments.
pub proof fn join_is_least_upper_bound(a: Seq<u32>, b: Seq<u32>, c: Seq<u32>)
    ensures
        observed(joined(a, b), a),
        observed(joined(a, b), b),
        observed(c, a) && observed(c, b) ==> observed(c, joined(a, b)),
{
    assert forall|r: int| #[trigger] entry(joined(a, b), r) >= entry(a, r) by {}
    assert forall|r: int| #[trigger] entry(joined(a, b), r) >= entry(b, r) by {}
    if observed(c, a) && observed(c, b) {
        assert forall|r: int| #[trigger] entry(c, r) >= entry(joined(a, b), r) by {
            assert(entry(c, r) >= entry(a, r));
            assert(entry(c, r) >= entry(b, r));
        }
    }
}

/// Joining is commutative, associative and idempotent: the order in which versions arrive, and how
/// often, does not matter.
pub proof fn join_is_a_semilattice(a: Seq<u32>, b: Seq<u32>, c: Seq<u32>)
    ensures
        joined(a, b) == joined(b, a),
        joined(joined(a, b), c) == joined(a, joined(b, c)),
        joined(a, a) == a,
        joined(a, Seq::empty()) == a,
{
    assert(joined(a, b) =~= joined(b, a));
    assert(joined(joined(a, b), c) =~= joined(a, joined(b, c)));
    assert(joined(a, a) =~= a);
    assert(joined(a, Seq::empty()) =~= a);
}

/// One version has observed all that another one has exactly where it has come at least as far for
/// each replica; a replica that a version does not list has come nowhere.
pub proof fn observed_compares_each_replica(left: Seq<u32>, right: Seq<u32>)
    ensures
        observed(left, right) == (forall|replica: int|
            0 <= replica < right.len() ==> (#[trigger] right[replica]) <= if replica < left.len() {
                left[replica]
            } else {
                0
            }),
{
    if observed(left, right) {
        assert forall|replica: int| 0 <= replica < right.len() implies (#[trigger] right[replica])
            <= if replica < left.len() {
            left[replica]
        } else {
            0
        } by {
            assert(entry(left, replica) >= entry(right, replica));
        }
    }
}

/// A joined version lists each replica that either version lists, with the later of the two
/// operations.
pub proof fn joined_has_the_later_of_each(left: Seq<u32>, right: Seq<u32>, replica: int)
    ensures
        joined(left, right).len() == if left.len() > right.len() {
            left.len()
        } else {
            right.len()
        },
        0 <= replica < left.len() && replica < right.len() ==> joined(left, right)[replica] == if left[replica]
            > right[replica] {
            left[replica]
        } else {
            right[replica]
        },
        left.len() <= replica < right.len() ==> joined(left, right)[replica] == right[replica],
        right.len() <= replica < left.len() ==> joined(left, right)[replica] == left[replica],
{
}

/// Observing an operation moves its replica on to it, unless the replica is there or further, and
/// leaves the other replicas where they are. Operation 0 is none.
pub proof fn observing_moves_one_replica(
    version: Seq<u32>,
    replica: int,
    value: u32,
    other: int,
)
    requires
        0 <= replica,
        0 <= other,
    ensures
        value == 0 ==> with_observed(version, replica, value) == version,
        value > 0 ==> {
            let after = with_observed(version, replica, value);
            &&& after.len() == if version.len() > replica {
                version.len() as int
            } else {
                replica + 1
            }
            &&& after[replica] == if replica < version.len() && version[replica] > value {
                version[replica]
            } else {
                value
            }
            &&& other != replica && other < after.len() ==> after[other] == if other
                < version.len() {
                version[other]
            } else {
                0
            }
        },
        entry(version, other) == if other < version.len() {
            version[other]
        } else {
            0
        },
{
}

} // verus!
