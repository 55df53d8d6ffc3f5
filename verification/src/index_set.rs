//! The index-set builder: flattening ranges into a deduplicated set of
//! zero-based indices.

use vstd::prelude::*;

use crate::positions::Range;

verus! {

/// The set of indices covered by a sequence of ranges.
pub open spec fn ranges_index_set(rs: Seq<Range>) -> Set<int> {
    Set::new(
        |x: int| exists|k: int| 0 <= k < rs.len() && (#[trigger] rs[k]).start <= x < rs[k].end,
    )
}

/// A deduplicated set of zero-based indices, supporting membership tests.
pub struct IndexSet {
    items: Vec<usize>,
}

impl View for IndexSet {
    type V = Set<int>;

    closed spec fn view(&self) -> Set<int> {
        Set::new(
            |x: int|
                exists|k: int| 0 <= k < self.items@.len() && (#[trigger] self.items@[k]) as int
                    == x,
        )
    }
}

impl IndexSet {
    /// The empty index set.
    pub fn new() -> (s: IndexSet)
        ensures
            s@ == Set::<int>::empty(),
    {
        let s = IndexSet { items: Vec::new() };
        proof {
            assert(s@ =~= Set::<int>::empty());
        }
        s
    }

    /// Whether `i` is a member of the set.
    pub fn contains(&self, i: usize) -> (r: bool)
        ensures
            r == self@.contains(i as int),
    {
        let mut k: usize = 0;
        while k < self.items.len()
            invariant
                k <= self.items@.len(),
                forall|j: int| 0 <= j < k ==> (#[trigger] self.items@[j]) != i,
            decreases self.items@.len() - k,
        {
            if self.items[k] == i {
                return true;
            }
            k += 1;
        }
        false
    }

    /// Add `i` to the set; a member already present is not duplicated.
    pub fn insert(&mut self, i: usize)
        ensures
            final(self)@ == old(self)@.insert(i as int),
    {
        if !self.contains(i) {
            self.items.push(i);
            proof {
                let old_items = old(self).items@;
                let new_items = self.items@;
                assert(new_items =~= old_items.push(i));
                assert forall|x: int| #[trigger] self@.contains(x) implies old(self)@.insert(
                    i as int,
                ).contains(x) by {
                    let k = choose|k: int|
                        0 <= k < new_items.len() && (#[trigger] new_items[k]) as int == x;
                    if k < old_items.len() {
                        assert(old_items[k] as int == x);
                    } else {
                        assert(x == i as int);
                    }
                }
                assert forall|x: int| old(self)@.insert(i as int).contains(x) implies self@.contains(
                    x,
                ) by {
                    if x == i as int {
                        assert(new_items[old_items.len() as int] as int == x);
                    } else {
                        let k = choose|k: int|
                            0 <= k < old_items.len() && (#[trigger] old_items[k]) as int == x;
                        assert(new_items[k] as int == x);
                    }
                }
                assert(self@ =~= old(self)@.insert(i as int));
            }
        } else {
            proof {
                assert(self@ =~= old(self)@.insert(i as int));
            }
        }
    }
}

/// Flatten a list of ranges into the set of all indices any of them covers.
/// Overlapping ranges collapse; this stage cannot fail.
pub fn build_index_set(positions: &Vec<Range>) -> (s: IndexSet)
    ensures
        s@ == ranges_index_set(positions@),
{
    let mut s = IndexSet::new();
    let mut k: usize = 0;
    proof {
        assert(s@ =~= ranges_index_set(positions@.take(0int)));
    }
    while k < positions.len()
        invariant
            k <= positions@.len(),
            s@ == ranges_index_set(positions@.take(k as int)),
        decreases positions@.len() - k,
    {
        let r = positions[k];
        let ghost base = s@;
        let mut j: usize = r.start;
        proof {
            assert(s@ =~= base.union(Set::new(|x: int| r.start <= x < r.start)));
        }
        while j < r.end
            invariant
                r.start <= j <= r.end || j == r.start,
                s@ == base.union(Set::new(|x: int| r.start <= x < j)),
            decreases r.end - j,
        {
            s.insert(j);
            proof {
                assert(s@ =~= base.union(Set::new(|x: int| r.start <= x < j + 1)));
            }
            j += 1;
        }
        proof {
            assert(positions@.take(k + 1).drop_last() =~= positions@.take(k as int));
            assert(positions@.take(k + 1).last() == positions@[k as int]);
            if r.start < r.end {
                assert(s@ =~= ranges_index_set(positions@.take(k + 1)));
            } else {
                assert(s@ =~= base);
                assert(s@ =~= ranges_index_set(positions@.take(k + 1)));
            }
        }
        k += 1;
    }
    proof {
        assert(positions@.take(positions@.len() as int) =~= positions@);
    }
    s
}

} // verus!
