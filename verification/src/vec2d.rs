//! A ragged two-dimensional append buffer.
//!
//! Items are appended flat into `chart`; `indices` records where each sealed
//! set begins and ends. The tail of `chart` past `current_start` is the
//! in-progress set, which `next_set` seals.

use vstd::prelude::*;

verus! {

/// Capacity hints for a fresh [`Vec2d`].
#[derive(Default)]
pub struct Vec2dCapacity {
    /// Reserved room for items.
    pub chart_capacity: usize,
    /// Reserved room for set offsets.
    pub indices_capacity: usize,
}

/// An appendable ragged two-dimensional array: flat item storage plus an
/// offset index per sealed set.
pub struct Vec2d<I> {
    chart: Vec<I>,
    indices: Vec<usize>,
    current_start: usize,
}

impl<I> Vec2d<I> {
    /// The flat sequence of all stored items, sealed and in-progress alike.
    pub closed spec fn items(&self) -> Seq<I> {
        self.chart@
    }

    /// How many sets have been sealed.
    pub closed spec fn num_sets(&self) -> int {
        self.indices@.len() - 1
    }

    /// The offset at which set `i` begins (the offset at `num_sets()` is the
    /// start of the in-progress set).
    pub closed spec fn offset(&self, i: int) -> int {
        self.indices@[i] as int
    }

    /// Structural well-formedness: offsets start at zero, never decrease,
    /// and the last offset marks where the in-progress tail begins.
    pub closed spec fn wf(&self) -> bool {
        &&& self.indices@.len() >= 1
        &&& self.indices@[0] == 0
        &&& forall|i: int, j: int|
            0 <= i <= j < self.indices@.len() ==> self.indices@[i] <= self.indices@[j]
        &&& self.indices@[self.indices@.len() - 1] == self.current_start
        &&& self.current_start <= self.chart@.len()
    }

    /// The items of sealed set `i`.
    pub closed spec fn set_at(&self, i: int) -> Seq<I> {
        self.chart@.subrange(self.offset(i), self.offset(i + 1))
    }

    /// The items of the in-progress set.
    pub closed spec fn current(&self) -> Seq<I> {
        self.chart@.subrange(self.current_start as int, self.chart@.len() as int)
    }

    /// A fresh store with no sealed sets and an empty in-progress set.
    pub fn with_capacity(capacity: Vec2dCapacity) -> (r: Self)
        ensures
            r.wf(),
            r.num_sets() == 0,
            r.items().len() == 0,
            r.current().len() == 0,
    {
        let mut indices: Vec<usize> = Vec::with_capacity(capacity.indices_capacity);
        indices.push(0);
        Vec2d { chart: Vec::with_capacity(capacity.chart_capacity), indices, current_start: 0 }
    }

    /// Forgets every item and every sealed set.
    pub fn clear(&mut self)
        ensures
            final(self).wf(),
            final(self).num_sets() == 0,
            final(self).items().len() == 0,
            final(self).current().len() == 0,
    {
        self.chart.clear();
        self.indices.clear();
        self.indices.push(0);
        self.current_start = 0;
    }

    /// The items of the in-progress set, as a slice.
    pub fn last(&self) -> (r: &[I])
        requires
            self.wf(),
        ensures
            r@ == self.current(),
    {
        vstd::slice::slice_subrange(self.chart.as_slice(), self.current_start, self.chart.len())
    }

    /// The most recently pushed item, sealed or not.
    pub fn last_item(&self) -> (r: Option<&I>)
        ensures
            self.items().len() == 0 ==> r is None,
            self.items().len() > 0 ==> r == Some(&self.items()[self.items().len() - 1]),
    {
        if self.chart.len() == 0 {
            None
        } else {
            Some(&self.chart[self.chart.len() - 1])
        }
    }

    /// The item at flat position `index`, if any.
    pub fn get_item(&self, index: usize) -> (r: Option<&I>)
        ensures
            index >= self.items().len() ==> r is None,
            index < self.items().len() ==> r == Some(&self.items()[index as int]),
    {
        if index < self.chart.len() {
            Some(&self.chart[index])
        } else {
            None
        }
    }

    /// Appends an item to the in-progress set.
    pub fn push_item(&mut self, item: I)
        requires
            old(self).wf(),
        ensures
            final(self).wf(),
            final(self).num_sets() == old(self).num_sets(),
            final(self).items() == old(self).items().push(item),
            final(self).current() == old(self).current().push(item),
            forall|i: int|
                0 <= i < old(self).num_sets() ==> final(self).set_at(i) == old(self).set_at(i),
    {
        self.chart.push(item);
        proof {
            assert(final(self).current() =~= old(self).current().push(item));
            assert forall|i: int| 0 <= i < old(self).num_sets() implies final(self).set_at(i)
                == old(self).set_at(i) by {
                assert(final(self).set_at(i) =~= old(self).set_at(i));
            }
        }
    }

    /// Removes and returns the last item of the in-progress set, or
    /// `None` if that set is empty: popping reaches only the in-progress
    /// items, never into a sealed set.
    pub fn pop_item(&mut self) -> (r: Option<I>)
        requires
            old(self).wf(),
        ensures
            final(self).wf(),
            final(self).num_sets() == old(self).num_sets(),
            old(self).current().len() == 0 ==> r is None && *final(self) == *old(self),
            old(self).current().len() > 0 ==> r == Some(
                old(self).current()[old(self).current().len() - 1],
            ) && final(self).current() == old(self).current().drop_last(),
            forall|i: int|
                0 <= i < old(self).num_sets() ==> final(self).set_at(i) == old(self).set_at(i),
    {
        if self.chart.len() <= self.current_start {
            return None;
        }
        let r = self.chart.pop();
        proof {
            assert(final(self).current() =~= old(self).current().drop_last());
            assert forall|i: int| 0 <= i < old(self).num_sets() implies final(self).set_at(i)
                == old(self).set_at(i) by {
                assert(final(self).set_at(i) =~= old(self).set_at(i));
            }
        }
        r
    }

    /// The number of items stored in all sets together.
    pub fn item_count(&self) -> (r: usize)
        ensures
            r == self.items().len(),
    {
        self.chart.len()
    }

    /// The flat offset at which set `set_id` begins.
    pub fn index_at(&self, set_id: usize) -> (r: usize)
        requires
            self.wf(),
            set_id <= self.num_sets(),
        ensures
            r == self.offset(set_id as int),
    {
        self.indices[set_id]
    }

    /// Seals the in-progress set: it becomes sealed set `num_sets()` and a
    /// fresh, empty in-progress set begins.
    pub fn next_set(&mut self)
        requires
            old(self).wf(),
        ensures
            final(self).wf(),
            final(self).num_sets() == old(self).num_sets() + 1,
            final(self).items() == old(self).items(),
            final(self).set_at(old(self).num_sets()) == old(self).current(),
            final(self).current().len() == 0,
            forall|i: int|
                0 <= i < old(self).num_sets() ==> final(self).set_at(i) == old(self).set_at(i),
    {
        self.current_start = self.chart.len();
        self.indices.push(self.current_start);
        proof {
            assert(final(self).set_at(old(self).num_sets()) =~= old(self).current());
            assert forall|i: int| 0 <= i < old(self).num_sets() implies final(self).set_at(i)
                == old(self).set_at(i) by {
                assert(final(self).set_at(i) =~= old(self).set_at(i));
            }
        }
    }

    /// Appends every given item to the in-progress set, then seals it.
    pub fn extend_with_set(&mut self, set: Vec<I>)
        requires
            old(self).wf(),
        ensures
            final(self).wf(),
            final(self).num_sets() == old(self).num_sets() + 1,
            final(self).set_at(old(self).num_sets()) == old(self).current() + set@,
            final(self).current().len() == 0,
            forall|i: int|
                0 <= i < old(self).num_sets() ==> final(self).set_at(i) == old(self).set_at(i),
    {
        let mut set = set;
        let ghost all = set@;
        let ghost n = all.len() as int;
        while set.len() > 0
            invariant
                self.wf(),
                n == all.len(),
                set@.len() <= n,
                set@ == all.subrange(n - set@.len(), n),
                self.num_sets() == old(self).num_sets(),
                self.current() == old(self).current() + all.take(n - set@.len()),
                forall|i: int|
                    0 <= i < old(self).num_sets() ==> self.set_at(i) == old(self).set_at(i),
            decreases set@.len(),
        {
            let ghost k = n - set@.len();
            let ghost pre = set@;
            let item = set.remove(0);
            proof {
                assert(item == pre[0] && pre[0] == all.subrange(k, n)[0]);
                assert(item == all[k]);
                assert(set@ =~= all.subrange(k + 1, n));
            }
            self.push_item(item);
            proof {
                assert(self.current() =~= old(self).current() + all.take(k + 1));
            }
        }
        proof {
            assert(all.take(n) =~= all);
        }
        self.next_set();
    }

    /// The items of sealed set `set_id`, as a slice.
    pub fn set_slice(&self, set_id: usize) -> (r: &[I])
        requires
            self.wf(),
            set_id < self.num_sets(),
        ensures
            r@ == self.set_at(set_id as int),
    {
        let _count = self.indices.len();
        let start = self.indices[set_id];
        let end = self.indices[set_id + 1];
        vstd::slice::slice_subrange(self.chart.as_slice(), start, end)
    }

    /// The number of sealed sets.
    pub fn len(&self) -> (r: usize)
        requires
            self.wf(),
        ensures
            r == self.num_sets(),
    {
        self.indices.len() - 1
    }
}

impl<I: Copy> Vec2d<I> {
    /// Shrinks the store to `new_len - 1` sealed sets while preserving the
    /// in-progress tail, which moves down to follow the kept sets.
    pub fn truncate(&mut self, new_len: usize)
        requires
            old(self).wf(),
            1 <= new_len <= old(self).num_sets() + 1,
        ensures
            final(self).wf(),
            final(self).num_sets() == new_len - 1,
            forall|i: int|
                0 <= i < new_len - 1 ==> final(self).set_at(i) == old(self).set_at(i),
            final(self).current() == old(self).current(),
    {
        let new_start = self.indices[new_len - 1];
        let tail_len = self.chart.len() - self.current_start;
        let mut k: usize = 0;
        while k < tail_len
            invariant
                old(self).wf(),
                new_len <= old(self).indices@.len(),
                new_start == old(self).offset(new_len - 1),
                new_start <= old(self).current_start,
                tail_len == old(self).chart@.len() - old(self).current_start,
                old(self).chart@.len() <= usize::MAX,
                k <= tail_len,
                self.indices == old(self).indices,
                self.current_start == old(self).current_start,
                self.chart@.len() == old(self).chart@.len(),
                forall|j: int|
                    0 <= j < k ==> #[trigger] self.chart@[new_start + j]
                        == old(self).chart@[old(self).current_start + j],
                forall|j: int|
                    0 <= j < old(self).chart@.len() && !(new_start <= j < new_start + k)
                        ==> self.chart@[j] == old(self).chart@[j],
            decreases tail_len - k,
        {
            let item = self.chart[self.current_start + k];
            self.chart[new_start + k] = item;
            k += 1;
        }
        let ghost moved = self.chart@;
        self.chart.truncate(new_start + tail_len);
        self.indices.truncate(new_len);
        self.current_start = new_start;
        proof {
            assert(new_start + tail_len <= moved.len());
            assert(self.chart@ == moved.subrange(0, new_start + tail_len));
            assert(self.indices@ == old(self).indices@.subrange(0, new_len as int));
            assert(self.wf());
            assert forall|j: int| 0 <= j < tail_len implies #[trigger] self.chart@[new_start + j]
                == old(self).chart@[old(self).current_start + j] by {
                assert(moved[new_start + j] == old(self).chart@[old(self).current_start + j]);
            }
            assert(self.current().len() == tail_len);
            assert(old(self).current().len() == tail_len);
            assert forall|j: int| 0 <= j < tail_len implies self.current()[j] == old(
                self,
            ).current()[j] by {
                assert(self.current()[j] == self.chart@[new_start + j]);
                assert(old(self).current()[j] == old(self).chart@[old(self).current_start + j]);
            }
            assert(self.current() =~= old(self).current());
            assert forall|i: int| 0 <= i < new_len - 1 implies self.set_at(i) == old(self).set_at(
                i,
            ) by {
                assert(old(self).offset(i + 1) <= new_start);
                assert forall|j: int| old(self).offset(i) <= j < old(self).offset(i + 1) implies
                    self.chart@[j] == old(self).chart@[j] by {
                    assert(moved[j] == old(self).chart@[j]);
                }
                assert(self.set_at(i) =~= old(self).set_at(i));
            }
        }
    }
}

impl<I> Default for Vec2d<I> {
    /// A fresh store, equivalent to `with_capacity` of zero hints.
    fn default() -> (r: Self)
        ensures
            r.wf(),
            r.num_sets() == 0,
            r.items().len() == 0,
            r.current().len() == 0,
    {
        Vec2d::with_capacity(Vec2dCapacity { chart_capacity: 0, indices_capacity: 0 })
    }
}

} // verus!
