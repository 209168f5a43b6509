use vstd::prelude::*;

verus! {

/// A growable array of items whose slots can be handed back and reused.
///
/// Freed slots are kept in a stack: the slot freed last is the first one that
/// `new_index` and `push` hand out again.
pub struct ResourcePool<T: Default> {
    array: Vec<T>,
    returned_indices: Vec<usize>,
}

impl<T: Default> ResourcePool<T> {
    /// The items, slot by slot.
    pub closed spec fn items(&self) -> Seq<T> {
        self.array@
    }

    /// The stack of returned slots; its last element is handed out first.
    pub closed spec fn free_slots(&self) -> Seq<usize> {
        self.returned_indices@
    }

    /// The slot that the next allocation reuses can be written: it lies in
    /// the array (or nothing has been returned).
    pub open spec fn next_slot_in_range(&self) -> bool {
        self.free_slots().len() > 0 ==> self.free_slots().last() < self.items().len()
    }

    /// Slot `i` is handed out: it lies in the array and has not been
    /// returned.
    pub open spec fn is_live(&self, i: usize) -> bool {
        i < self.items().len() && !self.free_slots().contains(i)
    }

    /// Every returned slot lies in the array and is waiting once.
    pub open spec fn free_slots_valid(&self) -> bool {
        &&& self.free_slots().no_duplicates()
        &&& forall|k: int| 0 <= k < self.free_slots().len() ==> #[trigger] self.free_slots()[k] < self.items().len()
    }

    pub fn new() -> (pool: Self)
        ensures
            pool.items() == Seq::<T>::empty(),
            pool.free_slots() == Seq::<usize>::empty(),
            pool.free_slots_valid(),
            forall|i: usize| !pool.is_live(i),
    {
        Self { array: Vec::new(), returned_indices: Vec::new() }
    }

    /// Number of slots.
    pub fn len(&self) -> (n: usize)
        ensures
            n == self.items().len(),
    {
        self.array.len()
    }

    /// Number of returned slots waiting to be reused.
    pub fn num_free_slots(&self) -> (n: usize)
        ensures
            n == self.free_slots().len(),
    {
        self.returned_indices.len()
    }

    pub fn get(&self, index: usize) -> (r: Option<&T>)
        ensures
            index < self.items().len() ==> r == Some(&self.items()[index as int]),
            index >= self.items().len() ==> r is None,
    {
        if index < self.array.len() {
            Some(&self.array[index])
        } else {
            None
        }
    }

    pub fn get_mut(&mut self, index: usize) -> (r: Option<&mut T>)
        ensures
            index < old(self).items().len() ==> {
                &&& r is Some
                &&& *r->0 == old(self).items()[index as int]
                &&& final(self).items() == old(self).items().update(index as int, *final(r->0))
                &&& final(self).free_slots() == old(self).free_slots()
            },
            index >= old(self).items().len() ==> r is None && *final(self) == *old(self),
    {
        if index < self.array.len() {
            Some(&mut self.array[index])
        } else {
            None
        }
    }

    /// Hands `index` back to the pool. Nothing is checked here: an index
    /// outside the array is stored as well. The slot keeps its item. Where a
    /// handed-out slot is returned, it is no longer handed out and the
    /// returned slots stay valid.
    pub fn free_resource(&mut self, index: usize)
        ensures
            final(self).items() == old(self).items(),
            final(self).free_slots() == old(self).free_slots().push(index),
            old(self).free_slots_valid() && old(self).is_live(index) ==> {
                &&& final(self).free_slots_valid()
                &&& forall|i: usize| #[trigger] final(self).is_live(i) <==> old(self).is_live(i) && i != index
            },
    {
        self.returned_indices.push(index);
        proof {
            let f = self.free_slots();
            let o = old(self).free_slots();
            assert(f.drop_last() =~= o);
            assert forall|i: usize| #[trigger] self.is_live(i) <==> old(self).is_live(i) && i != index by {
                if i < self.items().len() {
                    if f.contains(i) {
                        let k = choose|k: int| 0 <= k < f.len() && f[k] == i;
                        if k < o.len() {
                            assert(o[k] == f[k]);
                        }
                    }
                    if o.contains(i) {
                        let k = choose|k: int| 0 <= k < o.len() && o[k] == i;
                        assert(f[k] == o[k]);
                    }
                    if i == index {
                        assert(f[o.len() as int] == index);
                    }
                }
            }
            if old(self).free_slots_valid() && old(self).is_live(index) {
                assert forall|a: int, b: int| 0 <= a < f.len() && 0 <= b < f.len() && a != b implies f[a] != f[b] by {
                    if a < o.len() && b < o.len() {
                        assert(f[a] == o[a] && f[b] == o[b]);
                    } else if a < o.len() {
                        assert(f[a] == o[a]);
                        assert(o.contains(o[a]));
                    } else if b < o.len() {
                        assert(f[b] == o[b]);
                        assert(o.contains(o[b]));
                    }
                }
                assert forall|k: int| 0 <= k < f.len() implies #[trigger] f[k] < self.items().len() by {
                    if k < o.len() {
                        assert(f[k] == o[k]);
                    }
                }
            }
        }
    }

    /// Returns a slot for a new item: the slot returned last if there is one,
    /// otherwise a new slot at the end that holds `T::default()`.
    pub fn new_index(&mut self) -> (index: usize)
        ensures
            old(self).free_slots().len() > 0 ==> {
                &&& index == old(self).free_slots().last()
                &&& final(self).free_slots() == old(self).free_slots().drop_last()
                &&& final(self).items() == old(self).items()
            },
            old(self).free_slots().len() == 0 ==> {
                &&& index == old(self).items().len()
                &&& final(self).free_slots() == old(self).free_slots()
                &&& final(self).items().len() == old(self).items().len() + 1
                &&& final(self).items().drop_last() == old(self).items()
                &&& call_ensures(T::default, (), final(self).items().last())
                &&& final(self).items().len() <= usize::MAX
            },
            slot_taken(*old(self), *final(self), index),
            old(self).free_slots_valid() ==> {
                &&& !old(self).is_live(index)
                &&& final(self).is_live(index)
                &&& final(self).free_slots_valid()
                &&& forall|i: usize| #[trigger] final(self).is_live(i) <==> old(self).is_live(i) || i == index
            },
    {
        proof {
            if old(self).free_slots_valid() {
                lemma_take_slot(*old(self));
            }
        }
        if !self.returned_indices.is_empty() {
            let index = self.returned_indices.pop().unwrap();
            return index;
        }
        let value = T::default();
        self.array.push(value);
        proof {
            assert(self.array@.drop_last() =~= old(self).array@);
        }
        self.array.len() - 1
    }

    /// `new_index` followed by a mutable borrow of the slot it handed out.
    pub fn get_new(&mut self) -> (r: (&mut T, usize))
        requires
            old(self).next_slot_in_range(),
        ensures
            old(self).free_slots().len() > 0 ==> {
                &&& r.1 == old(self).free_slots().last()
                &&& *r.0 == old(self).items()[r.1 as int]
                &&& final(self).free_slots() == old(self).free_slots().drop_last()
                &&& final(self).items() == old(self).items().update(r.1 as int, *final(r.0))
            },
            old(self).free_slots().len() == 0 ==> {
                &&& r.1 == old(self).items().len()
                &&& call_ensures(T::default, (), *r.0)
                &&& final(self).free_slots() == old(self).free_slots()
                &&& final(self).items() == old(self).items().push(*final(r.0))
                &&& old(self).items().len() < usize::MAX
            },
            slot_taken(*old(self), *final(self), r.1),
            old(self).free_slots_valid() ==> {
                &&& !old(self).is_live(r.1)
                &&& final(self).free_slots_valid()
                &&& forall|i: usize| #[trigger] final(self).is_live(i) <==> old(self).is_live(i) || i == r.1
            },
    {
        let index = self.new_index();
        proof {
            if old(self).free_slots_valid() {
                assert forall|i: usize|
                    i < self.items().len() && !#[trigger] self.free_slots().contains(i) <==> old(self).is_live(i)
                        || i == index by {
                    assert(self.is_live(i) <==> old(self).is_live(i) || i == index);
                }
            }
        }
        let slot = &mut self.array[index];
        (slot, index)
    }

    /// Stores `value` in the slot returned last, or appends it.
    ///
    /// The index handed back is the reused slot; when the value is appended it
    /// is the new length of the array, one past the slot that now holds it.
    pub fn push(&mut self, value: T) -> (index: usize)
        requires
            old(self).next_slot_in_range(),
        ensures
            old(self).free_slots().len() > 0 ==> {
                &&& index == old(self).free_slots().last()
                &&& final(self).free_slots() == old(self).free_slots().drop_last()
                &&& final(self).items() == old(self).items().update(index as int, value)
            },
            old(self).free_slots().len() == 0 ==> {
                &&& index == old(self).items().len() + 1
                &&& final(self).free_slots() == old(self).free_slots()
                &&& final(self).items() == old(self).items().push(value)
            },
            old(self).free_slots_valid() ==> {
                let slot = if old(self).free_slots().len() > 0 {
                    index as int
                } else {
                    index - 1
                };
                &&& !old(self).is_live(slot as usize)
                &&& final(self).free_slots_valid()
                &&& forall|i: usize| #[trigger] final(self).is_live(i) <==> old(self).is_live(i) || i == slot
            },
    {
        proof {
            if old(self).free_slots_valid() {
                lemma_take_slot(*old(self));
            }
        }
        let index;
        if !self.returned_indices.is_empty() {
            index = self.returned_indices.pop().unwrap();
            self.array.set(index, value);
        } else {
            self.array.push(value);
            index = self.array.len();
        }
        index
    }
}

/// How the slots change when `index` is handed out by `new_index` or
/// `get_new`: the slot returned last is taken off the stack, or, with none
/// returned, a new slot is added at the end.
pub open spec fn slot_taken<T: Default>(before: ResourcePool<T>, after: ResourcePool<T>, index: usize) -> bool {
    if before.free_slots().len() > 0 {
        &&& index == before.free_slots().last()
        &&& after.free_slots() == before.free_slots().drop_last()
        &&& after.items().len() == before.items().len()
    } else {
        &&& index == before.items().len()
        &&& after.free_slots() == before.free_slots()
        &&& after.items().len() == before.items().len() + 1
    }
}

/// From a new pool, `k` calls of `new_index` or `get_new` hand out the
/// slots 0, 1, ..., k - 1 in order; all of them are then handed out and in
/// the array, and no slot at `k` or above exists. (Handing one back with
/// `free_resource` keeps the items, so every one of them stays readable.)
pub proof fn lemma_fresh_pool_hands_out_in_order<T: Default>(pools: Seq<ResourcePool<T>>, indices: Seq<usize>)
    requires
        pools.len() == indices.len() + 1,
        pools[0].items().len() == 0,
        pools[0].free_slots().len() == 0,
        forall|k: int| 0 <= k < indices.len() ==> #[trigger] slot_taken(pools[k], pools[k + 1], indices[k]),
    ensures
        forall|k: int| 0 <= k < indices.len() ==> #[trigger] indices[k] == k,
        pools.last().items().len() == indices.len(),
        pools.last().free_slots().len() == 0,
        forall|k: int| 0 <= k < indices.len() ==> #[trigger] pools.last().is_live(indices[k]),
        forall|j: usize| j >= indices.len() ==> !#[trigger] pools.last().is_live(j) && j >= pools.last().items().len(),
    decreases indices.len(),
{
    let n = indices.len() as int;
    if n > 0 {
        let p2 = pools.drop_last();
        let i2 = indices.drop_last();
        assert forall|k: int| 0 <= k < i2.len() implies #[trigger] slot_taken(p2[k], p2[k + 1], i2[k]) by {
            assert(slot_taken(pools[k], pools[k + 1], indices[k]));
        }
        lemma_fresh_pool_hands_out_in_order(p2, i2);
        let k = n - 1;
        assert(slot_taken(pools[k], pools[k + 1], indices[k]));
        assert(p2.last() == pools[k]);
        assert(pools.last() == pools[n]);
        assert forall|m: int| 0 <= m < n implies #[trigger] indices[m] == m by {
            if m < k {
                assert(i2[m] == indices[m]);
            }
        }
        assert forall|m: int| 0 <= m < n implies #[trigger] pools.last().is_live(indices[m]) by {
            assert(indices[m] == m);
            assert(pools.last().free_slots().len() == 0);
        }
    }
}

/// What taking the next slot does to the handed-out slots: the slot on top
/// of the stack, or a new slot at the end, becomes handed out and no other
/// changes.
proof fn lemma_take_slot<T: Default>(p: ResourcePool<T>)
    requires
        p.free_slots_valid(),
    ensures
        p.free_slots().len() > 0 ==> {
            let f = p.free_slots().drop_last();
            let top = p.free_slots().last();
            &&& !p.is_live(top)
            &&& top < p.items().len()
            &&& f.no_duplicates()
            &&& forall|k: int| 0 <= k < f.len() ==> #[trigger] f[k] < p.items().len()
            &&& !f.contains(top)
            &&& forall|i: usize| (i < p.items().len() && !#[trigger] f.contains(i)) <==> p.is_live(i) || i == top
        },
        p.free_slots().len() == 0 ==> forall|i: usize| #[trigger] p.is_live(i) <==> i < p.items().len(),
{
    let s = p.free_slots();
    if s.len() > 0 {
        let f = s.drop_last();
        let top = s.last();
        assert(s[s.len() - 1] == top);
        assert(s.contains(top));
        assert(!f.contains(top)) by {
            if f.contains(top) {
                let k = choose|k: int| 0 <= k < f.len() && f[k] == top;
                assert(s[k] == f[k]);
            }
        }
        assert forall|k: int| 0 <= k < f.len() implies #[trigger] f[k] < p.items().len() by {
            assert(s[k] == f[k]);
        }
        assert forall|i: usize| (i < p.items().len() && !#[trigger] f.contains(i)) <==> p.is_live(i) || i == top by {
            if s.contains(i) {
                let k = choose|k: int| 0 <= k < s.len() && s[k] == i;
                if k < f.len() {
                    assert(f[k] == s[k]);
                }
            }
            if f.contains(i) {
                let k = choose|k: int| 0 <= k < f.len() && f[k] == i;
                assert(s[k] == f[k]);
            }
        }
    }
}

/// Handing a slot back and then asking for a new slot gives that slot, and
/// leaves the pool as it was before the slot was handed back.
pub proof fn lemma_freed_slot_is_reused<T: Default>(
    before: ResourcePool<T>,
    freed: ResourcePool<T>,
    after: ResourcePool<T>,
    index: usize,
    reused: usize,
)
    requires
        freed.items() == before.items(),
        freed.free_slots() == before.free_slots().push(index),
        freed.free_slots().len() > 0 ==> {
            &&& reused == freed.free_slots().last()
            &&& after.free_slots() == freed.free_slots().drop_last()
            &&& after.items() == freed.items()
        },
    ensures
        reused == index,
        after.items() == before.items(),
        after.free_slots() == before.free_slots(),
{
    assert(before.free_slots().push(index).drop_last() =~= before.free_slots());
}

/// A value pushed into a reused slot is read back at the index that the push
/// hands out, and the other slots keep their items.
pub proof fn lemma_push_then_get<T: Default>(before: ResourcePool<T>, after: ResourcePool<T>, value: T, index: usize)
    requires
        before.next_slot_in_range(),
        before.free_slots().len() > 0,
        before.free_slots().len() > 0 ==> {
            &&& index == before.free_slots().last()
            &&& after.free_slots() == before.free_slots().drop_last()
            &&& after.items() == before.items().update(index as int, value)
        },
    ensures
        index < after.items().len(),
        after.items()[index as int] == value,
        forall|i: int| 0 <= i < before.items().len() && i != index ==> after.items()[i] == before.items()[i],
{
}

} // verus!
