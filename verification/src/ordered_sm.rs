//! Ordered slot map: a container mapping opaque, generation-safe ids to
//! values, with an explicit insertion/traversal order that is independent of
//! any underlying storage order.
//!
//! Ids are allocated from a monotonic counter, so an id issued once is never
//! issued again by the same store (unless the allocator is explicitly reset
//! with [`OrderedSlotMap::clear_with_reset`]); a stale id is recognised as
//! absent rather than silently aliasing a newer entry.

use vstd::prelude::*;

verus! {

/// Opaque handle to an entry of an [`OrderedSlotMap`].
///
/// A handle has no meaning beyond identity comparison; holders must treat the
/// inner number as private to the store.
#[derive(Clone, Copy, PartialEq, Eq, Structural, Hash, Debug)]
pub struct SlotId(pub u64);

/// Container of `(id, value)` entries in an explicit traversal order.
///
/// The view is exactly that ordered sequence of live entries; the allocator
/// counter is kept abstract.
pub struct OrderedSlotMap<Item> {
    entries: Vec<(SlotId, Item)>,
    next: u64,
}

/// The ids of the entries of `s`, in traversal order.
pub open spec fn ids_of<Item>(s: Seq<(SlotId, Item)>) -> Seq<SlotId> {
    s.map_values(|p: (SlotId, Item)| p.0)
}

/// The values of the entries of `s`, in traversal order.
pub open spec fn values_of<Item>(s: Seq<(SlotId, Item)>) -> Seq<Item> {
    s.map_values(|p: (SlotId, Item)| p.1)
}

/// No id occurs twice among the entries of `s`.
pub open spec fn unique_ids<Item>(s: Seq<(SlotId, Item)>) -> bool {
    forall|i: int, j: int| 0 <= i < j < s.len() ==> (#[trigger] s[i]).0 != (#[trigger] s[j]).0
}

/// `s` has an entry with id `id`.
pub open spec fn contains_id<Item>(s: Seq<(SlotId, Item)>, id: SlotId) -> bool {
    exists|i: int| 0 <= i < s.len() && (#[trigger] s[i]).0 == id
}

/// The position of the entry with id `id` in `s` (meaningful only when
/// `contains_id(s, id)` holds; unique when `unique_ids(s)` holds).
pub open spec fn id_index<Item>(s: Seq<(SlotId, Item)>, id: SlotId) -> int {
    choose|i: int| 0 <= i < s.len() && (#[trigger] s[i]).0 == id
}

/// The entries of `s` after removing, one id at a time in order, each id of
/// `ids` that is still live at its turn.
pub open spec fn remove_ids<Item>(s: Seq<(SlotId, Item)>, ids: Seq<SlotId>) -> Seq<(SlotId, Item)>
    decreases ids.len(),
{
    if ids.len() == 0 {
        s
    } else {
        let prev = remove_ids(s, ids.drop_last());
        if contains_id(prev, ids.last()) {
            prev.remove(id_index(prev, ids.last()))
        } else {
            prev
        }
    }
}

/// The values removed by `remove_ids(s, ids)`, in removal order.
pub open spec fn removed_values<Item>(s: Seq<(SlotId, Item)>, ids: Seq<SlotId>) -> Seq<Item>
    decreases ids.len(),
{
    if ids.len() == 0 {
        Seq::empty()
    } else {
        let prev = remove_ids(s, ids.drop_last());
        let vs = removed_values(s, ids.drop_last());
        if contains_id(prev, ids.last()) {
            vs.push(prev[id_index(prev, ids.last())].1)
        } else {
            vs
        }
    }
}

impl<Item> View for OrderedSlotMap<Item> {
    type V = Seq<(SlotId, Item)>;

    closed spec fn view(&self) -> Seq<(SlotId, Item)> {
        self.entries@
    }
}

impl<Item: Copy> OrderedSlotMap<Item> {
    /// Value of the id allocator: every id issued so far lies below it.
    pub closed spec fn allocator(&self) -> int {
        self.next as int
    }

    /// Well-formedness: ids are pairwise distinct and below the allocator,
    /// so a fresh allocation can never collide with a live entry.
    pub open spec fn wf(&self) -> bool {
        &&& unique_ids(self@)
        &&& forall|i: int| 0 <= i < self@.len() ==> ((#[trigger] self@[i]).0).0 < self.allocator()
    }

    /// Create a new empty store.
    pub fn new() -> (r: Self)
        ensures
            r@ == Seq::<(SlotId, Item)>::empty(),
            r.wf(),
            r.allocator() == 0,
    {
        OrderedSlotMap { entries: Vec::new(), next: 0 }
    }

    /// Number of live entries.
    pub fn len(&self) -> (r: usize)
        ensures
            r == self@.len(),
    {
        self.entries.len()
    }

    /// Whether the store has no live entry.
    pub fn is_empty(&self) -> (r: bool)
        ensures
            r == (self@.len() == 0),
    {
        self.entries.len() == 0
    }

    /// Append a value at the order tail; returns its fresh id.
    pub fn push(&mut self, item: Item) -> (id: SlotId)
        requires
            old(self).wf(),
            old(self).allocator() < u64::MAX,
        ensures
            final(self).wf(),
            id.0 == old(self).allocator(),
            !contains_id(old(self)@, id),
            final(self)@ == old(self)@.push((id, item)),
            final(self).allocator() == old(self).allocator() + 1,
    {
        let id = SlotId(self.next);
        self.next = self.next + 1;
        self.entries.push((id, item));
        id
    }

    /// Insert a value at order position `index` (`index == len` appends);
    /// returns its fresh id.
    pub fn insert(&mut self, index: usize, item: Item) -> (id: SlotId)
        requires
            old(self).wf(),
            old(self).allocator() < u64::MAX,
            index <= old(self)@.len(),
        ensures
            final(self).wf(),
            id.0 == old(self).allocator(),
            !contains_id(old(self)@, id),
            final(self)@ == old(self)@.insert(index as int, (id, item)),
            final(self).allocator() == old(self).allocator() + 1,
    {
        let id = SlotId(self.next);
        self.next = self.next + 1;
        self.entries.insert(index, (id, item));
        id
    }

    /// Insert a value at the order head; returns its fresh id.
    pub fn prepend(&mut self, item: Item) -> (id: SlotId)
        requires
            old(self).wf(),
            old(self).allocator() < u64::MAX,
        ensures
            final(self).wf(),
            id.0 == old(self).allocator(),
            !contains_id(old(self)@, id),
            final(self)@ == old(self)@.insert(0, (id, item)),
            final(self).allocator() == old(self).allocator() + 1,
    {
        self.insert(0, item)
    }

    /// Remove the entry with id `id`, splicing it out of the order; returns
    /// its value, or `None` if the id is stale or foreign.
    pub fn remove(&mut self, id: SlotId) -> (r: Option<Item>)
        requires
            old(self).wf(),
        ensures
            final(self).wf(),
            final(self).allocator() == old(self).allocator(),
            contains_id(old(self)@, id) ==> {
                &&& final(self)@ == old(self)@.remove(id_index(old(self)@, id))
                &&& r == Some(old(self)@[id_index(old(self)@, id)].1)
            },
            !contains_id(old(self)@, id) ==> final(self)@ == old(self)@ && r is None,
            !contains_id(final(self)@, id),
    {
        let n = self.entries.len();
        let mut i: usize = 0;
        while i < n
            invariant
                self@ == old(self)@,
                self.allocator() == old(self).allocator(),
                self.wf(),
                n == self@.len(),
                i <= n,
                forall|j: int| 0 <= j < i ==> (#[trigger] self@[j]).0 != id,
            decreases n - i,
        {
            if self.entries[i].0 == id {
                let entry = self.entries.remove(i);
                proof {
                    let s = old(self)@;
                    assert(contains_id(s, id));
                    let k = id_index(s, id);
                    assert(s[k].0 == id);
                    assert(k == i) by {
                        assert(unique_ids(s));
                    }
                    assert(!contains_id(self@, id)) by {
                        assert(forall|j: int| 0 <= j < self@.len() ==> (#[trigger] self@[j]).0 != id);
                    }
                }
                return Some(entry.1);
            }
            i = i + 1;
        }
        proof {
            assert(!contains_id(self@, id));
        }
        None
    }

    /// Remove all entries, keeping the id allocator so previously issued ids
    /// are never reissued; returns how many entries were removed.
    pub fn clear(&mut self) -> (r: usize)
        ensures
            final(self)@ == Seq::<(SlotId, Item)>::empty(),
            final(self).allocator() == old(self).allocator(),
            final(self).wf(),
            r == old(self)@.len(),
    {
        let count = self.entries.len();
        self.entries.clear();
        count
    }

    /// Remove all entries and reset the id allocator, permitting id reuse;
    /// safe only when all holders of old ids are discarded too. Returns how
    /// many entries were removed.
    pub fn clear_with_reset(&mut self) -> (r: usize)
        ensures
            final(self)@ == Seq::<(SlotId, Item)>::empty(),
            final(self).allocator() == 0,
            final(self).wf(),
            r == old(self)@.len(),
    {
        let count = self.entries.len();
        self.entries.clear();
        self.next = 0;
        count
    }

    /// Reverse the traversal order of the entries.
    pub fn reverse(&mut self)
        requires
            old(self).wf(),
        ensures
            final(self).wf(),
            final(self)@ == old(self)@.reverse(),
            final(self).allocator() == old(self).allocator(),
    {
        let n = self.entries.len();
        let mut rev: Vec<(SlotId, Item)> = Vec::new();
        let mut i: usize = n;
        while i > 0
            invariant
                self@ == old(self)@,
                self.allocator() == old(self).allocator(),
                self.wf(),
                n == self@.len(),
                i <= n,
                rev@.len() == n - i,
                forall|j: int| 0 <= j < rev@.len() ==> rev@[j] == self@[n - 1 - j],
            decreases i,
        {
            i = i - 1;
            rev.push(self.entries[i]);
        }
        self.entries = rev;
        proof {
            assert(self@ =~= old(self)@.reverse());
        }
    }

    /// The ids of the live entries, in traversal order.
    pub fn ids(&self) -> (r: Vec<SlotId>)
        ensures
            r@ == ids_of(self@),
    {
        let n = self.entries.len();
        let mut out: Vec<SlotId> = Vec::new();
        let mut i: usize = 0;
        while i < n
            invariant
                n == self@.len(),
                i <= n,
                out@.len() == i,
                forall|j: int| 0 <= j < i ==> out@[j] == (#[trigger] self@[j]).0,
            decreases n - i,
        {
            out.push(self.entries[i].0);
            i = i + 1;
        }
        proof {
            assert(out@ =~= ids_of(self@));
        }
        out
    }

    /// All values, in traversal order.
    pub fn get_all_owned(&self) -> (r: Vec<Item>)
        ensures
            r@ == values_of(self@),
    {
        let n = self.entries.len();
        let mut out: Vec<Item> = Vec::new();
        let mut i: usize = 0;
        while i < n
            invariant
                n == self@.len(),
                i <= n,
                out@.len() == i,
                forall|j: int| 0 <= j < i ==> out@[j] == (#[trigger] self@[j]).1,
            decreases n - i,
        {
            out.push(self.entries[i].1);
            i = i + 1;
        }
        proof {
            assert(out@ =~= values_of(self@));
        }
        out
    }

    /// All `(id, value)` entries, in traversal order.
    pub fn enumerate(&self) -> (r: Vec<(SlotId, Item)>)
        ensures
            r@ == self@,
    {
        let n = self.entries.len();
        let mut out: Vec<(SlotId, Item)> = Vec::new();
        let mut i: usize = 0;
        while i < n
            invariant
                n == self@.len(),
                i <= n,
                out@ == self@.subrange(0, i as int),
            decreases n - i,
        {
            out.push(self.entries[i]);
            proof {
                assert(out@ =~= self@.subrange(0, i + 1));
            }
            i = i + 1;
        }
        proof {
            assert(out@ =~= self@);
        }
        out
    }

    /// Look up a value by id; `None` for a stale or foreign id.
    pub fn get(&self, id: SlotId) -> (r: Option<&Item>)
        requires
            self.wf(),
        ensures
            match r {
                Some(v) => contains_id(self@, id) && *v == self@[id_index(self@, id)].1,
                None => !contains_id(self@, id),
            },
    {
        let n = self.entries.len();
        let mut i: usize = 0;
        while i < n
            invariant
                self.wf(),
                n == self@.len(),
                i <= n,
                forall|j: int| 0 <= j < i ==> (#[trigger] self@[j]).0 != id,
            decreases n - i,
        {
            if self.entries[i].0 == id {
                proof {
                    assert(contains_id(self@, id));
                    assert(id_index(self@, id) == i) by {
                        let k = id_index(self@, id);
                        assert(self@[k].0 == id);
                        assert(unique_ids(self@));
                    }
                }
                return Some(&self.entries[i].1);
            }
            i = i + 1;
        }
        None
    }

    /// Look up a value by id, returning it by value.
    pub fn get_owned(&self, id: SlotId) -> (r: Option<Item>)
        requires
            self.wf(),
        ensures
            match r {
                Some(v) => contains_id(self@, id) && v == self@[id_index(self@, id)].1,
                None => !contains_id(self@, id),
            },
    {
        match self.get(id) {
            Some(v) => Some(*v),
            None => None,
        }
    }

    /// Replace the value stored under `id`; returns whether the id was live.
    /// The traversal order and all ids are unchanged.
    pub fn set(&mut self, id: SlotId, item: Item) -> (r: bool)
        requires
            old(self).wf(),
        ensures
            final(self).wf(),
            final(self).allocator() == old(self).allocator(),
            r == contains_id(old(self)@, id),
            r ==> final(self)@ == old(self)@.update(id_index(old(self)@, id), (id, item)),
            !r ==> final(self)@ == old(self)@,
    {
        let n = self.entries.len();
        let mut i: usize = 0;
        while i < n
            invariant
                self@ == old(self)@,
                self.allocator() == old(self).allocator(),
                self.wf(),
                n == self@.len(),
                i <= n,
                forall|j: int| 0 <= j < i ==> (#[trigger] self@[j]).0 != id,
            decreases n - i,
        {
            if self.entries[i].0 == id {
                proof {
                    assert(contains_id(self@, id));
                    assert(id_index(self@, id) == i) by {
                        let k = id_index(self@, id);
                        assert(self@[k].0 == id);
                        assert(unique_ids(self@));
                    }
                }
                self.entries.set(i, (id, item));
                return true;
            }
            i = i + 1;
        }
        false
    }

    /// Append each value in turn at the order tail; returns the fresh ids,
    /// in the same order as the values.
    pub fn push_many(&mut self, items_vec: Vec<Item>) -> (r: Vec<SlotId>)
        requires
            old(self).wf(),
            old(self).allocator() + items_vec@.len() <= u64::MAX,
        ensures
            final(self).wf(),
            r@.len() == items_vec@.len(),
            final(self)@.len() == old(self)@.len() + items_vec@.len(),
            forall|j: int| 0 <= j < old(self)@.len() ==> final(self)@[j] == old(self)@[j],
            forall|j: int| 0 <= j < items_vec@.len()
                ==> final(self)@[old(self)@.len() + j] == ((#[trigger] r@[j]), items_vec@[j]),
            forall|j: int| 0 <= j < items_vec@.len()
                ==> (#[trigger] r@[j]).0 == old(self).allocator() + j,
            final(self).allocator() == old(self).allocator() + items_vec@.len(),
    {
        let n = items_vec.len();
        let mut ids: Vec<SlotId> = Vec::new();
        let mut i: usize = 0;
        while i < n
            invariant
                self.wf(),
                n == items_vec@.len(),
                i <= n,
                old(self).allocator() + n <= u64::MAX,
                self.allocator() == old(self).allocator() + i,
                ids@.len() == i,
                self@.len() == old(self)@.len() + i,
                forall|j: int| 0 <= j < old(self)@.len() ==> self@[j] == old(self)@[j],
                forall|j: int| 0 <= j < i
                    ==> self@[old(self)@.len() + j] == ((#[trigger] ids@[j]), items_vec@[j]),
                forall|j: int| 0 <= j < i ==> (#[trigger] ids@[j]).0 == old(self).allocator() + j,
            decreases n - i,
        {
            let id = self.push(items_vec[i]);
            ids.push(id);
            i = i + 1;
        }
        ids
    }

    /// Insert each value in turn starting at order position `index`
    /// (`index == len` appends); returns the fresh ids in value order.
    pub fn insert_many(&mut self, index: usize, items_vec: Vec<Item>) -> (r: Vec<SlotId>)
        requires
            old(self).wf(),
            old(self).allocator() + items_vec@.len() <= u64::MAX,
            index <= old(self)@.len(),
        ensures
            final(self).wf(),
            r@.len() == items_vec@.len(),
            final(self)@.len() == old(self)@.len() + items_vec@.len(),
            forall|j: int| 0 <= j < index ==> final(self)@[j] == old(self)@[j],
            forall|j: int| 0 <= j < items_vec@.len()
                ==> final(self)@[index + j] == ((#[trigger] r@[j]), items_vec@[j]),
            forall|j: int| index <= j < old(self)@.len()
                ==> final(self)@[j + items_vec@.len()] == old(self)@[j],
            forall|j: int| 0 <= j < items_vec@.len()
                ==> (#[trigger] r@[j]).0 == old(self).allocator() + j,
            final(self).allocator() == old(self).allocator() + items_vec@.len(),
    {
        let n = items_vec.len();
        let mut ids: Vec<SlotId> = Vec::new();
        let mut i: usize = 0;
        while i < n
            invariant
                self.wf(),
                n == items_vec@.len(),
                i <= n,
                index <= old(self)@.len(),
                old(self).allocator() + n <= u64::MAX,
                self.allocator() == old(self).allocator() + i,
                ids@.len() == i,
                self@.len() == old(self)@.len() + i,
                forall|j: int| 0 <= j < index ==> self@[j] == old(self)@[j],
                forall|j: int| 0 <= j < i
                    ==> self@[index + j] == ((#[trigger] ids@[j]), items_vec@[j]),
                forall|j: int| index <= j < old(self)@.len() ==> self@[j + i] == old(self)@[j],
                forall|j: int| 0 <= j < i ==> (#[trigger] ids@[j]).0 == old(self).allocator() + j,
            decreases n - i,
        {
            let cur_len = self.entries.len();
            proof {
                assert(index + i <= cur_len);
            }
            let id = self.insert(index + i, items_vec[i]);
            ids.push(id);
            i = i + 1;
        }
        ids
    }

    /// Insert each value in turn at the order head, keeping the values'
    /// relative order; returns the fresh ids in value order.
    pub fn prepend_many(&mut self, items_vec: Vec<Item>) -> (r: Vec<SlotId>)
        requires
            old(self).wf(),
            old(self).allocator() + items_vec@.len() <= u64::MAX,
        ensures
            final(self).wf(),
            r@.len() == items_vec@.len(),
            final(self)@.len() == old(self)@.len() + items_vec@.len(),
            forall|j: int| 0 <= j < items_vec@.len()
                ==> final(self)@[j] == ((#[trigger] r@[j]), items_vec@[j]),
            forall|j: int| 0 <= j < old(self)@.len()
                ==> final(self)@[j + items_vec@.len()] == old(self)@[j],
            forall|j: int| 0 <= j < items_vec@.len()
                ==> (#[trigger] r@[j]).0 == old(self).allocator() + j,
            final(self).allocator() == old(self).allocator() + items_vec@.len(),
    {
        self.insert_many(0, items_vec)
    }

    /// Remove the entries named by `ids`, in order; returns the values of
    /// those that were live, skipping stale or repeated ids.
    pub fn remove_many(&mut self, ids: Vec<SlotId>) -> (r: Vec<Item>)
        requires
            old(self).wf(),
        ensures
            final(self).wf(),
            final(self).allocator() == old(self).allocator(),
            final(self)@ == remove_ids(old(self)@, ids@),
            r@ == removed_values(old(self)@, ids@),
    {
        let n = ids.len();
        let mut out: Vec<Item> = Vec::new();
        let mut i: usize = 0;
        while i < n
            invariant
                self.wf(),
                n == ids@.len(),
                i <= n,
                self.allocator() == old(self).allocator(),
                self@ == remove_ids(old(self)@, ids@.subrange(0, i as int)),
                out@ == removed_values(old(self)@, ids@.subrange(0, i as int)),
            decreases n - i,
        {
            proof {
                assert(ids@.subrange(0, i + 1).drop_last() =~= ids@.subrange(0, i as int));
                assert(ids@.subrange(0, i + 1).last() == ids@[i as int]);
            }
            match self.remove(ids[i]) {
                Some(item) => out.push(item),
                None => {},
            }
            i = i + 1;
        }
        proof {
            assert(ids@.subrange(0, n as int) =~= ids@);
        }
        out
    }

    /// Build a store from a vector of values, pushed in order.
    pub fn from_vec(items_vec: Vec<Item>) -> (r: Self)
        requires
            items_vec@.len() <= u64::MAX,
        ensures
            r.wf(),
            values_of(r@) == items_vec@,
            r.allocator() == items_vec@.len(),
            forall|j: int| 0 <= j < r@.len() ==> ((#[trigger] r@[j]).0).0 == j,
    {
        let mut m = OrderedSlotMap::new();
        let ids = m.push_many(items_vec);
        proof {
            assert forall|j: int| 0 <= j < m@.len() implies values_of(m@)[j] == items_vec@[j]
                && ((#[trigger] m@[j]).0).0 == j by {
                assert(m@[j] == ((ids@[j]), items_vec@[j]));
            }
            assert(values_of(m@) =~= items_vec@);
        }
        m
    }

    /// The first value in traversal order, if any.
    pub fn first(&self) -> (r: Option<&Item>)
        ensures
            match r {
                Some(v) => self@.len() > 0 && *v == self@[0].1,
                None => self@.len() == 0,
            },
    {
        if self.entries.len() == 0 {
            None
        } else {
            Some(&self.entries[0].1)
        }
    }

    /// The last value in traversal order, if any.
    pub fn last(&self) -> (r: Option<&Item>)
        ensures
            match r {
                Some(v) => self@.len() > 0 && *v == self@[self@.len() - 1].1,
                None => self@.len() == 0,
            },
    {
        if self.entries.len() == 0 {
            None
        } else {
            Some(&self.entries[self.entries.len() - 1].1)
        }
    }
}

impl<Item: Copy> Default for OrderedSlotMap<Item> {
    /// An empty store, as [`OrderedSlotMap::new`] builds it.
    fn default() -> (r: Self)
        ensures
            r@ == Seq::<(SlotId, Item)>::empty(),
            r.wf(),
            r.allocator() == 0,
    {
        OrderedSlotMap::new()
    }
}

/// Ids never collide across a soft clear: every id live in a well-formed
/// store lies strictly below the allocator, while [`OrderedSlotMap::push`]
/// after a [`OrderedSlotMap::clear`] hands out ids at or above it. Only
/// [`OrderedSlotMap::clear_with_reset`] permits reuse.
pub proof fn lemma_live_ids_below_allocator<Item: Copy>(m: OrderedSlotMap<Item>, id: SlotId)
    requires
        m.wf(),
        contains_id(m@, id),
    ensures
        (id.0 as int) < m.allocator(),
{
    let i = choose|i: int| 0 <= i < m@.len() && (#[trigger] m@[i]).0 == id;
    assert((m@[i].0).0 < m.allocator());
}

} // verus!
