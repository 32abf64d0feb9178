//! A map from ids to values that recycles the ids of removed values.
use vstd::prelude::*;
use crate::ids::ID;

verus! {

/// Stores values in slots indexed by ids. Removing a value puts its id on a free list,
/// and the next insertion reuses the most recently freed id.
#[derive(Debug)]
pub struct IDMap<K, V> {
    values: Vec<V>,
    free: Vec<K>,
}

impl<K: ID, V> IDMap<K, V> {
    /// The slots, live or freed, in index order.
    pub closed spec fn slots(&self) -> Seq<V> {
        self.values@
    }

    /// The indices on the free list, in the order they were freed.
    pub closed spec fn free_indices(&self) -> Seq<u32> {
        self.free@.map_values(|k: K| k.index())
    }

    /// Whether the index names a value that is in the map.
    pub open spec fn is_live(&self, i: u32) -> bool {
        i < self.slots().len() && !self.free_indices().contains(i)
    }

    /// The map from index to value.
    pub open spec fn view(&self) -> Map<u32, V> {
        Map::new(|i: u32| self.is_live(i), |i: u32| self.slots()[i as int])
    }

    /// The free list only holds indices of existing slots, each at most once.
    pub open spec fn wf(&self) -> bool {
        &&& self.slots().len() <= u32::MAX
        &&& forall|j: int| 0 <= j < self.free_indices().len()
            ==> #[trigger] self.free_indices()[j] < self.slots().len()
        &&& self.free_indices().no_duplicates()
    }

    /// The value in slot `i`, live or freed, or `None` past the last slot.
    pub open spec fn slot(&self, i: u32) -> Option<V> {
        if i < self.slots().len() {
            Some(self.slots()[i as int])
        } else {
            None
        }
    }

    /// The id that the `n`-th of a run of insertions hands out: the free list from its end, then new slots.
    pub open spec fn nth_id(&self, n: nat) -> u32 {
        if n < self.free_indices().len() {
            self.free_indices()[self.free_indices().len() - 1 - n]
        } else {
            (self.slots().len() + (n - self.free_indices().len())) as u32
        }
    }

    /// The ids that a run of insertions hands out are fresh and distinct.
    pub proof fn lemma_nth_id(&self, n: nat, m: nat)
        requires
            self.wf(),
            n < self.room(),
            m < self.room(),
        ensures
            !self.is_live(self.nth_id(n)),
            n != m ==> self.nth_id(n) != self.nth_id(m),
            n >= self.free_indices().len() ==> self.nth_id(n) >= self.slots().len(),
    {
        let f = self.free_indices();
        if n < f.len() {
            assert(f.contains(self.nth_id(n))) by {
                assert(f[f.len() - 1 - n] == self.nth_id(n));
            }
        }
        if n != m && n < f.len() && m < f.len() {
            assert(f[f.len() - 1 - n] != f[f.len() - 1 - m]);
        }
        if n < f.len() && m >= f.len() {
            assert(f[f.len() - 1 - n] < self.slots().len());
        }
        if m < f.len() && n >= f.len() {
            assert(f[f.len() - 1 - m] < self.slots().len());
        }
    }

    /// How many more values can be inserted before the `u32` ids run out.
    pub open spec fn room(&self) -> int {
        self.free_indices().len() + u32::MAX - self.slots().len()
    }

    /// The id that the next insertion hands out.
    pub open spec fn next_id(&self) -> u32 {
        if self.free_indices().len() == 0 {
            self.slots().len() as u32
        } else {
            self.free_indices().last()
        }
    }

    /// Whether one more value can be inserted without running out of `u32` ids.
    pub open spec fn has_room(&self) -> bool {
        self.free_indices().len() > 0 || self.slots().len() < u32::MAX
    }

    /// Creates an empty map.
    pub fn with_capacity(capacity: usize) -> (m: Self)
        ensures
            m.wf(),
            m.slots().len() == 0,
            m.free_indices().len() == 0,
            m@ == Map::<u32, V>::empty(),
    {
        let m = IDMap { values: Vec::with_capacity(capacity), free: Vec::new() };
        assert(m@ =~= Map::<u32, V>::empty());
        m
    }

    /// A copy of the map, slot for slot, with the same free list.
    pub fn duplicate(&self) -> (m: Self)
        where K: Copy, V: Copy,
        ensures
            m.slots() == self.slots(),
            m.free_indices() == self.free_indices(),
            m@ == self@,
            self.wf() ==> m.wf(),
    {
        let mut values: Vec<V> = Vec::new();
        let mut i: usize = 0;
        while i < self.values.len()
            invariant
                i <= self.values.len(),
                values@ == self.values@.take(i as int),
            decreases self.values.len() - i,
        {
            values.push(self.values[i]);
            proof { assert(self.values@.take(i + 1) =~= self.values@.take(i as int).push(self.values@[i as int])); }
            i += 1;
        }
        let mut free: Vec<K> = Vec::new();
        let mut j: usize = 0;
        while j < self.free.len()
            invariant
                j <= self.free.len(),
                free@ == self.free@.take(j as int),
            decreases self.free.len() - j,
        {
            free.push(self.free[j]);
            proof { assert(self.free@.take(j + 1) =~= self.free@.take(j as int).push(self.free@[j as int])); }
            j += 1;
        }
        proof {
            assert(self.values@.take(self.values.len() as int) =~= self.values@);
            assert(self.free@.take(self.free.len() as int) =~= self.free@);
        }
        let m = IDMap { values, free };
        proof { assert(m@ =~= self@); }
        m
    }

    /// Inserts the value under a fresh id (the last freed one if any, else a new slot) and returns the id.
    pub fn insert_new(&mut self, value: V) -> (id: Option<K>)
        requires
            old(self).wf(),
            old(self).has_room(),
        ensures
            final(self).wf(),
            id is Some,
            id->0.index() == old(self).next_id(),
            id->0.index() == old(self).nth_id(0),
            forall|n: nat| #[trigger] final(self).nth_id(n) == old(self).nth_id(n + 1),
            final(self).room() == old(self).room() - 1,
            !old(self).is_live(id->0.index()),
            final(self)@ == old(self)@.insert(id->0.index(), value),
            final(self).slots() == if old(self).free_indices().len() == 0 {
                old(self).slots().push(value)
            } else {
                old(self).slots().update(id->0.index() as int, value)
            },
            final(self).free_indices() == if old(self).free_indices().len() == 0 {
                old(self).free_indices()
            } else {
                old(self).free_indices().drop_last()
            },
    {
        let ghost old_free = self.free_indices();
        let ghost old_free_ids = self.free@;
        let id = if let Some(i) = self.free.pop() {
            proof {
                assert(old_free[old_free.len() - 1] == i.index());
                assert(self.free@.map_values(|k: K| k.index()) =~= old_free.drop_last());
            }
            let idx = i.get() as usize;
            self.values.set(idx, value);
            i
        } else {
            self.values.push(value);
            K::new((self.values.len() - 1) as u32)
        };
        proof {
            assert forall|j: int| 0 <= j < self.free_indices().len() implies #[trigger] self.free_indices()[j] < self.slots().len() by {
                assert(self.free_indices()[j] == old_free[j]);
            }
            if old_free.len() > 0 {
                assert(old_free.last() == old_free[old_free.len() - 1]);
                assert(!old_free.drop_last().contains(old_free.last())) by {
                    if old_free.drop_last().contains(old_free.last()) {
                        let j = choose|j: int| 0 <= j < old_free.drop_last().len() && old_free.drop_last()[j] == old_free.last();
                        assert(old_free[j] == old_free[old_free.len() - 1]);
                    }
                }
            }
            assert forall|i: u32| self.is_live(i) <==> old(self).is_live(i) || i == id.index() by {
                if old_free.len() > 0 {
                    let d = old_free.drop_last();
                    if d.contains(i) {
                        let j = choose|j: int| 0 <= j < d.len() && d[j] == i;
                        assert(old_free[j] == i);
                    }
                    if old_free.contains(i) && i != id.index() {
                        let j = choose|j: int| 0 <= j < old_free.len() && old_free[j] == i;
                        assert(j != old_free.len() - 1);
                        assert(d[j] == i);
                    }
                    assert(old_free[old_free.len() - 1] == id.index());
                }
            }
            assert(self@ =~= old(self)@.insert(id.index(), value));
            assert forall|n: nat| #[trigger] self.nth_id(n) == old(self).nth_id(n + 1) by {
                if old_free.len() > 0 {
                    if n < self.free_indices().len() {
                        assert(self.free_indices()[self.free_indices().len() - 1 - n] == old_free[old_free.len() - 1 - (n + 1)]);
                    }
                }
            }
        }
        Some(id)
    }

    /// Inserts each value of the list that is there, in order, under fresh ids, and returns, for each entry of
    /// the list, the id its value got (`None` where there is no value).
    pub fn insert_many(&mut self, keep: &Vec<Option<V>>) -> (ids: Vec<Option<K>>)
        where V: Copy,
        requires
            old(self).wf(),
            old(self).room() >= keep.len(),
        ensures
            final(self).wf(),
            ids.len() == keep.len(),
            final(self).room() >= old(self).room() - keep.len(),
            forall|j: int| 0 <= j < keep.len() ==> (#[trigger] ids@[j] is Some <==> keep@[j] is Some),
            forall|j: int| 0 <= j < keep.len() && ids@[j] is Some ==> !old(self).is_live(#[trigger] ids@[j]->0.index())
                && final(self)@.dom().contains(ids@[j]->0.index()) && final(self)@[ids@[j]->0.index()] == keep@[j]->0,
            forall|j1: int, j2: int| 0 <= j1 < keep.len() && 0 <= j2 < keep.len() && j1 != j2 && ids@[j1] is Some
                && ids@[j2] is Some ==> #[trigger] ids@[j1]->0.index() != #[trigger] ids@[j2]->0.index(),
            forall|k: u32| #[trigger] old(self)@.dom().contains(k) ==> final(self)@.dom().contains(k) && final(self)@[k] == old(self)@[k],
            forall|k: u32| #[trigger] final(self)@.dom().contains(k) ==> old(self)@.dom().contains(k)
                || exists|j: int| 0 <= j < keep.len() && ids@[j] is Some && #[trigger] ids@[j]->0.index() == k,
    {
        let mut ids: Vec<Option<K>> = Vec::new();
        let mut i: usize = 0;
        while i < keep.len()
            invariant
                self.wf(),
                old(self).wf(),
                i <= keep.len(),
                ids.len() == i,
                old(self).room() >= keep.len(),
                self.room() >= old(self).room() - i,
                forall|j: int| 0 <= j < i ==> (#[trigger] ids@[j] is Some <==> keep@[j] is Some),
                forall|j: int| 0 <= j < i && ids@[j] is Some ==> !old(self).is_live(#[trigger] ids@[j]->0.index())
                    && self@.dom().contains(ids@[j]->0.index()) && self@[ids@[j]->0.index()] == keep@[j]->0,
                forall|j1: int, j2: int| 0 <= j1 < i && 0 <= j2 < i && j1 != j2 && ids@[j1] is Some
                    && ids@[j2] is Some ==> #[trigger] ids@[j1]->0.index() != #[trigger] ids@[j2]->0.index(),
                forall|k: u32| #[trigger] old(self)@.dom().contains(k) ==> self@.dom().contains(k) && self@[k] == old(self)@[k],
                forall|k: u32| #[trigger] self@.dom().contains(k) ==> old(self)@.dom().contains(k)
                    || exists|j: int| 0 <= j < i && ids@[j] is Some && #[trigger] ids@[j]->0.index() == k,
            decreases keep.len() - i,
        {
            if let Some(value) = keep[i] {
                let ghost before = *self;
                proof {
                    assert(self.room() >= 1);
                    assert(self.has_room()) by {
                        self.lemma_len();
                    }
                }
                let id = self.insert_new(value);
                let ghost ids0 = ids@;
                ids.push(id);
                proof {
                    let x = id->0.index();
                    assert(!before@.dom().contains(x));
                    assert forall|j: int| 0 <= j < i && ids@[j] is Some implies #[trigger] ids@[j]->0.index() != x by {
                        assert(ids@[j] == ids0[j]);
                        assert(before@.dom().contains(ids0[j]->0.index()));
                    }
                    assert forall|k: u32| #[trigger] self@.dom().contains(k) implies old(self)@.dom().contains(k)
                        || exists|j: int| 0 <= j < i + 1 && ids@[j] is Some && #[trigger] ids@[j]->0.index() == k by {
                        if k == x {
                            assert(ids@[i as int] == id);
                        } else {
                            assert(before@.dom().contains(k));
                            if !old(self)@.dom().contains(k) {
                                let j = choose|j: int| 0 <= j < i && ids0[j] is Some && #[trigger] ids0[j]->0.index() == k;
                                assert(ids@[j] == ids0[j]);
                            }
                        }
                    }
                    assert forall|j: int| 0 <= j < i + 1 && ids@[j] is Some implies !old(self).is_live(#[trigger] ids@[j]->0.index())
                        && self@.dom().contains(ids@[j]->0.index()) && self@[ids@[j]->0.index()] == keep@[j]->0 by {
                        if j < i {
                            assert(ids@[j] == ids0[j]);
                        } else {
                            assert(!old(self)@.dom().contains(x));
                        }
                    }
                    assert forall|j1: int, j2: int| 0 <= j1 < i + 1 && 0 <= j2 < i + 1 && j1 != j2 && ids@[j1] is Some
                        && ids@[j2] is Some implies #[trigger] ids@[j1]->0.index() != #[trigger] ids@[j2]->0.index() by {
                        if j1 < i && j2 < i {
                            assert(ids@[j1] == ids0[j1] && ids@[j2] == ids0[j2]);
                        } else if j1 < i {
                            assert(ids@[j1] == ids0[j1]);
                        } else {
                            assert(ids@[j2] == ids0[j2]);
                        }
                    }
                }
            } else {
                let ghost ids0 = ids@;
                ids.push(None);
                proof {
                    assert forall|k: u32| #[trigger] self@.dom().contains(k) implies old(self)@.dom().contains(k)
                        || exists|j: int| 0 <= j < i + 1 && ids@[j] is Some && #[trigger] ids@[j]->0.index() == k by {
                        if !old(self)@.dom().contains(k) {
                            let j = choose|j: int| 0 <= j < i && ids0[j] is Some && #[trigger] ids0[j]->0.index() == k;
                            assert(ids@[j] == ids0[j]);
                        }
                    }
                    assert forall|j: int| 0 <= j < i + 1 && ids@[j] is Some implies !old(self).is_live(#[trigger] ids@[j]->0.index())
                        && self@.dom().contains(ids@[j]->0.index()) && self@[ids@[j]->0.index()] == keep@[j]->0 by {
                        assert(ids@[j] == ids0[j]);
                    }
                    assert forall|j1: int, j2: int| 0 <= j1 < i + 1 && 0 <= j2 < i + 1 && j1 != j2 && ids@[j1] is Some
                        && ids@[j2] is Some implies #[trigger] ids@[j1]->0.index() != #[trigger] ids@[j2]->0.index() by {
                        assert(ids@[j1] == ids0[j1] && ids@[j2] == ids0[j2]);
                    }
                }
            }
            i += 1;
        }
        ids
    }

    /// Removes the value with the given id; the id goes on the free list.
    pub fn remove(&mut self, id: K)
        requires
            old(self).wf(),
            old(self).is_live(id.index()),
        ensures
            final(self).wf(),
            final(self)@ == old(self)@.remove(id.index()),
            final(self).slots() == old(self).slots(),
            final(self).free_indices() == old(self).free_indices().push(id.index()),
    {
        let ghost old_free = self.free_indices();
        self.free.push(id);
        proof {
            assert(self.free_indices() =~= old_free.push(id.index()));
            assert forall|j: int| 0 <= j < self.free_indices().len() implies #[trigger] self.free_indices()[j] < self.slots().len() by {
                if j < old_free.len() {
                    assert(self.free_indices()[j] == old_free[j]);
                }
            }
            assert forall|i: u32| self.is_live(i) <==> old(self).is_live(i) && i != id.index() by {
                if old_free.contains(i) {
                    let j = choose|j: int| 0 <= j < old_free.len() && old_free[j] == i;
                    assert(self.free_indices()[j] == i);
                }
                if self.free_indices().contains(i) && i != id.index() {
                    let j = choose|j: int| 0 <= j < self.free_indices().len() && self.free_indices()[j] == i;
                    assert(j < old_free.len());
                    assert(old_free[j] == i);
                }
                assert(self.free_indices()[old_free.len() as int] == id.index());
            }
            assert(self@ =~= old(self)@.remove(id.index()));
        }
    }

    /// The number of values in the map.
    pub fn len(&self) -> (n: usize)
        requires
            self.wf(),
        ensures
            n == self@.dom().len(),
            n == self.slots().len() - self.free_indices().len(),
    {
        proof {
            self.lemma_len();
        }
        self.values.len() - self.free.len()
    }

    /// Whether the id names a value in the map.
    pub fn contains_id(&self, id: K) -> (b: bool)
        requires
            self.wf(),
        ensures
            b == self.is_live(id.index()),
    {
        let idx = id.get();
        if idx as usize >= self.values.len() {
            return false;
        }
        let mut j: usize = 0;
        while j < self.free.len()
            invariant
                j <= self.free.len(),
                idx == id.index(),
                idx < self.slots().len(),
                forall|l: int| 0 <= l < j ==> self.free_indices()[l] != idx,
            decreases self.free.len() - j,
        {
            let fj = self.free[j].get();
            if fj == idx {
                proof {
                    assert(self.free@[j as int].index() == idx);
                    assert(self.free_indices()[j as int] == idx);
                    assert(self.free_indices().contains(idx));
                }
                return false;
            }
            j += 1;
        }
        proof {
            if self.free_indices().contains(idx) {
                let l = choose|l: int| 0 <= l < self.free_indices().len() && self.free_indices()[l] == idx;
            }
        }
        true
    }

    /// How many more values can be inserted before the `u32` ids run out.
    pub fn room_left(&self) -> (r: u32)
        requires
            self.wf(),
        ensures
            r == self.room(),
    {
        proof {
            self.lemma_len();
        }
        let live = self.values.len() - self.free.len();
        (u32::MAX as usize - live) as u32
    }

    /// The number of slots, live or freed.
    pub fn slot_count(&self) -> (n: usize)
        ensures
            n == self.slots().len(),
    {
        self.values.len()
    }

    /// The value in the slot of the id, live or freed, or `None` past the last slot.
    pub fn get(&self, id: K) -> (v: Option<&V>)
        ensures
            v == if id.index() < self.slots().len() {
                Some(&self.slots()[id.index() as int])
            } else {
                None
            },
    {
        let idx = id.get() as usize;
        if idx < self.values.len() {
            Some(&self.values[idx])
        } else {
            None
        }
    }

    /// A mutable reference to the value in the slot of the id, live or freed, or `None` past the last slot.
    pub fn get_mut(&mut self, id: K) -> (v: Option<&mut V>)
        ensures
            (id.index() < old(self).slots().len()) == v is Some,
            v is Some ==> *v->0 == old(self).slots()[id.index() as int],
            v is Some ==> final(self).slots() == old(self).slots().update(id.index() as int, *final(v->0)),
            v is None ==> final(self).slots() == old(self).slots(),
            final(self).free_indices() == old(self).free_indices(),
    {
        let idx = id.get() as usize;
        if idx < self.values.len() {
            Some(&mut self.values[idx])
        } else {
            None
        }
    }

    /// Replaces the value in the slot of the id, live or freed; does nothing past the last slot.
    /// Returns whether a slot was written.
    pub fn set(&mut self, id: K, value: V) -> (written: bool)
        requires
            old(self).wf(),
        ensures
            final(self).wf(),
            written == (id.index() < old(self).slots().len()),
            final(self).slots() == if written {
                old(self).slots().update(id.index() as int, value)
            } else {
                old(self).slots()
            },
            final(self).free_indices() == old(self).free_indices(),
    {
        let idx = id.get() as usize;
        if idx < self.values.len() {
            self.values.set(idx, value);
            true
        } else {
            false
        }
    }

    /// The ids of the values in the map, in increasing order.
    pub fn iter(&self) -> (ids: Vec<K>)
        requires
            self.wf(),
        ensures
            forall|j: int| 0 <= j < ids.len() ==> self.is_live(#[trigger] ids[j].index()),
            forall|j: int, l: int| 0 <= j < l < ids.len() ==> ids[j].index() < ids[l].index(),
            forall|i: u32| self.is_live(i) ==> exists|j: int| 0 <= j < ids.len() && #[trigger] ids[j].index() == i,
    {
        let n = self.values.len();
        let mut is_free: Vec<bool> = Vec::new();
        let mut i: usize = 0;
        while i < n
            invariant
                i <= n,
                n == self.slots().len(),
                is_free.len() == i,
                forall|j: int| 0 <= j < i ==> !is_free[j],
            decreases n - i,
        {
            is_free.push(false);
            i += 1;
        }
        let mut f: usize = 0;
        while f < self.free.len()
            invariant
                self.wf(),
                n == self.slots().len(),
                is_free.len() == n,
                f <= self.free.len(),
                forall|j: int| 0 <= j < n ==> (is_free[j] <==> self.free_indices().take(f as int).contains(j as u32)),
            decreases self.free.len() - f,
        {
            let idx = self.free[f].get() as usize;
            proof {
                assert(self.free_indices()[f as int] == idx);
            }
            is_free.set(idx, true);
            proof {
                let prefix = self.free_indices().take(f as int);
                let next = self.free_indices().take(f + 1);
                assert(next =~= prefix.push(idx as u32));
                assert forall|j: int| 0 <= j < n implies (is_free[j] <==> next.contains(j as u32)) by {
                    if j == idx {
                        assert(next[f as int] == idx as u32);
                    } else {
                        if next.contains(j as u32) {
                            let l = choose|l: int| 0 <= l < next.len() && next[l] == j as u32;
                            assert(l < f);
                            assert(prefix[l] == j as u32);
                        }
                        if prefix.contains(j as u32) {
                            let l = choose|l: int| 0 <= l < prefix.len() && prefix[l] == j as u32;
                            assert(next[l] == j as u32);
                        }
                    }
                }
            }
            f += 1;
        }
        proof {
            assert(self.free_indices().take(self.free@.len() as int) =~= self.free_indices());
        }
        let mut ids: Vec<K> = Vec::new();
        let mut i: usize = 0;
        while i < n
            invariant
                i <= n,
                n == self.slots().len(),
                n <= u32::MAX,
                is_free.len() == n,
                forall|j: int| 0 <= j < n ==> (is_free[j] <==> self.free_indices().contains(j as u32)),
                forall|j: int| 0 <= j < ids.len() ==> self.is_live(#[trigger] ids[j].index()),
                forall|j: int| 0 <= j < ids.len() ==> #[trigger] ids[j].index() < i,
                forall|j: int, l: int| 0 <= j < l < ids.len() ==> ids[j].index() < ids[l].index(),
                forall|k: u32| k < i && self.is_live(k) ==> exists|j: int| 0 <= j < ids.len() && #[trigger] ids[j].index() == k,
            decreases n - i,
        {
            let ghost old_ids = ids@;
            if !is_free[i] {
                let id = K::new(i as u32);
                ids.push(id);
                proof {
                    assert(ids[ids.len() - 1].index() == i);
                }
            }
            proof {
                assert forall|k: u32| k < i + 1 && self.is_live(k) implies exists|j: int| 0 <= j < ids.len() && #[trigger] ids[j].index() == k by {
                    if k == i {
                        assert(ids[ids.len() - 1].index() == i);
                    } else {
                        let j = choose|j: int| 0 <= j < old_ids.len() && #[trigger] old_ids[j].index() == k;
                        assert(ids[j] == old_ids[j]);
                    }
                }
            }
            i += 1;
        }
        ids
    }

    /// Overwriting a slot overwrites the value of a live index and leaves the map alone otherwise.
    pub proof fn lemma_view_after_set(a: &Self, b: &Self, i: u32, v: V)
        requires
            a.wf(),
            b.free_indices() == a.free_indices(),
            i < a.slots().len(),
            b.slots() == a.slots().update(i as int, v),
        ensures
            b.wf(),
            b@ == if a.is_live(i) { a@.insert(i, v) } else { a@ },
    {
        if a.is_live(i) {
            assert(b@ =~= a@.insert(i, v));
        } else {
            assert(b@ =~= a@);
        }
    }

    /// The number of live indices is the number of slots minus the length of the free list.
    pub proof fn lemma_len(&self)
        requires
            self.wf(),
        ensures
            self@.dom().len() == self.slots().len() - self.free_indices().len(),
            self@.dom().finite(),
    {
        let n = self.slots().len();
        let all = Set::new(|i: u32| i < n);
        let freed = self.free_indices().to_set();
        lemma_u32_prefix_set(n);
        self.free_indices().unique_seq_to_set();
        assert(freed.subset_of(all)) by {
            assert forall|i: u32| freed.contains(i) implies all.contains(i) by {
                let j = choose|j: int| 0 <= j < self.free_indices().len() && self.free_indices()[j] == i;
            }
        }
        vstd::set_lib::lemma_len_subset(freed, all);
        assert(self@.dom() =~= all.difference(freed));
        lemma_len_difference_subset(all, freed);
    }
}

/// The set of `u32` values below `n` is finite and has `n` elements.
pub(crate) proof fn lemma_u32_prefix_set(n: nat)
    requires
        n <= u32::MAX,
    ensures
        Set::new(|i: u32| i < n).finite(),
        Set::new(|i: u32| i < n).len() == n,
    decreases n,
{
    if n == 0 {
        assert(Set::new(|i: u32| i < n) =~= Set::<u32>::empty());
    } else {
        lemma_u32_prefix_set((n - 1) as nat);
        let last = (n - 1) as u32;
        assert(Set::new(|i: u32| i < n) =~= Set::new(|i: u32| i < (n - 1) as nat).insert(last));
    }
}

/// Removing a subset removes as many elements as the subset has.
proof fn lemma_len_difference_subset<A>(a: Set<A>, b: Set<A>)
    requires
        a.finite(),
        b.subset_of(a),
    ensures
        a.difference(b).finite(),
        a.difference(b).len() == a.len() - b.len(),
    decreases b.len(),
{
    vstd::set_lib::lemma_len_subset(b, a);
    if b.len() == 0 {
        assert(b =~= Set::<A>::empty());
        assert(a.difference(b) =~= a);
    } else {
        let x = b.choose();
        lemma_len_difference_subset(a.remove(x), b.remove(x));
        assert(a.difference(b) =~= a.remove(x).difference(b.remove(x)));
    }
}

} // verus!
