//! A container that hands out stable handles to the values put into it.
//!
//! Every value lives in a numbered slot. A handle names a slot together with
//! the slot's generation at the time the value was stored; removing the value
//! advances the generation, so a handle to a removed value never becomes
//! valid again, even when the slot is used for a later value.

use vstd::prelude::*;

verus! {

/// An opaque handle to one entity of an [`EntityStore`].
#[derive(Clone, Copy, Debug, PartialEq, Eq, Hash, Structural)]
pub struct EntityRef {
    pub index: usize,
    pub generation: u64,
}

struct Slot<T> {
    generation: u64,
    value: Option<T>,
}

/// Associates entity handles with values of type `T`.
///
/// Its view is the map from the handles of the live entities to their values.
pub struct EntityStore<T> {
    slots: Vec<Slot<T>>,
    free: Vec<usize>,
}

impl<T> View for EntityStore<T> {
    type V = Map<EntityRef, T>;

    closed spec fn view(&self) -> Map<EntityRef, T> {
        Map::new(|e: EntityRef| self.live(e), |e: EntityRef| self.slots@[e.index as int].value->0)
    }
}

impl<T> EntityStore<T> {
    spec fn live(&self, e: EntityRef) -> bool {
        &&& e.index < self.slots@.len()
        &&& self.slots@[e.index as int].generation == e.generation
        &&& self.slots@[e.index as int].value is Some
    }

    spec fn handle(&self, i: int) -> EntityRef {
        EntityRef { index: i as usize, generation: self.slots@[i].generation }
    }

    spec fn handles(&self) -> Seq<EntityRef> {
        Seq::new(self.slots@.len(), |i: int| self.handle(i))
    }

    spec fn live_prefix(&self, n: int) -> Seq<EntityRef> {
        self.handles().take(n).filter(|e: EntityRef| self.live(e))
    }

    /// The store's internal invariant. Every store made by [`EntityStore::new`]
    /// and changed only through the methods below satisfies it.
    pub closed spec fn wf(&self) -> bool {
        &&& self.free@.no_duplicates()
        &&& forall|k: int|
            0 <= k < self.free@.len() ==> {
                &&& (#[trigger] self.free@[k]) < self.slots@.len()
                &&& self.slots@[self.free@[k] as int].value is None
                &&& self.slots@[self.free@[k] as int].generation < u64::MAX
            }
        &&& forall|i: int|
            0 <= i < self.slots@.len() && (#[trigger] self.slots@[i]).value is Some
                ==> self.slots@[i].generation < u64::MAX
    }

    /// Whether `e` has been handed out by this store at some time, be the
    /// entity still live or not.
    pub closed spec fn allocated(&self, e: EntityRef) -> bool {
        &&& e.index < self.slots@.len()
        &&& {
            ||| e.generation < self.slots@[e.index as int].generation
            ||| self.live(e)
        }
    }

    /// The handles of the live entities, by ascending slot index.
    pub closed spec fn entity_seq(&self) -> Seq<EntityRef> {
        self.live_prefix(self.slots@.len() as int)
    }

    /// Every live entity has been handed out.
    pub proof fn lemma_live_is_allocated(&self, e: EntityRef)
        requires
            self@.contains_key(e),
        ensures
            self.allocated(e),
    {
    }

    proof fn lemma_live_prefix(&self, n: int)
        requires
            0 <= n <= self.slots@.len(),
        ensures
            forall|k: int|
                0 <= k < self.live_prefix(n).len() ==> {
                    &&& self.live(#[trigger] self.live_prefix(n)[k])
                    &&& self.live_prefix(n)[k].index < n
                },
            forall|e: EntityRef|
                self.live(e) && e.index < n ==> self.live_prefix(n).contains(e),
            forall|k: int, l: int|
                0 <= k < l < self.live_prefix(n).len() ==> (#[trigger] self.live_prefix(n)[k]).index
                    < (#[trigger] self.live_prefix(n)[l]).index,
        decreases n,
    {
        let pred = |e: EntityRef| self.live(e);
        if n == 0 {
            assert(self.handles().take(0) =~= Seq::<EntityRef>::empty());
            Seq::<EntityRef>::empty().lemma_filter_len(pred);
        } else {
            self.lemma_live_prefix(n - 1);
            let before = self.live_prefix(n - 1);
            let last = self.handle(n - 1);
            assert(self.handles().take(n) =~= self.handles().take(n - 1).push(last));
            self.handles().take(n - 1).lemma_filter_push(last, pred);
            let now = self.live_prefix(n);
            if self.live(last) {
                assert(now == before.push(last));
                assert forall|e: EntityRef| self.live(e) && e.index < n implies now.contains(
                    e,
                ) by {
                    if e.index < n - 1 {
                        assert(before.contains(e));
                        let k = choose|k: int| 0 <= k < before.len() && before[k] == e;
                        assert(now[k] == e);
                    } else {
                        assert(e == last);
                        assert(now[now.len() - 1] == e);
                    }
                }
                assert forall|k: int, l: int| 0 <= k < l < now.len() implies (
                #[trigger] now[k]).index < (#[trigger] now[l]).index by {
                    assert(now[k] == before[k]);
                    if l < before.len() {
                        assert(now[l] == before[l]);
                    } else {
                        assert(now[l] == last);
                        assert(self.live(before[k]) && before[k].index < n - 1);
                        assert(self.slots@.len() == self.slots.len());
                        assert(last.index == n - 1);
                    }
                }
            } else {
                assert(now == before);
            }
        }
    }

    /// The sequence of live entities holds exactly the live entities, each
    /// once, by ascending slot index.
    pub proof fn lemma_entity_seq(&self)
        ensures
            forall|e: EntityRef| self.entity_seq().contains(e) <==> self@.contains_key(e),
            ascending(self.entity_seq()),
            self.entity_seq().no_duplicates(),
    {
        self.lemma_live_prefix(self.slots@.len() as int);
    }

    /// The listing depends only on which entities are live: two stores with
    /// the same live entities list them in the same order.
    pub proof fn lemma_entity_seq_stable(&self, other: &EntityStore<T>)
        requires
            self@.dom() == other@.dom(),
        ensures
            self.entity_seq() == other.entity_seq(),
    {
        self.lemma_entity_seq();
        other.lemma_entity_seq();
        assert forall|e: EntityRef|
            self.entity_seq().contains(e) <==> other.entity_seq().contains(e) by {
            assert(self@.contains_key(e) <==> self@.dom().contains(e));
            assert(other@.contains_key(e) <==> other@.dom().contains(e));
        }
        lemma_ascending_unique(self.entity_seq(), other.entity_seq());
    }

    /// An empty store.
    pub fn new() -> (store: EntityStore<T>)
        ensures
            store.wf(),
            store@ == Map::<EntityRef, T>::empty(),
            forall|e: EntityRef| !store.allocated(e),
    {
        let store = EntityStore { slots: Vec::new(), free: Vec::new() };
        store
    }

    /// Stores `value` as a new entity and returns its handle, which this
    /// store has never handed out before.
    pub fn spawn(&mut self, value: T) -> (e: EntityRef)
        requires
            old(self).wf(),
        ensures
            final(self).wf(),
            !old(self).allocated(e),
            !old(self)@.contains_key(e),
            final(self)@ == old(self)@.insert(e, value),
            forall|x: EntityRef| final(self).allocated(x) <==> old(self).allocated(x) || x == e,
    {
        match self.free.pop() {
            Some(i) => {
                let generation = self.slots[i].generation;
                self.slots[i].value = Some(value);
                let e = EntityRef { index: i, generation };
                e
            },
            None => {
                let i = self.slots.len();
                self.slots.push(Slot { generation: 0, value: Some(value) });
                let e = EntityRef { index: i, generation: 0 };
                assert(final(self)@ =~= old(self)@.insert(e, value));
                e
            },
        }
    }

    /// Removes the entity `e` and returns its value, or does nothing and
    /// returns `None` when `e` is not live. The handle never becomes live
    /// again.
    pub fn despawn(&mut self, e: EntityRef) -> (removed: Option<T>)
        requires
            old(self).wf(),
        ensures
            final(self).wf(),
            removed == (if old(self)@.contains_key(e) {
                Some(old(self)@[e])
            } else {
                None::<T>
            }),
            final(self)@ == old(self)@.remove(e),
            forall|x: EntityRef| final(self).allocated(x) <==> old(self).allocated(x),
    {
        if e.index >= self.slots.len() || self.slots[e.index].generation != e.generation {
            return None;
        }
        let removed = self.slots[e.index].value.take();
        if removed.is_some() {
            let next: u64 = e.generation + 1;
            self.slots[e.index].generation = next;
            if next < u64::MAX {
                self.free.push(e.index);
            }
        }
        removed
    }

    /// Whether `e` is a live entity of this store.
    pub fn contains(&self, e: EntityRef) -> (live: bool)
        ensures
            live == self@.contains_key(e),
    {
        e.index < self.slots.len() && self.slots[e.index].generation == e.generation
            && self.slots[e.index].value.is_some()
    }

    /// The value of the entity `e`, or `None` when `e` is not live.
    pub fn get(&self, e: EntityRef) -> (value: Option<&T>)
        ensures
            value == (if self@.contains_key(e) {
                Some(&self@[e])
            } else {
                None::<&T>
            }),
    {
        if e.index < self.slots.len() && self.slots[e.index].generation == e.generation {
            self.slots[e.index].value.as_ref()
        } else {
            None
        }
    }

    /// Replaces the value of the entity `e` and returns the previous one.
    /// When `e` is not live nothing changes and `None` is returned.
    pub fn set(&mut self, e: EntityRef, value: T) -> (previous: Option<T>)
        requires
            old(self).wf(),
        ensures
            final(self).wf(),
            previous == (if old(self)@.contains_key(e) {
                Some(old(self)@[e])
            } else {
                None::<T>
            }),
            final(self)@ == (if old(self)@.contains_key(e) {
                old(self)@.insert(e, value)
            } else {
                old(self)@
            }),
            forall|x: EntityRef| final(self).allocated(x) <==> old(self).allocated(x),
    {
        if e.index < self.slots.len() && self.slots[e.index].generation == e.generation
            && self.slots[e.index].value.is_some() {
            let previous = self.slots[e.index].value.take();
            self.slots[e.index].value = Some(value);
            previous
        } else {
            None
        }
    }

    /// The handles of all live entities, by ascending slot index.
    pub fn entities(&self) -> (list: Vec<EntityRef>)
        ensures
            list@ == self.entity_seq(),
            forall|e: EntityRef| list@.contains(e) <==> self@.contains_key(e),
            list@.no_duplicates(),
            ascending(list@),
    {
        let mut list: Vec<EntityRef> = Vec::new();
        let mut i: usize = 0;
        proof {
            assert(self.handles().take(0) =~= Seq::<EntityRef>::empty());
            Seq::<EntityRef>::empty().lemma_filter_len(|e: EntityRef| self.live(e));
        }
        while i < self.slots.len()
            invariant
                i <= self.slots@.len(),
                list@ == self.live_prefix(i as int),
            decreases self.slots@.len() - i,
        {
            proof {
                let last = self.handle(i as int);
                assert(self.handles().take(i + 1) =~= self.handles().take(i as int).push(last));
                self.handles().take(i as int).lemma_filter_push(last, |e: EntityRef| self.live(e));
            }
            if self.slots[i].value.is_some() {
                list.push(EntityRef { index: i, generation: self.slots[i].generation });
            }
            i += 1;
        }
        proof {
            self.lemma_entity_seq();
        }
        list
    }

    /// Mutable access to the value of the entity `e`, or `None` when `e` is
    /// not live. Whatever is written through the reference becomes the
    /// entity's value; nothing else changes.
    pub fn get_mut(&mut self, e: EntityRef) -> (value: Option<&mut T>)
        requires
            old(self).wf(),
        ensures
            match value {
                Some(v) => {
                    &&& old(self)@.contains_key(e)
                    &&& *v == old(self)@[e]
                    &&& final(self)@ == old(self)@.insert(e, *final(v))
                    &&& final(self).wf()
                    &&& forall|x: EntityRef| final(self).allocated(x) <==> old(self).allocated(x)
                },
                None => !old(self)@.contains_key(e) && *final(self) == *old(self),
            },
    {
        if e.index < self.slots.len() && self.slots[e.index].generation == e.generation
            && self.slots[e.index].value.is_some() {
            self.slots[e.index].value.as_mut()
        } else {
            None
        }
    }
}

/// Whether the handles of `s` are in strictly ascending order of slot index.
pub open spec fn ascending(s: Seq<EntityRef>) -> bool {
    forall|k: int, l: int|
        0 <= k < l < s.len() ==> (#[trigger] s[k]).index < (#[trigger] s[l]).index
}

/// Two ascending sequences that hold the same handles are the same sequence.
pub proof fn lemma_ascending_unique(s: Seq<EntityRef>, t: Seq<EntityRef>)
    requires
        ascending(s),
        ascending(t),
        forall|e: EntityRef| s.contains(e) <==> t.contains(e),
    ensures
        s == t,
    decreases s.len(),
{
    if s.len() == 0 {
        if t.len() > 0 {
            assert(t.contains(t[0]));
        }
        assert(s =~= t);
    } else {
        let a = s.last();
        assert(s.contains(a)) by {
            assert(s[s.len() - 1] == a);
        }
        assert(t.contains(a));
        let j = choose|j: int| 0 <= j < t.len() && t[j] == a;
        let b = t.last();
        assert(t.contains(b)) by {
            assert(t[t.len() - 1] == b);
        }
        assert(s.contains(b));
        let i = choose|i: int| 0 <= i < s.len() && s[i] == b;
        if i < s.len() - 1 {
            assert(s[i].index < s[s.len() - 1].index);
            if j < t.len() - 1 {
                assert(t[j].index < t[t.len() - 1].index);
            }
        }
        assert(a == b);
        let s0 = s.drop_last();
        let t0 = t.drop_last();
        assert forall|e: EntityRef| s0.contains(e) <==> t0.contains(e) by {
            if s0.contains(e) {
                let k = choose|k: int| 0 <= k < s0.len() && s0[k] == e;
                assert(s[k] == e);
                assert(s[k].index < s[s.len() - 1].index);
                assert(s.contains(e));
                let l = choose|l: int| 0 <= l < t.len() && t[l] == e;
                assert(t0[l] == e);
            }
            if t0.contains(e) {
                let k = choose|k: int| 0 <= k < t0.len() && t0[k] == e;
                assert(t[k] == e);
                assert(t[k].index < t[t.len() - 1].index);
                assert(t.contains(e));
                let l = choose|l: int| 0 <= l < s.len() && s[l] == e;
                assert(s0[l] == e);
            }
        }
        assert(ascending(s0)) by {
            assert forall|k: int, l: int| 0 <= k < l < s0.len() implies (#[trigger] s0[k]).index < (
            #[trigger] s0[l]).index by {
                assert(s0[k] == s[k] && s0[l] == s[l]);
            }
        }
        assert(ascending(t0)) by {
            assert forall|k: int, l: int| 0 <= k < l < t0.len() implies (#[trigger] t0[k]).index < (
            #[trigger] t0[l]).index by {
                assert(t0[k] == t[k] && t0[l] == t[l]);
            }
        }
        lemma_ascending_unique(s0, t0);
        assert(s =~= s0.push(a));
        assert(t =~= t0.push(b));
    }
}

} // verus!
