//! Handle-based registry of host values.
//!
//! The guest never holds a host value itself, only a small integer handle.
//! Handle `0` is never valid; freed slots are reused by later registrations.
//! Every operation is total: a handle that is not registered reads as nil.
use vstd::prelude::*;

verus! {

pub struct ObjectRegistry<V> {
    slots: Vec<Option<V>>,
    free: Vec<usize>,
}

/// The value under handle `h`, or nil.
pub open spec fn lookup<V>(m: Map<nat, V>, h: nat) -> Option<V> {
    if m.contains_key(h) {
        Some(m[h])
    } else {
        None
    }
}

impl<V> View for ObjectRegistry<V> {
    type V = Map<nat, V>;

    /// The registered values by handle; handle `h` lives in slot `h - 1`.
    closed spec fn view(&self) -> Map<nat, V> {
        Map::new(
            |h: nat| 1 <= h <= self.slots@.len() && self.slots@[h - 1] is Some,
            |h: nat| self.slots@[h - 1]->Some_0,
        )
    }
}

impl<V> ObjectRegistry<V> {
    /// The free list holds exactly the empty slots, each once.
    pub closed spec fn wf(&self) -> bool {
        &&& self.free@.no_duplicates()
        &&& forall|k: int|
            0 <= k < self.free@.len() ==> #[trigger] self.free@[k] < self.slots@.len()
                && self.slots@[self.free@[k] as int] is None
        &&& forall|i: int|
            0 <= i < self.slots@.len() && #[trigger] self.slots@[i] is None ==> self.free@.contains(
                i as usize,
            )
    }

    /// Slots in use or free; a registration needs one more when none is free.
    pub closed spec fn slot_count(&self) -> nat {
        self.slots@.len()
    }

    /// Whether no further registration can be taken.
    pub fn is_full(&self) -> (r: bool)
        ensures
            r == (self.slot_count() >= usize::MAX),
    {
        self.slots.len() == usize::MAX
    }

    pub fn new() -> (r: ObjectRegistry<V>)
        ensures
            r.wf(),
            r@ == Map::<nat, V>::empty(),
            r.slot_count() == 0,
    {
        let r = ObjectRegistry { slots: Vec::new(), free: Vec::new() };
        assert(r@ =~= Map::<nat, V>::empty());
        r
    }

    /// Registers `v` under a fresh handle.
    pub fn register(&mut self, v: V) -> (h: usize)
        requires
            old(self).wf(),
            old(self).slot_count() < usize::MAX,
        ensures
            final(self).wf(),
            h != 0,
            !old(self)@.contains_key(h as nat),
            final(self)@ == old(self)@.insert(h as nat, v),
            final(self).slot_count() <= old(self).slot_count() + 1,
            h as nat <= final(self).slot_count(),
    {
        let ghost before = self@;
        if let Some(i) = self.free.pop() {
            proof {
                assert(self.free@ =~= old(self).free@.drop_last());
                assert(old(self).free@.last() == i);
                assert(old(self).free@[old(self).free@.len() - 1] == i);
            }
            self.slots.set(i, Some(v));
            proof {
                assert forall|k: int| 0 <= k < self.free@.len() implies #[trigger] self.free@[k]
                    < self.slots@.len() && self.slots@[self.free@[k] as int] is None by {
                    assert(self.free@[k] == old(self).free@[k]);
                    assert(old(self).free@[k] != i);
                }
                assert forall|j: int| 0 <= j < self.slots@.len() && #[trigger] self.slots@[j] is None
                    implies self.free@.contains(j as usize) by {
                    assert(j != i as int);
                    assert(old(self).free@.contains(j as usize));
                    let k = choose|k: int| 0 <= k < old(self).free@.len() && old(self).free@[k] == j as usize;
                    assert(k != old(self).free@.len() - 1);
                    assert(self.free@[k] == j as usize);
                }
                assert(self@ =~= before.insert((i + 1) as nat, v));
            }
            i + 1
        } else {
            let i = self.slots.len();
            self.slots.push(Some(v));
            proof {
                assert forall|k: int| 0 <= k < self.free@.len() implies #[trigger] self.free@[k]
                    < self.slots@.len() && self.slots@[self.free@[k] as int] is None by {}
                assert forall|j: int| 0 <= j < self.slots@.len() && #[trigger] self.slots@[j] is None
                    implies self.free@.contains(j as usize) by {
                    assert(j != i as int);
                    assert(old(self).slots@[j] is None);
                }
                assert(self@ =~= before.insert((i + 1) as nat, v));
            }
            i + 1
        }
    }

    /// The value under handle `h`, or nil when there is none.
    pub fn get(&self, h: usize) -> (r: Option<&V>)
        ensures
            match r {
                Some(v) => self@.contains_key(h as nat) && *v == self@[h as nat],
                None => !self@.contains_key(h as nat),
            },
    {
        if h == 0 || h > self.slots.len() {
            return None;
        }
        self.slots[h - 1].as_ref()
    }

    /// Puts `v` under the registered handle `h` and returns what was there;
    /// does nothing and returns nil when `h` is not registered.
    pub fn replace(&mut self, h: usize, v: V) -> (r: Option<V>)
        requires
            old(self).wf(),
        ensures
            final(self).wf(),
            final(self).slot_count() == old(self).slot_count(),
            r == lookup(old(self)@, h as nat),
            final(self)@ == if old(self)@.contains_key(h as nat) {
                old(self)@.insert(h as nat, v)
            } else {
                old(self)@
            },
    {
        if h == 0 || h > self.slots.len() {
            return None;
        }
        if self.slots[h - 1].is_none() {
            return None;
        }
        let ghost before = self@;
        let prev = self.slots[h - 1].take();
        self.slots.set(h - 1, Some(v));
        proof {
            assert(self@ =~= before.insert(h as nat, v));
        }
        prev
    }

    /// Removes the value under handle `h` and returns it, or nil when `h`
    /// is not registered.
    pub fn unregister(&mut self, h: usize) -> (r: Option<V>)
        requires
            old(self).wf(),
        ensures
            final(self).wf(),
            final(self).slot_count() == old(self).slot_count(),
            r == lookup(old(self)@, h as nat),
            final(self)@ == old(self)@.remove(h as nat),
    {
        if h == 0 || h > self.slots.len() {
            assert(self@ =~= old(self)@.remove(h as nat));
            return None;
        }
        if self.slots[h - 1].is_none() {
            assert(self@ =~= old(self)@.remove(h as nat));
            return None;
        }
        let ghost before = self@;
        let i = h - 1;
        let prev = self.slots[i].take();
        proof {
            assert(!old(self).free@.contains(i)) by {
                if old(self).free@.contains(i) {
                    let k = choose|k: int| 0 <= k < old(self).free@.len() && old(self).free@[k] == i;
                    assert(old(self).slots@[old(self).free@[k] as int] is None);
                }
            }
        }
        self.free.push(i);
        proof {
            assert forall|a: int, b: int|
                0 <= a < self.free@.len() && 0 <= b < self.free@.len() && a != b implies self.free@[a]
                != self.free@[b] by {
                if a < old(self).free@.len() && b < old(self).free@.len() {
                } else if a < old(self).free@.len() {
                    assert(old(self).free@.contains(self.free@[a]));
                } else if b < old(self).free@.len() {
                    assert(old(self).free@.contains(self.free@[b]));
                }
            }
            assert forall|k: int| 0 <= k < self.free@.len() implies #[trigger] self.free@[k]
                < self.slots@.len() && self.slots@[self.free@[k] as int] is None by {
                if k < old(self).free@.len() {
                    assert(self.free@[k] == old(self).free@[k]);
                }
            }
            assert forall|j: int| 0 <= j < self.slots@.len() && #[trigger] self.slots@[j] is None
                implies self.free@.contains(j as usize) by {
                if j == i as int {
                    assert(self.free@[self.free@.len() - 1] == i);
                } else {
                    assert(old(self).free@.contains(j as usize));
                    let k = choose|k: int| 0 <= k < old(self).free@.len() && old(self).free@[k] == j as usize;
                    assert(self.free@[k] == j as usize);
                }
            }
            assert(self@ =~= before.remove(h as nat));
        }
        prev
    }
}

/// A registered value reads back as itself; once unregistered its handle
/// reads as nil, as does a handle that was never given out.
pub proof fn law_register_get_unregister<V>(m0: Map<nat, V>, h: nat, v: V, other: nat)
    requires
        !m0.contains_key(h),
        !m0.contains_key(other),
        other != h,
    ensures
        lookup(m0.insert(h, v), h) == Some(v),
        lookup(m0.insert(h, v).remove(h), h) == None::<V>,
        lookup(m0.insert(h, v), other) == None::<V>,
{
}

} // verus!
