//! Dense per-type component storage and the registry that routes to it.
//!
//! Each [`BlobStorage`] holds the values of exactly one component type,
//! packed contiguously with no gaps, together with an index from entity id
//! to slot. The [`BlobMap`] registry owns one store per type key and
//! creates a store lazily the first time its type is used, so type
//! erasure stops at the registry boundary: inside a store every value is
//! concretely typed.

use vstd::prelude::*;
use vstd::pervasive::VecAdditionalExecFns;

use crate::Component;
use crate::index_map::{IndexMap, index_entries};

verus! {

/// The routing identity of a component type, captured once when the
/// type's store is created and never derived from instance data.
#[derive(Clone, Copy)]
pub struct TypeInfo {
    key: u64,
}

impl TypeInfo {
    /// The per-type identity this descriptor carries.
    pub closed spec fn key_spec(self) -> u64 {
        self.key
    }

    /// Returns the descriptor for the component type of the given value.
    pub fn of<C: Component>(value: &C) -> (info: TypeInfo)
        ensures
            info.key_spec() == value.key_spec(),
    {
        TypeInfo { key: value.type_key() }
    }
}

/// The contents of a store that holds nothing.
pub open spec fn no_contents<C>() -> Map<u32, C> {
    Map::empty()
}

/// A dense store for the values of a single component type.
///
/// The values live in one contiguous buffer with no gaps between them;
/// an index maps each live entity id to the slot its value occupies, and
/// slot `i` remembers its entity id in `slot_keys[i]`.
pub struct BlobStorage<C> {
    info: TypeInfo,
    data: Vec<C>,
    slot_keys: Vec<u32>,
    indices: IndexMap,
}

impl<C: Component> BlobStorage<C> {
    /// The identity of the component type this store holds.
    pub closed spec fn type_key(self) -> u64 {
        self.info.key
    }

    /// The number of live keys, which equals the number of occupied slots.
    pub closed spec fn count(self) -> nat {
        self.data@.len()
    }

    /// The entity-to-slot index, as a mathematical map.
    pub closed spec fn slot_of(self) -> Map<u32, usize> {
        index_entries(self.indices)
    }

    /// The store's contents: the value each live entity id holds.
    pub closed spec fn contents(self) -> Map<u32, C> {
        Map::new(
            |e: u32| index_entries(self.indices).dom().contains(e),
            |e: u32| self.data@[index_entries(self.indices)[e] as int],
        )
    }

    /// Dense-packing well-formedness: slots and index mirror each other,
    /// every slot index is in range, and every value belongs to this
    /// store's component type.
    pub closed spec fn wf(self) -> bool {
        let m = index_entries(self.indices);
        &&& self.data@.len() == self.slot_keys@.len()
        &&& (forall|i: int|
            0 <= i < self.slot_keys@.len() ==> {
                &&& m.dom().contains(#[trigger] self.slot_keys@[i])
                &&& m[self.slot_keys@[i]] == i
            })
        &&& (forall|e: u32|
            #[trigger] m.dom().contains(e) ==> {
                &&& m[e] < self.slot_keys@.len()
                &&& self.slot_keys@[m[e] as int] == e
            })
        &&& (forall|i: int|
            0 <= i < self.data@.len() ==> (#[trigger] self.data@[i]).key_spec() == self.info.key)
    }

    /// Creates an empty store for the component type the descriptor names.
    pub fn new(info: TypeInfo) -> (s: Self)
        ensures
            s.wf(),
            s.type_key() == info.key_spec(),
            s.contents() == no_contents::<C>(),
    {
        let s = BlobStorage { info, data: Vec::new(), slot_keys: Vec::new(), indices: IndexMap::new() };
        proof {
            assert(s.contents() =~= no_contents::<C>());
        }
        s
    }

    /// Attaches a value to the given entity id, or replaces the value the
    /// id already holds in this store.
    ///
    /// When the id already has a slot, the old value is destroyed — it
    /// leaves the store exactly once, handed back to the caller — and the
    /// new value takes over the same slot. A new id gets its value
    /// appended at the end of the buffer and its slot recorded. Either
    /// way the store owns the new value afterwards.
    pub fn insert_or_replace(&mut self, key: u32, value: C) -> (r: Option<C>)
        requires
            old(self).wf(),
            value.key_spec() == old(self).type_key(),
        ensures
            final(self).wf(),
            final(self).type_key() == old(self).type_key(),
            final(self).contents() == old(self).contents().insert(key, value),
            r == (if old(self).contents().dom().contains(key) {
                Some(old(self).contents()[key])
            } else {
                None::<C>
            }),
    {
        match self.indices.get(key) {
            Some(slot) => {
                let mut swapped = value;
                self.data.set_and_swap(slot, &mut swapped);
                proof {
                    assert(self.contents() =~= old(self).contents().insert(key, value));
                }
                Some(swapped)
            },
            None => {
                let slot = self.data.len();
                self.data.push(value);
                self.slot_keys.push(key);
                let _ = self.indices.insert(key, slot);
                proof {
                    assert(self.contents() =~= old(self).contents().insert(key, value));
                }
                None
            },
        }
    }

    /// Destroys the value at the given entity id's slot, if any, and hands
    /// it back.
    ///
    /// The slot's place in the buffer is excised and every slot index
    /// greater than the removed one is decremented, so the dense, no-gap
    /// layout is preserved; the id itself leaves the index.
    #[verifier::loop_isolation(false)]
    pub fn remove_and_drop(&mut self, key: u32) -> (r: Option<C>)
        requires
            old(self).wf(),
        ensures
            final(self).wf(),
            final(self).type_key() == old(self).type_key(),
            final(self).contents() == old(self).contents().remove(key),
            r == (if old(self).contents().dom().contains(key) {
                Some(old(self).contents()[key])
            } else {
                None::<C>
            }),
    {
        match self.indices.get(key) {
            None => {
                proof {
                    assert(self.contents() =~= old(self).contents().remove(key));
                }
                None
            },
            Some(slot) => {
                let ghost om = index_entries(old(self).indices);
                let ghost osk = old(self).slot_keys@;
                let ghost od = old(self).data@;
                let value = self.data.remove(slot);
                self.slot_keys.remove(slot);
                let _ = self.indices.remove(key);
                proof {
                    assert forall|e: u32| index_entries(self.indices).dom().contains(e) implies
                        om.dom().contains(e) && e != key && om[e] != slot && om[e] < osk.len() by {
                        assert(osk[om[e] as int] == e);
                    }
                }
                let mut j: usize = slot;
                while j < self.slot_keys.len()
                    invariant
                        self.info == old(self).info,
                        slot <= j <= self.slot_keys@.len(),
                        slot < osk.len(),
                        self.data@.len() == self.slot_keys@.len(),
                        self.slot_keys@.len() == osk.len() - 1,
                        self.data@ == od.remove(slot as int),
                        self.slot_keys@ == osk.remove(slot as int),
                        index_entries(self.indices).dom() == om.dom().remove(key),
                        forall|e: u32| #[trigger] index_entries(self.indices).dom().contains(e) ==>
                            om.dom().contains(e) && e != key && om[e] != slot && om[e] < osk.len(),
                        forall|e: u32| #[trigger] index_entries(self.indices).dom().contains(e) ==>
                            index_entries(self.indices)[e] == (if om[e] < slot {
                                om[e] as int
                            } else if om[e] <= j {
                                om[e] - 1
                            } else {
                                om[e] as int
                            }),
                    decreases self.slot_keys@.len() - j,
                {
                    let moved = self.slot_keys[j];
                    proof {
                        assert(self.slot_keys@[j as int] == osk[j + 1]);
                        assert(om.dom().contains(osk[j + 1]) && om[osk[j + 1]] == j + 1);
                        assert(index_entries(self.indices).dom().contains(moved));
                    }
                    let _ = self.indices.insert(moved, j);
                    j = j + 1;
                }
                proof {
                    let m = index_entries(self.indices);
                    assert forall|i: int| 0 <= i < self.slot_keys@.len() implies
                        m.dom().contains(self.slot_keys@[i]) && m[self.slot_keys@[i]] == i by {
                        let e = self.slot_keys@[i];
                        if i < slot {
                            assert(osk[i] == e && om[e] == i);
                        } else {
                            assert(osk[i + 1] == e && om[e] == i + 1);
                        }
                    }
                    assert(self.wf());
                    assert(self.contents() =~= old(self).contents().remove(key));
                }
                Some(value)
            },
        }
    }

    /// Returns the identity of the component type this store holds.
    pub fn key(&self) -> (k: u64)
        ensures
            k == self.type_key(),
    {
        self.info.key
    }

    /// Returns a reference to the value held by the given entity id, or
    /// nothing when the id has no slot in this store.
    pub fn get(&self, key: u32) -> (r: Option<&C>)
        requires
            self.wf(),
        ensures
            r == (if self.contents().dom().contains(key) {
                Some(&self.contents()[key])
            } else {
                None::<&C>
            }),
    {
        match self.indices.get(key) {
            Some(slot) => Some(&self.data[slot]),
            None => None,
        }
    }

    /// Write access under value semantics: when the id holds a value of
    /// this store's type, the given value replaces it in place and the
    /// replaced value is handed back; when it does not, the store is left
    /// untouched and the given value is discarded.
    pub fn get_mut(&mut self, key: u32, value: C) -> (r: Option<C>)
        requires
            old(self).wf(),
            value.key_spec() == old(self).type_key(),
        ensures
            final(self).wf(),
            final(self).type_key() == old(self).type_key(),
            final(self).contents() == (if old(self).contents().dom().contains(key) {
                old(self).contents().insert(key, value)
            } else {
                old(self).contents()
            }),
            r == (if old(self).contents().dom().contains(key) {
                Some(old(self).contents()[key])
            } else {
                None::<C>
            }),
    {
        match self.indices.get(key) {
            Some(slot) => {
                let mut swapped = value;
                self.data.set_and_swap(slot, &mut swapped);
                proof {
                    assert(self.contents() =~= old(self).contents().insert(key, value));
                }
                Some(swapped)
            },
            None => None,
        }
    }
}

/// Whether some live key of the store occupies slot `i`.
pub open spec fn slot_filled<C: Component>(s: BlobStorage<C>, i: int) -> bool {
    exists|e: u32| #![trigger s.slot_of()[e]] s.slot_of().dom().contains(e) && s.slot_of()[e] == i
}

/// Dense packing: a well-formed store with `n` live keys keeps its slot
/// indices as a permutation of `0..n` — every live key's slot lies below
/// `n`, no two live keys share a slot, and every slot below `n` belongs
/// to some live key.
pub proof fn lemma_dense_packing<C: Component>(s: BlobStorage<C>)
    requires
        s.wf(),
    ensures
        forall|e: u32| #[trigger] s.slot_of().dom().contains(e) ==> s.slot_of()[e] < s.count(),
        forall|e1: u32, e2: u32|
            #![trigger s.slot_of()[e1], s.slot_of()[e2]]
            s.slot_of().dom().contains(e1) && s.slot_of().dom().contains(e2) && e1 != e2
                ==> s.slot_of()[e1] != s.slot_of()[e2],
        forall|i: int| 0 <= i < s.count() ==> #[trigger] slot_filled(s, i),
{
    assert forall|i: int| 0 <= i < s.count() implies #[trigger] slot_filled(s, i) by {
        assert(s.slot_of().dom().contains(s.slot_keys@[i]) && s.slot_of()[s.slot_keys@[i]] == i);
    }
}

/// The registry: exactly one dense store per component type in use,
/// created lazily on a type's first insertion. All routing goes by type
/// key alone, so the registry never special-cases concrete types.
pub struct BlobMap<C> {
    stores: Vec<BlobStorage<C>>,
}

impl<C: Component> BlobMap<C> {
    /// Whether a store for the given type key exists.
    pub closed spec fn has_store(self, type_key: u64) -> bool {
        exists|i: int|
            0 <= i < self.stores@.len() && (#[trigger] self.stores@[i]).type_key() == type_key
    }

    /// The store that holds the given type key's components.
    pub closed spec fn store_of(self, type_key: u64) -> BlobStorage<C> {
        self.stores@[choose|i: int|
            0 <= i < self.stores@.len() && (#[trigger] self.stores@[i]).type_key() == type_key]
    }

    /// One component type's contents: which value each entity id holds
    /// for it. A type without a store yet holds nothing.
    pub closed spec fn typed(self, type_key: u64) -> Map<u32, C> {
        if self.has_store(type_key) {
            self.store_of(type_key).contents()
        } else {
            Map::empty()
        }
    }

    /// Every store is well-formed, holds values of its own type key, and
    /// no two stores share one.
    pub closed spec fn wf(self) -> bool {
        &&& (forall|i: int| 0 <= i < self.stores@.len() ==> (#[trigger] self.stores@[i]).wf())
        &&& (forall|i: int, j: int|
            #![trigger self.stores@[i].type_key(), self.stores@[j].type_key()]
            0 <= i < j < self.stores@.len()
                ==> self.stores@[i].type_key() != self.stores@[j].type_key())
    }

    /// A well-formed registry's `typed` view agrees with each store.
    proof fn lemma_store_at(self, i: int)
        requires
            self.wf(),
            0 <= i < self.stores@.len(),
        ensures
            self.has_store(self.stores@[i].type_key()),
            self.store_of(self.stores@[i].type_key()) == self.stores@[i],
            self.typed(self.stores@[i].type_key()) == self.stores@[i].contents(),
    {
        let tk = self.stores@[i].type_key();
        assert(self.has_store(tk));
        let j = choose|j: int|
            0 <= j < self.stores@.len() && (#[trigger] self.stores@[j]).type_key() == tk;
        assert(self.stores@[j].type_key() == tk);
        assert(i == j);
    }

    /// Replacing the store at `pos` by a reworked store of the same type
    /// key — taken out with `swap_remove` and pushed back at the end —
    /// routes every other type key exactly as before.
    proof fn lemma_replace_store(pre: Self, post: Self, pos: int)
        requires
            pre.wf(),
            0 <= pos < pre.stores@.len(),
            post.stores@.len() == pre.stores@.len(),
            post.stores@ == pre.stores@.update(pos, pre.stores@.last()).drop_last().push(
                post.stores@.last(),
            ),
            post.stores@.last().wf(),
            post.stores@.last().type_key() == pre.stores@[pos].type_key(),
        ensures
            post.wf(),
            post.typed(post.stores@.last().type_key()) == post.stores@.last().contents(),
            forall|tk: u64|
                tk != post.stores@.last().type_key() ==> post.typed(tk) == pre.typed(tk),
    {
        let n = pre.stores@.len();
        let s2 = post.stores@.last();
        let tk2 = s2.type_key();
        // each slot of the new sequence holds an old store or the new one
        assert(post.stores@[n - 1] == s2);
        assert(forall|i: int|
            0 <= i < n - 1 ==> post.stores@[i] == (if i == pos {
                pre.stores@[n - 1]
            } else {
                pre.stores@[i]
            }));
        assert forall|i: int, j: int|
            #![trigger post.stores@[i].type_key(), post.stores@[j].type_key()]
            0 <= i < j < post.stores@.len() implies post.stores@[i].type_key()
            != post.stores@[j].type_key() by {
            let pi = if i == n - 1 { pos } else if i == pos { n - 1 } else { i };
            let pj = if j == n - 1 { pos } else if j == pos { n - 1 } else { j };
            assert(post.stores@[i].type_key() == pre.stores@[pi].type_key());
            assert(post.stores@[j].type_key() == pre.stores@[pj].type_key());
        }
        assert(post.wf());
        post.lemma_store_at(n - 1);
        assert forall|tk: u64| tk != tk2 implies post.typed(tk) == pre.typed(tk) by {
            if pre.has_store(tk) {
                let i = choose|i: int|
                    0 <= i < pre.stores@.len() && (#[trigger] pre.stores@[i]).type_key() == tk;
                pre.lemma_store_at(i);
                let i2 = if i == n - 1 { pos } else { i };
                assert(post.stores@[i2] == pre.stores@[i]);
                post.lemma_store_at(i2);
            } else {
                if post.has_store(tk) {
                    let i = choose|i: int|
                        0 <= i < post.stores@.len() && (#[trigger] post.stores@[i]).type_key()
                            == tk;
                    let pi = if i == n - 1 { pos } else if i == pos { n - 1 } else { i };
                    assert(pre.stores@[pi].type_key() == tk);
                }
            }
        }
    }

    /// Pushing a store for a type key that had none leaves every other
    /// type key's routing unchanged.
    proof fn lemma_push_store(pre: Self, post: Self)
        requires
            pre.wf(),
            post.stores@.len() == pre.stores@.len() + 1,
            post.stores@ == pre.stores@.push(post.stores@.last()),
            post.stores@.last().wf(),
            !pre.has_store(post.stores@.last().type_key()),
        ensures
            post.wf(),
            post.typed(post.stores@.last().type_key()) == post.stores@.last().contents(),
            forall|tk: u64|
                tk != post.stores@.last().type_key() ==> post.typed(tk) == pre.typed(tk),
    {
        let n = pre.stores@.len();
        let s2 = post.stores@.last();
        assert(forall|i: int| 0 <= i < n ==> post.stores@[i] == pre.stores@[i]);
        assert(post.wf());
        post.lemma_store_at(n as int);
        assert forall|tk: u64| tk != s2.type_key() implies post.typed(tk) == pre.typed(tk) by {
            if pre.has_store(tk) {
                let i = choose|i: int|
                    0 <= i < pre.stores@.len() && (#[trigger] pre.stores@[i]).type_key() == tk;
                pre.lemma_store_at(i);
                post.lemma_store_at(i);
            } else {
                if post.has_store(tk) {
                    let i = choose|i: int|
                        0 <= i < post.stores@.len() && (#[trigger] post.stores@[i]).type_key()
                            == tk;
                    assert(i < n && pre.stores@[i].type_key() == tk);
                }
            }
        }
    }

    /// Discarding the store at `pos` with `swap_remove` empties its type
    /// key and leaves every other type key's routing unchanged.
    proof fn lemma_drop_store(pre: Self, post: Self, pos: int)
        requires
            pre.wf(),
            0 <= pos < pre.stores@.len(),
            post.stores@ == pre.stores@.update(pos, pre.stores@.last()).drop_last(),
        ensures
            post.wf(),
            post.typed(pre.stores@[pos].type_key()) == no_contents::<C>(),
            forall|tk: u64|
                tk != pre.stores@[pos].type_key() ==> post.typed(tk) == pre.typed(tk),
    {
        let n = pre.stores@.len();
        let tk2 = pre.stores@[pos].type_key();
        assert(forall|i: int|
            0 <= i < n - 1 ==> post.stores@[i] == (if i == pos {
                pre.stores@[n - 1]
            } else {
                pre.stores@[i]
            }));
        assert forall|i: int, j: int|
            #![trigger post.stores@[i].type_key(), post.stores@[j].type_key()]
            0 <= i < j < post.stores@.len() implies post.stores@[i].type_key()
            != post.stores@[j].type_key() by {
            let pi = if i == pos { n - 1 } else { i };
            let pj = if j == pos { n - 1 } else { j };
            assert(post.stores@[i].type_key() == pre.stores@[pi].type_key());
            assert(post.stores@[j].type_key() == pre.stores@[pj].type_key());
        }
        assert(post.wf());
        if post.has_store(tk2) {
            let i = choose|i: int|
                0 <= i < post.stores@.len() && (#[trigger] post.stores@[i]).type_key() == tk2;
            let pi = if i == pos { n - 1 } else { i };
            assert(pre.stores@[pi].type_key() == tk2);
            assert(pre.stores@[pos].type_key() == tk2);
        }
        assert forall|tk: u64| tk != tk2 implies post.typed(tk) == pre.typed(tk) by {
            if pre.has_store(tk) {
                let i = choose|i: int|
                    0 <= i < pre.stores@.len() && (#[trigger] pre.stores@[i]).type_key() == tk;
                pre.lemma_store_at(i);
                let i2 = if i == n - 1 { pos } else { i };
                assert(post.stores@[i2] == pre.stores@[i]);
                post.lemma_store_at(i2);
            } else {
                if post.has_store(tk) {
                    let i = choose|i: int|
                        0 <= i < post.stores@.len() && (#[trigger] post.stores@[i]).type_key()
                            == tk;
                    let pi = if i == pos { n - 1 } else { i };
                    assert(pre.stores@[pi].type_key() == tk);
                }
            }
        }
    }

    /// Creates a registry with no stores at all.
    pub fn new() -> (m: Self)
        ensures
            m.wf(),
            forall|tk: u64| m.typed(tk) == no_contents::<C>(),
    {
        let m = BlobMap { stores: Vec::new() };
        proof {
            assert forall|tk: u64| m.typed(tk) == no_contents::<C>() by {
                assert(!m.has_store(tk));
            }
        }
        m
    }

    /// Finds the position of the store for the given type key, if one
    /// exists.
    #[verifier::loop_isolation(false)]
    fn store_position(&self, type_key: u64) -> (r: Option<usize>)
        requires
            self.wf(),
        ensures
            match r {
                Some(i) => i < self.stores@.len() && self.stores@[i as int].type_key()
                    == type_key,
                None => !self.has_store(type_key),
            },
    {
        let mut i: usize = 0;
        while i < self.stores.len()
            invariant
                i <= self.stores@.len(),
                forall|k: int| 0 <= k < i ==> (#[trigger] self.stores@[k]).type_key() != type_key,
            decreases self.stores@.len() - i,
        {
            if self.stores[i].key() == type_key {
                return Some(i);
            }
            i = i + 1;
        }
        None
    }

    /// Inserts a single value under the entity id, routed by the value's
    /// own type key; the type's store is created on first use. A value
    /// the id already holds for that type is destroyed, replaced and
    /// handed back.
    pub fn insert_or_replace(&mut self, key: u32, value: C) -> (r: Option<C>)
        requires
            old(self).wf(),
        ensures
            final(self).wf(),
            final(self).typed(value.key_spec()) == old(self).typed(value.key_spec()).insert(
                key,
                value,
            ),
            forall|tk: u64|
                tk != value.key_spec() ==> final(self).typed(tk) == old(self).typed(tk),
            r == (if old(self).typed(value.key_spec()).dom().contains(key) {
                Some(old(self).typed(value.key_spec())[key])
            } else {
                None::<C>
            }),
    {
        let tk = value.type_key();
        match self.store_position(tk) {
            Some(pos) => {
                proof {
                    old(self).lemma_store_at(pos as int);
                }
                let mut s = self.stores.swap_remove(pos);
                let r = s.insert_or_replace(key, value);
                self.stores.push(s);
                proof {
                    Self::lemma_replace_store(*old(self), *self, pos as int);
                }
                r
            },
            None => {
                let mut s = BlobStorage::new(TypeInfo::of(&value));
                let r = s.insert_or_replace(key, value);
                self.stores.push(s);
                proof {
                    Self::lemma_push_store(*old(self), *self);
                    assert(old(self).typed(value.key_spec()) =~= no_contents::<C>());
                }
                r
            },
        }
    }

    /// Returns a reference to the value the entity id holds for the given
    /// component type, or nothing when it holds none.
    pub fn get(&self, type_key: u64, key: u32) -> (r: Option<&C>)
        requires
            self.wf(),
        ensures
            r == (if self.typed(type_key).dom().contains(key) {
                Some(&self.typed(type_key)[key])
            } else {
                None::<&C>
            }),
    {
        match self.store_position(type_key) {
            Some(pos) => {
                proof {
                    self.lemma_store_at(pos as int);
                }
                self.stores[pos].get(key)
            },
            None => None,
        }
    }

    /// Write access under value semantics, routed by the value's own type
    /// key: when the entity id holds a value of that type, the given
    /// value replaces it and the replaced value is handed back; when it
    /// does not, nothing changes and the given value is discarded.
    pub fn get_mut(&mut self, key: u32, value: C) -> (r: Option<C>)
        requires
            old(self).wf(),
        ensures
            final(self).wf(),
            final(self).typed(value.key_spec()) == (if old(self).typed(
                value.key_spec(),
            ).dom().contains(key) {
                old(self).typed(value.key_spec()).insert(key, value)
            } else {
                old(self).typed(value.key_spec())
            }),
            forall|tk: u64|
                tk != value.key_spec() ==> final(self).typed(tk) == old(self).typed(tk),
            r == (if old(self).typed(value.key_spec()).dom().contains(key) {
                Some(old(self).typed(value.key_spec())[key])
            } else {
                None::<C>
            }),
    {
        let tk = value.type_key();
        match self.store_position(tk) {
            Some(pos) => {
                proof {
                    old(self).lemma_store_at(pos as int);
                }
                let mut s = self.stores.swap_remove(pos);
                let r = s.get_mut(key, value);
                self.stores.push(s);
                proof {
                    Self::lemma_replace_store(*old(self), *self, pos as int);
                }
                r
            },
            None => None,
        }
    }

    /// Removes and destroys the value the entity id holds for the given
    /// component type, handing it back; a no-op when it holds none.
    pub fn remove(&mut self, type_key: u64, key: u32) -> (r: Option<C>)
        requires
            old(self).wf(),
        ensures
            final(self).wf(),
            final(self).typed(type_key) == old(self).typed(type_key).remove(key),
            forall|tk: u64| tk != type_key ==> final(self).typed(tk) == old(self).typed(tk),
            r == (if old(self).typed(type_key).dom().contains(key) {
                Some(old(self).typed(type_key)[key])
            } else {
                None::<C>
            }),
    {
        match self.store_position(type_key) {
            Some(pos) => {
                proof {
                    old(self).lemma_store_at(pos as int);
                }
                let mut s = self.stores.swap_remove(pos);
                let r = s.remove_and_drop(key);
                self.stores.push(s);
                proof {
                    Self::lemma_replace_store(*old(self), *self, pos as int);
                }
                r
            },
            None => {
                proof {
                    assert(old(self).typed(type_key).remove(key) =~= old(self).typed(type_key));
                }
                None
            },
        }
    }

    /// Removes and destroys every typed value the entity id holds, across
    /// all existing stores; used when an entity is destroyed.
    #[verifier::loop_isolation(false)]
    pub fn remove_key(&mut self, key: u32)
        requires
            old(self).wf(),
        ensures
            final(self).wf(),
            forall|tk: u64| final(self).typed(tk) == old(self).typed(tk).remove(key),
    {
        let ghost pre = self.stores@;
        let mut reworked: Vec<BlobStorage<C>> = Vec::new();
        proof {
            assert(pre.subrange(0, pre.len() as int) =~= pre);
        }
        while self.stores.len() > 0
            invariant
                self.stores@ == pre.subrange(0, self.stores@.len() as int),
                self.stores@.len() + reworked@.len() == pre.len(),
                forall|x: int|
                    0 <= x < reworked@.len() ==> {
                        &&& (#[trigger] reworked@[x]).wf()
                        &&& reworked@[x].type_key() == pre[pre.len() - 1 - x].type_key()
                        &&& reworked@[x].contents() == pre[pre.len() - 1 - x].contents().remove(
                            key,
                        )
                    },
            decreases self.stores@.len(),
        {
            let mut s = self.stores.pop().unwrap();
            let _ = s.remove_and_drop(key);
            reworked.push(s);
        }
        self.stores = reworked;
        proof {
            let n = pre.len();
            assert forall|i: int, j: int|
                #![trigger self.stores@[i].type_key(), self.stores@[j].type_key()]
                0 <= i < j < self.stores@.len() implies self.stores@[i].type_key()
                != self.stores@[j].type_key() by {
                assert(pre[n - 1 - i].type_key() != pre[n - 1 - j].type_key());
            }
            assert(self.wf());
            assert forall|tk: u64| self.typed(tk) == old(self).typed(tk).remove(key) by {
                if old(self).has_store(tk) {
                    let i = choose|i: int|
                        0 <= i < pre.len() && (#[trigger] old(self).stores@[i]).type_key() == tk;
                    old(self).lemma_store_at(i);
                    assert(self.stores@[n - 1 - i].type_key() == tk);
                    self.lemma_store_at(n - 1 - i);
                } else {
                    if self.has_store(tk) {
                        let x = choose|x: int|
                            0 <= x < self.stores@.len() && (#[trigger] self.stores@[x]).type_key()
                                == tk;
                        assert(old(self).stores@[n - 1 - x].type_key() == tk);
                    }
                    assert(old(self).typed(tk).remove(key) =~= old(self).typed(tk));
                }
            }
        }
    }

    /// Discards an entire component type's store, destroying whatever
    /// values remain in it; a no-op when the type has no store.
    pub fn remove_type(&mut self, type_key: u64)
        requires
            old(self).wf(),
        ensures
            final(self).wf(),
            final(self).typed(type_key) == no_contents::<C>(),
            forall|tk: u64| tk != type_key ==> final(self).typed(tk) == old(self).typed(tk),
    {
        match self.store_position(type_key) {
            Some(pos) => {
                let _ = self.stores.swap_remove(pos);
                proof {
                    Self::lemma_drop_store(*old(self), *self, pos as int);
                }
            },
            None => {},
        }
    }
}

} // verus!
