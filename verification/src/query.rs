//! The join engine: queries components from the [`World`].
//!
//! A query is a fixed, ordered list of requested component types, given
//! as type keys. Evaluating it against one entity succeeds only when the
//! entity holds every requested type (a strict AND join); iteration
//! visits all live entities in registration order and silently skips the
//! entities that fail the join, re-evaluating lazily at each step.

use vstd::prelude::*;

use crate::Component;
use crate::world::{Entity, World};

verus! {

/// Whether the entity holds every component type the key list requests.
pub open spec fn joins<C: Component>(world: World<C>, keys: Seq<u64>, entity: Entity) -> bool {
    forall|i: int|
        0 <= i < keys.len() ==> (#[trigger] world.typed(keys[i])).dom().contains(entity@)
}

/// A fixed, ordered list of requested component types.
///
/// A query never requests the same type twice: a mutable join handing
/// out one store's slot twice would alias, so a duplicated key is
/// rejected at construction and cannot be represented.
pub struct Query {
    keys: Vec<u64>,
}

impl Query {
    /// The requested type keys, in query order.
    pub closed spec fn keys_spec(self) -> Seq<u64> {
        self.keys@
    }

    /// A query requests at least one type and no type twice.
    pub closed spec fn wf(self) -> bool {
        &&& self.keys@.len() >= 1
        &&& (forall|i: int, j: int|
            #![trigger self.keys@[i], self.keys@[j]]
            0 <= i < j < self.keys@.len() ==> self.keys@[i] != self.keys@[j])
    }

    /// Builds the query over the given type keys; rejects an empty list
    /// and a list that requests some type twice.
    #[verifier::loop_isolation(false)]
    pub fn new(keys: Vec<u64>) -> (r: Option<Query>)
        ensures
            match r {
                Some(q) => q.wf() && q.keys_spec() == keys@,
                None => keys@.len() == 0 || exists|i: int, j: int|
                    #![trigger keys@[i], keys@[j]]
                    0 <= i < j < keys@.len() && keys@[i] == keys@[j],
            },
    {
        if keys.len() == 0 {
            return None;
        }
        let mut i: usize = 0;
        while i < keys.len()
            invariant
                i <= keys@.len(),
                forall|a: int, b: int|
                    #![trigger keys@[a], keys@[b]]
                    0 <= a < b < keys@.len() && a < i ==> keys@[a] != keys@[b],
            decreases keys@.len() - i,
        {
            let mut j: usize = i + 1;
            while j < keys.len()
                invariant
                    i < j <= keys@.len(),
                    forall|b: int| i < b < j ==> keys@[i as int] != #[trigger] keys@[b],
                decreases keys@.len() - j,
            {
                if keys[i] == keys[j] {
                    return None;
                }
                j = j + 1;
            }
            i = i + 1;
        }
        Some(Query { keys })
    }

    /// Evaluates the query against one entity: succeeds with the
    /// component values, in query order, exactly when the entity holds
    /// every requested type; one missing type makes the whole fetch fail
    /// silently.
    #[verifier::loop_isolation(false)]
    pub fn query_entity<C: Component>(&self, world: &World<C>, entity: &Entity) -> (r: Option<
        Vec<C>,
    >)
        requires
            world.wf(),
        ensures
            r is Some <==> joins(*world, self.keys_spec(), *entity),
            r matches Some(values) ==> values@.len() == self.keys_spec().len() && forall|i: int|
                0 <= i < values@.len() ==> values@[i] == world.typed(self.keys_spec()[i])[entity@],
    {
        let mut values: Vec<C> = Vec::new();
        let mut i: usize = 0;
        while i < self.keys.len()
            invariant
                i <= self.keys@.len(),
                values@.len() == i,
                forall|k: int|
                    0 <= k < i ==> (#[trigger] world.typed(self.keys@[k])).dom().contains(
                        entity@,
                    ),
                forall|k: int|
                    0 <= k < i ==> values@[k] == world.typed(#[trigger] self.keys@[k])[entity@],
            decreases self.keys@.len() - i,
        {
            match world.entity_component(self.keys[i], entity) {
                Some(value) => {
                    values.push(value.dup());
                },
                None => {
                    return None;
                },
            }
            i = i + 1;
        }
        Some(values)
    }
}

/// A lazy pass over a world's entities for one query.
///
/// Each step looks for the next entity, in registration order, that
/// holds every requested type; entities failing the join are skipped.
/// The pass is finite and not restartable: a new one must be begun to
/// iterate again.
pub struct QueryIter {
    query: Query,
    cursor: usize,
}

impl QueryIter {
    /// The requested type keys, in query order.
    pub closed spec fn keys_spec(self) -> Seq<u64> {
        self.query.keys_spec()
    }

    /// How many of the world's entities have been examined so far.
    pub closed spec fn cursor_spec(self) -> int {
        self.cursor as int
    }

    /// The underlying query is well-formed.
    pub closed spec fn wf(self) -> bool {
        self.query.wf()
    }

    /// Begins a pass with the cursor at the oldest entity.
    pub fn begin(query: Query) -> (it: QueryIter)
        ensures
            it.keys_spec() == query.keys_spec(),
            it.cursor_spec() == 0,
            query.wf() ==> it.wf(),
    {
        QueryIter { query, cursor: 0 }
    }

    /// Advances the pass: hands back the next entity, in registration
    /// order, that holds every requested type, together with its
    /// component values in query order; or nothing when no entity at or
    /// past the cursor joins. Each step re-evaluates against the world
    /// as it stands at the call.
    #[verifier::loop_isolation(false)]
    pub fn next<C: Component>(&mut self, world: &World<C>) -> (r: Option<(Entity, Vec<C>)>)
        requires
            old(self).wf(),
            world.wf(),
        ensures
            final(self).wf(),
            final(self).keys_spec() == old(self).keys_spec(),
            old(self).cursor_spec() <= final(self).cursor_spec(),
            match r {
                Some(p) => {
                    &&& old(self).cursor_spec() <= final(self).cursor_spec() - 1 < world.live().len()
                    &&& p.0 == world.live()[final(self).cursor_spec() - 1]
                    &&& joins(*world, old(self).keys_spec(), p.0)
                    &&& (forall|j: int|
                        old(self).cursor_spec() <= j < final(self).cursor_spec() - 1
                            ==> !joins(*world, old(self).keys_spec(), #[trigger] world.live()[j]))
                    &&& p.1@.len() == old(self).keys_spec().len()
                    &&& (forall|i: int|
                        0 <= i < p.1@.len() ==> p.1@[i] == world.typed(
                            old(self).keys_spec()[i],
                        )[p.0@])
                },
                None => {
                    &&& final(self).cursor_spec() >= world.live().len()
                    &&& (forall|j: int|
                        old(self).cursor_spec() <= j < world.live().len()
                            ==> !joins(*world, old(self).keys_spec(), #[trigger] world.live()[j]))
                },
            },
    {
        while self.cursor < world.entities().len()
            invariant
                self.query == old(self).query,
                old(self).cursor_spec() <= self.cursor as int,
                forall|j: int|
                    old(self).cursor_spec() <= j < self.cursor as int ==> !joins(
                        *world,
                        old(self).keys_spec(),
                        #[trigger] world.live()[j],
                    ),
            decreases world.live().len() - self.cursor,
        {
            let entity = world.entities()[self.cursor];
            self.cursor = self.cursor + 1;
            match self.query.query_entity(world, &entity) {
                Some(values) => {
                    return Some((entity, values));
                },
                None => {},
            }
        }
        None
    }
}

/// A lazy mutable pass over a world's entities for one query.
///
/// Each step finds the next joining entity exactly as the read pass
/// does, then writes through the join: every requested type that has a
/// replacement supplied gets it, the rest are only read, and the values
/// from before the writes are handed back. A query cannot request one
/// type twice, so no step ever touches the same store slot twice.
pub struct QueryMutIter {
    query: Query,
    cursor: usize,
}

impl QueryMutIter {
    /// The requested type keys, in query order.
    pub closed spec fn keys_spec(self) -> Seq<u64> {
        self.query.keys_spec()
    }

    /// How many of the world's entities have been examined so far.
    pub closed spec fn cursor_spec(self) -> int {
        self.cursor as int
    }

    /// The underlying query is well-formed.
    pub closed spec fn wf(self) -> bool {
        self.query.wf()
    }

    /// Begins a mutable pass with the cursor at the oldest entity.
    pub fn begin(query: Query) -> (it: QueryMutIter)
        ensures
            it.keys_spec() == query.keys_spec(),
            it.cursor_spec() == 0,
            query.wf() ==> it.wf(),
    {
        QueryMutIter { query, cursor: 0 }
    }

    /// Advances the pass over the world: finds the next entity, in
    /// registration order, that holds every requested type; replaces, in
    /// query order, each of its matched components for which a
    /// replacement is supplied; and hands back the entity together with
    /// the component values from before the writes. When no entity at or
    /// past the cursor joins, the world is left untouched and the
    /// replacements are discarded.
    #[verifier::loop_isolation(false)]
    pub fn next<C: Component>(&mut self, world: &mut World<C>, writes: Vec<Option<C>>) -> (r:
        Option<(Entity, Vec<C>)>)
        requires
            old(self).wf(),
            old(world).wf(),
            writes@.len() == old(self).keys_spec().len(),
            forall|i: int|
                0 <= i < writes@.len() ==> ((#[trigger] writes@[i]) matches Some(v)
                    ==> v.key_spec() == old(self).keys_spec()[i]),
        ensures
            final(self).wf(),
            final(self).keys_spec() == old(self).keys_spec(),
            old(self).cursor_spec() <= final(self).cursor_spec(),
            final(world).wf(),
            final(world).live() == old(world).live(),
            final(world).counter() == old(world).counter(),
            match r {
                Some(p) => {
                    &&& old(self).cursor_spec() <= final(self).cursor_spec() - 1 < old(
                        world,
                    ).live().len()
                    &&& p.0 == old(world).live()[final(self).cursor_spec() - 1]
                    &&& joins(*old(world), old(self).keys_spec(), p.0)
                    &&& (forall|j: int|
                        old(self).cursor_spec() <= j < final(self).cursor_spec() - 1 ==> !joins(
                            *old(world),
                            old(self).keys_spec(),
                            #[trigger] old(world).live()[j],
                        ))
                    &&& p.1@.len() == old(self).keys_spec().len()
                    &&& (forall|i: int|
                        0 <= i < p.1@.len() ==> p.1@[i] == old(world).typed(
                            old(self).keys_spec()[i],
                        )[p.0@])
                    &&& (forall|i: int|
                        0 <= i < writes@.len() ==> final(world).typed(
                            #[trigger] old(self).keys_spec()[i],
                        ) == (if writes@[i] is Some {
                            old(world).typed(old(self).keys_spec()[i]).insert(
                                p.0@,
                                writes@[i]->0,
                            )
                        } else {
                            old(world).typed(old(self).keys_spec()[i])
                        }))
                    &&& (forall|tk: u64|
                        !old(self).keys_spec().contains(tk) ==> final(world).typed(tk) == old(
                            world,
                        ).typed(tk))
                },
                None => {
                    &&& final(self).cursor_spec() >= old(world).live().len()
                    &&& (forall|j: int|
                        old(self).cursor_spec() <= j < old(world).live().len() ==> !joins(
                            *old(world),
                            old(self).keys_spec(),
                            #[trigger] old(world).live()[j],
                        ))
                    &&& *final(world) == *old(world)
                },
            },
    {
        let ghost all_writes = writes@;
        let mut remaining = writes;
        while self.cursor < world.entities().len()
            invariant
                self.query == old(self).query,
                remaining@ == all_writes,
                *world == *old(world),
                old(self).cursor_spec() <= self.cursor as int,
                forall|j: int|
                    old(self).cursor_spec() <= j < self.cursor as int ==> !joins(
                        *old(world),
                        old(self).keys_spec(),
                        #[trigger] old(world).live()[j],
                    ),
            decreases world.live().len() - self.cursor,
        {
            let entity = world.entities()[self.cursor];
            self.cursor = self.cursor + 1;
            match self.query.query_entity(world, &entity) {
                Some(values) => {
                    let ghost pre = *world;
                    let ghost ks = self.query.keys@;
                    let mut i: usize = 0;
                    while i < self.query.keys.len()
                        invariant
                            self.query == old(self).query,
                            self.query.keys@ == ks,
                            i <= ks.len(),
                            all_writes.len() == ks.len(),
                            remaining@ == all_writes.subrange(i as int, all_writes.len() as int),
                            pre.wf(),
                            joins(pre, ks, entity),
                            world.wf(),
                            world.live() == pre.live(),
                            world.counter() == pre.counter(),
                            forall|k: int|
                                0 <= k < i ==> world.typed(#[trigger] ks[k]) == (if all_writes[k]
                                    is Some {
                                    pre.typed(ks[k]).insert(entity@, all_writes[k]->0)
                                } else {
                                    pre.typed(ks[k])
                                }),
                            forall|k: int|
                                i <= k < ks.len() ==> world.typed(#[trigger] ks[k]) == pre.typed(
                                    ks[k],
                                ),
                            forall|tk: u64|
                                !ks.contains(tk) ==> #[trigger] world.typed(tk) == pre.typed(tk),
                        decreases ks.len() - i,
                    {
                        proof {
                            assert(remaining@.len() == ks.len() - i);
                            assert(remaining@[0] == all_writes[i as int]);
                        }
                        let w = remaining.remove(0);
                        proof {
                            assert(remaining@ =~= all_writes.subrange(
                                i + 1,
                                all_writes.len() as int,
                            ));
                        }
                        match w {
                            Some(v) => {
                                proof {
                                    assert(v.key_spec() == ks[i as int]);
                                    assert(ks.contains(ks[i as int]));
                                }
                                let _ = world.entity_component_mut(&entity, v);
                            },
                            None => {},
                        }
                        i = i + 1;
                    }
                    return Some((entity, values));
                },
                None => {},
            }
        }
        None
    }
}

} // verus!
