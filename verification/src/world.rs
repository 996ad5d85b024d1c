//! The world: entity lifecycle and the single path to all components.
//!
//! A world owns the store registry, the ordered list of live entities,
//! and the next-id counter. Spawning goes through a builder that owns the
//! world for the whole chain, so no other access can interleave until the
//! chain completes.

use vstd::prelude::*;

use crate::Component;
use crate::blobmap::{BlobMap, no_contents};
use crate::query::{Query, QueryIter, QueryMutIter};

verus! {

/// An entity: an opaque 32-bit identity.
///
/// An entity is not linked to one particular world: handing it to a
/// different world than the one that spawned it refers to unrelated data.
#[derive(Clone, Copy, PartialEq, Eq, Structural)]
pub struct Entity {
    id: u32,
}

impl View for Entity {
    type V = u32;

    closed spec fn view(&self) -> u32 {
        self.id
    }
}

/// Provides a singular path to interact with and manage entities and
/// their components.
pub struct World<C> {
    components: BlobMap<C>,
    entities: Vec<Entity>,
    entity_count: u32,
}

/// Attaches components to a freshly spawned entity in a chain.
///
/// The builder holds the world by value for the entire chain, so nothing
/// else can touch the world until [`EntityBuilder::build`] hands it back.
pub struct EntityBuilder<C> {
    /// The world the chain exclusively holds.
    pub world: World<C>,
    /// The entity under construction.
    pub entity: Entity,
}

impl<C: Component> EntityBuilder<C> {
    /// Adds or replaces one component on the entity under construction.
    pub fn with(self, component: C) -> (b: Self)
        requires
            self.world.wf(),
        ensures
            b.world.wf(),
            b.entity == self.entity,
            b.world.live() == self.world.live(),
            b.world.counter() == self.world.counter(),
            b.world.typed(component.key_spec()) == self.world.typed(component.key_spec()).insert(
                self.entity@,
                component,
            ),
            forall|tk: u64|
                tk != component.key_spec() ==> (#[trigger] b.world.typed(tk))
                    == self.world.typed(tk),
    {
        let mut b = self;
        let _ = b.world.add_component(&b.entity, component);
        b
    }

    /// Ends the chain: hands the world back together with the finished
    /// entity's id, which stays valid for all later lookups.
    pub fn build(self) -> (r: (World<C>, Entity))
        ensures
            r.0 == self.world,
            r.1 == self.entity,
    {
        (self.world, self.entity)
    }
}

impl<C: Component> World<C> {
    /// The live entities, in registration order, oldest first.
    pub closed spec fn live(self) -> Seq<Entity> {
        self.entities@
    }

    /// The id the next spawned entity will receive.
    pub closed spec fn counter(self) -> u32 {
        self.entity_count
    }

    /// One component type's contents: which value each entity id holds
    /// for it.
    pub closed spec fn typed(self, type_key: u64) -> Map<u32, C> {
        self.components.typed(type_key)
    }

    /// Well-formedness: the registry is well-formed, live ids are unique,
    /// and every live id lies below the counter.
    pub closed spec fn wf(self) -> bool {
        &&& self.components.wf()
        &&& (forall|i: int, j: int|
            #![trigger self.entities@[i], self.entities@[j]]
            0 <= i < j < self.entities@.len() ==> self.entities@[i]@ != self.entities@[j]@)
        &&& (forall|i: int|
            0 <= i < self.entities@.len() ==> (#[trigger] self.entities@[i])@ < self.entity_count)
    }

    /// Creates an empty world.
    pub fn new() -> (w: Self)
        ensures
            w.wf(),
            w.live() == Seq::<Entity>::empty(),
            w.counter() == 0,
            forall|tk: u64| (#[trigger] w.typed(tk)) == no_contents::<C>(),
    {
        World { components: BlobMap::new(), entities: Vec::new(), entity_count: 0 }
    }

    /// Returns the live entities, in registration order, oldest first.
    pub fn entities(&self) -> (r: &Vec<Entity>)
        ensures
            r@ == self.live(),
    {
        &self.entities
    }

    /// Returns a reference to the component of the given type on the
    /// entity, or nothing when the entity holds none of that type.
    pub fn entity_component(&self, type_key: u64, entity: &Entity) -> (r: Option<&C>)
        requires
            self.wf(),
        ensures
            r == (if self.typed(type_key).dom().contains(entity@) {
                Some(&self.typed(type_key)[entity@])
            } else {
                None::<&C>
            }),
    {
        self.components.get(type_key, entity.id)
    }

    /// Write access to one component under value semantics, routed by the
    /// value's own type: when the entity holds a component of that type,
    /// the given value replaces it and the replaced one is destroyed and
    /// handed back; otherwise the world is untouched and the given value
    /// is discarded.
    pub fn entity_component_mut(&mut self, entity: &Entity, value: C) -> (r: Option<C>)
        requires
            old(self).wf(),
        ensures
            final(self).wf(),
            final(self).live() == old(self).live(),
            final(self).counter() == old(self).counter(),
            final(self).typed(value.key_spec()) == (if old(self).typed(
                value.key_spec(),
            ).dom().contains(entity@) {
                old(self).typed(value.key_spec()).insert(entity@, value)
            } else {
                old(self).typed(value.key_spec())
            }),
            forall|tk: u64|
                tk != value.key_spec() ==> (#[trigger] final(self).typed(tk))
                    == old(self).typed(tk),
            r == (if old(self).typed(value.key_spec()).dom().contains(entity@) {
                Some(old(self).typed(value.key_spec())[entity@])
            } else {
                None::<C>
            }),
    {
        self.components.get_mut(entity.id, value)
    }

    /// Spawns a new entity: assigns the next id, appends it to the live
    /// list, and returns the builder that exclusively holds the world
    /// until the chain completes.
    ///
    /// The id space is 32 bits wide and ids are never reused, so a world
    /// can spawn at most `u32::MAX` entities over its lifetime; spawning
    /// past that bound is rejected outright rather than wrapping around.
    pub fn spawn(self) -> (b: EntityBuilder<C>)
        requires
            self.wf(),
            self.counter() < u32::MAX,
        ensures
            b.world.wf(),
            b.entity@ == self.counter(),
            b.world.live() == self.live().push(b.entity),
            b.world.counter() == self.counter() + 1,
            forall|tk: u64| (#[trigger] b.world.typed(tk)) == self.typed(tk),
    {
        let mut w = self;
        let entity = Entity { id: w.entity_count };
        w.entities.push(Entity { id: w.entity_count });
        w.entity_count = w.entity_count + 1;
        EntityBuilder { world: w, entity }
    }

    /// Destroys every component the entity owns, then removes the entity
    /// from the live list; later lookups for its id find nothing. The
    /// order of the remaining entities is preserved.
    #[verifier::loop_isolation(false)]
    pub fn despawn(&mut self, entity: &Entity)
        requires
            old(self).wf(),
        ensures
            final(self).wf(),
            final(self).counter() == old(self).counter(),
            forall|tk: u64| (#[trigger] final(self).typed(tk)) == old(self).typed(tk).remove(entity@),
            !final(self).live().contains(*entity),
            old(self).live().contains(*entity) ==> exists|i: int|
                #![trigger old(self).live()[i]]
                0 <= i < old(self).live().len() && old(self).live()[i] == *entity
                    && final(self).live() == old(self).live().remove(i),
            !old(self).live().contains(*entity) ==> final(self).live() == old(self).live(),
    {
        self.components.remove_key(entity.id);
        let ghost mid = *self;
        let mut i: usize = 0;
        while i < self.entities.len()
            invariant
                self.components == mid.components,
                self.entity_count == old(self).entity_count,
                self.entities@ == old(self).entities@,
                i <= self.entities@.len(),
                forall|k: int| 0 <= k < i ==> (#[trigger] self.entities@[k])@ != entity@,
            decreases self.entities@.len() - i,
        {
            if self.entities[i].id == entity.id {
                let ghost pre = self.entities@;
                let _ = self.entities.remove(i);
                proof {
                    assert(pre[i as int] == *entity);
                    assert forall|k: int|
                        0 <= k < self.entities@.len() implies (#[trigger] self.entities@[k])@
                        != entity@ by {
                        if k < i {
                            assert(self.entities@[k] == pre[k]);
                        } else {
                            assert(self.entities@[k] == pre[k + 1]);
                        }
                    }
                    if self.live().contains(*entity) {
                        let k = choose|k: int|
                            0 <= k < self.entities@.len() && self.entities@[k] == *entity;
                        assert(self.entities@[k]@ == entity@);
                    }
                }
                return ;
            }
            i = i + 1;
        }
        proof {
            if self.live().contains(*entity) {
                let k = choose|k: int|
                    0 <= k < self.entities@.len() && self.entities@[k] == *entity;
                assert(self.entities@[k]@ == entity@);
            }
        }
    }

    /// Removes and destroys the component of the given type on the
    /// entity, handing it back; a no-op when the entity holds none.
    pub fn remove_component(&mut self, type_key: u64, entity: &Entity) -> (r: Option<C>)
        requires
            old(self).wf(),
        ensures
            final(self).wf(),
            final(self).live() == old(self).live(),
            final(self).counter() == old(self).counter(),
            final(self).typed(type_key) == old(self).typed(type_key).remove(entity@),
            forall|tk: u64| tk != type_key ==> (#[trigger] final(self).typed(tk)) == old(self).typed(tk),
            r == (if old(self).typed(type_key).dom().contains(entity@) {
                Some(old(self).typed(type_key)[entity@])
            } else {
                None::<C>
            }),
    {
        self.components.remove(type_key, entity.id)
    }

    /// Adds or replaces a single component on the entity, routed by the
    /// value's own type. A value the entity already holds for that type
    /// is destroyed and handed back before the new one becomes visible.
    pub fn add_component(&mut self, entity: &Entity, component: C) -> (r: Option<C>)
        requires
            old(self).wf(),
        ensures
            final(self).wf(),
            final(self).live() == old(self).live(),
            final(self).counter() == old(self).counter(),
            final(self).typed(component.key_spec()) == old(self).typed(
                component.key_spec(),
            ).insert(entity@, component),
            forall|tk: u64|
                tk != component.key_spec() ==> (#[trigger] final(self).typed(tk))
                    == old(self).typed(tk),
            r == (if old(self).typed(component.key_spec()).dom().contains(entity@) {
                Some(old(self).typed(component.key_spec())[entity@])
            } else {
                None::<C>
            }),
    {
        self.components.insert_or_replace(entity.id, component)
    }

    /// Begins a read pass of the query over this world's entities; the
    /// pass borrows the world for read at every step.
    pub fn query(&self, query: Query) -> (it: QueryIter)
        ensures
            it.keys_spec() == query.keys_spec(),
            it.cursor_spec() == 0,
            query.wf() ==> it.wf(),
    {
        QueryIter::begin(query)
    }

    /// Begins a mutable pass of the query over this world's entities;
    /// each of the pass's steps takes the world for write.
    pub fn query_mut(&mut self, query: Query) -> (it: QueryMutIter)
        ensures
            *final(self) == *old(self),
            it.keys_spec() == query.keys_spec(),
            it.cursor_spec() == 0,
            query.wf() ==> it.wf(),
    {
        QueryMutIter::begin(query)
    }
}

/// Law: inserting a component and then looking it up finds exactly the
/// inserted value. The premise is what [`World::add_component`] (and the
/// builder's [`EntityBuilder::with`]) ensure of the world they leave;
/// the conclusion is what [`World::entity_component`] then returns.
pub proof fn lemma_insert_then_get<C: Component>(
    w1: World<C>,
    w2: World<C>,
    entity: Entity,
    value: C,
)
    requires
        w2.typed(value.key_spec()) == w1.typed(value.key_spec()).insert(entity@, value),
    ensures
        w2.typed(value.key_spec()).dom().contains(entity@),
        w2.typed(value.key_spec())[entity@] == value,
{
}

/// Law: after removing a component type from an entity — as
/// [`World::remove_component`] leaves the world — a lookup of that type
/// on that entity finds nothing.
pub proof fn lemma_remove_then_get<C: Component>(
    w1: World<C>,
    w2: World<C>,
    type_key: u64,
    entity: Entity,
)
    requires
        w2.typed(type_key) == w1.typed(type_key).remove(entity@),
    ensures
        !w2.typed(type_key).dom().contains(entity@),
{
}

/// Law: once an entity's id has been removed from every component type —
/// as [`World::despawn`] leaves the world — no lookup of any type finds
/// it.
pub proof fn lemma_despawned_lookups_absent<C: Component>(
    w1: World<C>,
    w2: World<C>,
    entity: Entity,
)
    requires
        forall|tk: u64| (#[trigger] w2.typed(tk)) == w1.typed(tk).remove(entity@),
    ensures
        forall|tk: u64| !(#[trigger] w2.typed(tk)).dom().contains(entity@),
{
}

} // verus!
