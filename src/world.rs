//! Worlds hold the entities and their component storages; an entity builder
//! adds one entity and its components to a world.

use vstd::prelude::*;
use crate::ecs::{Component, Entity, slot_set};

verus! {

/// A container of entities.
pub trait World: Sized {
    /// The live entities, in order.
    spec fn entity_list(&self) -> Seq<Entity>;

    /// The live entities.
    fn entities(&self) -> (r: &[Entity])
        ensures
            r@ == self.entity_list(),
    ;

    /// Starts adding a new entity, which joins the end of the entity list.
    fn add_entity(self) -> (r: EntityBuilder<Self>)
        ensures
            r.world().entity_list() == self.entity_list().push(r.entity()),
    ;
}

/// A world that stores components of kind `C`, in sparse storage indexed by
/// entity id.
pub trait WorldStorage<C: Component>: World {
    /// The slots of the `C` storage, by entity id.
    spec fn component_slots(&self) -> Seq<Option<C>>;

    /// Sets the `C` component of `entity`; no other slot of the `C` storage
    /// changes, and the entity list stays as it was.
    fn set_component(&mut self, entity: Entity, value: C)
        requires
            entity.0 < usize::MAX,
        ensures
            slot_set(old(self).component_slots(), final(self).component_slots(), entity, Some(value)),
            final(self).entity_list() == old(self).entity_list(),
    ;
}

/// Something that runs once per frame over a world.
pub trait System<W: World> {
    /// A name for profiling and debugging.
    fn name(&self) -> &'static str;

    /// Runs after `delta` nanoseconds have passed, and hands the world back.
    fn update(&mut self, delta: u64, world: W) -> W;
}

/// Adds a new entity, and its components, to a world that it holds.
pub struct EntityBuilder<W> {
    new_entity: Entity,
    world: W,
}

impl<W> EntityBuilder<W> {
    /// The entity being added.
    pub closed spec fn entity(&self) -> Entity {
        self.new_entity
    }

    /// The world being added to.
    pub closed spec fn world(&self) -> W {
        self.world
    }

    /// A builder that adds `new_entity` to `world`.
    pub fn new(new_entity: Entity, world: W) -> (r: EntityBuilder<W>)
        ensures
            r.entity() == new_entity,
            r.world() == world,
    {
        EntityBuilder { new_entity, world }
    }

    /// The entity being added.
    pub fn new_entity(&self) -> (r: Entity)
        ensures
            r == self.entity(),
    {
        self.new_entity
    }

    /// Gives the world back, with the entity added.
    pub fn build(self) -> (r: W)
        ensures
            r == self.world(),
    {
        self.world
    }
}

impl<W: World> EntityBuilder<W> {
    /// Stores `component` for the new entity in the world: the entity's
    /// slot of the `T` storage holds it, no other slot of that storage
    /// changes, and the entity list stays as it was.
    pub fn with_component<T: Component>(self, component: T) -> (r: EntityBuilder<W>) where
        W: WorldStorage<T>,
        requires
            self.entity().0 < usize::MAX,
        ensures
            r.entity() == self.entity(),
            slot_set(
                self.world().component_slots(),
                r.world().component_slots(),
                self.entity(),
                Some(component),
            ),
            r.world().entity_list() == self.world().entity_list(),
    {
        let EntityBuilder { new_entity, mut world } = self;
        world.set_component(new_entity, component);
        EntityBuilder { new_entity, world }
    }

    /// Finishes this entity and starts the next one, so that calls chain:
    /// the same as `self.build().add_entity()`.
    pub fn add_entity(self) -> (r: EntityBuilder<W>)
        ensures
            r.world().entity_list() == self.world().entity_list().push(r.entity()),
    {
        self.build().add_entity()
    }
}

} // verus!
