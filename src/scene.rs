//! The minigolf scene's world: its entities, handed out in increasing id
//! order, and one sparse storage per component kind of the scene.

use vstd::prelude::*;
use crate::components::{BallComponent, HitIndicator, PlayerController, WallComponent};
use crate::ecs::{Entity, VecStorage};
use crate::world::{EntityBuilder, World, WorldStorage};

verus! {

pub struct MyWorld {
    next_entity_id: usize,
    entities: Vec<Entity>,
    balls: VecStorage<BallComponent>,
    controllers: VecStorage<PlayerController>,
    indicators: VecStorage<HitIndicator>,
    walls: VecStorage<WallComponent>,
}

impl MyWorld {
    /// The id the next entity gets.
    pub closed spec fn next_id(&self) -> usize {
        self.next_entity_id
    }

    /// An empty world.
    pub fn new() -> (r: MyWorld)
        ensures
            r.entity_list().len() == 0,
            r.next_id() == 0,
            r.balls_view().len() == 0,
    {
        MyWorld {
            next_entity_id: 0,
            entities: Vec::new(),
            balls: VecStorage::new(),
            controllers: VecStorage::new(),
            indicators: VecStorage::new(),
            walls: VecStorage::new(),
        }
    }

    /// The slots of the ball storage.
    pub closed spec fn balls_view(&self) -> Seq<Option<BallComponent>> {
        self.balls@
    }

    /// The ball storage.
    pub fn balls(&self) -> (r: &VecStorage<BallComponent>)
        ensures
            r@ == self.balls_view(),
    {
        &self.balls
    }

    /// The player-controller storage.
    pub fn controllers(&self) -> &VecStorage<PlayerController> {
        &self.controllers
    }

    /// The hit-indicator storage.
    pub fn indicators(&self) -> &VecStorage<HitIndicator> {
        &self.indicators
    }

    /// The wall storage.
    pub fn walls(&self) -> &VecStorage<WallComponent> {
        &self.walls
    }

    /// Removes `entity` from the entity list (its components stay stored).
    pub fn remove_entity(&mut self, entity: Entity)
        ensures
            final(self).entity_list() == old(self).entity_list().filter(|e: Entity| e != entity),
            final(self).next_id() == old(self).next_id(),
    {
        let mut kept: Vec<Entity> = Vec::new();
        let mut i: usize = 0;
        while i < self.entities.len()
            invariant
                i <= self.entities@.len(),
                kept@ == self.entities@.subrange(0, i as int).filter(|e: Entity| e != entity),
            decreases self.entities@.len() - i,
        {
            let e = self.entities[i];
            proof {
                assert(self.entities@.subrange(0, i + 1).drop_last() =~= self.entities@.subrange(0, i as int));
                reveal(Seq::filter);
            }
            if e.0 != entity.0 {
                kept.push(e);
            }
            i = i + 1;
        }
        assert(self.entities@.subrange(0, self.entities@.len() as int) =~= self.entities@);
        self.entities = kept;
    }
}

impl World for MyWorld {
    closed spec fn entity_list(&self) -> Seq<Entity> {
        self.entities@
    }

    fn entities(&self) -> (r: &[Entity]) {
        self.entities.as_slice()
    }

    /// The new entity gets the next id; ids are not handed out again, but
    /// the last id, `usize::MAX`, is given to every entity from then on.
    fn add_entity(self) -> (r: EntityBuilder<MyWorld>) {
        let MyWorld { next_entity_id, mut entities, balls, controllers, indicators, walls } = self;
        let e = Entity(next_entity_id);
        entities.push(e);
        let next = if next_entity_id < usize::MAX {
            next_entity_id + 1
        } else {
            next_entity_id
        };
        EntityBuilder::new(
            e,
            MyWorld { next_entity_id: next, entities, balls, controllers, indicators, walls },
        )
    }
}

impl WorldStorage<BallComponent> for MyWorld {
    closed spec fn component_slots(&self) -> Seq<Option<BallComponent>> {
        self.balls@
    }

    fn set_component(&mut self, entity: Entity, value: BallComponent) {
        let mut w = self.balls.write();
        w.set(entity, value);
    }
}

impl WorldStorage<PlayerController> for MyWorld {
    closed spec fn component_slots(&self) -> Seq<Option<PlayerController>> {
        self.controllers@
    }

    fn set_component(&mut self, entity: Entity, value: PlayerController) {
        let mut w = self.controllers.write();
        w.set(entity, value);
    }
}

impl WorldStorage<HitIndicator> for MyWorld {
    closed spec fn component_slots(&self) -> Seq<Option<HitIndicator>> {
        self.indicators@
    }

    fn set_component(&mut self, entity: Entity, value: HitIndicator) {
        let mut w = self.indicators.write();
        w.set(entity, value);
    }
}

impl WorldStorage<WallComponent> for MyWorld {
    closed spec fn component_slots(&self) -> Seq<Option<WallComponent>> {
        self.walls@
    }

    fn set_component(&mut self, entity: Entity, value: WallComponent) {
        let mut w = self.walls.write();
        w.set(entity, value);
    }
}

} // verus!
