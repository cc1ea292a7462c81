//! Components of the minigolf scene, and the systems that carry no state.

use vstd::prelude::*;
use crate::ecs::Component;

verus! {

/// Marks the entity drawn for ball `index` of the simulation.
#[derive(Debug, Clone, Copy, PartialEq, Eq, Structural)]
pub struct BallComponent {
    pub index: usize,
    pub hidden: bool,
}

impl Component for BallComponent {}

/// Marks the ball that the local player controls.
#[derive(Debug, Clone, Copy, PartialEq, Eq, Structural)]
pub struct PlayerController {}

impl Component for PlayerController {}

/// Marks the line that shows where a putt would go.
#[derive(Debug, Clone, Copy, PartialEq, Eq, Structural)]
pub struct HitIndicator {}

impl Component for HitIndicator {}

/// Marks the entity that draws the walls.
#[derive(Debug, Clone, Copy, PartialEq, Eq, Structural)]
pub struct WallComponent {}

impl Component for WallComponent {}

/// Moves bodies by their velocity each tick.
#[derive(Debug, Clone, Copy, PartialEq, Eq, Structural)]
pub struct MoveSystem {}

impl MoveSystem {
    pub fn new() -> (r: MoveSystem)
        ensures
            r == (MoveSystem {}),
    {
        MoveSystem {}
    }
}

/// Resolves the contacts found each tick.
#[derive(Debug, Clone, Copy, PartialEq, Eq, Structural)]
pub struct CollisionResolver {}

impl CollisionResolver {
    pub fn new() -> (r: CollisionResolver)
        ensures
            r == (CollisionResolver {}),
    {
        CollisionResolver {}
    }
}

} // verus!
