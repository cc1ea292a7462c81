//! Event-driven minigolf simulation.
//!
//! Balls roll under friction between static walls; instead of stepping time
//! in fixed ticks, the simulation jumps from event to event (a ball stops,
//! hits a wall, or hits another ball) and records a timeline of snapshots.
//! This crate holds the discrete core of that timeline: event selection with
//! its tie margin and ignore-lists (`events`), the snapshot chain with its
//! growth, sampling and splicing (`timeline`), and the game-flow decisions
//! around it (`session`); plus a small entity component system (`ecs`,
//! `world`, and the scene's world in `scene`) and the plain records of the game's assets and protocol.
//!
//! Computing times of impact and new ball states is floating-point work that
//! the caller does; it hands this crate the results as whole nanoseconds and
//! opaque ball states.


pub mod ecs;
pub mod events;
pub mod timeline;
pub mod session;
pub mod world;
pub mod spritesheet;
pub mod tiledata;
pub mod tilemap;
pub mod gfx;
pub mod api;
pub mod components;
pub mod scene;
