//! The tiles and object groups of a tile set, as read from its file.

use vstd::prelude::*;

verus! {

/// A tile of a tile set, with the object groups drawn on it.
#[derive(Debug)]
pub struct Tile {
    pub id: usize,
    pub objectgroup: Vec<ObjectGroup>,
}

/// An object group as stored in a tile set.
#[derive(Debug)]
pub struct ObjectGroup {
    pub draworder: DrawOrder,
    pub id: usize,
    pub object: Vec<Object>,
}

/// The order in which the objects of a group are drawn.
#[derive(Debug, Clone, Copy, PartialEq, Eq, Structural)]
pub enum DrawOrder {
    Index,
}

/// An object as stored in a tile set: an id and a rectangle.
#[derive(Debug, Clone, Copy, PartialEq, Eq, Structural)]
pub struct Object {
    pub id: usize,
    pub x: usize,
    pub y: usize,
    pub width: usize,
    pub height: usize,
}

} // verus!
