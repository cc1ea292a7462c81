//! Tilemap objects at run time, made from the data of a tile set.

use vstd::prelude::*;
use crate::tiledata;

verus! {

/// A tilemap object at run time. It keeps nothing of its data yet.
#[derive(Debug, Clone, Copy, PartialEq, Eq, Structural)]
pub struct Object {}

/// A tilemap object group at run time. It keeps nothing of its data yet.
#[derive(Debug, Clone, Copy, PartialEq, Eq, Structural)]
pub struct ObjectGroup {}

impl Object {
    /// The run-time object made from its stored data.
    pub fn from_data(data: tiledata::Object) -> (r: Object)
        ensures
            r == (Object {}),
    {
        Object {}
    }
}

impl ObjectGroup {
    /// The run-time object group made from its stored data.
    pub fn from_data(data: &tiledata::ObjectGroup) -> (r: ObjectGroup)
        ensures
            r == (ObjectGroup {}),
    {
        ObjectGroup {}
    }
}

} // verus!
