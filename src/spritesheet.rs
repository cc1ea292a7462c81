//! Spritesheet frame geometry, as read from a spritesheet's description.

use vstd::prelude::*;

verus! {

/// A frame's position and size within a spritesheet, in pixels.
#[derive(Debug, Clone, Copy, PartialEq, Eq, Structural)]
pub struct FrameSizePos {
    pub x: u32,
    pub y: u32,
    pub w: u32,
    pub h: u32,
}

/// A frame's size, in pixels.
#[derive(Debug, Clone, Copy, PartialEq, Eq, Structural)]
pub struct FrameSize {
    pub w: u32,
    pub h: u32,
}

} // verus!
