//! Graphics handles.

use vstd::prelude::*;

verus! {

/// A handle of a loaded texture.
#[derive(Debug, Clone, Copy, PartialEq, Eq, Structural)]
pub struct TextureId(pub usize);

impl From<usize> for TextureId {
    fn from(id: usize) -> (r: TextureId) {
        TextureId(id)
    }
}

impl vstd::std_specs::convert::FromSpecImpl<usize> for TextureId {
    open spec fn obeys_from_spec() -> bool {
        true
    }

    open spec fn from_spec(id: usize) -> TextureId {
        TextureId(id)
    }
}

impl From<TextureId> for usize {
    fn from(id: TextureId) -> (r: usize) {
        id.0
    }
}

impl vstd::std_specs::convert::FromSpecImpl<TextureId> for usize {
    open spec fn obeys_from_spec() -> bool {
        true
    }

    open spec fn from_spec(id: TextureId) -> usize {
        id.0
    }
}

} // verus!
