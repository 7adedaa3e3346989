//! Generational handles: stable names for registry slots.

use vstd::prelude::*;

verus! {

/// An index into a registry together with the generation of the slot it was
/// issued for. A slot's generation grows every time the slot is reclaimed, so
/// a handle kept past the removal of its resource never matches again.
#[derive(Clone, Copy, Debug, PartialEq, Eq, Structural, Hash)]
pub struct RawHandle {
    pub idx: usize,
    pub generation: u64,
}

/// Names a mesh.
#[derive(Clone, Copy, Debug, PartialEq, Eq, Structural, Hash)]
pub struct MeshHandle {
    pub raw: RawHandle,
}

/// Names a texture.
#[derive(Clone, Copy, Debug, PartialEq, Eq, Structural, Hash)]
pub struct TextureHandle {
    pub raw: RawHandle,
}

/// Names a material.
#[derive(Clone, Copy, Debug, PartialEq, Eq, Structural, Hash)]
pub struct MaterialHandle {
    pub raw: RawHandle,
}

/// Names an object.
#[derive(Clone, Copy, Debug, PartialEq, Eq, Structural, Hash)]
pub struct ObjectHandle {
    pub raw: RawHandle,
}

impl MeshHandle {
    /// The handle without its kind.
    pub fn get_raw(&self) -> (raw: RawHandle)
        ensures
            raw == self.raw,
    {
        self.raw
    }
}

impl TextureHandle {
    /// The handle without its kind.
    pub fn get_raw(&self) -> (raw: RawHandle)
        ensures
            raw == self.raw,
    {
        self.raw
    }
}

impl MaterialHandle {
    /// The handle without its kind.
    pub fn get_raw(&self) -> (raw: RawHandle)
        ensures
            raw == self.raw,
    {
        self.raw
    }
}

impl ObjectHandle {
    /// The handle without its kind.
    pub fn get_raw(&self) -> (raw: RawHandle)
        ensures
            raw == self.raw,
    {
        self.raw
    }
}

} // verus!
