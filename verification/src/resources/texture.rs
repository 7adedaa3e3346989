//! Textures: the shape of each image that the device holds.

use vstd::prelude::*;
use crate::datatypes::{Texture, TextureFormat};
use crate::handle::TextureHandle;
use crate::registry::{
    allocated, inserted, is_live, lemma_sweep_keeps_live, live_values, removed, swept,
    ResourceError, ResourceRegistry, Slot,
};

verus! {

/// What a frame needs to know of a texture.
#[derive(Debug, Clone, Copy, PartialEq, Eq, Structural)]
pub struct InternalTexture {
    pub format: TextureFormat,
    pub width: u32,
    pub height: u32,
}

/// The record of `texture`.
pub open spec fn texture_record(texture: Texture) -> InternalTexture {
    InternalTexture { format: texture.format, width: texture.width, height: texture.height }
}

/// Owns the registry of textures.
pub struct TextureManager {
    registry: ResourceRegistry<InternalTexture>,
}

impl View for TextureManager {
    type V = Seq<Slot<InternalTexture>>;

    /// The slots of the registry.
    closed spec fn view(&self) -> Seq<Slot<InternalTexture>> {
        self.registry@
    }
}

impl TextureManager {
    /// The registry is well formed.
    pub closed spec fn wf(&self) -> bool {
        self.registry.wf()
    }

    /// A manager without textures.
    pub fn new() -> (manager: Self)
        ensures
            manager.wf(),
            manager@ == Seq::<Slot<InternalTexture>>::empty(),
    {
        TextureManager { registry: ResourceRegistry::new() }
    }

    /// Hands out the handle of a texture to come.
    pub fn allocate(&mut self) -> (handle: TextureHandle)
        requires
            old(self).wf(),
        ensures
            final(self).wf(),
            allocated(old(self)@, final(self)@, handle.raw),
    {
        TextureHandle { raw: self.registry.allocate() }
    }

    /// Stores the record of `texture` under `handle`.
    pub fn fill(&mut self, handle: &TextureHandle, texture: &Texture) -> (r: Result<
        (),
        ResourceError,
    >)
        requires
            old(self).wf(),
        ensures
            final(self).wf(),
            final(self)@ == inserted(old(self)@, handle.raw, texture_record(*texture)),
            r == if is_live(old(self)@, handle.raw) {
                Ok::<(), ResourceError>(())
            } else {
                Err::<(), ResourceError>(ResourceError::InvalidHandle)
            },
    {
        let record = InternalTexture {
            format: texture.format,
            width: texture.width,
            height: texture.height,
        };
        self.registry.insert(handle.get_raw(), record)
    }

    /// Marks the texture as removed. It is gone from the next `ready` on.
    pub fn remove(&mut self, handle: &TextureHandle) -> (r: Result<(), ResourceError>)
        requires
            old(self).wf(),
        ensures
            final(self).wf(),
            final(self)@ == removed(old(self)@, handle.raw),
            r == if is_live(old(self)@, handle.raw) {
                Ok::<(), ResourceError>(())
            } else {
                Err::<(), ResourceError>(ResourceError::UnknownHandle)
            },
    {
        self.registry.remove(handle.get_raw())
    }

    /// Reclaims the slots of the textures removed since the last call and
    /// returns a copy of the records of all filled textures, in slot order.
    pub fn ready(&mut self) -> (textures: Vec<InternalTexture>)
        requires
            old(self).wf(),
        ensures
            final(self).wf(),
            final(self)@ == swept(old(self)@),
            textures@ == live_values(old(self)@),
    {
        self.registry.remove_all_dead();
        proof {
            lemma_sweep_keeps_live(old(self)@);
        }
        self.registry.values()
    }
}

} // verus!
