//! Materials: which textures shade a surface.

use vstd::prelude::*;
use crate::datatypes::Material;
use crate::handle::MaterialHandle;
use crate::registry::{
    allocated, inserted, is_live, lemma_sweep_keeps_live, live_values, removed, swept,
    ResourceError, ResourceRegistry, Slot,
};

verus! {

/// Owns the registry of materials. A material is stored as it was given.
pub struct MaterialManager {
    registry: ResourceRegistry<Material>,
}

impl View for MaterialManager {
    type V = Seq<Slot<Material>>;

    /// The slots of the registry.
    closed spec fn view(&self) -> Seq<Slot<Material>> {
        self.registry@
    }
}

impl MaterialManager {
    /// The registry is well formed.
    pub closed spec fn wf(&self) -> bool {
        self.registry.wf()
    }

    /// A manager without materials.
    pub fn new() -> (manager: Self)
        ensures
            manager.wf(),
            manager@ == Seq::<Slot<Material>>::empty(),
    {
        MaterialManager { registry: ResourceRegistry::new() }
    }

    /// Hands out the handle of a material to come.
    pub fn allocate(&mut self) -> (handle: MaterialHandle)
        requires
            old(self).wf(),
        ensures
            final(self).wf(),
            allocated(old(self)@, final(self)@, handle.raw),
    {
        MaterialHandle { raw: self.registry.allocate() }
    }

    /// Stores `material` under `handle`.
    pub fn fill(&mut self, handle: &MaterialHandle, material: Material) -> (r: Result<
        (),
        ResourceError,
    >)
        requires
            old(self).wf(),
        ensures
            final(self).wf(),
            final(self)@ == inserted(old(self)@, handle.raw, material),
            r == if is_live(old(self)@, handle.raw) {
                Ok::<(), ResourceError>(())
            } else {
                Err::<(), ResourceError>(ResourceError::InvalidHandle)
            },
    {
        self.registry.insert(handle.get_raw(), material)
    }

    /// Marks the material as removed. It is gone from the next `ready` on.
    pub fn remove(&mut self, handle: &MaterialHandle) -> (r: Result<(), ResourceError>)
        requires
            old(self).wf(),
        ensures
            final(self).wf(),
            final(self)@ == removed(old(self)@, handle.raw),
            r == if is_live(old(self)@, handle.raw) {
                Ok::<(), ResourceError>(())
            } else {
                Err::<(), ResourceError>(ResourceError::UnknownHandle)
            },
    {
        self.registry.remove(handle.get_raw())
    }

    /// Reclaims the slots of the materials removed since the last call and
    /// returns a copy of all filled materials, in slot order.
    pub fn ready(&mut self) -> (materials: Vec<Material>)
        requires
            old(self).wf(),
        ensures
            final(self).wf(),
            final(self)@ == swept(old(self)@),
            materials@ == live_values(old(self)@),
    {
        self.registry.remove_all_dead();
        proof {
            lemma_sweep_keeps_live(old(self)@);
        }
        self.registry.values()
    }
}

} // verus!
