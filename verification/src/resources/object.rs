//! Objects: instances of meshes, flattened into what the culling pass reads.

use vstd::prelude::*;
use crate::datatypes::Object;
use crate::handle::{MaterialHandle, ObjectHandle, RawHandle};
use crate::math::BoundingSphere;
use crate::registry::{
    allocated, inserted, is_filled, is_live, lemma_sweep_keeps_live, live_values, removed, swept,
    ResourceError, ResourceRegistry, Slot,
};
use crate::resources::mesh::{InternalMesh, MeshManager, INDEX_CAPACITY, VERTEX_CAPACITY};

verus! {

/// What the culling pass reads of one object. The sphere and the draw range
/// are those that the object's mesh had when the object was filled in.
#[derive(Debug, Clone, Copy, PartialEq)]
pub struct InternalObject {
    pub material: MaterialHandle,
    pub transform: glam::Mat4,
    pub sphere: BoundingSphere,
    pub start_idx: u32,
    pub count: u32,
    pub vertex_offset: i32,
}

/// The record of `object` when its mesh has the record `mesh`.
pub open spec fn shader_object(object: Object, mesh: InternalMesh) -> InternalObject {
    InternalObject {
        material: object.material,
        transform: object.transform,
        sphere: mesh.bounding_sphere,
        start_idx: mesh.index_range.start as u32,
        count: (mesh.index_range.end - mesh.index_range.start) as u32,
        vertex_offset: mesh.vertex_range.start as i32,
    }
}

/// `object` draws exactly the indices of `mesh`, from its first vertex on.
pub open spec fn draws(object: InternalObject, mesh: InternalMesh) -> bool {
    &&& object.start_idx == mesh.index_range.start
    &&& object.count == mesh.index_range.spec_len()
    &&& object.vertex_offset == mesh.vertex_range.start
}

/// Within the sizes of the shared buffers no number of a draw range is cut
/// off when it is narrowed to 32 bits: the record of an object draws its
/// mesh exactly.
pub proof fn lemma_shader_object_draws(object: Object, mesh: InternalMesh)
    requires
        mesh.index_range.wf(),
        mesh.index_range.end <= INDEX_CAPACITY,
        mesh.vertex_range.wf(),
        mesh.vertex_range.end <= VERTEX_CAPACITY,
    ensures
        draws(shader_object(object, mesh), mesh),
{
}

/// What `fill` answers: the object's mesh must be known, and the object's
/// own handle must be live.
pub open spec fn fill_result(
    objects: Seq<Slot<InternalObject>>,
    meshes: Seq<Slot<InternalMesh>>,
    handle: RawHandle,
    object: Object,
) -> Result<(), ResourceError> {
    if !is_filled(meshes, object.mesh.raw) {
        Err(ResourceError::UnknownHandle)
    } else if !is_live(objects, handle) {
        Err(ResourceError::InvalidHandle)
    } else {
        Ok(())
    }
}

/// The objects after `fill`.
pub open spec fn filled(
    objects: Seq<Slot<InternalObject>>,
    meshes: Seq<Slot<InternalMesh>>,
    handle: RawHandle,
    object: Object,
) -> Seq<Slot<InternalObject>> {
    if fill_result(objects, meshes, handle, object) is Ok {
        inserted(
            objects,
            handle,
            shader_object(object, meshes[object.mesh.raw.idx as int].state->Filled_0),
        )
    } else {
        objects
    }
}

/// The objects after `set_object_transform`: a filled handle keeps its
/// record but for the transform, any other handle changes nothing.
pub open spec fn transformed(
    objects: Seq<Slot<InternalObject>>,
    handle: RawHandle,
    transform: glam::Mat4,
) -> Seq<Slot<InternalObject>> {
    if is_filled(objects, handle) {
        inserted(
            objects,
            handle,
            InternalObject { transform, ..objects[handle.idx as int].state->Filled_0 },
        )
    } else {
        objects
    }
}

/// Owns the registry of objects.
pub struct ObjectManager {
    registry: ResourceRegistry<InternalObject>,
}

impl View for ObjectManager {
    type V = Seq<Slot<InternalObject>>;

    /// The slots of the registry.
    closed spec fn view(&self) -> Seq<Slot<InternalObject>> {
        self.registry@
    }
}

impl ObjectManager {
    /// The registry is well formed.
    pub closed spec fn wf(&self) -> bool {
        self.registry.wf()
    }

    /// A manager without objects.
    pub fn new() -> (manager: Self)
        ensures
            manager.wf(),
            manager@ == Seq::<Slot<InternalObject>>::empty(),
    {
        let registry = ResourceRegistry::new();

        Self { registry }
    }

    /// Hands out the handle of an object to come.
    pub fn allocate(&mut self) -> (handle: ObjectHandle)
        requires
            old(self).wf(),
        ensures
            final(self).wf(),
            allocated(old(self)@, final(self)@, handle.raw),
    {
        ObjectHandle { raw: self.registry.allocate() }
    }

    /// Stores under `handle` the record of `object`, drawn from the record
    /// of its mesh as it is at this moment.
    pub fn fill(&mut self, handle: &ObjectHandle, object: Object, mesh_manager: &MeshManager) -> (r:
        Result<(), ResourceError>)
        requires
            old(self).wf(),
            mesh_manager.wf(),
        ensures
            final(self).wf(),
            final(self)@ == filled(old(self)@, mesh_manager@.slots, handle.raw, object),
            r == fill_result(old(self)@, mesh_manager@.slots, handle.raw, object),
            r is Ok ==> draws(
                final(self)@[handle.raw.idx as int].state->Filled_0,
                mesh_manager@.slots[object.mesh.raw.idx as int].state->Filled_0,
            ),
    {
        let mesh = match mesh_manager.internal_data(object.mesh.get_raw()) {
            Ok(mesh) => mesh,
            Err(error) => {
                return Err(error);
            },
        };
        proof {
            mesh_manager.lemma_wf();
            let at = object.mesh.raw.idx as int;
            assert(mesh_manager@.slot_placed(mesh_manager@.slots[at]));
            lemma_shader_object_draws(object, *mesh);
        }

        let shader_object = InternalObject {
            material: object.material,
            transform: object.transform,
            sphere: mesh.bounding_sphere,
            start_idx: mesh.index_range.start as u32,
            count: (mesh.index_range.end - mesh.index_range.start) as u32,
            vertex_offset: mesh.vertex_range.start as i32,
        };

        self.registry.insert(handle.get_raw(), shader_object)
    }

    /// Marks the object as removed. It is gone from the next `ready` on.
    pub fn remove(&mut self, handle: &ObjectHandle) -> (r: Result<(), ResourceError>)
        requires
            old(self).wf(),
        ensures
            final(self).wf(),
            final(self)@ == removed(old(self)@, handle.raw),
            r == if is_live(old(self)@, handle.raw) {
                Ok::<(), ResourceError>(())
            } else {
                Err::<(), ResourceError>(ResourceError::UnknownHandle)
            },
    {
        self.registry.remove(handle.get_raw())
    }

    /// Reclaims the slots of the objects removed since the last call and
    /// returns a copy of the records of all filled objects, in slot order.
    pub fn ready(&mut self) -> (objects: Vec<InternalObject>)
        requires
            old(self).wf(),
        ensures
            final(self).wf(),
            final(self)@ == swept(old(self)@),
            objects@ == live_values(old(self)@),
    {
        self.registry.remove_all_dead();
        proof {
            lemma_sweep_keeps_live(old(self)@);
        }
        self.registry.values()
    }

    /// Replaces the transform of a filled object and nothing else.
    pub fn set_object_transform(&mut self, handle: RawHandle, transform: glam::Mat4) -> (r: Result<
        (),
        ResourceError,
    >)
        requires
            old(self).wf(),
        ensures
            final(self).wf(),
            final(self)@ == transformed(old(self)@, handle, transform),
            r == if is_filled(old(self)@, handle) {
                Ok::<(), ResourceError>(())
            } else {
                Err::<(), ResourceError>(ResourceError::UnknownHandle)
            },
    {
        match self.registry.get_mut(handle) {
            Ok(object) => {
                object.transform = transform;
                Ok(())
            },
            Err(error) => Err(error),
        }
    }
}

impl Default for ObjectManager {
    fn default() -> (manager: Self)
        ensures
            manager.wf(),
            manager@ == Seq::<Slot<InternalObject>>::empty(),
    {
        Self::new()
    }
}

} // verus!
