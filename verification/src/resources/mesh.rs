//! Meshes: where each one lies in the shared vertex and index buffers.

use vstd::prelude::*;
use crate::arena::{
    lemma_allocate_keeps_apart, lemma_release_keeps_apart, ArenaView, RangeArena,
};
use crate::datatypes::Mesh;
use crate::handle::{MeshHandle, RawHandle};
use crate::limits::DeviceLimits;
use crate::math::{BoundingSphere, IndexRange};
use crate::registry::{
    allocated, condemned_entries, held_value, inserted, is_filled, is_live, lemma_condemned_entries,
    removed, swept, ResourceError, ResourceRegistry, Slot, SlotState,
};

verus! {

/// The most vertices that the shared vertex buffer can hold. An object
/// names its first vertex by a signed 32-bit offset.
pub const VERTEX_CAPACITY: usize = 0x7fff_ffff;

/// The most indices that the shared index buffer can hold. An object names
/// its first index by an unsigned 32-bit number.
pub const INDEX_CAPACITY: usize = 0xffff_ffff;

/// Bytes of one vertex position: three single-precision numbers.
pub const SIZE_OF_VERTEX: u64 = 3 * 4;

/// Bytes of one index.
pub const SIZE_OF_INDEX: u64 = 4;

/// The vertices that the shared vertex buffer of a device holds: as many as
/// fit the largest buffer of the device, and no more than an offset can
/// name.
pub open spec fn vertex_capacity(limits: DeviceLimits) -> int {
    if limits.max_buffer_size / SIZE_OF_VERTEX < VERTEX_CAPACITY {
        (limits.max_buffer_size / SIZE_OF_VERTEX) as int
    } else {
        VERTEX_CAPACITY as int
    }
}

/// The indices that the shared index buffer of a device holds.
pub open spec fn index_capacity(limits: DeviceLimits) -> int {
    if limits.max_buffer_size / SIZE_OF_INDEX < INDEX_CAPACITY {
        (limits.max_buffer_size / SIZE_OF_INDEX) as int
    } else {
        INDEX_CAPACITY as int
    }
}

/// The number of vertices that the shared vertex buffer of a device holds.
pub fn vertex_buffer_capacity(limits: &DeviceLimits) -> (capacity: usize)
    ensures
        capacity == vertex_capacity(*limits),
{
    let room = limits.max_buffer_size / SIZE_OF_VERTEX;
    if room < VERTEX_CAPACITY as u64 {
        room as usize
    } else {
        VERTEX_CAPACITY
    }
}

/// The number of indices that the shared index buffer of a device holds.
pub fn index_buffer_capacity(limits: &DeviceLimits) -> (capacity: usize)
    ensures
        capacity == index_capacity(*limits),
{
    let room = limits.max_buffer_size / SIZE_OF_INDEX;
    if room < INDEX_CAPACITY as u64 {
        room as usize
    } else {
        INDEX_CAPACITY
    }
}

/// What a frame needs to know of a mesh.
#[derive(Clone, Copy, Debug, PartialEq)]
pub struct InternalMesh {
    pub vertex_range: IndexRange,
    pub index_range: IndexRange,
    pub bounding_sphere: BoundingSphere,
}

/// The state of a [`MeshManager`].
pub struct MeshManagerView {
    pub slots: Seq<Slot<InternalMesh>>,
    pub vertices: ArenaView,
    pub indices: ArenaView,
}

/// The vertex arena after the vertex ranges of `entries` were released, in
/// order.
pub open spec fn release_vertices(
    arena: ArenaView,
    entries: Seq<(RawHandle, Option<InternalMesh>)>,
) -> ArenaView
    decreases entries.len(),
{
    if entries.len() == 0 {
        arena
    } else {
        let before = release_vertices(arena, entries.drop_last());
        match entries.last().1 {
            Some(mesh) => before.after_release(mesh.vertex_range),
            None => before,
        }
    }
}

/// The index arena after the index ranges of `entries` were released, in
/// order.
pub open spec fn release_indices(
    arena: ArenaView,
    entries: Seq<(RawHandle, Option<InternalMesh>)>,
) -> ArenaView
    decreases entries.len(),
{
    if entries.len() == 0 {
        arena
    } else {
        let before = release_indices(arena, entries.drop_last());
        match entries.last().1 {
            Some(mesh) => before.after_release(mesh.index_range),
            None => before,
        }
    }
}

impl MeshManagerView {
    /// No mesh, and buffers as large as the device allows.
    pub open spec fn empty(limits: DeviceLimits) -> MeshManagerView {
        MeshManagerView {
            slots: Seq::empty(),
            vertices: ArenaView {
                free: Seq::empty(),
                frontier: 0,
                capacity: vertex_capacity(limits),
            },
            indices: ArenaView { free: Seq::empty(), frontier: 0, capacity: index_capacity(limits) },
        }
    }

    /// Both arenas are well formed and no larger than offsets can name; the
    /// ranges of every mesh that a slot holds are in use in them, and the
    /// ranges of two different slots do not overlap.
    pub open spec fn wf(self) -> bool {
        &&& self.vertices.wf()
        &&& self.indices.wf()
        &&& self.vertices.capacity <= VERTEX_CAPACITY
        &&& self.indices.capacity <= INDEX_CAPACITY
        &&& forall|i: int| 0 <= i < self.slots.len() ==> self.slot_placed(#[trigger] self.slots[i])
        &&& forall|i: int, j: int|
            0 <= i < self.slots.len() && 0 <= j < self.slots.len() && i != j ==> slots_apart(
                #[trigger] self.slots[i],
                #[trigger] self.slots[j],
            )
    }

    /// The mesh of a reclaimed entry, if it has one, is placed.
    pub open spec fn entry_placed(self, entry: (RawHandle, Option<InternalMesh>)) -> bool {
        match entry.1 {
            Some(mesh) => self.placed(mesh),
            None => true,
        }
    }

    /// The mesh that `slot` holds, if any, is placed.
    pub open spec fn slot_placed(self, slot: Slot<InternalMesh>) -> bool {
        match held_value(slot) {
            Some(mesh) => self.placed(mesh),
            None => true,
        }
    }

    /// The ranges of `mesh` are in use and within the buffers.
    pub open spec fn placed(self, mesh: InternalMesh) -> bool {
        &&& self.vertices.in_use(mesh.vertex_range)
        &&& self.indices.in_use(mesh.index_range)
        &&& mesh.vertex_range.end <= VERTEX_CAPACITY
        &&& mesh.index_range.end <= INDEX_CAPACITY
    }

    /// The record that `fill` stores for a mesh of this size.
    pub open spec fn record(self, vertex_count: int, index_count: int, sphere: BoundingSphere)
        -> InternalMesh {
        InternalMesh {
            vertex_range: self.vertices.allocation(vertex_count),
            index_range: self.indices.allocation(index_count),
            bounding_sphere: sphere,
        }
    }

    /// What `fill` answers: a handle that is not live is invalid, and a mesh
    /// needs room in both buffers.
    pub open spec fn fill_result(self, handle: RawHandle, vertex_count: int, index_count: int)
        -> Option<ResourceError> {
        if !is_live(self.slots, handle) {
            Some(ResourceError::InvalidHandle)
        } else if !self.vertices.has_room(vertex_count) || !self.indices.has_room(index_count) {
            Some(ResourceError::ArenaExhausted)
        } else {
            None
        }
    }

    /// The manager after `fill`. A refused call changes nothing. An accepted
    /// one allocates the new ranges, then releases the ranges of the mesh
    /// that the handle had before, if any, and stores the new record.
    pub open spec fn filled(
        self,
        handle: RawHandle,
        vertex_count: int,
        index_count: int,
        sphere: BoundingSphere,
    ) -> MeshManagerView {
        if self.fill_result(handle, vertex_count, index_count) is Some {
            self
        } else {
            let vertices = self.vertices.after_allocate(vertex_count);
            let indices = self.indices.after_allocate(index_count);
            MeshManagerView {
                slots: inserted(
                    self.slots,
                    handle,
                    self.record(vertex_count, index_count, sphere),
                ),
                vertices: match self.slots[handle.idx as int].state {
                    SlotState::Filled(previous) => vertices.after_release(previous.vertex_range),
                    _ => vertices,
                },
                indices: match self.slots[handle.idx as int].state {
                    SlotState::Filled(previous) => indices.after_release(previous.index_range),
                    _ => indices,
                },
            }
        }
    }

    /// The manager after `remove`.
    pub open spec fn removed(self, handle: RawHandle) -> MeshManagerView {
        MeshManagerView { slots: removed(self.slots, handle), ..self }
    }

    /// The manager after a sweep: condemned slots are reclaimed and the
    /// ranges of their meshes released.
    pub open spec fn swept(self) -> MeshManagerView {
        MeshManagerView {
            slots: swept(self.slots),
            vertices: release_vertices(self.vertices, condemned_entries(self.slots)),
            indices: release_indices(self.indices, condemned_entries(self.slots)),
        }
    }
}

/// The meshes that the two slots hold, if both hold one, are apart.
pub open spec fn slots_apart(a: Slot<InternalMesh>, b: Slot<InternalMesh>) -> bool {
    match (held_value(a), held_value(b)) {
        (Some(a), Some(b)) => apart(a, b),
        _ => true,
    }
}

/// The mesh of a reclaimed entry, if it has one, is apart from the mesh that
/// the slot holds, if it holds one.
pub open spec fn entry_apart(entry: (RawHandle, Option<InternalMesh>), slot: Slot<InternalMesh>)
    -> bool {
    match (entry.1, held_value(slot)) {
        (Some(a), Some(b)) => apart(a, b),
        _ => true,
    }
}

/// The meshes of two reclaimed entries, if both have one, are apart.
pub open spec fn entries_apart(
    a: (RawHandle, Option<InternalMesh>),
    b: (RawHandle, Option<InternalMesh>),
) -> bool {
    match (a.1, b.1) {
        (Some(a), Some(b)) => apart(a, b),
        _ => true,
    }
}

/// The two meshes share no vertex and no index.
pub open spec fn apart(a: InternalMesh, b: InternalMesh) -> bool {
    a.vertex_range.disjoint(b.vertex_range) && a.index_range.disjoint(b.index_range)
}

/// Sweeping the meshes is idempotent: a second sweep right after a first one
/// reclaims no slot and releases no range.
pub proof fn lemma_mesh_sweep_idempotent(meshes: MeshManagerView)
    ensures
        meshes.swept().swept() == meshes.swept(),
{
    crate::registry::lemma_sweep_idempotent(meshes.slots);
}

/// No two meshes share a vertex or an index: the ranges of the meshes that
/// two different slots hold do not overlap, whether the meshes are live or
/// wait for the sweep.
pub proof fn lemma_meshes_apart(meshes: MeshManagerView, a: RawHandle, b: RawHandle)
    requires
        meshes.wf(),
        is_filled(meshes.slots, a),
        is_filled(meshes.slots, b),
        a.idx != b.idx,
    ensures
        apart(
            meshes.slots[a.idx as int].state->Filled_0,
            meshes.slots[b.idx as int].state->Filled_0,
        ),
{
    assert(slots_apart(meshes.slots[a.idx as int], meshes.slots[b.idx as int]));
}

/// Owns the registry of meshes and the two arenas that place them.
pub struct MeshManager {
    registry: ResourceRegistry<InternalMesh>,
    vertices: RangeArena,
    indices: RangeArena,
}

impl View for MeshManager {
    type V = MeshManagerView;

    /// The slots of the registry and the two arenas.
    closed spec fn view(&self) -> MeshManagerView {
        MeshManagerView {
            slots: self.registry@,
            vertices: self.vertices@,
            indices: self.indices@,
        }
    }
}

impl MeshManager {
    /// The registry is well formed, and so is the view.
    pub closed spec fn wf(&self) -> bool {
        self.registry.wf() && self@.wf()
    }

    /// What `wf` says of the view.
    pub proof fn lemma_wf(&self)
        requires
            self.wf(),
        ensures
            self@.wf(),
    {
    }

    /// A manager without meshes, with buffers sized to the device.
    pub fn new(limits: &DeviceLimits) -> (manager: Self)
        ensures
            manager.wf(),
            manager@ == MeshManagerView::empty(*limits),
    {
        MeshManager {
            registry: ResourceRegistry::new(),
            vertices: RangeArena::new(vertex_buffer_capacity(limits)),
            indices: RangeArena::new(index_buffer_capacity(limits)),
        }
    }

    /// Hands out the handle of a mesh to come.
    pub fn allocate(&mut self) -> (handle: MeshHandle)
        requires
            old(self).wf(),
        ensures
            final(self).wf(),
            allocated(old(self)@.slots, final(self)@.slots, handle.raw),
            final(self)@.vertices == old(self)@.vertices,
            final(self)@.indices == old(self)@.indices,
    {
        let raw = self.registry.allocate();
        proof {
            let pre = old(self)@;
            let post = self@;
            assert forall|i: int| 0 <= i < post.slots.len() implies post.slot_placed(
                #[trigger] post.slots[i],
            ) by {
                if i < pre.slots.len() && i != raw.idx {
                    assert(pre.slot_placed(pre.slots[i]));
                }
            }
            assert forall|i: int, j: int|
                0 <= i < post.slots.len() && 0 <= j < post.slots.len() && i != j implies slots_apart(
                #[trigger] post.slots[i],
                #[trigger] post.slots[j],
            ) by {
                if i < pre.slots.len() && i != raw.idx && j < pre.slots.len() && j != raw.idx {
                    assert(slots_apart(pre.slots[i], pre.slots[j]));
                }
            }
        }
        MeshHandle { raw }
    }

    /// The record of a mesh.
    pub fn internal_data(&self, handle: RawHandle) -> (r: Result<&InternalMesh, ResourceError>)
        ensures
            is_filled(self@.slots, handle) ==> r == Ok::<&InternalMesh, ResourceError>(
                &self@.slots[handle.idx as int].state->Filled_0,
            ),
            !is_filled(self@.slots, handle) ==> r == Err::<&InternalMesh, ResourceError>(
                ResourceError::UnknownHandle,
            ),
    {
        self.registry.get(handle)
    }

    /// Places `mesh` in the shared buffers and stores its record under
    /// `handle`. Returns the record, which says where the vertices and
    /// indices are to be written.
    pub fn fill(&mut self, handle: &MeshHandle, mesh: &Mesh) -> (r: Result<
        InternalMesh,
        ResourceError,
    >)
        requires
            old(self).wf(),
        ensures
            final(self).wf(),
            final(self)@ == old(self)@.filled(
                handle.raw,
                mesh.vertex_positions@.len() as int,
                mesh.indices@.len() as int,
                mesh.bounding_sphere,
            ),
            r == match old(self)@.fill_result(
                handle.raw,
                mesh.vertex_positions@.len() as int,
                mesh.indices@.len() as int,
            ) {
                Some(error) => Err::<InternalMesh, ResourceError>(error),
                None => Ok::<InternalMesh, ResourceError>(
                    old(self)@.record(
                        mesh.vertex_positions@.len() as int,
                        mesh.indices@.len() as int,
                        mesh.bounding_sphere,
                    ),
                ),
            },
    {
        let vertex_count = mesh.vertex_positions.len();
        let index_count = mesh.indices.len();
        if !self.registry.contains(handle.raw) {
            return Err(ResourceError::InvalidHandle);
        }
        if !self.vertices.has_room(vertex_count) || !self.indices.has_room(index_count) {
            return Err(ResourceError::ArenaExhausted);
        }
        let ghost pre = self@;
        proof {
            lemma_allocate_keeps_apart(pre.vertices, vertex_count as int);
            lemma_allocate_keeps_apart(pre.indices, index_count as int);
        }
        let previous = match self.registry.get(handle.raw) {
            Ok(previous) => Some(*previous),
            Err(_) => None,
        };
        let vertex_range = self.vertices.allocate(vertex_count).unwrap();
        let index_range = self.indices.allocate(index_count).unwrap();
        let record = InternalMesh {
            vertex_range,
            index_range,
            bounding_sphere: mesh.bounding_sphere,
        };
        let ghost mid_vertices = self.vertices@;
        let ghost mid_indices = self.indices@;
        match previous {
            Some(previous) => {
                proof {
                    assert(held_value(pre.slots[handle.raw.idx as int]) == Some(previous));
                    assert(pre.slot_placed(pre.slots[handle.raw.idx as int]));
                    lemma_release_keeps_apart(mid_vertices, previous.vertex_range);
                    lemma_release_keeps_apart(mid_indices, previous.index_range);
                }
                self.vertices.release(previous.vertex_range);
                self.indices.release(previous.index_range);
            },
            None => {},
        }
        let inserted = self.registry.insert(handle.raw, record);
        proof {
            let post = self@;
            let at = handle.raw.idx as int;
            assert(post.slots[at].state == SlotState::Filled(record));
            assert(pre.slot_placed(pre.slots[at]));
            assert forall|i: int| 0 <= i < post.slots.len() implies post.slot_placed(
                #[trigger] post.slots[i],
            ) by {
                if i != at {
                    assert(post.slots[i] == pre.slots[i]);
                    assert(pre.slot_placed(pre.slots[i]));
                    assert(slots_apart(pre.slots[i], pre.slots[at]));
                }
            }
            assert forall|i: int, j: int|
                0 <= i < post.slots.len() && 0 <= j < post.slots.len() && i != j implies slots_apart(
                #[trigger] post.slots[i],
                #[trigger] post.slots[j],
            ) by {
                if i != at {
                    assert(post.slots[i] == pre.slots[i]);
                    assert(pre.slot_placed(pre.slots[i]));
                }
                if j != at {
                    assert(post.slots[j] == pre.slots[j]);
                    assert(pre.slot_placed(pre.slots[j]));
                }
                if i != at && j != at {
                    assert(slots_apart(pre.slots[i], pre.slots[j]));
                }
            }
        }
        Ok(record)
    }

    /// Marks the mesh as removed. Its ranges stay in use until the next
    /// call of `ready`.
    pub fn remove(&mut self, handle: &MeshHandle) -> (r: Result<(), ResourceError>)
        requires
            old(self).wf(),
        ensures
            final(self).wf(),
            final(self)@ == old(self)@.removed(handle.raw),
            r == if is_live(old(self)@.slots, handle.raw) {
                Ok::<(), ResourceError>(())
            } else {
                Err::<(), ResourceError>(ResourceError::UnknownHandle)
            },
    {
        let r = self.registry.remove(handle.raw);
        proof {
            let pre = old(self)@;
            let post = self@;
            assert forall|i: int| 0 <= i < post.slots.len() implies held_value(
                #[trigger] post.slots[i],
            ) == held_value(pre.slots[i]) by {}
            assert forall|i: int| 0 <= i < post.slots.len() implies post.slot_placed(
                #[trigger] post.slots[i],
            ) by {
                assert(pre.slot_placed(pre.slots[i]));
            }
            assert forall|i: int, j: int|
                0 <= i < post.slots.len() && 0 <= j < post.slots.len() && i != j implies slots_apart(
                #[trigger] post.slots[i],
                #[trigger] post.slots[j],
            ) by {
                assert(slots_apart(pre.slots[i], pre.slots[j]));
            }
        }
        r
    }

    /// Reclaims the slots of the meshes removed since the last call and
    /// releases their ranges.
    pub fn ready(&mut self)
        requires
            old(self).wf(),
        ensures
            final(self).wf(),
            final(self)@ == old(self)@.swept(),
    {
        let ghost pre = self@;
        proof {
            self.registry.lemma_len_fits();
        }
        let reclaimed = self.registry.remove_all_dead();
        proof {
            lemma_condemned_entries(pre.slots);
            let now = self@;
            assert forall|i: int| 0 <= i < now.slots.len() implies now.slot_placed(
                #[trigger] now.slots[i],
            ) by {
                assert(pre.slot_placed(pre.slots[i]));
            }
            assert forall|i: int, j: int|
                0 <= i < now.slots.len() && 0 <= j < now.slots.len() && i != j implies slots_apart(
                #[trigger] now.slots[i],
                #[trigger] now.slots[j],
            ) by {
                assert(slots_apart(pre.slots[i], pre.slots[j]));
            }
            assert forall|l: int| 0 <= l < reclaimed@.len() implies now.entry_placed(
                #[trigger] reclaimed@[l],
            ) by {
                let at = reclaimed@[l].0.idx as int;
                assert(pre.slot_placed(pre.slots[at]));
            }
            assert forall|l: int, i: int|
                0 <= l < reclaimed@.len() && 0 <= i < now.slots.len() implies entry_apart(
                #[trigger] reclaimed@[l],
                #[trigger] now.slots[i],
            ) by {
                let at = reclaimed@[l].0.idx as int;
                if i != at {
                    assert(slots_apart(pre.slots[at], pre.slots[i]));
                }
            }
            assert forall|l: int, m: int| 0 <= l < m < reclaimed@.len() implies entries_apart(
                #[trigger] reclaimed@[l],
                #[trigger] reclaimed@[m],
            ) by {
                let a = reclaimed@[l].0.idx as int;
                let b = reclaimed@[m].0.idx as int;
                assert(slots_apart(pre.slots[a], pre.slots[b]));
            }
            assert(reclaimed@.take(0) =~= Seq::<(RawHandle, Option<InternalMesh>)>::empty());
        }
        let mut k: usize = 0;
        while k < reclaimed.len()
            invariant
                k <= reclaimed@.len(),
                self.registry.wf(),
                self.registry@ == swept(pre.slots),
                reclaimed@ == condemned_entries(pre.slots),
                self.vertices@ == release_vertices(pre.vertices, reclaimed@.take(k as int)),
                self.indices@ == release_indices(pre.indices, reclaimed@.take(k as int)),
                self@.wf(),
                forall|l: int| k <= l < reclaimed@.len() ==> self@.entry_placed(#[trigger] reclaimed@[l]),
                forall|l: int, i: int|
                    k <= l < reclaimed@.len() && 0 <= i < self@.slots.len() ==> entry_apart(
                        #[trigger] reclaimed@[l],
                        #[trigger] self@.slots[i],
                    ),
                forall|l: int, m: int|
                    k <= l < m < reclaimed@.len() ==> entries_apart(
                        #[trigger] reclaimed@[l],
                        #[trigger] reclaimed@[m],
                    ),
            decreases reclaimed@.len() - k,
        {
            let ghost before = self@;
            assert(reclaimed@.take(k as int + 1).drop_last() =~= reclaimed@.take(k as int));
            assert(before.entry_placed(reclaimed@[k as int]));
            match reclaimed[k].1 {
                Some(mesh) => {
                    proof {
                        lemma_release_keeps_apart(before.vertices, mesh.vertex_range);
                        lemma_release_keeps_apart(before.indices, mesh.index_range);
                    }
                    self.vertices.release(mesh.vertex_range);
                    self.indices.release(mesh.index_range);
                    proof {
                        let now = self@;
                        assert forall|i: int| 0 <= i < now.slots.len() implies now.slot_placed(
                            #[trigger] now.slots[i],
                        ) by {
                            assert(before.slot_placed(before.slots[i]));
                            assert(entry_apart(reclaimed@[k as int], before.slots[i]));
                        }
                        assert forall|l: int| k < l < reclaimed@.len() implies now.entry_placed(
                            #[trigger] reclaimed@[l],
                        ) by {
                            assert(before.entry_placed(reclaimed@[l]));
                            assert(entries_apart(reclaimed@[k as int], reclaimed@[l]));
                        }
                    }
                },
                None => {},
            }
            k += 1;
        }
        assert(reclaimed@.take(k as int) =~= reclaimed@);
    }
}

} // verus!
