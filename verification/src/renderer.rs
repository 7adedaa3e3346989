//! The renderer: the staged instructions, the four managers and the culling
//! pass, and the bookkeeping of one frame.

use vstd::prelude::*;
use vstd::string::*;
use crate::culling::{
    object_count, prepare_error, prepared, run_commands, CullingError, CullingPass,
    CullingPassData, IndirectDraw, PassCommand,
};
use crate::limits::DeviceLimits;
use crate::datatypes::{Material, Mesh, Object, RendererOptions, Texture};
use crate::handle::{MaterialHandle, MeshHandle, ObjectHandle, RawHandle, TextureHandle};
use crate::instruction::{Instruction, InstructionStreamPair, StreamPairView};
use crate::registry::{
    allocated, inserted, is_filled, is_live, lemma_sweep_idempotent, lemma_sweep_keeps_live,
    live_values, removed, swept, ResourceError, Slot,
};
use crate::resources::material::MaterialManager;
use crate::resources::mesh::{
    lemma_mesh_sweep_idempotent, InternalMesh, MeshManager, MeshManagerView, SIZE_OF_INDEX,
    SIZE_OF_VERTEX,
};
use crate::arena::lemma_allocate_keeps_apart;
use crate::resources::object::{
    draws, filled, fill_result, lemma_shader_object_draws, shader_object, transformed,
    InternalObject, ObjectManager,
};
use crate::resources::texture::{texture_record, InternalTexture, TextureManager};

verus! {

/// The state of the four managers and the options.
pub struct SceneView {
    pub meshes: MeshManagerView,
    pub textures: Seq<Slot<InternalTexture>>,
    pub materials: Seq<Slot<Material>>,
    pub objects: Seq<Slot<InternalObject>>,
    pub options: RendererOptions,
}

/// What a removal answers.
pub open spec fn removal_error<T>(slots: Seq<Slot<T>>, handle: RawHandle) -> Option<
    ResourceError,
> {
    if is_live(slots, handle) {
        None
    } else {
        Some(ResourceError::UnknownHandle)
    }
}

/// What giving a value to a handle answers.
pub open spec fn insertion_error<T>(slots: Seq<Slot<T>>, handle: RawHandle)
    -> Option<ResourceError> {
    if is_live(slots, handle) {
        None
    } else {
        Some(ResourceError::InvalidHandle)
    }
}

impl SceneView {
    /// A scene without resources.
    pub open spec fn empty(limits: DeviceLimits, options: RendererOptions) -> SceneView {
        SceneView {
            meshes: MeshManagerView::empty(limits),
            textures: Seq::empty(),
            materials: Seq::empty(),
            objects: Seq::empty(),
            options,
        }
    }

    /// The scene after `instruction` was applied. A refused instruction
    /// changes nothing.
    pub open spec fn apply(self, instruction: Instruction) -> SceneView {
        match instruction {
            Instruction::AddMesh { handle, mesh } => SceneView {
                meshes: self.meshes.filled(
                    handle.raw,
                    mesh.vertex_positions@.len() as int,
                    mesh.indices@.len() as int,
                    mesh.bounding_sphere,
                ),
                ..self
            },
            Instruction::RemoveMesh { handle } => SceneView {
                meshes: self.meshes.removed(handle.raw),
                ..self
            },
            Instruction::AddTexture { handle, texture } => SceneView {
                textures: inserted(self.textures, handle.raw, texture_record(texture)),
                ..self
            },
            Instruction::RemoveTexture { handle } => SceneView {
                textures: removed(self.textures, handle.raw),
                ..self
            },
            Instruction::AddMaterial { handle, material } => SceneView {
                materials: inserted(self.materials, handle.raw, material),
                ..self
            },
            Instruction::RemoveMaterial { handle } => SceneView {
                materials: removed(self.materials, handle.raw),
                ..self
            },
            Instruction::AddObject { handle, object } => SceneView {
                objects: filled(self.objects, self.meshes.slots, handle.raw, object),
                ..self
            },
            Instruction::SetObjectTransform { handle, transform } => SceneView {
                objects: transformed(self.objects, handle.raw, transform),
                ..self
            },
            Instruction::RemoveObject { handle } => SceneView {
                objects: removed(self.objects, handle.raw),
                ..self
            },
            Instruction::SetOptions { options } => SceneView { options, ..self },
        }
    }

    /// Why `instruction` is refused, if it is.
    pub open spec fn refusal(self, instruction: Instruction) -> Option<ResourceError> {
        match instruction {
            Instruction::AddMesh { handle, mesh } => self.meshes.fill_result(
                handle.raw,
                mesh.vertex_positions@.len() as int,
                mesh.indices@.len() as int,
            ),
            Instruction::RemoveMesh { handle } => removal_error(self.meshes.slots, handle.raw),
            Instruction::AddTexture { handle, texture } => insertion_error(
                self.textures,
                handle.raw,
            ),
            Instruction::RemoveTexture { handle } => removal_error(self.textures, handle.raw),
            Instruction::AddMaterial { handle, material } => insertion_error(
                self.materials,
                handle.raw,
            ),
            Instruction::RemoveMaterial { handle } => removal_error(self.materials, handle.raw),
            Instruction::AddObject { handle, object } => match fill_result(
                self.objects,
                self.meshes.slots,
                handle.raw,
                object,
            ) {
                Ok(_) => None,
                Err(error) => Some(error),
            },
            Instruction::SetObjectTransform { handle, transform } => if is_filled(
                self.objects,
                handle.raw,
            ) {
                None
            } else {
                Some(ResourceError::UnknownHandle)
            },
            Instruction::RemoveObject { handle } => removal_error(self.objects, handle.raw),
            Instruction::SetOptions { options } => None,
        }
    }

    /// The scene after the instructions of `batch` were applied in order.
    pub open spec fn apply_all(self, batch: Seq<Instruction>) -> SceneView
        decreases batch.len(),
    {
        if batch.len() == 0 {
            self
        } else {
            self.apply_all(batch.drop_last()).apply(batch.last())
        }
    }

    /// The scene after every manager reclaimed what was removed.
    pub open spec fn sweep(self) -> SceneView {
        SceneView {
            meshes: self.meshes.swept(),
            textures: swept(self.textures),
            materials: swept(self.materials),
            objects: swept(self.objects),
            options: self.options,
        }
    }
}

/// An object staged behind its mesh is accepted with it. If a scene accepts
/// a mesh, then in the scene that has the mesh an object of that mesh under
/// a live handle is accepted too, and its record draws exactly the indices
/// of the mesh, from the first vertex of the mesh on.
pub proof fn lemma_object_follows_its_mesh(
    scene: SceneView,
    mesh_handle: MeshHandle,
    mesh: Mesh,
    object_handle: ObjectHandle,
    object: Object,
)
    requires
        scene.meshes.wf(),
        scene.refusal(Instruction::AddMesh { handle: mesh_handle, mesh }) is None,
        is_live(scene.objects, object_handle.raw),
        object.mesh == mesh_handle,
    ensures
        ({
            let record = scene.meshes.record(
                mesh.vertex_positions@.len() as int,
                mesh.indices@.len() as int,
                mesh.bounding_sphere,
            );
            let placed = scene.apply(Instruction::AddMesh { handle: mesh_handle, mesh });
            let add = Instruction::AddObject { handle: object_handle, object };
            &&& placed.refusal(add) is None
            &&& is_filled(placed.apply(add).objects, object_handle.raw)
            &&& placed.apply(add).objects[object_handle.raw.idx as int].state->Filled_0
                == shader_object(object, record)
            &&& draws(shader_object(object, record), record)
            &&& shader_object(object, record).count == mesh.indices@.len()
            &&& record.vertex_range.spec_len() == mesh.vertex_positions@.len()
        }),
{
    let vertex_count = mesh.vertex_positions@.len() as int;
    let index_count = mesh.indices@.len() as int;
    let record = scene.meshes.record(vertex_count, index_count, mesh.bounding_sphere);
    lemma_allocate_keeps_apart(scene.meshes.vertices, vertex_count);
    lemma_allocate_keeps_apart(scene.meshes.indices, index_count);
    lemma_shader_object_draws(object, record);
}

/// A frame without staged instructions right after another frame changes
/// nothing: the sweep of every manager is idempotent.
pub proof fn lemma_scene_sweep_idempotent(scene: SceneView)
    ensures
        scene.sweep().apply_all(Seq::empty()).sweep() == scene.sweep(),
{
    lemma_mesh_sweep_idempotent(scene.meshes);
    lemma_sweep_idempotent(scene.textures);
    lemma_sweep_idempotent(scene.materials);
    lemma_sweep_idempotent(scene.objects);
}

/// Data that an accepted instruction brought and that is to be written to
/// the device.
#[allow(inconsistent_fields)]
pub enum Upload {
    /// A mesh, where it was placed in the shared buffers, and at which
    /// bytes of the vertex and the index buffer its data begin.
    Mesh {
        handle: MeshHandle,
        placement: InternalMesh,
        vertex_byte_offset: u64,
        index_byte_offset: u64,
        mesh: Mesh,
    },
    /// A texture.
    Texture { handle: TextureHandle, texture: Texture },
}

/// The upload that `instruction` asks for when `scene` accepts it, if any.
pub open spec fn upload_of(scene: SceneView, instruction: Instruction) -> Option<Upload> {
    match instruction {
        Instruction::AddMesh { handle, mesh } => {
            let placement = scene.meshes.record(
                mesh.vertex_positions@.len() as int,
                mesh.indices@.len() as int,
                mesh.bounding_sphere,
            );
            Some(
                Upload::Mesh {
                    handle,
                    placement,
                    vertex_byte_offset: (placement.vertex_range.start * SIZE_OF_VERTEX) as u64,
                    index_byte_offset: (placement.index_range.start * SIZE_OF_INDEX) as u64,
                    mesh,
                },
            )
        },
        Instruction::AddTexture { handle, texture } => Some(Upload::Texture { handle, texture }),
        _ => None,
    }
}

/// An instruction that was refused: its position in the batch and the
/// reason.
#[derive(Clone, Copy, Debug, PartialEq, Eq, Structural)]
pub struct Rejection {
    pub position: usize,
    pub error: ResourceError,
}

/// The uploads that applying `batch` to `scene` asks for: one for each mesh
/// and each texture that was accepted, in the order of the batch.
pub open spec fn uploads_of(scene: SceneView, batch: Seq<Instruction>) -> Seq<Upload>
    decreases batch.len(),
{
    if batch.len() == 0 {
        Seq::empty()
    } else {
        let before = scene.apply_all(batch.drop_last());
        let rest = uploads_of(scene, batch.drop_last());
        if before.refusal(batch.last()) is None {
            match upload_of(before, batch.last()) {
                Some(upload) => rest.push(upload),
                None => rest,
            }
        } else {
            rest
        }
    }
}

/// The instructions of `batch` that `scene` refuses, in the order of the
/// batch.
pub open spec fn rejections_of(scene: SceneView, batch: Seq<Instruction>) -> Seq<Rejection>
    decreases batch.len(),
{
    if batch.len() == 0 {
        Seq::empty()
    } else {
        let before = scene.apply_all(batch.drop_last());
        let rest = rejections_of(scene, batch.drop_last());
        match before.refusal(batch.last()) {
            Some(error) => rest.push(
                Rejection { position: (batch.len() - 1) as usize, error },
            ),
            None => rest,
        }
    }
}

/// What became of one instruction.
pub enum Applied {
    /// Accepted, with nothing to write to the device.
    Done,
    /// Accepted, with data to write to the device.
    Brought(Upload),
    /// Refused; the scene is as it was.
    Refused(ResourceError),
}

/// The culling of one frame: its buffers, the commands that run it and the
/// draw that reads what it wrote.
pub struct CullingFrame {
    pub data: CullingPassData,
    pub commands: Vec<PassCommand>,
    pub draw: IndirectDraw,
}

/// Counts of one frame.
#[derive(Clone, Copy, Debug, PartialEq, Eq, Structural)]
pub struct RendererStatistics {
    /// Instructions taken from the queue.
    pub instructions: usize,
    /// Instructions among them that were refused.
    pub rejected: usize,
    /// Objects handed to the culling pass.
    pub objects: usize,
}

/// Everything that one frame hands to the device.
pub struct Frame {
    /// Meshes and textures to write to the device, in the order of arrival.
    pub uploads: Vec<Upload>,
    /// Instructions that were refused.
    pub rejected: Vec<Rejection>,
    /// The textures of the frame, in slot order.
    pub textures: Vec<InternalTexture>,
    /// The materials of the frame, in slot order.
    pub materials: Vec<Material>,
    /// The objects of the frame, in slot order.
    pub objects: Vec<InternalObject>,
    /// The culling pass sized to `objects`, or why it cannot run.
    pub culling: Result<CullingFrame, CullingError>,
    /// The counts of the frame.
    pub statistics: RendererStatistics,
}

/// The state of a [`Renderer`].
pub struct RendererView {
    pub instructions: StreamPairView,
    pub scene: SceneView,
    pub subgroup_size: u32,
    pub limits: DeviceLimits,
}

/// The error of the culling of a frame of `object_count` objects, if any.
pub open spec fn culling_error(limits: DeviceLimits, object_count: nat) -> Option<CullingError> {
    if object_count > u32::MAX {
        Some(CullingError::TooManyObjects)
    } else {
        prepare_error(limits, object_count as u32)
    }
}

/// Stages scene changes and turns them, once per frame, into what the
/// device is to do.
pub struct Renderer {
    instructions: InstructionStreamPair,
    mesh_manager: MeshManager,
    texture_manager: TextureManager,
    material_manager: MaterialManager,
    object_manager: ObjectManager,
    culling_pass: CullingPass,
    limits: DeviceLimits,
    options: RendererOptions,
}

impl View for Renderer {
    type V = RendererView;

    /// The staged instructions, the scene, and what the device reported.
    closed spec fn view(&self) -> RendererView {
        RendererView {
            instructions: self.instructions@,
            scene: SceneView {
                meshes: self.mesh_manager@,
                textures: self.texture_manager@,
                materials: self.material_manager@,
                objects: self.object_manager@,
                options: self.options,
            },
            subgroup_size: self.culling_pass.spec_subgroup_size(),
            limits: self.limits,
        }
    }
}

impl Renderer {
    /// Every manager is well formed, and between frames the consumer list
    /// is empty.
    pub closed spec fn wf(&self) -> bool {
        &&& self.mesh_manager.wf()
        &&& self.texture_manager.wf()
        &&& self.material_manager.wf()
        &&& self.object_manager.wf()
        &&& self.instructions@.consumer.len() == 0
    }

    /// A renderer with an empty scene and nothing staged.
    pub fn new(options: RendererOptions, limits: DeviceLimits, culling_pass: CullingPass) -> (renderer:
        Self)
        ensures
            renderer.wf(),
            renderer@ == (RendererView {
                instructions: StreamPairView::empty(),
                scene: SceneView::empty(limits, options),
                subgroup_size: culling_pass.spec_subgroup_size(),
                limits,
            }),
    {
        Renderer {
            instructions: InstructionStreamPair::new(),
            mesh_manager: MeshManager::new(&limits),
            texture_manager: TextureManager::new(),
            material_manager: MaterialManager::new(),
            object_manager: ObjectManager::new(),
            culling_pass,
            limits,
            options,
        }
    }

    /// The options in force.
    pub fn options(&self) -> (options: RendererOptions)
        ensures
            options == self@.scene.options,
    {
        self.options
    }

    /// The limits of the device that the renderer was created for.
    pub fn limits(&self) -> (limits: DeviceLimits)
        ensures
            limits == self@.limits,
    {
        self.limits
    }

    /// The culling pass.
    pub fn culling_pass(&self) -> (pass: &CullingPass)
        ensures
            pass.spec_subgroup_size() == self@.subgroup_size,
    {
        &self.culling_pass
    }

    /// What `wf` says of the view: the meshes are placed without overlap,
    /// and nothing waits in the consumer list.
    pub proof fn lemma_wf(&self)
        requires
            self.wf(),
        ensures
            self@.scene.meshes.wf(),
            self@.instructions.consumer.len() == 0,
    {
        self.mesh_manager.lemma_wf();
    }

    /// Applies one instruction to the manager it belongs to.
    fn apply(&mut self, instruction: Instruction) -> (applied: Applied)
        requires
            old(self).wf(),
        ensures
            final(self).wf(),
            final(self)@ == (RendererView {
                scene: old(self)@.scene.apply(instruction),
                ..old(self)@
            }),
            match old(self)@.scene.refusal(instruction) {
                Some(error) => applied matches Applied::Refused(e) && e == error,
                None => match upload_of(old(self)@.scene, instruction) {
                    Some(upload) => applied matches Applied::Brought(u) && u == upload,
                    None => applied is Done,
                },
            },
    {
        match instruction {
            Instruction::AddMesh { handle, mesh } => {
                match self.mesh_manager.fill(&handle, &mesh) {
                    Ok(placement) => {
                        proof {
                            self.mesh_manager.lemma_wf();
                            let at = handle.raw.idx as int;
                            assert(self.mesh_manager@.slot_placed(self.mesh_manager@.slots[at]));
                        }
                        Applied::Brought(
                            Upload::Mesh {
                                handle,
                                placement,
                                vertex_byte_offset: placement.vertex_range.start as u64
                                    * SIZE_OF_VERTEX,
                                index_byte_offset: placement.index_range.start as u64
                                    * SIZE_OF_INDEX,
                                mesh,
                            },
                        )
                    },
                    Err(error) => Applied::Refused(error),
                }
            },
            Instruction::RemoveMesh { handle } => match self.mesh_manager.remove(&handle) {
                Ok(_) => Applied::Done,
                Err(error) => Applied::Refused(error),
            },
            Instruction::AddTexture { handle, texture } => match self.texture_manager.fill(
                &handle,
                &texture,
            ) {
                Ok(_) => Applied::Brought(Upload::Texture { handle, texture }),
                Err(error) => Applied::Refused(error),
            },
            Instruction::RemoveTexture { handle } => match self.texture_manager.remove(&handle) {
                Ok(_) => Applied::Done,
                Err(error) => Applied::Refused(error),
            },
            Instruction::AddMaterial { handle, material } => match self.material_manager.fill(
                &handle,
                material,
            ) {
                Ok(_) => Applied::Done,
                Err(error) => Applied::Refused(error),
            },
            Instruction::RemoveMaterial { handle } => match self.material_manager.remove(&handle) {
                Ok(_) => Applied::Done,
                Err(error) => Applied::Refused(error),
            },
            Instruction::AddObject { handle, object } => match self.object_manager.fill(
                &handle,
                object,
                &self.mesh_manager,
            ) {
                Ok(_) => Applied::Done,
                Err(error) => Applied::Refused(error),
            },
            Instruction::SetObjectTransform {
                handle,
                transform,
            } => match self.object_manager.set_object_transform(handle.get_raw(), transform) {
                Ok(_) => Applied::Done,
                Err(error) => Applied::Refused(error),
            },
            Instruction::RemoveObject { handle } => match self.object_manager.remove(&handle) {
                Ok(_) => Applied::Done,
                Err(error) => Applied::Refused(error),
            },
            Instruction::SetOptions { options } => {
                self.options = options;
                Applied::Done
            },
        }
    }

    /// Hands out the handle of a new mesh and stages the mesh under it.
    pub fn add_mesh(&mut self, mesh: Mesh) -> (handle: MeshHandle)
        requires
            old(self).wf(),
        ensures
            final(self).wf(),
            allocated(old(self)@.scene.meshes.slots, final(self)@.scene.meshes.slots, handle.raw),
            final(self)@ == (RendererView {
                instructions: old(self)@.instructions.append(Instruction::AddMesh { handle, mesh }),
                scene: SceneView {
                    meshes: MeshManagerView {
                        slots: final(self)@.scene.meshes.slots,
                        ..old(self)@.scene.meshes
                    },
                    ..old(self)@.scene
                },
                ..old(self)@
            }),
    {
        let handle = self.mesh_manager.allocate();

        self.instructions.append(Instruction::AddMesh { handle, mesh });

        handle
    }

    /// Stages the removal of a mesh.
    pub fn remove_mesh(&mut self, handle: MeshHandle)
        requires
            old(self).wf(),
        ensures
            final(self).wf(),
            final(self)@ == (RendererView {
                instructions: old(self)@.instructions.append(Instruction::RemoveMesh { handle }),
                ..old(self)@
            }),
    {
        self.instructions.append(Instruction::RemoveMesh { handle });
    }

    /// Hands out the handle of a new texture and stages the texture under
    /// it.
    pub fn add_texture(&mut self, texture: Texture) -> (handle: TextureHandle)
        requires
            old(self).wf(),
        ensures
            final(self).wf(),
            allocated(old(self)@.scene.textures, final(self)@.scene.textures, handle.raw),
            final(self)@ == (RendererView {
                instructions: old(self)@.instructions.append(
                    Instruction::AddTexture { handle, texture },
                ),
                scene: SceneView { textures: final(self)@.scene.textures, ..old(self)@.scene },
                ..old(self)@
            }),
    {
        let handle = self.texture_manager.allocate();
        self.instructions.append(Instruction::AddTexture { handle, texture });
        handle
    }

    /// Stages the removal of a texture.
    pub fn remove_texture(&mut self, handle: TextureHandle)
        requires
            old(self).wf(),
        ensures
            final(self).wf(),
            final(self)@ == (RendererView {
                instructions: old(self)@.instructions.append(
                    Instruction::RemoveTexture { handle },
                ),
                ..old(self)@
            }),
    {
        self.instructions.append(Instruction::RemoveTexture { handle })
    }

    /// Hands out the handle of a new material and stages the material under
    /// it.
    pub fn add_material(&mut self, material: Material) -> (handle: MaterialHandle)
        requires
            old(self).wf(),
        ensures
            final(self).wf(),
            allocated(old(self)@.scene.materials, final(self)@.scene.materials, handle.raw),
            final(self)@ == (RendererView {
                instructions: old(self)@.instructions.append(
                    Instruction::AddMaterial { handle, material },
                ),
                scene: SceneView { materials: final(self)@.scene.materials, ..old(self)@.scene },
                ..old(self)@
            }),
    {
        let handle = self.material_manager.allocate();
        self.instructions.append(Instruction::AddMaterial { handle, material });
        handle
    }

    /// Stages the removal of a material.
    pub fn remove_material(&mut self, handle: MaterialHandle)
        requires
            old(self).wf(),
        ensures
            final(self).wf(),
            final(self)@ == (RendererView {
                instructions: old(self)@.instructions.append(
                    Instruction::RemoveMaterial { handle },
                ),
                ..old(self)@
            }),
    {
        self.instructions.append(Instruction::RemoveMaterial { handle });
    }

    /// Hands out the handle of a new object and stages the object under it.
    pub fn add_object(&mut self, object: Object) -> (handle: ObjectHandle)
        requires
            old(self).wf(),
        ensures
            final(self).wf(),
            allocated(old(self)@.scene.objects, final(self)@.scene.objects, handle.raw),
            final(self)@ == (RendererView {
                instructions: old(self)@.instructions.append(
                    Instruction::AddObject { handle, object },
                ),
                scene: SceneView { objects: final(self)@.scene.objects, ..old(self)@.scene },
                ..old(self)@
            }),
    {
        let handle = self.object_manager.allocate();
        self.instructions.append(Instruction::AddObject { handle, object });
        handle
    }

    /// Stages a new transform for an object.
    pub fn set_object_transform(&mut self, handle: ObjectHandle, transform: glam::Mat4)
        requires
            old(self).wf(),
        ensures
            final(self).wf(),
            final(self)@ == (RendererView {
                instructions: old(self)@.instructions.append(
                    Instruction::SetObjectTransform { handle, transform },
                ),
                ..old(self)@
            }),
    {
        self.instructions.append(Instruction::SetObjectTransform { handle, transform });
    }

    /// Stages the removal of an object.
    pub fn remove_object(&mut self, handle: ObjectHandle)
        requires
            old(self).wf(),
        ensures
            final(self).wf(),
            final(self)@ == (RendererView {
                instructions: old(self)@.instructions.append(Instruction::RemoveObject { handle }),
                ..old(self)@
            }),
    {
        self.instructions.append(Instruction::RemoveObject { handle })
    }

    /// Stages new options.
    pub fn set_options(&mut self, options: RendererOptions)
        requires
            old(self).wf(),
        ensures
            final(self).wf(),
            final(self)@ == (RendererView {
                instructions: old(self)@.instructions.append(Instruction::SetOptions { options }),
                ..old(self)@
            }),
    {
        self.instructions.append(Instruction::SetOptions { options })
    }

    /// The bookkeeping of one frame: takes what was staged since the last
    /// frame, applies it in the order in which it was staged, lets every
    /// manager reclaim what was removed, and sizes the culling pass to the
    /// objects that remain.
    pub fn render(&mut self) -> (frame: Frame)
        requires
            old(self).wf(),
        ensures
            final(self).wf(),
            final(self)@ == (RendererView {
                instructions: StreamPairView::empty(),
                scene: old(self)@.scene.apply_all(old(self)@.instructions.producer).sweep(),
                ..old(self)@
            }),
            frame.uploads@ == uploads_of(old(self)@.scene, old(self)@.instructions.producer),
            frame.rejected@ == rejections_of(old(self)@.scene, old(self)@.instructions.producer),
            frame.textures@ == live_values(final(self)@.scene.textures),
            frame.materials@ == live_values(final(self)@.scene.materials),
            frame.objects@ == live_values(final(self)@.scene.objects),
            match culling_error(old(self)@.limits, frame.objects@.len()) {
                Some(error) => frame.culling is Err && frame.culling->Err_0 == error,
                None => frame.culling is Ok && frame.culling->Ok_0.data@ == prepared(
                    "primary"@,
                    frame.objects@.len() as u32,
                ) && frame.culling->Ok_0.commands@ == run_commands(
                    frame.objects@.len() as u32,
                    old(self)@.subgroup_size,
                ) && frame.culling->Ok_0.draw == (IndirectDraw {
                    indirect_offset: 0,
                    count_offset: 0,
                    max_count: frame.objects@.len() as u32,
                }),
            },
            frame.statistics == (RendererStatistics {
                instructions: old(self)@.instructions.producer.len() as usize,
                rejected: frame.rejected@.len() as usize,
                objects: frame.objects@.len() as usize,
            }),
    {
        let ghost scene = self@.scene;
        self.instructions.swap();
        let batch = self.instructions.drain();
        let instructions = batch.len();
        let ghost staged = batch@;
        assert(self.instructions@.producer =~= Seq::<Instruction>::empty());
        assert(self.instructions@ == StreamPairView::empty());

        let mut uploads: Vec<Upload> = Vec::new();
        let mut rejected: Vec<Rejection> = Vec::new();
        let mut position: usize = 0;
        assert(staged.take(0) =~= Seq::<Instruction>::empty());
        for instruction in it: batch
            invariant
                self.wf(),
                it.seq() == staged,
                position == it.index(),
                staged.len() == instructions,
                self@ == (RendererView {
                    instructions: StreamPairView::empty(),
                    scene: scene.apply_all(staged.take(position as int)),
                    ..old(self)@
                }),
                uploads@ == uploads_of(scene, staged.take(position as int)),
                rejected@ == rejections_of(scene, staged.take(position as int)),
        {
            assert(staged.take(position as int + 1).drop_last() =~= staged.take(position as int));
            assert(staged.take(position as int + 1).last() == instruction);
            match self.apply(instruction) {
                Applied::Done => {},
                Applied::Brought(upload) => {
                    uploads.push(upload);
                },
                Applied::Refused(error) => {
                    rejected.push(Rejection { position, error });
                },
            }
            position += 1;
        }
        assert(staged.take(position as int) =~= staged);

        self.mesh_manager.ready();
        let textures = self.texture_manager.ready();
        let materials = self.material_manager.ready();
        let objects = self.object_manager.ready();
        proof {
            let applied = scene.apply_all(staged);
            lemma_sweep_keeps_live(applied.textures);
            lemma_sweep_keeps_live(applied.materials);
            lemma_sweep_keeps_live(applied.objects);
        }

        let culling = match object_count(objects.len()) {
            Ok(count) => match self.culling_pass.prepare(
                &self.limits,
                count,
                String::from_str("primary"),
            ) {
                Ok(data) => {
                    let commands = self.culling_pass.run(&data);
                    let draw = self.culling_pass.draw(&data);
                    Ok(CullingFrame { data, commands, draw })
                },
                Err(error) => Err(error),
            },
            Err(error) => Err(error),
        };
        let statistics = RendererStatistics {
            instructions,
            rejected: rejected.len(),
            objects: objects.len(),
        };
        Frame { uploads, rejected, textures, materials, objects, culling, statistics }
    }
}

} // verus!
