use glam::{Mat4, Vec3, Vec4};
use rend3::datatypes::{Material, Mesh, Object, Texture, TextureFormat};
use rend3::handle::{MaterialHandle, MeshHandle, ObjectHandle, RawHandle, TextureHandle};
use rend3::limits::DeviceLimits;
use rend3::math::{BoundingSphere, IndexRange};
use rend3::registry::ResourceError;
use rend3::resources::material::MaterialManager;
use rend3::resources::mesh::{
    index_buffer_capacity, vertex_buffer_capacity, InternalMesh, MeshManager,
};
use rend3::resources::object::{InternalObject, ObjectManager};
use rend3::resources::texture::{InternalTexture, TextureManager};

fn roomy() -> DeviceLimits {
    DeviceLimits { max_buffer_size: 1 << 28, max_storage_buffer_binding_size: 1 << 27 }
}

fn sphere(radius: f32) -> BoundingSphere {
    BoundingSphere { packed: Vec4::new(0.0, 0.0, 0.0, radius) }
}

fn mesh(vertices: usize, indices: usize) -> Mesh {
    Mesh {
        vertex_positions: vec![Vec3::ZERO; vertices],
        indices: vec![0; indices],
        bounding_sphere: sphere(1.0),
    }
}

fn default_material() -> MaterialHandle {
    MaterialHandle { raw: RawHandle { idx: 0, generation: 0 } }
}

#[test]
fn meshes_lie_behind_each_other() {
    let mut meshes = MeshManager::new(&roomy());
    let a = meshes.allocate();
    let b = meshes.allocate();
    let first = meshes.fill(&a, &mesh(24, 36)).unwrap();
    let second = meshes.fill(&b, &mesh(4, 6)).unwrap();
    assert_eq!(first.vertex_range, IndexRange { start: 0, end: 24 });
    assert_eq!(first.index_range, IndexRange { start: 0, end: 36 });
    assert_eq!(second.vertex_range, IndexRange { start: 24, end: 28 });
    assert_eq!(second.index_range, IndexRange { start: 36, end: 42 });
    assert_eq!(meshes.internal_data(a.get_raw()), Ok(&first));
    assert_eq!(meshes.internal_data(b.get_raw()), Ok(&second));
}

#[test]
fn mesh_record_keeps_the_sphere() {
    let mut meshes = MeshManager::new(&roomy());
    let handle = meshes.allocate();
    let mut cube = mesh(24, 36);
    cube.bounding_sphere = sphere(1.75);
    let record = meshes.fill(&handle, &cube).unwrap();
    assert_eq!(record.bounding_sphere, sphere(1.75));
}

#[test]
fn mesh_fill_refuses_a_handle_that_is_not_live() {
    let mut meshes = MeshManager::new(&roomy());
    let stranger = MeshHandle { raw: RawHandle { idx: 0, generation: 0 } };
    assert_eq!(meshes.fill(&stranger, &mesh(3, 3)), Err(ResourceError::InvalidHandle));
    let handle = meshes.allocate();
    assert_eq!(meshes.remove(&handle), Ok(()));
    assert_eq!(meshes.fill(&handle, &mesh(3, 3)), Err(ResourceError::InvalidHandle));
}

#[test]
fn mesh_fill_reports_a_full_buffer() {
    let limits = DeviceLimits { max_buffer_size: 120, max_storage_buffer_binding_size: 120 };
    let mut meshes = MeshManager::new(&limits);
    let a = meshes.allocate();
    let b = meshes.allocate();
    assert_eq!(meshes.fill(&a, &mesh(11, 3)), Err(ResourceError::ArenaExhausted));
    assert_eq!(meshes.fill(&a, &mesh(3, 31)), Err(ResourceError::ArenaExhausted));
    assert_eq!(meshes.internal_data(a.get_raw()), Err(ResourceError::UnknownHandle));
    let placed = meshes.fill(&a, &mesh(10, 30)).unwrap();
    assert_eq!(placed.vertex_range, IndexRange { start: 0, end: 10 });
    assert_eq!(placed.index_range, IndexRange { start: 0, end: 30 });
    assert_eq!(meshes.fill(&b, &mesh(1, 0)), Err(ResourceError::ArenaExhausted));
    assert_eq!(meshes.fill(&b, &mesh(0, 1)), Err(ResourceError::ArenaExhausted));
    assert!(meshes.fill(&b, &mesh(0, 0)).is_ok());
}

#[test]
fn removed_mesh_gives_its_room_back_at_the_sweep() {
    let limits = DeviceLimits { max_buffer_size: 120, max_storage_buffer_binding_size: 120 };
    let mut meshes = MeshManager::new(&limits);
    let a = meshes.allocate();
    let b = meshes.allocate();
    assert!(meshes.fill(&a, &mesh(10, 30)).is_ok());
    assert_eq!(meshes.remove(&a), Ok(()));
    assert_eq!(meshes.remove(&a), Err(ResourceError::UnknownHandle));
    assert_eq!(meshes.fill(&b, &mesh(10, 30)), Err(ResourceError::ArenaExhausted));
    meshes.ready();
    meshes.ready();
    let placed = meshes.fill(&b, &mesh(10, 30)).unwrap();
    assert_eq!(placed.vertex_range, IndexRange { start: 0, end: 10 });
    assert_eq!(meshes.internal_data(a.get_raw()), Err(ResourceError::UnknownHandle));
}

#[test]
fn refilled_mesh_moves_and_frees_its_old_place() {
    let mut meshes = MeshManager::new(&roomy());
    let a = meshes.allocate();
    let b = meshes.allocate();
    let c = meshes.allocate();
    assert!(meshes.fill(&a, &mesh(8, 12)).is_ok());
    assert!(meshes.fill(&b, &mesh(8, 12)).is_ok());
    let moved = meshes.fill(&a, &mesh(4, 6)).unwrap();
    assert_eq!(moved.vertex_range, IndexRange { start: 16, end: 20 });
    assert_eq!(moved.index_range, IndexRange { start: 24, end: 30 });
    let reuse = meshes.fill(&c, &mesh(8, 12)).unwrap();
    assert_eq!(reuse.vertex_range, IndexRange { start: 0, end: 8 });
    assert_eq!(reuse.index_range, IndexRange { start: 0, end: 12 });
}

#[test]
fn object_takes_the_draw_range_of_its_mesh() {
    let mut meshes = MeshManager::new(&roomy());
    let mut objects = ObjectManager::new();
    let filler = meshes.allocate();
    assert!(meshes.fill(&filler, &mesh(5, 9)).is_ok());
    let cube = meshes.allocate();
    let mut cube_mesh = mesh(24, 36);
    cube_mesh.bounding_sphere = sphere(1.75);
    assert!(meshes.fill(&cube, &cube_mesh).is_ok());
    let handle = objects.allocate();
    let object = Object { mesh: cube, material: default_material(), transform: Mat4::IDENTITY };
    assert_eq!(objects.fill(&handle, object, &meshes), Ok(()));
    assert_eq!(
        objects.ready(),
        vec![InternalObject {
            material: default_material(),
            transform: Mat4::IDENTITY,
            sphere: sphere(1.75),
            start_idx: 9,
            count: 36,
            vertex_offset: 5,
        }]
    );
}

#[test]
fn object_fill_refuses_an_unknown_mesh() {
    let mut meshes = MeshManager::new(&roomy());
    let mut objects = ObjectManager::new();
    let reserved = meshes.allocate();
    let handle = objects.allocate();
    let object =
        Object { mesh: reserved, material: default_material(), transform: Mat4::IDENTITY };
    assert_eq!(objects.fill(&handle, object, &meshes), Err(ResourceError::UnknownHandle));
    assert!(objects.ready().is_empty());
}

#[test]
fn object_fill_refuses_a_handle_that_is_not_live() {
    let mut meshes = MeshManager::new(&roomy());
    let mut objects = ObjectManager::new();
    let cube = meshes.allocate();
    assert!(meshes.fill(&cube, &mesh(24, 36)).is_ok());
    let stranger = ObjectHandle { raw: RawHandle { idx: 3, generation: 0 } };
    let object = Object { mesh: cube, material: default_material(), transform: Mat4::IDENTITY };
    assert_eq!(objects.fill(&stranger, object, &meshes), Err(ResourceError::InvalidHandle));
}

#[test]
fn object_keeps_its_draw_range_when_its_mesh_goes() {
    let mut meshes = MeshManager::new(&roomy());
    let mut objects = ObjectManager::new();
    let cube = meshes.allocate();
    assert!(meshes.fill(&cube, &mesh(24, 36)).is_ok());
    let handle = objects.allocate();
    let object = Object { mesh: cube, material: default_material(), transform: Mat4::IDENTITY };
    assert_eq!(objects.fill(&handle, object, &meshes), Ok(()));
    assert_eq!(meshes.remove(&cube), Ok(()));
    meshes.ready();
    let ready = objects.ready();
    assert_eq!(ready.len(), 1);
    assert_eq!((ready[0].start_idx, ready[0].count, ready[0].vertex_offset), (0, 36, 0));
}

#[test]
fn set_object_transform_changes_the_transform_only() {
    let mut meshes = MeshManager::new(&roomy());
    let mut objects = ObjectManager::new();
    let cube = meshes.allocate();
    assert!(meshes.fill(&cube, &mesh(24, 36)).is_ok());
    let handle = objects.allocate();
    let object = Object { mesh: cube, material: default_material(), transform: Mat4::IDENTITY };
    assert_eq!(objects.fill(&handle, object, &meshes), Ok(()));
    let before = objects.ready()[0];
    let moved = Mat4::from_translation(Vec3::new(1.0, 2.0, 3.0));
    assert_eq!(objects.set_object_transform(handle.get_raw(), moved), Ok(()));
    let after = objects.ready()[0];
    assert_eq!(after, InternalObject { transform: moved, ..before });
    assert_ne!(after.transform, before.transform);
}

#[test]
fn set_object_transform_refuses_what_has_no_record() {
    let mut objects = ObjectManager::new();
    let reserved = objects.allocate();
    assert_eq!(
        objects.set_object_transform(reserved.get_raw(), Mat4::IDENTITY),
        Err(ResourceError::UnknownHandle)
    );
    assert_eq!(
        objects.set_object_transform(RawHandle { idx: 7, generation: 0 }, Mat4::IDENTITY),
        Err(ResourceError::UnknownHandle)
    );
}

#[test]
fn removed_object_is_gone_and_its_handle_dead() {
    let mut meshes = MeshManager::new(&roomy());
    let mut objects = ObjectManager::default();
    let cube = meshes.allocate();
    assert!(meshes.fill(&cube, &mesh(24, 36)).is_ok());
    let handle = objects.allocate();
    let object = Object { mesh: cube, material: default_material(), transform: Mat4::IDENTITY };
    assert_eq!(objects.fill(&handle, object, &meshes), Ok(()));
    assert_eq!(objects.remove(&handle), Ok(()));
    assert!(objects.ready().is_empty());
    let again = objects.allocate();
    assert_eq!(again.raw, RawHandle { idx: handle.raw.idx, generation: handle.raw.generation + 1 });
    assert_eq!(
        objects.set_object_transform(handle.get_raw(), Mat4::IDENTITY),
        Err(ResourceError::UnknownHandle)
    );
    assert_eq!(objects.fill(&handle, object, &meshes), Err(ResourceError::InvalidHandle));
    assert_eq!(objects.remove(&handle), Err(ResourceError::UnknownHandle));
}

#[test]
fn texture_manager_keeps_the_shape_of_each_texture() {
    let mut textures = TextureManager::new();
    let a = textures.allocate();
    let b = textures.allocate();
    let small =
        Texture { data: vec![0; 16], format: TextureFormat::Rgba8Srgb, width: 2, height: 2 };
    let wide =
        Texture { data: vec![0; 32], format: TextureFormat::Rgba8Linear, width: 8, height: 1 };
    assert_eq!(textures.fill(&b, &wide), Ok(()));
    assert_eq!(textures.fill(&a, &small), Ok(()));
    assert_eq!(
        textures.ready(),
        vec![
            InternalTexture { format: TextureFormat::Rgba8Srgb, width: 2, height: 2 },
            InternalTexture { format: TextureFormat::Rgba8Linear, width: 8, height: 1 },
        ]
    );
    assert_eq!(textures.remove(&a), Ok(()));
    assert_eq!(textures.remove(&a), Err(ResourceError::UnknownHandle));
    assert_eq!(textures.ready().len(), 1);
    assert_eq!(textures.fill(&a, &small), Err(ResourceError::InvalidHandle));
    let stranger = TextureHandle { raw: RawHandle { idx: 5, generation: 0 } };
    assert_eq!(textures.fill(&stranger, &small), Err(ResourceError::InvalidHandle));
}

#[test]
fn material_manager_stores_materials_as_given() {
    let mut materials = MaterialManager::new();
    let handle = materials.allocate();
    let plain = Material { color: None, normal: None, roughness: None, specular: None };
    let textured = Material {
        color: Some(TextureHandle { raw: RawHandle { idx: 2, generation: 1 } }),
        ..plain
    };
    assert_eq!(materials.fill(&handle, plain), Ok(()));
    assert_eq!(materials.ready(), vec![plain]);
    assert_eq!(materials.fill(&handle, textured), Ok(()));
    assert_eq!(materials.ready(), vec![textured]);
    assert_eq!(materials.remove(&handle), Ok(()));
    assert!(materials.ready().is_empty());
    assert_eq!(materials.remove(&handle), Err(ResourceError::UnknownHandle));
    assert_eq!(materials.fill(&handle, plain), Err(ResourceError::InvalidHandle));
}

#[test]
fn handles_give_their_raw_form() {
    let raw = RawHandle { idx: 4, generation: 2 };
    assert_eq!(MeshHandle { raw }.get_raw(), raw);
    assert_eq!(TextureHandle { raw }.get_raw(), raw);
    assert_eq!(MaterialHandle { raw }.get_raw(), raw);
    assert_eq!(ObjectHandle { raw }.get_raw(), raw);
}

#[test]
fn internal_mesh_is_plain_data() {
    let record = InternalMesh {
        vertex_range: IndexRange { start: 0, end: 3 },
        index_range: IndexRange { start: 0, end: 3 },
        bounding_sphere: sphere(2.0),
    };
    let copy = record;
    assert_eq!(copy, record);
}

#[test]
fn buffers_hold_what_the_device_and_the_offsets_allow() {
    let small = DeviceLimits { max_buffer_size: 120, max_storage_buffer_binding_size: 120 };
    assert_eq!(vertex_buffer_capacity(&small), 10);
    assert_eq!(index_buffer_capacity(&small), 30);
    let odd = DeviceLimits { max_buffer_size: 131, max_storage_buffer_binding_size: 0 };
    assert_eq!(vertex_buffer_capacity(&odd), 10);
    assert_eq!(index_buffer_capacity(&odd), 32);
    let none = DeviceLimits { max_buffer_size: 0, max_storage_buffer_binding_size: 0 };
    assert_eq!(vertex_buffer_capacity(&none), 0);
    assert_eq!(index_buffer_capacity(&none), 0);
    let huge = DeviceLimits { max_buffer_size: u64::MAX, max_storage_buffer_binding_size: 0 };
    assert_eq!(vertex_buffer_capacity(&huge), 0x7fff_ffff);
    assert_eq!(index_buffer_capacity(&huge), 0xffff_ffff);
}
