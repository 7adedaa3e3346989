use glam::{Mat4, Vec4};
use rend3::culling::{
    decimal_text, dispatch_group_count, object_count, BindGroupSource, BufferUsage, CullingError, CullingPass,
    IndexRangeU32, IndirectDrawCommand, PassCommand, ShaderKind, SIZE_OF_INDIRECT_CALL,
    SIZE_OF_INDIRECT_COUNT, SIZE_OF_OUTPUT_DATA,
};
use rend3::handle::{MaterialHandle, RawHandle};
use rend3::limits::DeviceLimits;
use rend3::math::BoundingSphere;
use rend3::resources::object::InternalObject;

fn roomy() -> DeviceLimits {
    DeviceLimits { max_buffer_size: 1 << 28, max_storage_buffer_binding_size: 1 << 27 }
}

fn object(start_idx: u32, count: u32, vertex_offset: i32) -> InternalObject {
    InternalObject {
        material: MaterialHandle { raw: RawHandle { idx: 0, generation: 0 } },
        transform: Mat4::IDENTITY,
        sphere: BoundingSphere { packed: Vec4::new(0.0, 0.0, 0.0, 1.0) },
        start_idx,
        count,
        vertex_offset,
    }
}

fn draw(object: &InternalObject, slot: u32) -> IndirectDrawCommand {
    IndirectDrawCommand {
        index_count: object.count,
        instance_count: 1,
        first_index: object.start_idx,
        base_vertex: object.vertex_offset,
        first_instance: slot,
    }
}

#[test]
fn sizes_of_the_records() {
    assert_eq!(SIZE_OF_OUTPUT_DATA, 112);
    assert_eq!(SIZE_OF_INDIRECT_CALL, 20);
    assert_eq!(SIZE_OF_INDIRECT_COUNT, 4);
}

#[test]
fn dispatch_rounds_up() {
    assert_eq!(dispatch_group_count(0, 32), 0);
    assert_eq!(dispatch_group_count(1, 32), 1);
    assert_eq!(dispatch_group_count(31, 32), 1);
    assert_eq!(dispatch_group_count(32, 32), 1);
    assert_eq!(dispatch_group_count(33, 32), 2);
    assert_eq!(dispatch_group_count(64, 32), 2);
    assert_eq!(dispatch_group_count(65, 32), 3);
    assert_eq!(dispatch_group_count(7, 1), 7);
    assert_eq!(dispatch_group_count(100, 64), 2);
}

#[test]
fn dispatch_does_not_overflow_at_the_ends() {
    assert_eq!(dispatch_group_count(u32::MAX, 1), u32::MAX);
    assert_eq!(dispatch_group_count(u32::MAX, u32::MAX), 1);
    assert_eq!(dispatch_group_count(u32::MAX, 2), 1 << 31);
    assert_eq!(dispatch_group_count(u32::MAX - 1, u32::MAX), 1);
    assert_eq!(dispatch_group_count(1, u32::MAX), 1);
}

#[test]
fn decimal_text_of_numbers() {
    assert_eq!(decimal_text(0), "0");
    assert_eq!(decimal_text(7), "7");
    assert_eq!(decimal_text(10), "10");
    assert_eq!(decimal_text(32), "32");
    assert_eq!(decimal_text(1234567890), "1234567890");
    assert_eq!(decimal_text(u32::MAX), "4294967295");
}

#[test]
fn pass_needs_a_subgroup() {
    assert!(matches!(CullingPass::new(0), Err(CullingError::ZeroSubgroupSize)));
    assert_eq!(CullingPass::new(64).ok().unwrap().subgroup_size(), 64);
}

#[test]
fn shader_is_compiled_for_the_subgroup_size() {
    let pass = CullingPass::new(32).ok().unwrap();
    let args = pass.shader_arguments();
    assert_eq!(args.file, "rend3/shaders/cull.comp");
    assert_eq!(args.defines.len(), 1);
    assert_eq!(args.defines[0].name, "WARP_SIZE");
    assert_eq!(args.defines[0].value, Some(String::from("32")));
    assert_eq!(args.kind, ShaderKind::Compute);
    assert!(args.debug);
}

#[test]
fn pipeline_has_three_bind_groups_and_one_push_constant() {
    let plan = CullingPass::new(32).ok().unwrap().pipeline_plan();
    assert_eq!(plan.layout_label, "culling pipeline layout");
    assert_eq!(
        plan.bind_groups,
        vec![BindGroupSource::Input, BindGroupSource::Output, BindGroupSource::Uniform]
    );
    assert_eq!(plan.push_constants, IndexRangeU32 { start: 0, end: 4 });
    assert_eq!(plan.label, "culling pipeline");
    assert_eq!(plan.entry_point, "main");
}

#[test]
fn prepare_sizes_the_buffers_to_the_objects() {
    let pass = CullingPass::new(32).ok().unwrap();
    let data = pass.prepare(&roomy(), 3, String::from("shadow")).ok().unwrap();
    assert_eq!(data.name, "shadow");
    assert_eq!(data.object_count, 3);
    assert_eq!(data.output_buffer.label, "object output buffer for shadow");
    assert_eq!(data.output_buffer.size, 336);
    assert_eq!(data.output_buffer.usage, BufferUsage { storage: true, indirect: false });
    assert!(!data.output_buffer.mapped_at_creation);
    assert_eq!(data.indirect_buffer.label, "indirect buffer for shadow");
    assert_eq!(data.indirect_buffer.size, 60);
    assert_eq!(data.indirect_buffer.usage, BufferUsage { storage: true, indirect: true });
    assert!(!data.indirect_buffer.mapped_at_creation);
    assert_eq!(data.count_buffer.label, "count buffer for shadow");
    assert_eq!(data.count_buffer.size, 4);
    assert_eq!(data.count_buffer.usage, BufferUsage { storage: true, indirect: true });
    assert!(data.count_buffer.mapped_at_creation);
    assert_eq!(data.count_contents, vec![0u8, 0, 0, 0]);
    assert_eq!(data.bind_group_label, "output bind group for shadow");
}

#[test]
fn prepare_accepts_an_empty_scene() {
    let pass = CullingPass::new(32).ok().unwrap();
    let data = pass.prepare(&roomy(), 0, String::new()).ok().unwrap();
    assert_eq!(data.output_buffer.size, 0);
    assert_eq!(data.indirect_buffer.size, 0);
    assert_eq!(data.count_buffer.size, 4);
    assert_eq!(data.count_contents, vec![0u8; 4]);
    assert_eq!(data.output_buffer.label, "object output buffer for ");
}

#[test]
fn prepare_does_not_overflow_with_the_most_objects() {
    let pass = CullingPass::new(32).ok().unwrap();
    let limits =
        DeviceLimits { max_buffer_size: u64::MAX, max_storage_buffer_binding_size: u64::MAX };
    let data = pass.prepare(&limits, u32::MAX, String::new()).ok().unwrap();
    assert_eq!(data.output_buffer.size, 112 * 4294967295u64);
    assert_eq!(data.indirect_buffer.size, 20 * 4294967295u64);
}

#[test]
fn prepare_reports_a_buffer_beyond_the_limit() {
    let pass = CullingPass::new(32).ok().unwrap();
    let limits = DeviceLimits { max_buffer_size: 5000, max_storage_buffer_binding_size: 1000 };
    assert!(pass.prepare(&limits, 8, String::new()).is_ok());
    assert!(matches!(
        pass.prepare(&limits, 9, String::new()),
        Err(CullingError::BufferTooLarge { requested: 1008, limit: 1000 })
    ));
    let created = DeviceLimits { max_buffer_size: 500, max_storage_buffer_binding_size: 1000 };
    assert!(matches!(
        pass.prepare(&created, 5, String::new()),
        Err(CullingError::BufferTooLarge { requested: 560, limit: 500 })
    ));
    let tiny = DeviceLimits { max_buffer_size: 3, max_storage_buffer_binding_size: 3 };
    assert!(matches!(
        pass.prepare(&tiny, 0, String::new()),
        Err(CullingError::BufferTooLarge { requested: 4, limit: 3 })
    ));
}

#[test]
fn storage_limit_is_the_smaller_of_the_two() {
    let limits = DeviceLimits { max_buffer_size: 10, max_storage_buffer_binding_size: 20 };
    assert_eq!(limits.storage_limit(), 10);
    let limits = DeviceLimits { max_buffer_size: 30, max_storage_buffer_binding_size: 20 };
    assert_eq!(limits.storage_limit(), 20);
}

#[test]
fn run_records_the_commands_in_order() {
    let pass = CullingPass::new(32).ok().unwrap();
    let data = pass.prepare(&roomy(), 33, String::from("main")).ok().unwrap();
    assert_eq!(
        pass.run(&data),
        vec![
            PassCommand::SetPipeline,
            PassCommand::SetPushConstants { offset: 0, value: 33 },
            PassCommand::SetBindGroup { index: 0, source: BindGroupSource::Input },
            PassCommand::SetBindGroup { index: 1, source: BindGroupSource::Output },
            PassCommand::SetBindGroup { index: 2, source: BindGroupSource::Uniform },
            PassCommand::Dispatch { x: 2, y: 1, z: 1 },
        ]
    );
}

#[test]
fn run_dispatches_nothing_for_an_empty_scene() {
    let pass = CullingPass::new(32).ok().unwrap();
    let data = pass.prepare(&roomy(), 0, String::from("main")).ok().unwrap();
    let commands = pass.run(&data);
    assert_eq!(commands[1], PassCommand::SetPushConstants { offset: 0, value: 0 });
    assert_eq!(commands[5], PassCommand::Dispatch { x: 0, y: 1, z: 1 });
}

#[test]
fn cull_packs_the_visible_objects() {
    let pass = CullingPass::new(2).ok().unwrap();
    let objects =
        vec![object(0, 36, 0), object(36, 6, 24), object(42, 3, 28), object(45, 9, 31), object(54, 12, 40)];
    let decisions = vec![true, false, true, false, true];
    let output = pass.cull(&objects, &decisions).ok().unwrap();
    assert_eq!(
        output.commands,
        vec![draw(&objects[0], 0), draw(&objects[2], 1), draw(&objects[4], 2)]
    );
    assert_eq!(output.count, 3);
    assert_eq!(output.culled, 2);
}

#[test]
fn cull_decides_on_every_object_once() {
    for subgroup_size in [1u32, 2, 3, 7, 32, 64] {
        let pass = CullingPass::new(subgroup_size).ok().unwrap();
        for n in 0..70u32 {
            let objects: Vec<InternalObject> = (0..n).map(|i| object(i, 3, 0)).collect();
            let decisions: Vec<bool> = (0..n).map(|i| i % 3 != 1).collect();
            let output = pass.cull(&objects, &decisions).ok().unwrap();
            assert_eq!(output.count + output.culled, n);
            assert_eq!(output.count as usize, output.commands.len());
            let expected: Vec<u32> = (0..n).filter(|i| i % 3 != 1).collect();
            let drawn: Vec<u32> = output.commands.iter().map(|c| c.first_index).collect();
            assert_eq!(drawn, expected);
            let slots: Vec<u32> = output.commands.iter().map(|c| c.first_instance).collect();
            assert_eq!(slots, (0..output.count).collect::<Vec<u32>>());
        }
    }
}

#[test]
fn cull_tests_a_single_object_in_a_wide_subgroup() {
    let pass = CullingPass::new(32).ok().unwrap();
    let objects = vec![object(0, 36, 0)];
    let seen = pass.cull(&objects, &vec![true]).ok().unwrap();
    assert_eq!(seen.commands, vec![draw(&objects[0], 0)]);
    assert_eq!((seen.count, seen.culled), (1, 0));
    let hidden = pass.cull(&objects, &vec![false]).ok().unwrap();
    assert!(hidden.commands.is_empty());
    assert_eq!((hidden.count, hidden.culled), (0, 1));
}

#[test]
fn cull_of_an_empty_scene_writes_nothing() {
    let pass = CullingPass::new(32).ok().unwrap();
    let output = pass.cull(&Vec::new(), &Vec::new()).ok().unwrap();
    assert!(output.commands.is_empty());
    assert_eq!((output.count, output.culled), (0, 0));
}

#[test]
fn cull_hides_objects_without_a_decision() {
    let pass = CullingPass::new(4).ok().unwrap();
    let objects = vec![object(0, 3, 0), object(3, 3, 3), object(6, 3, 6)];
    let output = pass.cull(&objects, &vec![true]).ok().unwrap();
    assert_eq!(output.commands, vec![draw(&objects[0], 0)]);
    assert_eq!((output.count, output.culled), (1, 2));
    let surplus = pass.cull(&objects[..1].to_vec(), &vec![true, true, true]).ok().unwrap();
    assert_eq!((surplus.count, surplus.culled), (1, 0));
}

#[test]
fn more_objects_than_a_count_holds_are_reported() {
    assert_eq!(object_count(0), Ok(0));
    assert_eq!(object_count(36), Ok(36));
    assert_eq!(object_count(u32::MAX as usize), Ok(u32::MAX));
    if let Some(beyond) = (u32::MAX as usize).checked_add(1) {
        assert_eq!(object_count(beyond), Err(CullingError::TooManyObjects));
        assert_eq!(object_count(usize::MAX), Err(CullingError::TooManyObjects));
    }
}

#[test]
fn indirect_draw_reads_at_most_one_command_per_object() {
    let pass = CullingPass::new(32).ok().unwrap();
    let data = pass.prepare(&roomy(), 5, String::from("main")).ok().unwrap();
    let draw = pass.draw(&data);
    assert_eq!((draw.indirect_offset, draw.count_offset, draw.max_count), (0, 0, 5));
}
