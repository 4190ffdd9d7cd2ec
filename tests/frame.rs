use vk_rays::blas::BufferRef;
use vk_rays::render_device::VkDestroyCmd;
use vk_rays::sbt::{sbt_layout, MeshAddresses, SBT, SBTAligments, ShaderGroupHandles};
use vk_rays::tlas_builder::{
    instance_materials, plan_frame, InstanceBufferStep, InstanceKind, SceneObject, TlasError, TlasFrame, TLAS,
};

fn transform(seed: u32) -> [u32; 12] {
    let mut t = [0u32; 12];
    for (i, v) in t.iter_mut().enumerate() {
        *v = seed + i as u32;
    }
    t
}

fn mesh(key: u64, address: Option<u64>, materials: u32) -> SceneObject {
    SceneObject { kind: InstanceKind::Mesh(key), blas_address: address, transform: transform(0), material_count: materials }
}

fn sphere() -> SceneObject {
    SceneObject { kind: InstanceKind::Sphere, blas_address: Some(0x5000), transform: transform(100), material_count: 1 }
}

#[test]
fn loading_mesh_then_loaded_mesh() {
    let frame1 = plan_frame(&vec![mesh(42, None, 1), sphere()]).unwrap();
    assert_eq!(frame1.instances.len(), 1);
    assert_eq!(frame1.instances[0].sbt_offset, 0);
    assert_eq!(frame1.mesh_to_hit_offset.len(), 0);
    assert_eq!(frame1.mesh_to_hit_offset.get(42), None);

    let frame2 = plan_frame(&vec![mesh(42, Some(0x9000), 1), sphere()]).unwrap();
    assert_eq!(frame2.instances.len(), 2);
    assert_eq!(frame2.instances[0].sbt_offset, 1);
    assert_eq!(frame2.instances[0].blas_address, 0x9000);
    assert_eq!(frame2.instances[1].sbt_offset, 0);
    assert_eq!(frame2.mesh_to_hit_offset.get(42), Some(1));
}

#[test]
fn offsets_per_mesh_and_material_offsets() {
    let objs = vec![
        mesh(7, Some(0x100), 3),
        sphere(),
        mesh(8, Some(0x200), 2),
        mesh(7, Some(0x100), 3),
        mesh(9, None, 4),
    ];
    let f = plan_frame(&objs).unwrap();
    let offsets: Vec<u32> = f.instances.iter().map(|r| r.sbt_offset).collect();
    assert_eq!(offsets, vec![1, 0, 2, 1]);
    let custom: Vec<u32> = f.instances.iter().map(|r| r.custom_index).collect();
    assert_eq!(custom, vec![0, 3, 4, 6]);
    assert_eq!(f.material_count, 9);
    assert_eq!(f.mesh_to_hit_offset.len(), 2);
    assert_eq!(f.mesh_to_hit_offset.mesh_at(0), 7);
    assert_eq!(f.mesh_to_hit_offset.mesh_at(1), 8);
    assert!(f.instances.iter().all(|r| r.mask == 0xff && r.flags == 1));
}

#[test]
fn transform_is_written_row_major() {
    let f = plan_frame(&vec![sphere()]).unwrap();
    let c = transform(100);
    let expect = [c[0], c[3], c[6], c[9], c[1], c[4], c[7], c[10], c[2], c[5], c[8], c[11]];
    assert_eq!(f.instances[0].transform, expect);
}

#[test]
fn custom_index_limit() {
    let objs = vec![mesh(1, Some(1), 0x100_0000), mesh(2, Some(2), 1)];
    assert_eq!(plan_frame(&objs).err(), Some(TlasError::TooManyMaterials));
    let fits = vec![mesh(1, Some(1), 0xff_ffff), mesh(2, Some(2), 1)];
    assert_eq!(plan_frame(&fits).unwrap().instances[1].custom_index, 0xff_ffff);
}

fn buf(handle: u64, n: u64) -> BufferRef {
    BufferRef { handle, nr_elements: n, address: handle * 0x100 }
}

#[test]
fn empty_frame_leaves_tlas_alone() {
    let mut tlas = TLAS::new();
    let first = plan_frame(&vec![mesh(3, Some(0x30), 1)]).unwrap();
    assert_eq!(tlas.begin_update(first), InstanceBufferStep::Reallocate(1));
    let mut outbox = Vec::new();
    tlas.replace_instance_buffers(buf(1, 1), buf(2, 320), &mut outbox);
    tlas.replace_structure(11, 0xabc, &mut outbox);
    let empty = plan_frame(&vec![mesh(4, None, 1)]).unwrap();
    assert_eq!(tlas.begin_update(empty), InstanceBufferStep::Skip);
    assert_eq!(tlas.acceleration_structure.handle, 11);
    assert_eq!(tlas.acceleration_structure.address, 0xabc);
    assert_eq!(tlas.instance_buffer, buf(1, 1));
    assert_eq!(tlas.material_buffer, buf(2, 320));
    assert_eq!(tlas.mesh_to_hit_offset.len(), 0);
    assert_eq!(tlas.mesh_to_hit_offset.get(3), None);
}

#[test]
fn instance_buffers_follow_instance_count() {
    let mut tlas = TLAS::new();
    let f = |n: usize| -> TlasFrame {
        plan_frame(&(0..n).map(|i| mesh(i as u64, Some(1), 1)).collect()).unwrap()
    };
    assert_eq!(tlas.begin_update(f(2)), InstanceBufferStep::Reallocate(2));
    let mut outbox = Vec::new();
    tlas.replace_instance_buffers(buf(5, 2), buf(6, 2), &mut outbox);
    assert_eq!(outbox, vec![VkDestroyCmd::Buffer(0), VkDestroyCmd::Buffer(0)]);
    assert_eq!(tlas.begin_update(f(2)), InstanceBufferStep::InPlace);
    assert_eq!(tlas.begin_update(f(3)), InstanceBufferStep::Reallocate(3));
}

#[test]
fn storage_grows_never_shrinks() {
    let mut tlas = TLAS::new();
    let mut outbox = Vec::new();
    assert!(tlas.needs_larger_storage(1000));
    tlas.replace_storage(buf(9, 1000), &mut outbox);
    assert!(!tlas.needs_larger_storage(1000));
    assert!(!tlas.needs_larger_storage(10));
    assert!(tlas.needs_larger_storage(1001));
    assert_eq!(tlas.scratch_plan(1000, 256), (1024, true));
    tlas.replace_scratch(buf(12, 1024), &mut outbox);
    assert_eq!(tlas.scratch_plan(900, 256), (1024, false));
    assert_eq!(outbox, vec![VkDestroyCmd::Buffer(0), VkDestroyCmd::Buffer(0)]);
    let mut all = Vec::new();
    tlas.destroy(&mut all);
    assert_eq!(
        all,
        vec![
            VkDestroyCmd::AccelerationStructure(0),
            VkDestroyCmd::Buffer(9),
            VkDestroyCmd::Buffer(0),
            VkDestroyCmd::Buffer(12),
            VkDestroyCmd::Buffer(0),
        ]
    );
}

fn handles() -> ShaderGroupHandles {
    ShaderGroupHandles { raygen: [1; 32], miss: [2; 32], hit: [3; 32], sphere_hit: [4; 32] }
}

fn addresses(mesh: u64) -> MeshAddresses {
    MeshAddresses {
        mesh,
        vertex_buffer: 0x1111_0000 + mesh,
        triangle_buffer: 0x2222_0000 + mesh,
        index_buffer: 0x3333_0000 + mesh,
        geometry_to_index: 0x4444_0000 + mesh,
        geometry_to_triangle: 0x5555_0000 + mesh,
    }
}

#[test]
fn sbt_layout_sizes() {
    let al = SBTAligments::new(32, 64);
    let l = sbt_layout(&al, 3);
    assert_eq!((l.raygen.stride, l.raygen.size, l.raygen.offset), (64, 64, 0));
    assert_eq!((l.miss.stride, l.miss.size, l.miss.offset), (64, 64, 64));
    assert_eq!((l.hit.stride, l.hit.size, l.hit.offset), (128, 512, 128));
    let small = sbt_layout(&SBTAligments::new(1, 8), 0);
    assert_eq!((small.raygen.size, small.hit.stride, small.hit.size), (32, 72, 72));
}

#[test]
fn sbt_records_match_tlas_offsets() {
    let al = SBTAligments::new(32, 64);
    let objs = vec![mesh(7, Some(0x100), 1), sphere(), mesh(8, Some(0x200), 1)];
    let f = plan_frame(&objs).unwrap();
    let mut sbt = SBT::new();
    let meshes = vec![addresses(8), addresses(7)];
    assert!(sbt.update_sbt(&al, &handles(), &f.mesh_to_hit_offset, &meshes));
    assert_eq!(sbt.data.len(), 64 + 64 + 128 * 3);
    assert_eq!(&sbt.data[0..32], &[1u8; 32]);
    assert_eq!(&sbt.data[64..96], &[2u8; 32]);
    let hit = sbt.layout.hit.offset as usize;
    let stride = sbt.layout.hit.stride as usize;
    assert_eq!(&sbt.data[hit..hit + 32], &[4u8; 32]);
    for inst in &f.instances {
        let at = hit + inst.sbt_offset as usize * stride;
        if inst.sbt_offset == 0 {
            assert_eq!(&sbt.data[at..at + 32], &[4u8; 32]);
        } else {
            assert_eq!(&sbt.data[at..at + 32], &[3u8; 32]);
            let key = f.mesh_to_hit_offset.mesh_at(inst.sbt_offset as usize - 1);
            let a = addresses(key);
            let mut expect = Vec::new();
            for v in [a.vertex_buffer, a.triangle_buffer, a.index_buffer, a.geometry_to_index, a.geometry_to_triangle] {
                expect.extend_from_slice(&v.to_le_bytes());
            }
            assert_eq!(&sbt.data[at + 32..at + 72], expect.as_slice());
        }
    }
}

#[test]
fn sbt_reallocates_only_when_hit_region_changes() {
    let al = SBTAligments::new(32, 64);
    let mut sbt = SBT::new();
    let meshes = vec![addresses(1), addresses(2)];
    let one = plan_frame(&vec![mesh(1, Some(1), 1)]).unwrap();
    assert!(sbt.update_sbt(&al, &handles(), &one.mesh_to_hit_offset, &meshes));
    assert_eq!(sbt.layout.hit.size, 128 * 2);
    let same = plan_frame(&vec![mesh(2, Some(2), 1), mesh(2, Some(2), 1)]).unwrap();
    assert!(!sbt.update_sbt(&al, &handles(), &same.mesh_to_hit_offset, &meshes));
    let two = plan_frame(&vec![mesh(1, Some(1), 1), mesh(2, Some(2), 1)]).unwrap();
    assert!(sbt.update_sbt(&al, &handles(), &two.mesh_to_hit_offset, &meshes));
    assert_eq!(sbt.layout.hit.size, 128 * 3);
    assert_eq!(sbt.data.len(), 64 + 64 + 128 * 3);
}

#[test]
fn sbt_skips_meshes_without_buffers() {
    let al = SBTAligments::new(32, 32);
    let mut sbt = SBT::new();
    let f = plan_frame(&vec![mesh(1, Some(1), 1)]).unwrap();
    assert!(sbt.update_sbt(&al, &handles(), &f.mesh_to_hit_offset, &Vec::new()));
    let at = (sbt.layout.hit.offset + sbt.layout.hit.stride) as usize;
    assert_eq!(&sbt.data[at..at + 72], &[0u8; 72][..]);
}

#[test]
fn empty_frame_empties_hit_region() {
    let al = SBTAligments::new(32, 64);
    let mut tlas = TLAS::new();
    let mut sbt = SBT::new();
    let meshes = vec![addresses(1)];
    tlas.begin_update(plan_frame(&vec![mesh(1, Some(1), 1)]).unwrap());
    assert!(sbt.update_sbt(&al, &handles(), &tlas.mesh_to_hit_offset, &meshes));
    assert_eq!(sbt.layout.hit.size, 128 * 2);
    assert_eq!(tlas.begin_update(plan_frame(&vec![mesh(1, None, 1)]).unwrap()), InstanceBufferStep::Skip);
    assert!(sbt.update_sbt(&al, &handles(), &tlas.mesh_to_hit_offset, &meshes));
    assert_eq!(sbt.layout.hit.size, 128);
}

#[test]
fn material_choice() {
    let mesh_materials = vec![7u32, 8, 9];
    assert_eq!(instance_materials(Some(Some(1u32)), Some(&mesh_materials), 0), (vec![1], false));
    assert_eq!(instance_materials(Some(None), Some(&mesh_materials), 0), (vec![0], false));
    assert_eq!(instance_materials(None, Some(&mesh_materials), 0), (vec![7, 8, 9], false));
    assert_eq!(instance_materials::<u32>(None, None, 0), (vec![0], true));
}
