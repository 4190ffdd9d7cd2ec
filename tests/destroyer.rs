use vk_rays::blas::{AccelerationStructure, BufferRef, BLAS};
use vk_rays::render_device::{
    BindlessRegistry, VkDestroyCmd, DEFAULT_NORMAL_TEXTURE_IDX, WHITE_TEXTURE_IDX,
};

#[test]
fn destroy_waits_for_frames_in_flight() {
    let mut ring = vk_rays::render_device::DestroyRing::new(2);
    assert_eq!(ring.frames_in_flight(), 2);
    assert!(ring.handle(VkDestroyCmd::Buffer(7)).is_empty());
    assert!(ring.handle(VkDestroyCmd::Tick).is_empty());
    assert_eq!(ring.handle(VkDestroyCmd::Tick), vec![VkDestroyCmd::Buffer(7)]);
    assert!(ring.handle(VkDestroyCmd::Tick).is_empty());
}

#[test]
fn destroy_delay_three_frames() {
    let mut ring = vk_rays::render_device::DestroyRing::new(3);
    ring.request(VkDestroyCmd::Image(1));
    assert!(ring.tick().is_empty());
    ring.request(VkDestroyCmd::ImageView(2));
    assert!(ring.tick().is_empty());
    assert_eq!(ring.tick(), vec![VkDestroyCmd::Image(1)]);
    assert_eq!(ring.tick(), vec![VkDestroyCmd::ImageView(2)]);
    assert!(ring.tick().is_empty());
}

#[test]
fn destroy_batches_keep_request_order() {
    let mut ring = vk_rays::render_device::DestroyRing::new(1);
    ring.request(VkDestroyCmd::Pipeline(1));
    ring.request(VkDestroyCmd::PipelineLayout(2));
    ring.request(VkDestroyCmd::DescriptorSetLayout(3));
    assert_eq!(
        ring.tick(),
        vec![VkDestroyCmd::Pipeline(1), VkDestroyCmd::PipelineLayout(2), VkDestroyCmd::DescriptorSetLayout(3)]
    );
}

#[test]
fn bindless_registration_is_idempotent() {
    let mut reg = BindlessRegistry::with_defaults(100, 101);
    assert_eq!(reg.get_bindless_texture_index(100), Some(WHITE_TEXTURE_IDX));
    assert_eq!(reg.get_bindless_texture_index(101), Some(DEFAULT_NORMAL_TEXTURE_IDX));
    let a = reg.register_bindless_texture(555);
    assert_eq!(a, 2);
    assert_eq!(reg.len(), 3);
    let b = reg.register_bindless_texture(555);
    assert_eq!(b, a);
    assert_eq!(reg.len(), 3);
    assert_eq!(reg.register_bindless_texture(556), 3);
    assert_eq!(reg.get_bindless_texture_index(9), None);
}

fn buf(handle: u64, n: u64) -> BufferRef {
    BufferRef { handle, nr_elements: n, address: handle * 0x1000 }
}

#[test]
fn compaction_defers_the_uncompacted_structure() {
    let mut accel = AccelerationStructure { handle: 1, buffer: buf(10, 4096), address: 0xa000 };
    let compacted = AccelerationStructure { handle: 2, buffer: buf(20, 1500), address: 0xb000 };
    let mut outbox = Vec::new();
    accel.install_compacted(compacted, &mut outbox);
    assert_eq!(accel, compacted);
    assert_eq!(accel.buffer.nr_elements, 1500);
    assert_eq!(outbox, vec![VkDestroyCmd::AccelerationStructure(1), VkDestroyCmd::Buffer(10)]);
    let mut ring = vk_rays::render_device::DestroyRing::new(2);
    for cmd in outbox {
        assert!(ring.handle(cmd).is_empty());
    }
    assert!(ring.tick().is_empty());
    assert_eq!(ring.tick(), vec![VkDestroyCmd::AccelerationStructure(1), VkDestroyCmd::Buffer(10)]);
}

#[test]
fn blas_destroy_releases_everything() {
    let blas = BLAS {
        acceleration_structure: AccelerationStructure { handle: 1, buffer: buf(2, 8), address: 3 },
        vertex_buffer: buf(4, 1),
        triangle_buffer: buf(5, 1),
        index_buffer: buf(6, 1),
        geometry_to_index: buf(7, 1),
        geometry_to_triangle: buf(8, 1),
    };
    let mut outbox = vec![VkDestroyCmd::Swapchain(99)];
    blas.destroy(&mut outbox);
    assert_eq!(
        outbox,
        vec![
            VkDestroyCmd::Swapchain(99),
            VkDestroyCmd::AccelerationStructure(1),
            VkDestroyCmd::Buffer(2),
            VkDestroyCmd::Buffer(4),
            VkDestroyCmd::Buffer(5),
            VkDestroyCmd::Buffer(6),
            VkDestroyCmd::Buffer(7),
            VkDestroyCmd::Buffer(8),
        ]
    );
}
