//! Acceleration-structure and GPU-asset preparation logic for a hardware
//! ray-tracing renderer: geometry packing, bottom- and top-level
//! acceleration-structure planning, shader-binding-table layout, the
//! asynchronous asset table and the frame-delayed destruction ring.
pub mod vk_utils;
pub mod render_device;
pub mod blas;
pub mod gltf_mesh;
pub mod tlas_builder;
pub mod sbt;

pub mod vulkan_asset;
pub mod render_texture;
pub mod raytracing_pipeline;
