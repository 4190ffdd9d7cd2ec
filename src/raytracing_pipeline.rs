use vstd::prelude::*;

verus! {

/// Device addresses handed to the ray-tracing shaders as push constants.
#[derive(Clone, Copy, Debug, PartialEq, Eq, Structural)]
pub struct RaytracingPushConstants {
    pub uniform_buffer: u64,
    pub material_buffer: u64,
    pub bluenoise_buffer: u64,
    pub unpacked_bluenoise_buffer: u64,
    pub focus_buffer: u64,
    pub sky_texture: u64,
}

} // verus!
