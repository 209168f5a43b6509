use vstd::prelude::*;

verus! {

/// The counts that the culling shaders write for a frame's mesh draws.
#[derive(Clone, Copy, PartialEq, Eq, Structural, Debug)]
pub struct GpuMeshDrawCounts {
    pub opaque_mesh_visible_count: u32,
    pub opaque_mesh_culled_count: u32,
    pub transparent_mesh_visible_count: u32,
    pub transparent_mesh_culled_count: u32,
    pub total_count: u32,
    pub depth_pyramid_texture_index: u32,
    pub is_late: u32,
    _pad0: u32,
}

} // verus!
