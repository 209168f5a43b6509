use vstd::prelude::*;

use crate::gpu::types::{GpuImage, ImageLayout, SubresourceRange};

verus! {

// Resource states: what a resource is used for at one point of a frame.
pub const STATE_UNDEFINED: u32 = 0x0;

pub const STATE_VERTEX_AND_UNIFORM_BUFFER: u32 = 0x1;

pub const STATE_INDEX_BUFFER: u32 = 0x2;

pub const STATE_RENDER_TARGET: u32 = 0x4;

/// Shader read and write: storage buffers and images.
pub const STATE_SHADER_ACCESS: u32 = 0x8;

pub const STATE_DEPTH_WRITE: u32 = 0x10;

pub const STATE_DEPTH_READ: u32 = 0x20;

pub const STATE_NON_FRAGMENT_SHADER_RESOURCE: u32 = 0x40;

pub const STATE_FRAGMENT_SHADER_RESOURCE: u32 = 0x80;

pub const STATE_STREAM_OUT: u32 = 0x100;

pub const STATE_INDIRECT_ARGUMENT: u32 = 0x200;

pub const STATE_COPY_DESTINATION: u32 = 0x400;

pub const STATE_COPY_SOURCE: u32 = 0x800;

pub const STATE_PRESENT: u32 = 0x1000;

pub const STATE_COMMON: u32 = 0x2000;

pub const STATE_RAY_TRACING_ACCELERATION_STRUCTURE: u32 = 0x4000;

pub const STATE_SHADING_RATE_RESOURCE: u32 = 0x8000;

/// Shader read, from any stage.
pub const STATE_SHADER_RESOURCE: u32 = 0xc0;

pub const STATE_GENERIC_READ: u32 = 0xa0f;

// Vulkan's `VkAccessFlagBits2`.
pub const ACCESS_NONE: u64 = 0;

pub const ACCESS_INDIRECT_COMMAND_READ: u64 = 0x1;

pub const ACCESS_INDEX_READ: u64 = 0x2;

pub const ACCESS_VERTEX_ATTRIBUTE_READ: u64 = 0x4;

pub const ACCESS_UNIFORM_READ: u64 = 0x8;

pub const ACCESS_INPUT_ATTACHMENT_READ: u64 = 0x10;

pub const ACCESS_SHADER_READ: u64 = 0x20;

pub const ACCESS_SHADER_WRITE: u64 = 0x40;

pub const ACCESS_COLOR_ATTACHMENT_READ: u64 = 0x80;

pub const ACCESS_COLOR_ATTACHMENT_WRITE: u64 = 0x100;

pub const ACCESS_DEPTH_STENCIL_ATTACHMENT_READ: u64 = 0x200;

pub const ACCESS_DEPTH_STENCIL_ATTACHMENT_WRITE: u64 = 0x400;

pub const ACCESS_TRANSFER_READ: u64 = 0x800;

pub const ACCESS_TRANSFER_WRITE: u64 = 0x1000;

pub const ACCESS_HOST_READ: u64 = 0x2000;

pub const ACCESS_HOST_WRITE: u64 = 0x4000;

pub const ACCESS_ACCELERATION_STRUCTURE_READ: u64 = 0x20_0000;

pub const ACCESS_ACCELERATION_STRUCTURE_WRITE: u64 = 0x40_0000;

// Vulkan's `VkPipelineStageFlagBits2`.
pub const STAGE_NONE: u64 = 0;

pub const STAGE_TOP_OF_PIPE: u64 = 0x1;

pub const STAGE_DRAW_INDIRECT: u64 = 0x2;

pub const STAGE_VERTEX_SHADER: u64 = 0x8;

pub const STAGE_FRAGMENT_SHADER: u64 = 0x80;

pub const STAGE_EARLY_FRAGMENT_TESTS: u64 = 0x100;

pub const STAGE_LATE_FRAGMENT_TESTS: u64 = 0x200;

pub const STAGE_COLOR_ATTACHMENT_OUTPUT: u64 = 0x400;

pub const STAGE_TRANSFER: u64 = 0x1000;

pub const STAGE_HOST: u64 = 0x4000;

pub const STAGE_RAY_TRACING_SHADER: u64 = 0x20_0000;

pub const STAGE_VERTEX_ATTRIBUTE_INPUT: u64 = 0x20_0000_0000;

/// Vulkan's `VK_QUEUE_FAMILY_IGNORED`.
pub const QUEUE_FAMILY_IGNORED: u32 = 0xffff_ffff;

#[derive(Clone, Copy, PartialEq, Eq, Structural, Debug)]
pub enum QueueType {
    Graphics,
    Compute,
    Transfer,
}

/// All the bits of `mask` are set in `flags`.
pub open spec fn has_all32(flags: u32, mask: u32) -> bool {
    flags & mask == mask
}

pub open spec fn has_all64(flags: u64, mask: u64) -> bool {
    flags & mask == mask
}

/// The access bits that a resource state implies.
pub open spec fn spec_access_flags(state: u32) -> u64 {
    (if has_all32(state, STATE_VERTEX_AND_UNIFORM_BUFFER) {
        ACCESS_VERTEX_ATTRIBUTE_READ | ACCESS_UNIFORM_READ
    } else {
        0u64
    }) | (if has_all32(state, STATE_INDEX_BUFFER) {
        ACCESS_INDEX_READ
    } else {
        0u64
    }) | (if has_all32(state, STATE_RENDER_TARGET) {
        ACCESS_COLOR_ATTACHMENT_READ | ACCESS_COLOR_ATTACHMENT_WRITE
    } else {
        0u64
    }) | (if has_all32(state, STATE_SHADER_ACCESS) {
        ACCESS_SHADER_READ | ACCESS_SHADER_WRITE
    } else {
        0u64
    }) | (if has_all32(state, STATE_COPY_SOURCE) {
        ACCESS_TRANSFER_READ
    } else {
        0u64
    }) | (if has_all32(state, STATE_COPY_DESTINATION) {
        ACCESS_TRANSFER_WRITE
    } else {
        0u64
    }) | (if has_all32(state, STATE_DEPTH_WRITE) {
        ACCESS_DEPTH_STENCIL_ATTACHMENT_READ | ACCESS_DEPTH_STENCIL_ATTACHMENT_WRITE
    } else {
        0u64
    }) | (if has_all32(state, STATE_INDIRECT_ARGUMENT) {
        ACCESS_INDIRECT_COMMAND_READ
    } else {
        0u64
    }) | (if has_all32(state, STATE_SHADER_RESOURCE) {
        ACCESS_SHADER_READ
    } else {
        0u64
    }) | (if has_all32(state, STATE_RAY_TRACING_ACCELERATION_STRUCTURE) {
        ACCESS_ACCELERATION_STRUCTURE_READ | ACCESS_ACCELERATION_STRUCTURE_WRITE
    } else {
        0u64
    })
}

/// The access bits that a resource state implies.
pub fn access_flags_from_state(state: u32) -> (flags: u64)
    ensures
        flags == spec_access_flags(state),
{
    let vertex = if state & STATE_VERTEX_AND_UNIFORM_BUFFER == STATE_VERTEX_AND_UNIFORM_BUFFER {
        ACCESS_VERTEX_ATTRIBUTE_READ | ACCESS_UNIFORM_READ
    } else {
        0u64
    };
    let index = if state & STATE_INDEX_BUFFER == STATE_INDEX_BUFFER {
        ACCESS_INDEX_READ
    } else {
        0u64
    };
    let render_target = if state & STATE_RENDER_TARGET == STATE_RENDER_TARGET {
        ACCESS_COLOR_ATTACHMENT_READ | ACCESS_COLOR_ATTACHMENT_WRITE
    } else {
        0u64
    };
    let shader_access = if state & STATE_SHADER_ACCESS == STATE_SHADER_ACCESS {
        ACCESS_SHADER_READ | ACCESS_SHADER_WRITE
    } else {
        0u64
    };
    let copy_source = if state & STATE_COPY_SOURCE == STATE_COPY_SOURCE {
        ACCESS_TRANSFER_READ
    } else {
        0u64
    };
    let copy_destination = if state & STATE_COPY_DESTINATION == STATE_COPY_DESTINATION {
        ACCESS_TRANSFER_WRITE
    } else {
        0u64
    };
    let depth_write = if state & STATE_DEPTH_WRITE == STATE_DEPTH_WRITE {
        ACCESS_DEPTH_STENCIL_ATTACHMENT_READ | ACCESS_DEPTH_STENCIL_ATTACHMENT_WRITE
    } else {
        0u64
    };
    let indirect = if state & STATE_INDIRECT_ARGUMENT == STATE_INDIRECT_ARGUMENT {
        ACCESS_INDIRECT_COMMAND_READ
    } else {
        0u64
    };
    let shader_resource = if state & STATE_SHADER_RESOURCE == STATE_SHADER_RESOURCE {
        ACCESS_SHADER_READ
    } else {
        0u64
    };
    let acceleration = if state & STATE_RAY_TRACING_ACCELERATION_STRUCTURE
        == STATE_RAY_TRACING_ACCELERATION_STRUCTURE {
        ACCESS_ACCELERATION_STRUCTURE_READ | ACCESS_ACCELERATION_STRUCTURE_WRITE
    } else {
        0u64
    };
    let flags = vertex | index | render_target | shader_access | copy_source | copy_destination
        | depth_write | indirect | shader_resource | acceleration;
    flags
}

/// The image layout for a resource state; the first state in this order
/// that is set decides: present, render target, shader access, depth write,
/// depth read, shader resource, copy source, copy destination, common.
pub open spec fn spec_image_layout(state: u32) -> ImageLayout {
    if has_all32(state, STATE_PRESENT) {
        ImageLayout::PresentSrc
    } else if has_all32(state, STATE_RENDER_TARGET) {
        ImageLayout::ColorAttachmentOptimal
    } else if has_all32(state, STATE_SHADER_ACCESS) {
        ImageLayout::General
    } else if has_all32(state, STATE_DEPTH_WRITE) {
        ImageLayout::DepthStencilAttachmentOptimal
    } else if has_all32(state, STATE_DEPTH_READ) {
        ImageLayout::DepthStencilReadOnlyOptimal
    } else if has_all32(state, STATE_SHADER_RESOURCE) {
        ImageLayout::ShaderReadOnlyOptimal
    } else if has_all32(state, STATE_COPY_SOURCE) {
        ImageLayout::TransferSrcOptimal
    } else if has_all32(state, STATE_COPY_DESTINATION) {
        ImageLayout::TransferDstOptimal
    } else if has_all32(state, STATE_COMMON) {
        ImageLayout::General
    } else {
        ImageLayout::Undefined
    }
}

/// The image layout for a resource state.
pub fn image_layout_from_state(state: u32) -> (layout: ImageLayout)
    ensures
        layout == spec_image_layout(state),
{
    if state & STATE_PRESENT == STATE_PRESENT {
        return ImageLayout::PresentSrc;
    }
    if state & STATE_RENDER_TARGET == STATE_RENDER_TARGET {
        return ImageLayout::ColorAttachmentOptimal;
    }
    if state & STATE_SHADER_ACCESS == STATE_SHADER_ACCESS {
        return ImageLayout::General;
    }
    if state & STATE_DEPTH_WRITE == STATE_DEPTH_WRITE {
        return ImageLayout::DepthStencilAttachmentOptimal;
    }
    if state & STATE_DEPTH_READ == STATE_DEPTH_READ {
        return ImageLayout::DepthStencilReadOnlyOptimal;
    }
    if state & STATE_SHADER_RESOURCE == STATE_SHADER_RESOURCE {
        return ImageLayout::ShaderReadOnlyOptimal;
    }
    if state & STATE_COPY_SOURCE == STATE_COPY_SOURCE {
        return ImageLayout::TransferSrcOptimal;
    }
    if state & STATE_COPY_DESTINATION == STATE_COPY_DESTINATION {
        return ImageLayout::TransferDstOptimal;
    }
    if state & STATE_COMMON == STATE_COMMON {
        return ImageLayout::General;
    }
    ImageLayout::Undefined
}

/// The pipeline stages that the accesses of `access` (on a graphics or a
/// transfer queue) wait for or make wait.
pub open spec fn spec_pipeline_stages(access: u64, queue_type: QueueType) -> u64 {
    let top = if access == 0 {
        STAGE_TOP_OF_PIPE
    } else {
        0u64
    };
    let indirect = if has_all64(access, ACCESS_INDIRECT_COMMAND_READ) {
        STAGE_DRAW_INDIRECT
    } else {
        0u64
    };
    let transfer_both = if has_all64(access, ACCESS_TRANSFER_READ | ACCESS_TRANSFER_WRITE) {
        STAGE_TRANSFER
    } else {
        0u64
    };
    let host = if has_all64(access, ACCESS_HOST_READ | ACCESS_HOST_WRITE) {
        STAGE_HOST
    } else {
        0u64
    };
    let transfer_any = if has_all64(access, ACCESS_TRANSFER_READ) || has_all64(access, ACCESS_TRANSFER_WRITE) {
        STAGE_TRANSFER
    } else {
        0u64
    };
    let common = top | indirect | transfer_both | host;
    match queue_type {
        QueueType::Graphics => {
            let vertex_input = if has_all64(access, ACCESS_VERTEX_ATTRIBUTE_READ | ACCESS_INDEX_READ) {
                STAGE_VERTEX_ATTRIBUTE_INPUT
            } else {
                0u64
            };
            let shaders = if has_all64(access, ACCESS_UNIFORM_READ) || has_all64(access, ACCESS_SHADER_READ)
                || has_all64(access, ACCESS_SHADER_WRITE) {
                STAGE_VERTEX_SHADER | STAGE_FRAGMENT_SHADER
            } else {
                0u64
            };
            let input_attachment = if has_all64(access, ACCESS_INPUT_ATTACHMENT_READ) {
                STAGE_FRAGMENT_SHADER
            } else {
                0u64
            };
            let color = if has_all64(access, ACCESS_COLOR_ATTACHMENT_READ | ACCESS_COLOR_ATTACHMENT_WRITE) {
                STAGE_COLOR_ATTACHMENT_OUTPUT
            } else {
                0u64
            };
            let depth = if has_all64(
                access,
                ACCESS_DEPTH_STENCIL_ATTACHMENT_READ | ACCESS_DEPTH_STENCIL_ATTACHMENT_WRITE,
            ) {
                STAGE_EARLY_FRAGMENT_TESTS | STAGE_LATE_FRAGMENT_TESTS
            } else {
                0u64
            };
            common | vertex_input | shaders | input_attachment | color | depth | transfer_any
        },
        _ => common | transfer_any,
    }
}

/// The pipeline stages for the accesses of `access` on a queue of
/// `queue_type`; compute queues are not handled.
pub fn pipeline_stages_from_access(access: u64, queue_type: QueueType) -> (stages: u64)
    requires
        queue_type != QueueType::Compute,
    ensures
        stages == spec_pipeline_stages(access, queue_type),
{
    let top = if access == 0 {
        STAGE_TOP_OF_PIPE
    } else {
        0u64
    };
    let indirect = if access & ACCESS_INDIRECT_COMMAND_READ == ACCESS_INDIRECT_COMMAND_READ {
        STAGE_DRAW_INDIRECT
    } else {
        0u64
    };
    let transfer_mask = ACCESS_TRANSFER_READ | ACCESS_TRANSFER_WRITE;
    let transfer_both = if access & transfer_mask == transfer_mask {
        STAGE_TRANSFER
    } else {
        0u64
    };
    let host_mask = ACCESS_HOST_READ | ACCESS_HOST_WRITE;
    let host = if access & host_mask == host_mask {
        STAGE_HOST
    } else {
        0u64
    };
    let transfer_any = if access & ACCESS_TRANSFER_READ == ACCESS_TRANSFER_READ || access
        & ACCESS_TRANSFER_WRITE == ACCESS_TRANSFER_WRITE {
        STAGE_TRANSFER
    } else {
        0u64
    };
    let common = top | indirect | transfer_both | host;
    match queue_type {
        QueueType::Graphics => {
            let vertex_mask = ACCESS_VERTEX_ATTRIBUTE_READ | ACCESS_INDEX_READ;
            let vertex_input = if access & vertex_mask == vertex_mask {
                STAGE_VERTEX_ATTRIBUTE_INPUT
            } else {
                0u64
            };
            let shaders = if access & ACCESS_UNIFORM_READ == ACCESS_UNIFORM_READ || access
                & ACCESS_SHADER_READ == ACCESS_SHADER_READ || access & ACCESS_SHADER_WRITE
                == ACCESS_SHADER_WRITE {
                STAGE_VERTEX_SHADER | STAGE_FRAGMENT_SHADER
            } else {
                0u64
            };
            let input_attachment = if access & ACCESS_INPUT_ATTACHMENT_READ
                == ACCESS_INPUT_ATTACHMENT_READ {
                STAGE_FRAGMENT_SHADER
            } else {
                0u64
            };
            let color_mask = ACCESS_COLOR_ATTACHMENT_READ | ACCESS_COLOR_ATTACHMENT_WRITE;
            let color = if access & color_mask == color_mask {
                STAGE_COLOR_ATTACHMENT_OUTPUT
            } else {
                0u64
            };
            let depth_mask = ACCESS_DEPTH_STENCIL_ATTACHMENT_READ | ACCESS_DEPTH_STENCIL_ATTACHMENT_WRITE;
            let depth = if access & depth_mask == depth_mask {
                STAGE_EARLY_FRAGMENT_TESTS | STAGE_LATE_FRAGMENT_TESTS
            } else {
                0u64
            };
            common | vertex_input | shaders | input_attachment | color | depth | transfer_any
        },
        _ => common | transfer_any,
    }
}

/// An image memory barrier, as Vulkan's `VkImageMemoryBarrier2` holds it.
#[derive(Clone, Copy, PartialEq, Eq, Structural, Debug)]
pub struct ImageBarrier {
    pub src_access_mask: u64,
    pub src_stage_mask: u64,
    pub dst_access_mask: u64,
    pub dst_stage_mask: u64,
    pub old_layout: ImageLayout,
    pub new_layout: ImageLayout,
    pub image: u64,
    pub subresource_range: SubresourceRange,
    pub src_queue_family_index: u32,
    pub dst_queue_family_index: u32,
}

/// The barrier that moves `image` from `old_state` to `new_state` on the
/// graphics queue.
pub open spec fn spec_image_transition(image: GpuImage, old_state: u32, new_state: u32) -> ImageBarrier {
    ImageBarrier {
        src_access_mask: spec_access_flags(old_state),
        src_stage_mask: spec_pipeline_stages(spec_access_flags(old_state), QueueType::Graphics),
        dst_access_mask: spec_access_flags(new_state),
        dst_stage_mask: spec_pipeline_stages(spec_access_flags(new_state), QueueType::Graphics),
        old_layout: spec_image_layout(old_state),
        new_layout: spec_image_layout(new_state),
        image: image.raw,
        subresource_range: image.subresource_range,
        src_queue_family_index: QUEUE_FAMILY_IGNORED,
        dst_queue_family_index: QUEUE_FAMILY_IGNORED,
    }
}

/// A batch of pipeline barriers.
pub struct Barriers {
    image_barriers: Vec<ImageBarrier>,
}

impl Barriers {
    pub closed spec fn barriers(&self) -> Seq<ImageBarrier> {
        self.image_barriers@
    }

    pub fn new() -> (b: Self)
        ensures
            b.barriers() == Seq::<ImageBarrier>::empty(),
    {
        Barriers { image_barriers: Vec::new() }
    }

    /// Adds the transition of `image` from `old_state` to `new_state`.
    pub fn add_image(&mut self, image: &GpuImage, old_state: u32, new_state: u32)
        ensures
            final(self).barriers() == old(self).barriers().push(
                spec_image_transition(*image, old_state, new_state),
            ),
    {
        let src_access = access_flags_from_state(old_state);
        let dst_access = access_flags_from_state(new_state);
        self.add_image_from_vulkan_parameters(
            src_access,
            pipeline_stages_from_access(src_access, QueueType::Graphics),
            dst_access,
            pipeline_stages_from_access(dst_access, QueueType::Graphics),
            image_layout_from_state(old_state),
            image_layout_from_state(new_state),
            image.raw,
            image.subresource_range,
        );
    }

    pub fn add_image_from_vulkan_parameters(
        &mut self,
        src_access_mask: u64,
        src_stage_mask: u64,
        dst_access_mask: u64,
        dst_stage_mask: u64,
        old_layout: ImageLayout,
        new_layout: ImageLayout,
        image: u64,
        subresource_range: SubresourceRange,
    )
        ensures
            final(self).barriers() == old(self).barriers().push(
                ImageBarrier {
                    src_access_mask,
                    src_stage_mask,
                    dst_access_mask,
                    dst_stage_mask,
                    old_layout,
                    new_layout,
                    image,
                    subresource_range,
                    src_queue_family_index: QUEUE_FAMILY_IGNORED,
                    dst_queue_family_index: QUEUE_FAMILY_IGNORED,
                },
            ),
    {
        self.image_barriers.push(
            ImageBarrier {
                src_access_mask,
                src_stage_mask,
                dst_access_mask,
                dst_stage_mask,
                old_layout,
                new_layout,
                image,
                subresource_range,
                src_queue_family_index: QUEUE_FAMILY_IGNORED,
                dst_queue_family_index: QUEUE_FAMILY_IGNORED,
            },
        );
    }

    pub fn image_barriers(&self) -> (r: &[ImageBarrier])
        ensures
            r@ == self.barriers(),
    {
        self.image_barriers.as_slice()
    }
}

/// The layout of an image in a resource state: the first of these bits
/// that the state holds decides: present (0x1000) gives the present layout,
/// render target (0x4) the color attachment layout, shader access (0x8) the
/// general layout, depth write (0x10) the writable depth-stencil attachment
/// layout, depth read (0x20) the read-only depth-stencil layout, a shader
/// resource (0xc0) the shader read-only layout, copy source (0x800) and
/// copy destination (0x400) the transfer layouts, common (0x2000) the
/// general layout; a state with none of them is undefined.
pub proof fn lemma_image_layout_by_state_bits(state: u32)
    ensures
        state & 0x1000 == 0x1000 ==> spec_image_layout(state) == ImageLayout::PresentSrc,
        state & 0x1000 != 0x1000 && state & 0x4 == 0x4 ==> spec_image_layout(state)
            == ImageLayout::ColorAttachmentOptimal,
        state & 0x1000 != 0x1000 && state & 0x4 != 0x4 && state & 0x8 == 0x8 ==> spec_image_layout(state)
            == ImageLayout::General,
        state & 0x1000 != 0x1000 && state & 0x4 != 0x4 && state & 0x8 != 0x8 && state & 0x10 == 0x10
            ==> spec_image_layout(state) == ImageLayout::DepthStencilAttachmentOptimal,
        state & 0x1000 != 0x1000 && state & 0x4 != 0x4 && state & 0x8 != 0x8 && state & 0x10 != 0x10 && state
            & 0x20 == 0x20 ==> spec_image_layout(state) == ImageLayout::DepthStencilReadOnlyOptimal,
        state & 0x1000 != 0x1000 && state & 0x4 != 0x4 && state & 0x8 != 0x8 && state & 0x10 != 0x10 && state
            & 0x20 != 0x20 && state & 0xc0 == 0xc0 ==> spec_image_layout(state) == ImageLayout::ShaderReadOnlyOptimal,
        state & 0x3ffc == 0 ==> spec_image_layout(state) == ImageLayout::Undefined,
{
    let low = state & 0x3ffc;
    assert(low == 0 ==> state & 0x1000 != 0x1000 && state & 0x4 != 0x4 && state & 0x8 != 0x8 && state & 0x10
        != 0x10 && state & 0x20 != 0x20 && state & 0xc0 != 0xc0 && state & 0x800 != 0x800 && state & 0x400
        != 0x400 && state & 0x2000 != 0x2000) by (bit_vector)
        requires
            low == state & 0x3ffc,
    ;
}

/// The layouts of the single states that the renderer moves images
/// between: a depth attachment written is in the writable depth-stencil
/// attachment layout, a render target in the color attachment layout, a
/// sampled texture in the shader read-only layout, and an undefined state
/// in the undefined layout.
pub proof fn lemma_layouts_of_single_states()
    ensures
        spec_image_layout(0x10) == ImageLayout::DepthStencilAttachmentOptimal,
        spec_image_layout(0x4) == ImageLayout::ColorAttachmentOptimal,
        spec_image_layout(0xc0) == ImageLayout::ShaderReadOnlyOptimal,
        spec_image_layout(0) == ImageLayout::Undefined,
{
    lemma_image_layout_by_state_bits(0x10);
    lemma_image_layout_by_state_bits(0x4);
    lemma_image_layout_by_state_bits(0xc0);
    lemma_image_layout_by_state_bits(0);
    assert(0x10u32 & 0x1000 != 0x1000 && 0x10u32 & 0x4 != 0x4 && 0x10u32 & 0x8 != 0x8 && 0x10u32 & 0x10 == 0x10)
        by (bit_vector);
    assert(0x4u32 & 0x1000 != 0x1000 && 0x4u32 & 0x4 == 0x4) by (bit_vector);
    assert(0xc0u32 & 0x1000 != 0x1000 && 0xc0u32 & 0x4 != 0x4 && 0xc0u32 & 0x8 != 0x8 && 0xc0u32 & 0x10 != 0x10
        && 0xc0u32 & 0x20 != 0x20 && 0xc0u32 & 0xc0 == 0xc0) by (bit_vector);
    assert(0u32 & 0x3ffc == 0) by (bit_vector);
}

/// What a transition from render target to shader resource waits for and
/// makes wait: the color attachment reads and writes (0x180) at the color
/// attachment output stage (0x400) before the shader reads (0x20) at the
/// vertex and fragment shader stages (0x88); the image moves from the color
/// attachment layout to the shader read-only layout.
pub proof fn lemma_render_target_to_shader_resource(image: GpuImage)
    ensures
        spec_image_transition(image, STATE_RENDER_TARGET, STATE_SHADER_RESOURCE).old_layout
            == ImageLayout::ColorAttachmentOptimal,
        spec_image_transition(image, STATE_RENDER_TARGET, STATE_SHADER_RESOURCE).new_layout
            == ImageLayout::ShaderReadOnlyOptimal,
        spec_image_transition(image, STATE_RENDER_TARGET, STATE_SHADER_RESOURCE).src_access_mask == 0x180,
        spec_image_transition(image, STATE_RENDER_TARGET, STATE_SHADER_RESOURCE).dst_access_mask == 0x20,
        spec_image_transition(image, STATE_RENDER_TARGET, STATE_SHADER_RESOURCE).src_stage_mask == 0x400,
        spec_image_transition(image, STATE_RENDER_TARGET, STATE_SHADER_RESOURCE).dst_stage_mask == 0x88,
        spec_image_transition(image, STATE_RENDER_TARGET, STATE_SHADER_RESOURCE).image == image.raw,
        spec_image_transition(image, STATE_RENDER_TARGET, STATE_SHADER_RESOURCE).subresource_range
            == image.subresource_range,
{
    lemma_layouts_of_single_states();
    assert(STATE_RENDER_TARGET == 0x4 && STATE_SHADER_RESOURCE == 0xc0);
    assert(spec_access_flags(0x4) == 0x180) by (bit_vector);
    assert(spec_access_flags(0xc0) == 0x20) by (bit_vector);
    assert(spec_pipeline_stages(0x180, QueueType::Graphics) == 0x400) by (bit_vector);
    assert(spec_pipeline_stages(0x20, QueueType::Graphics) == 0x88) by (bit_vector);
}

/// The accesses of the single resource states, as Vulkan's access bits:
/// a vertex and uniform buffer is read as vertex attributes and uniforms
/// (0x4 | 0x8), an index buffer as indices (0x2), a render target is read
/// and written as a color attachment (0x80 | 0x100), shader access is shader
/// read and write (0x20 | 0x40), a depth write is depth-stencil read and
/// write (0x200 | 0x400), an indirect argument is an indirect command read
/// (0x1), a shader resource a shader read (0x20), a copy source a transfer
/// read (0x800), a copy destination a transfer write (0x1000); the undefined
/// state accesses nothing, and the accesses of a state with several bits
/// hold those of each of them.
pub proof fn lemma_access_flags_of_states(a: u32, b: u32)
    ensures
        spec_access_flags(0) == 0,
        spec_access_flags(0x1) == 0xc,
        spec_access_flags(0x2) == 0x2,
        spec_access_flags(0x4) == 0x180,
        spec_access_flags(0x8) == 0x60,
        spec_access_flags(0x10) == 0x600,
        spec_access_flags(0x200) == 0x1,
        spec_access_flags(0xc0) == 0x20,
        spec_access_flags(0x800) == 0x800,
        spec_access_flags(0x400) == 0x1000,
        spec_access_flags(a) & spec_access_flags(a | b) == spec_access_flags(a),
{
    assert(spec_access_flags(0) == 0) by (bit_vector);
    assert(spec_access_flags(0x1) == 0xc) by (bit_vector);
    assert(spec_access_flags(0x2) == 0x2) by (bit_vector);
    assert(spec_access_flags(0x4) == 0x180) by (bit_vector);
    assert(spec_access_flags(0x8) == 0x60) by (bit_vector);
    assert(spec_access_flags(0x10) == 0x600) by (bit_vector);
    assert(spec_access_flags(0x200) == 0x1) by (bit_vector);
    assert(spec_access_flags(0xc0) == 0x20) by (bit_vector);
    assert(spec_access_flags(0x800) == 0x800) by (bit_vector);
    assert(spec_access_flags(0x400) == 0x1000) by (bit_vector);
    assert(spec_access_flags(a) & spec_access_flags(a | b) == spec_access_flags(a)) by (bit_vector);
}

} // verus!
