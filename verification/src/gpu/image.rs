use vstd::prelude::*;

use crate::gpu::types::format_has_depth;
use crate::gpu::types::is_depth_format;
use crate::gpu::types::SubresourceRange;
use crate::gpu::types::FORMAT_UNDEFINED;
use crate::gpu::types::IMAGE_ASPECT_COLOR;
use crate::gpu::types::IMAGE_ASPECT_DEPTH;
use crate::gpu::types::IMAGE_USAGE_TRANSFER_DST;
use crate::gpu::types::IMAGE_USAGE_TRANSFER_SRC;
use crate::gpu::types::ImageLayout;
use crate::gpu::barriers::STATE_UNDEFINED;

verus! {

/// Vulkan's `VK_IMAGE_TYPE_2D`.
pub const IMAGE_TYPE_2D: i32 = 1;

/// Vulkan's `VK_IMAGE_VIEW_TYPE_2D`.
pub const IMAGE_VIEW_TYPE_2D: i32 = 1;

/// The bindless index of an image that has not been given one yet.
pub const NO_BINDLESS_INDEX: u32 = 0xffff_ffff;

/// The view type that shows an image of type `image_type` whole; only
/// two-dimensional images have one.
pub fn image_view_type(image_type: i32) -> (view_type: i32)
    requires
        image_type == IMAGE_TYPE_2D,
    ensures
        view_type == IMAGE_VIEW_TYPE_2D,
{
    IMAGE_VIEW_TYPE_2D
}

/// Where an allocation lives, as the GPU allocator names it.
#[derive(Clone, Copy, PartialEq, Eq, Structural, Debug)]
pub enum MemoryLocation {
    Unknown,
    GpuOnly,
    CpuToGpu,
    GpuToCpu,
}

/// What an image is created with.
#[derive(Clone, Copy, PartialEq, Eq, Structural, Debug)]
pub struct ImageDesc {
    pub width: u32,
    pub height: u32,
    pub depth: u32,
    pub array_layer_count: u32,
    pub mip_level_count: u32,
    pub format: i32,
    pub image_type: i32,
    pub usage_flags: u32,
    pub memory_location: MemoryLocation,
}

impl ImageDesc {
    pub open spec fn spec_memory_location(self) -> MemoryLocation {
        self.memory_location
    }

    /// A two-dimensional image of one layer and one mip level, of undefined
    /// format and no usage, in GPU memory.
    pub fn new(width: u32, height: u32, depth: u32) -> (d: Self)
        ensures
            d.width == width,
            d.height == height,
            d.depth == depth,
            d.array_layer_count == 1,
            d.mip_level_count == 1,
            d.format == FORMAT_UNDEFINED,
            d.image_type == IMAGE_TYPE_2D,
            d.usage_flags == 0,
            d.spec_memory_location() == MemoryLocation::GpuOnly,
    {
        ImageDesc {
            width,
            height,
            depth,
            array_layer_count: 1,
            mip_level_count: 1,
            format: FORMAT_UNDEFINED,
            image_type: IMAGE_TYPE_2D,
            usage_flags: 0,
            memory_location: MemoryLocation::GpuOnly,
        }
    }

    pub fn set_format(self, format: i32) -> (d: Self)
        ensures
            d == (ImageDesc { format, ..self }),
    {
        ImageDesc { format, ..self }
    }

    pub fn set_usage_flags(self, usage_flags: u32) -> (d: Self)
        ensures
            d == (ImageDesc { usage_flags, ..self }),
    {
        ImageDesc { usage_flags, ..self }
    }

    pub fn set_image_type(self, image_type: i32) -> (d: Self)
        ensures
            d == (ImageDesc { image_type, ..self }),
    {
        ImageDesc { image_type, ..self }
    }
}

/// How an image and its view are made: the usage, the extent, the levels
/// and layers, the format and type, the view type, the range the view
/// covers and where the memory lives; and the state the new image starts
/// in: its layout, its resource state, whether it owns its memory, its
/// bindless index and whether a sampler is linked to it.
#[derive(Clone, Copy, PartialEq, Eq, Structural, Debug)]
pub struct ImageCreatePlan {
    pub usage_flags: u32,
    pub width: u32,
    pub height: u32,
    pub depth: u32,
    pub mip_levels: u32,
    pub array_layers: u32,
    pub format: i32,
    pub image_type: i32,
    pub view_type: i32,
    pub subresource_range: SubresourceRange,
    pub memory_location: MemoryLocation,
    pub initial_layout: ImageLayout,
    pub resource_state: u32,
    pub owning: bool,
    pub bindless_index: u32,
    pub has_sampler: bool,
}

pub open spec fn spec_image_create_plan(desc: ImageDesc) -> ImageCreatePlan {
    ImageCreatePlan {
        usage_flags: desc.usage_flags | IMAGE_USAGE_TRANSFER_SRC | IMAGE_USAGE_TRANSFER_DST,
        width: desc.width,
        height: desc.height,
        depth: desc.depth,
        mip_levels: desc.mip_level_count,
        array_layers: desc.array_layer_count,
        format: desc.format,
        image_type: desc.image_type,
        view_type: IMAGE_VIEW_TYPE_2D,
        subresource_range: SubresourceRange {
            aspect_mask: if is_depth_format(desc.format) {
                IMAGE_ASPECT_DEPTH
            } else {
                IMAGE_ASPECT_COLOR
            },
            base_mip_level: 0,
            level_count: desc.mip_level_count,
            base_array_layer: 0,
            layer_count: desc.array_layer_count,
        },
        memory_location: desc.spec_memory_location(),
        initial_layout: ImageLayout::Undefined,
        resource_state: STATE_UNDEFINED,
        owning: true,
        bindless_index: NO_BINDLESS_INDEX,
        has_sampler: false,
    }
}

/// How an image of description `desc` is made: it can always be copied to
/// and from, and its view covers all its levels and layers, in the depth
/// aspect for a depth format and the color aspect otherwise. Only
/// two-dimensional images are made. A new image starts in the undefined
/// layout and state, owns its memory, has no bindless index yet and no
/// sampler.
pub fn image_create_plan(desc: &ImageDesc) -> (plan: ImageCreatePlan)
    requires
        desc.image_type == IMAGE_TYPE_2D,
    ensures
        plan == spec_image_create_plan(*desc),
{
    let view_type = image_view_type(desc.image_type);
    let aspect_mask = if format_has_depth(desc.format) {
        IMAGE_ASPECT_DEPTH
    } else {
        IMAGE_ASPECT_COLOR
    };
    ImageCreatePlan {
        usage_flags: desc.usage_flags | IMAGE_USAGE_TRANSFER_SRC | IMAGE_USAGE_TRANSFER_DST,
        width: desc.width,
        height: desc.height,
        depth: desc.depth,
        mip_levels: desc.mip_level_count,
        array_layers: desc.array_layer_count,
        format: desc.format,
        image_type: desc.image_type,
        view_type,
        subresource_range: SubresourceRange {
            aspect_mask,
            base_mip_level: 0,
            level_count: desc.mip_level_count,
            base_array_layer: 0,
            layer_count: desc.array_layer_count,
        },
        memory_location: desc.memory_location,
        initial_layout: ImageLayout::Undefined,
        resource_state: STATE_UNDEFINED,
        owning: true,
        bindless_index: NO_BINDLESS_INDEX,
        has_sampler: false,
    }
}

/// Hands out the bindless indices of new images, one after another from 0;
/// past the largest `u32` the counter wraps around to 0.
pub struct BindlessIndexCounter {
    next: u32,
}

impl BindlessIndexCounter {
    pub closed spec fn next(&self) -> u32 {
        self.next
    }

    pub fn new() -> (c: Self)
        ensures
            c.next() == 0,
    {
        BindlessIndexCounter { next: 0 }
    }

    /// The bindless index of the next image created: the counter's value,
    /// which then moves on by one.
    pub fn assign(&mut self) -> (index: u32)
        ensures
            index_assigned(*old(self), *final(self), index),
            index == old(self).next(),
            final(self).next() == (if old(self).next() == u32::MAX {
                0
            } else {
                (old(self).next() + 1) as u32
            }),
    {
        let index = self.next;
        self.next = if self.next == u32::MAX {
            0
        } else {
            self.next + 1
        };
        index
    }
}

/// What one `assign` does: `index` is the counter's value, which then moves
/// on by one, wrapping past the largest `u32` to 0.
pub open spec fn index_assigned(before: BindlessIndexCounter, after: BindlessIndexCounter, index: u32) -> bool {
    &&& index == before.next()
    &&& after.next() == (if before.next() == u32::MAX {
        0
    } else {
        (before.next() + 1) as u32
    })
}

/// From a new counter, `k` assignments (fewer than the largest `u32`) give
/// 0, 1, ..., k - 1: pairwise distinct, and never the index of an image
/// without one.
pub proof fn lemma_assigned_in_order(counters: Seq<BindlessIndexCounter>, indices: Seq<u32>)
    requires
        counters.len() == indices.len() + 1,
        indices.len() < u32::MAX,
        counters[0].next() == 0,
        forall|k: int| 0 <= k < indices.len() ==> #[trigger] index_assigned(counters[k], counters[k + 1], indices[k]),
    ensures
        forall|k: int| 0 <= k < indices.len() ==> #[trigger] indices[k] == k,
        forall|a: int, b: int| 0 <= a < b < indices.len() ==> indices[a] != indices[b],
        forall|k: int| 0 <= k < indices.len() ==> #[trigger] indices[k] != NO_BINDLESS_INDEX,
        counters.last().next() == indices.len(),
    decreases indices.len(),
{
    let n = indices.len() as int;
    if n > 0 {
        let c2 = counters.drop_last();
        let i2 = indices.drop_last();
        assert forall|k: int| 0 <= k < i2.len() implies #[trigger] index_assigned(c2[k], c2[k + 1], i2[k]) by {
            assert(index_assigned(counters[k], counters[k + 1], indices[k]));
        }
        lemma_assigned_in_order(c2, i2);
        let k = n - 1;
        assert(index_assigned(counters[k], counters[k + 1], indices[k]));
        assert(c2.last() == counters[k]);
        assert(counters.last() == counters[n]);
        assert forall|m: int| 0 <= m < n implies #[trigger] indices[m] == m by {
            if m < k {
                assert(i2[m] == indices[m]);
            }
        }
    }
}

/// What the renderer records of a swapchain image: its format and extent,
/// one level and layer, and that it does not own its memory.
#[derive(Clone, Copy, PartialEq, Eq, Structural, Debug)]
pub struct SwapchainImageInfo {
    pub format: i32,
    pub width: u32,
    pub height: u32,
    pub depth: u32,
    pub mip_levels: u32,
    pub array_layers: u32,
    pub subresource_range: SubresourceRange,
    pub image_type: i32,
    pub owning: bool,
}

/// The record of an image of a swapchain of format `format` and extent
/// `width` by `height`: color, one level, one layer, depth zero.
pub fn swapchain_image_info(format: i32, width: u32, height: u32) -> (info: SwapchainImageInfo)
    ensures
        info == (SwapchainImageInfo {
            format,
            width,
            height,
            depth: 0,
            mip_levels: 1,
            array_layers: 1,
            subresource_range: SubresourceRange {
                aspect_mask: IMAGE_ASPECT_COLOR,
                base_mip_level: 0,
                level_count: 1,
                base_array_layer: 0,
                layer_count: 1,
            },
            image_type: IMAGE_TYPE_2D,
            owning: false,
        }),
{
    SwapchainImageInfo {
        format,
        width,
        height,
        depth: 0,
        mip_levels: 1,
        array_layers: 1,
        subresource_range: SubresourceRange {
            aspect_mask: IMAGE_ASPECT_COLOR,
            base_mip_level: 0,
            level_count: 1,
            base_array_layer: 0,
            layer_count: 1,
        },
        image_type: IMAGE_TYPE_2D,
        owning: false,
    }
}

} // verus!
