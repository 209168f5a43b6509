use vstd::prelude::*;

use crate::gpu::types::FORMAT_B8G8R8A8_UNORM;
use crate::gpu::types::FORMAT_UNDEFINED;
use crate::gpu::types::IMAGE_USAGE_COLOR_ATTACHMENT;
use crate::gpu::types::IMAGE_USAGE_TRANSFER_DST;
use crate::gpu::types::IMAGE_USAGE_TRANSFER_SRC;

verus! {

/// Vulkan's `VK_COLOR_SPACE_SRGB_NONLINEAR_KHR`.
pub const COLOR_SPACE_SRGB_NONLINEAR: i32 = 0;

/// Vulkan's `VK_PRESENT_MODE_FIFO_KHR`.
pub const PRESENT_MODE_FIFO: i32 = 2;

/// Vulkan's `VK_COMPOSITE_ALPHA_OPAQUE_BIT_KHR`.
pub const COMPOSITE_ALPHA_OPAQUE: u32 = 0x1;

/// What the swapchain is asked for: its extent, and the queue families that
/// render to and present its images.
#[derive(Clone, Copy, PartialEq, Eq, Structural, Debug)]
pub struct SwapchainDesc {
    pub width: u32,
    pub height: u32,
    pub graphics_queue_family_index: u32,
    pub present_queue_family_index: u32,
}

impl SwapchainDesc {
    pub fn new(width: u32, height: u32, graphics_queue_family_index: u32, present_queue_family_index: u32) -> (d: Self)
        ensures
            d == (SwapchainDesc { width, height, graphics_queue_family_index, present_queue_family_index }),
    {
        SwapchainDesc { width, height, graphics_queue_family_index, present_queue_family_index }
    }
}

/// A format and color space that a surface supports.
#[derive(Clone, Copy, PartialEq, Eq, Structural, Debug)]
pub struct SurfaceFormat {
    pub format: i32,
    pub color_space: i32,
}

/// A width and a height in pixels.
#[derive(Clone, Copy, PartialEq, Eq, Structural, Debug)]
pub struct Extent2D {
    pub width: u32,
    pub height: u32,
}

/// What a surface reports of the swapchains it can take.
#[derive(Clone, Copy, PartialEq, Eq, Structural, Debug)]
pub struct SurfaceCapabilities {
    pub min_image_count: u32,
    pub max_image_count: u32,
    pub current_extent: Extent2D,
    pub min_image_extent: Extent2D,
    pub max_image_extent: Extent2D,
    /// The transform the surface currently applies to presented images.
    pub current_transform: u32,
}

/// Whether the swapchain images are owned by one queue family or shared.
#[derive(Clone, Copy, PartialEq, Eq, Structural, Debug)]
pub enum SharingMode {
    Exclusive,
    Concurrent,
}

/// The preferred surface format: 8-bit BGRA in sRGB.
pub open spec fn preferred_format() -> SurfaceFormat {
    SurfaceFormat { format: FORMAT_B8G8R8A8_UNORM, color_space: COLOR_SPACE_SRGB_NONLINEAR }
}

/// The format chosen among `formats`: the preferred one where the surface
/// leaves the format open (a single undefined entry), else the first
/// preferred entry, else the first entry.
pub open spec fn chosen_surface_format(formats: Seq<SurfaceFormat>) -> SurfaceFormat {
    if formats.len() == 1 && formats[0].format == FORMAT_UNDEFINED {
        preferred_format()
    } else if exists|i: int| 0 <= i < formats.len() && formats[i] == preferred_format() {
        preferred_format()
    } else {
        formats[0]
    }
}

/// Chooses the swapchain's surface format.
pub fn choose_surface_format(formats: &[SurfaceFormat]) -> (f: SurfaceFormat)
    requires
        formats@.len() > 0,
    ensures
        f == chosen_surface_format(formats@),
{
    let preferred = SurfaceFormat { format: FORMAT_B8G8R8A8_UNORM, color_space: COLOR_SPACE_SRGB_NONLINEAR };
    if formats.len() == 1 && formats[0].format == FORMAT_UNDEFINED {
        return preferred;
    }
    let mut i: usize = 0;
    while i < formats.len()
        invariant
            i <= formats@.len(),
            preferred == preferred_format(),
            forall|k: int| 0 <= k < i ==> #[trigger] formats@[k] != preferred_format(),
        decreases formats@.len() - i,
    {
        let f = formats[i];
        if f.format == FORMAT_B8G8R8A8_UNORM && f.color_space == COLOR_SPACE_SRGB_NONLINEAR {
            return f;
        }
        i = i + 1;
    }
    formats[0]
}

/// Chooses the present mode: FIFO, which every surface supports.
pub fn choose_present_mode(present_modes: &[i32]) -> (mode: i32)
    ensures
        mode == PRESENT_MODE_FIFO,
{
    PRESENT_MODE_FIFO
}

pub open spec fn clamp(value: u32, min: u32, max: u32) -> u32 {
    let capped = if value < max { value } else { max };
    if capped > min { capped } else { min }
}

/// The extent chosen: the surface's current extent where it fixes one,
/// else the requested extent clamped to the surface's limits.
pub open spec fn chosen_extent(capabilities: SurfaceCapabilities, desc: SwapchainDesc) -> Extent2D {
    if capabilities.current_extent.width != u32::MAX {
        capabilities.current_extent
    } else {
        Extent2D {
            width: clamp(desc.width, capabilities.min_image_extent.width, capabilities.max_image_extent.width),
            height: clamp(desc.height, capabilities.min_image_extent.height, capabilities.max_image_extent.height),
        }
    }
}

/// Chooses the swapchain's extent.
pub fn choose_extent(capabilities: &SurfaceCapabilities, desc: &SwapchainDesc) -> (e: Extent2D)
    ensures
        e == chosen_extent(*capabilities, *desc),
{
    if capabilities.current_extent.width != u32::MAX {
        capabilities.current_extent
    } else {
        let min = capabilities.min_image_extent;
        let max = capabilities.max_image_extent;
        let width = desc.width.min(max.width).max(min.width);
        let height = desc.height.min(max.height).max(min.height);
        Extent2D { width, height }
    }
}

/// Chooses the number of swapchain images: one more than the minimum, but
/// no more than the maximum.
pub fn choose_image_count(capabilities: &SurfaceCapabilities) -> (count: u32)
    requires
        capabilities.min_image_count < u32::MAX,
    ensures
        count == if capabilities.max_image_count < capabilities.min_image_count + 1 {
            capabilities.max_image_count
        } else {
            (capabilities.min_image_count + 1) as u32
        },
{
    capabilities.max_image_count.min(capabilities.min_image_count + 1)
}

/// Chooses how the images are shared: one family owns them where the same
/// family renders and presents; else both families share them.
pub fn choose_sharing_mode(desc: &SwapchainDesc) -> (r: (SharingMode, Vec<u32>))
    ensures
        desc.graphics_queue_family_index == desc.present_queue_family_index ==> r.0 == SharingMode::Exclusive
            && r.1@ == Seq::<u32>::empty(),
        desc.graphics_queue_family_index != desc.present_queue_family_index ==> r.0 == SharingMode::Concurrent
            && r.1@ == seq![desc.graphics_queue_family_index, desc.present_queue_family_index],
{
    if desc.graphics_queue_family_index == desc.present_queue_family_index {
        (SharingMode::Exclusive, Vec::new())
    } else {
        let mut families: Vec<u32> = Vec::new();
        families.push(desc.graphics_queue_family_index);
        families.push(desc.present_queue_family_index);
        proof {
            assert(families@ =~= seq![desc.graphics_queue_family_index, desc.present_queue_family_index]);
        }
        (SharingMode::Concurrent, families)
    }
}

/// How the swapchain is created.
pub struct SwapchainCreatePlan {
    pub min_image_count: u32,
    pub surface_format: SurfaceFormat,
    pub extent: Extent2D,
    pub array_layers: u32,
    pub image_usage: u32,
    pub pre_transform: u32,
    pub composite_alpha: u32,
    pub present_mode: i32,
    pub sharing_mode: SharingMode,
    /// The families that share the images, where they are shared.
    pub queue_family_indices: Vec<u32>,
}

/// How the swapchain is created from what the surface supports: the chosen
/// format, present mode, extent, image count and sharing; one layer of
/// images that are rendered to and copied to and from; the surface's
/// current transform, and no blending with other windows.
pub fn swapchain_create_plan(
    formats: &[SurfaceFormat],
    present_modes: &[i32],
    capabilities: &SurfaceCapabilities,
    desc: &SwapchainDesc,
) -> (plan: SwapchainCreatePlan)
    requires
        formats@.len() > 0,
        capabilities.min_image_count < u32::MAX,
    ensures
        plan.min_image_count == if capabilities.max_image_count < capabilities.min_image_count + 1 {
            capabilities.max_image_count
        } else {
            (capabilities.min_image_count + 1) as u32
        },
        plan.surface_format == chosen_surface_format(formats@),
        plan.extent == chosen_extent(*capabilities, *desc),
        plan.array_layers == 1,
        plan.image_usage == IMAGE_USAGE_COLOR_ATTACHMENT | IMAGE_USAGE_TRANSFER_DST | IMAGE_USAGE_TRANSFER_SRC,
        plan.pre_transform == capabilities.current_transform,
        plan.composite_alpha == COMPOSITE_ALPHA_OPAQUE,
        plan.present_mode == PRESENT_MODE_FIFO,
        desc.graphics_queue_family_index == desc.present_queue_family_index ==> plan.sharing_mode
            == SharingMode::Exclusive && plan.queue_family_indices@ == Seq::<u32>::empty(),
        desc.graphics_queue_family_index != desc.present_queue_family_index ==> plan.sharing_mode
            == SharingMode::Concurrent && plan.queue_family_indices@ == seq![
            desc.graphics_queue_family_index,
            desc.present_queue_family_index,
        ],
{
    let (sharing_mode, queue_family_indices) = choose_sharing_mode(desc);
    SwapchainCreatePlan {
        min_image_count: choose_image_count(capabilities),
        surface_format: choose_surface_format(formats),
        extent: choose_extent(capabilities, desc),
        array_layers: 1,
        image_usage: IMAGE_USAGE_COLOR_ATTACHMENT | IMAGE_USAGE_TRANSFER_DST | IMAGE_USAGE_TRANSFER_SRC,
        pre_transform: capabilities.current_transform,
        composite_alpha: COMPOSITE_ALPHA_OPAQUE,
        present_mode: choose_present_mode(present_modes),
        sharing_mode,
        queue_family_indices,
    }
}

/// Where the surface leaves the extent open and its limits are ordered, the
/// chosen extent lies within the limits.
pub proof fn lemma_extent_within_limits(capabilities: SurfaceCapabilities, desc: SwapchainDesc)
    requires
        capabilities.current_extent.width == u32::MAX,
        capabilities.min_image_extent.width <= capabilities.max_image_extent.width,
        capabilities.min_image_extent.height <= capabilities.max_image_extent.height,
    ensures
        capabilities.min_image_extent.width <= chosen_extent(capabilities, desc).width
            <= capabilities.max_image_extent.width,
        capabilities.min_image_extent.height <= chosen_extent(capabilities, desc).height
            <= capabilities.max_image_extent.height,
{
}

} // verus!
