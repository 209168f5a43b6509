use vstd::prelude::*;

verus! {

/// DXGI's `DXGI_FORMAT_BC1_UNORM`.
pub const DXGI_FORMAT_BC1_UNORM: u32 = 71;

/// DXGI's `DXGI_FORMAT_BC1_UNORM_SRGB`.
pub const DXGI_FORMAT_BC1_UNORM_SRGB: u32 = 72;

/// DXGI's `DXGI_FORMAT_BC3_UNORM`.
pub const DXGI_FORMAT_BC3_UNORM: u32 = 77;

/// DXGI's `DXGI_FORMAT_BC3_UNORM_SRGB`.
pub const DXGI_FORMAT_BC3_UNORM_SRGB: u32 = 78;

/// DXGI's `DXGI_FORMAT_BC5_UNORM`.
pub const DXGI_FORMAT_BC5_UNORM: u32 = 83;

/// Vulkan's `VK_FORMAT_BC1_RGBA_UNORM_BLOCK`.
pub const FORMAT_BC1_RGBA_UNORM_BLOCK: i32 = 133;

/// Vulkan's `VK_FORMAT_BC1_RGBA_SRGB_BLOCK`.
pub const FORMAT_BC1_RGBA_SRGB_BLOCK: i32 = 134;

/// Vulkan's `VK_FORMAT_BC3_UNORM_BLOCK`.
pub const FORMAT_BC3_UNORM_BLOCK: i32 = 137;

/// Vulkan's `VK_FORMAT_BC3_SRGB_BLOCK`.
pub const FORMAT_BC3_SRGB_BLOCK: i32 = 138;

/// Vulkan's `VK_FORMAT_BC5_UNORM_BLOCK`.
pub const FORMAT_BC5_UNORM_BLOCK: i32 = 141;

/// Vulkan's `VK_FILTER_NEAREST`.
pub const FILTER_NEAREST: i32 = 0;

/// Vulkan's `VK_FILTER_LINEAR`.
pub const FILTER_LINEAR: i32 = 1;

/// The block-compressed DXGI formats that textures are loaded in.
pub open spec fn is_supported_dxgi_format(dxgi_format: u32) -> bool {
    dxgi_format == DXGI_FORMAT_BC1_UNORM || dxgi_format == DXGI_FORMAT_BC1_UNORM_SRGB || dxgi_format
        == DXGI_FORMAT_BC3_UNORM || dxgi_format == DXGI_FORMAT_BC3_UNORM_SRGB || dxgi_format == DXGI_FORMAT_BC5_UNORM
}

pub open spec fn spec_vulkan_format_of_dxgi(dxgi_format: u32) -> i32 {
    if dxgi_format == DXGI_FORMAT_BC1_UNORM {
        FORMAT_BC1_RGBA_UNORM_BLOCK
    } else if dxgi_format == DXGI_FORMAT_BC1_UNORM_SRGB {
        FORMAT_BC1_RGBA_SRGB_BLOCK
    } else if dxgi_format == DXGI_FORMAT_BC3_UNORM {
        FORMAT_BC3_UNORM_BLOCK
    } else if dxgi_format == DXGI_FORMAT_BC3_UNORM_SRGB {
        FORMAT_BC3_SRGB_BLOCK
    } else {
        FORMAT_BC5_UNORM_BLOCK
    }
}

/// The Vulkan format of a block-compressed DXGI format.
pub fn dxgi_format_to_vulkan_format(dxgi_format: u32) -> (format: i32)
    requires
        is_supported_dxgi_format(dxgi_format),
    ensures
        format == spec_vulkan_format_of_dxgi(dxgi_format),
{
    if dxgi_format == DXGI_FORMAT_BC1_UNORM {
        FORMAT_BC1_RGBA_UNORM_BLOCK
    } else if dxgi_format == DXGI_FORMAT_BC1_UNORM_SRGB {
        FORMAT_BC1_RGBA_SRGB_BLOCK
    } else if dxgi_format == DXGI_FORMAT_BC3_UNORM {
        FORMAT_BC3_UNORM_BLOCK
    } else if dxgi_format == DXGI_FORMAT_BC3_UNORM_SRGB {
        FORMAT_BC3_SRGB_BLOCK
    } else {
        FORMAT_BC5_UNORM_BLOCK
    }
}

/// How a glTF texture is minified.
#[derive(Clone, Copy, PartialEq, Eq, Structural, Debug)]
pub enum MinFilter {
    Nearest,
    Linear,
    NearestMipmapNearest,
    LinearMipmapNearest,
    NearestMipmapLinear,
    LinearMipmapLinear,
}

/// How a glTF texture is magnified.
#[derive(Clone, Copy, PartialEq, Eq, Structural, Debug)]
pub enum MagFilter {
    Nearest,
    Linear,
}

/// The Vulkan filter of a minification filter: linear where the filter
/// between texels is linear, whatever the mipmap mode.
pub fn min_filter_to_vulkan_filter(filter: MinFilter) -> (f: i32)
    ensures
        f == (match filter {
            MinFilter::Linear | MinFilter::LinearMipmapLinear | MinFilter::LinearMipmapNearest => FILTER_LINEAR,
            _ => FILTER_NEAREST,
        }),
{
    match filter {
        MinFilter::Linear | MinFilter::LinearMipmapLinear | MinFilter::LinearMipmapNearest => FILTER_LINEAR,
        MinFilter::Nearest | MinFilter::NearestMipmapLinear | MinFilter::NearestMipmapNearest => FILTER_NEAREST,
    }
}

/// The Vulkan filter of a magnification filter.
pub fn mag_filter_to_vulkan_filter(filter: MagFilter) -> (f: i32)
    ensures
        f == (match filter {
            MagFilter::Linear => FILTER_LINEAR,
            MagFilter::Nearest => FILTER_NEAREST,
        }),
{
    match filter {
        MagFilter::Linear => FILTER_LINEAR,
        MagFilter::Nearest => FILTER_NEAREST,
    }
}

} // verus!
