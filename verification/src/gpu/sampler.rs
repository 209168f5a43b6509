use vstd::prelude::*;

verus! {

/// Vulkan's `VK_SAMPLER_ADDRESS_MODE_REPEAT`.
pub const ADDRESS_MODE_REPEAT: i32 = 0;

/// Vulkan's `VK_COMPARE_OP_ALWAYS`.
pub const COMPARE_OP_ALWAYS: i32 = 7;

/// Vulkan's `VK_BORDER_COLOR_INT_OPAQUE_WHITE`.
pub const BORDER_COLOR_INT_OPAQUE_WHITE: i32 = 5;

/// Vulkan's `VK_SAMPLER_REDUCTION_MODE_WEIGHTED_AVERAGE`.
pub const REDUCTION_MODE_WEIGHTED_AVERAGE: i32 = 0;

/// What a sampler is asked for, as Vulkan enumerations.
#[derive(Clone, Copy, PartialEq, Eq, Structural, Debug)]
pub struct SamplerDesc {
    pub min_filter: i32,
    pub mag_filter: i32,
    pub mipmap_mode: i32,
    pub address_mode_u: i32,
    pub address_mode_v: i32,
    pub address_mode_w: i32,
    pub reduction_mode: i32,
}

/// How a sampler is created (its level-of-detail bias and range, which are
/// floating point, are left out).
#[derive(Clone, Copy, PartialEq, Eq, Structural, Debug)]
pub struct SamplerCreatePlan {
    pub min_filter: i32,
    pub mag_filter: i32,
    pub mipmap_mode: i32,
    pub address_mode_u: i32,
    pub address_mode_v: i32,
    pub address_mode_w: i32,
    pub anisotropy_enable: bool,
    pub compare_enable: bool,
    pub compare_op: i32,
    pub border_color: i32,
    pub unnormalized_coordinates: bool,
    /// The reduction mode chained to the create info, where there is one.
    pub reduction_mode: Option<i32>,
}

/// How the sampler of `desc` is created: its filters, mipmap mode and the
/// first two address modes as asked. The third address mode is never set
/// and stays at repeat, whatever `desc` asks. No anisotropy and no
/// comparison, an opaque white border and normalized coordinates. A
/// reduction mode is chained only where it is not the weighted average.
pub fn sampler_create_plan(desc: &SamplerDesc) -> (plan: SamplerCreatePlan)
    ensures
        plan == (SamplerCreatePlan {
            min_filter: desc.min_filter,
            mag_filter: desc.mag_filter,
            mipmap_mode: desc.mipmap_mode,
            address_mode_u: desc.address_mode_u,
            address_mode_v: desc.address_mode_v,
            address_mode_w: ADDRESS_MODE_REPEAT,
            anisotropy_enable: false,
            compare_enable: false,
            compare_op: COMPARE_OP_ALWAYS,
            border_color: BORDER_COLOR_INT_OPAQUE_WHITE,
            unnormalized_coordinates: false,
            reduction_mode: if desc.reduction_mode != REDUCTION_MODE_WEIGHTED_AVERAGE {
                Some(desc.reduction_mode)
            } else {
                None
            },
        }),
{
    let reduction_mode = if desc.reduction_mode != REDUCTION_MODE_WEIGHTED_AVERAGE {
        Some(desc.reduction_mode)
    } else {
        None
    };
    SamplerCreatePlan {
        min_filter: desc.min_filter,
        mag_filter: desc.mag_filter,
        mipmap_mode: desc.mipmap_mode,
        address_mode_u: desc.address_mode_u,
        address_mode_v: desc.address_mode_v,
        address_mode_w: ADDRESS_MODE_REPEAT,
        anisotropy_enable: false,
        compare_enable: false,
        compare_op: COMPARE_OP_ALWAYS,
        border_color: BORDER_COLOR_INT_OPAQUE_WHITE,
        unnormalized_coordinates: false,
        reduction_mode,
    }
}

} // verus!
