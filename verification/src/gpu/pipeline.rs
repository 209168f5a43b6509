use vstd::prelude::*;

use crate::gpu::bindless::bindless_descriptor_set_layout_desc;
use crate::gpu::descriptor_set::DescriptorBinding;
use crate::gpu::descriptor_set::DescriptorSetLayoutDesc;
use crate::gpu::descriptor_set::DESCRIPTOR_TYPE_COMBINED_IMAGE_SAMPLER;
use crate::gpu::descriptor_set::DESCRIPTOR_TYPE_STORAGE_IMAGE;
use crate::gpu::descriptor_set::LAYOUT_CREATE_UPDATE_AFTER_BIND_POOL;
use crate::gpu::shader_state::ShaderStateDesc;
use crate::gpu::shader_state::SHADER_STAGE_FRAGMENT;
use crate::gpu::shader_state::SHADER_STAGE_VERTEX;
use crate::gpu::types::BlendState;
use crate::gpu::types::DepthStencilState;
use crate::gpu::types::RasterizationState;
use crate::gpu::types::RenderingState;
use crate::gpu::types::VertexAttribute;
use crate::gpu::types::VertexInputState;
use crate::gpu::types::FORMAT_UNDEFINED;

verus! {

/// Vulkan's `VK_PRIMITIVE_TOPOLOGY_TRIANGLE_LIST`.
pub const PRIMITIVE_TOPOLOGY_TRIANGLE_LIST: i32 = 3;

/// Vulkan's `VK_COLOR_COMPONENT_R_BIT | G | B | A`.
pub const COLOR_COMPONENT_RGBA: u32 = 0xf;

/// Everything a graphics pipeline is made from.
pub struct GraphicsPipelineDesc {
    pub vertex_input_state: VertexInputState,
    pub rasterization_state: RasterizationState,
    pub depth_stencil_state: DepthStencilState,
    pub blend_states: Vec<BlendState>,
    pub primitive_topology: i32,
    pub rendering_state: RenderingState,
    pub vertex_const_size: Option<u32>,
    pub fragment_const_size: Option<u32>,
    pub shader_state: ShaderStateDesc,
    pub width: u32,
    pub height: u32,
}

impl GraphicsPipelineDesc {
    /// A triangle-list pipeline of extent one by one, with no vertex input,
    /// no blend states, no push constants, no shaders and no attachments.
    pub fn new() -> (d: Self)
        ensures
            d.vertex_input_state.vertex_attributes@.len() == 0,
            d.vertex_input_state.vertex_streams@.len() == 0,
            d.rasterization_state == RasterizationState::spec_default(),
            d.depth_stencil_state == DepthStencilState::spec_default(),
            d.blend_states@.len() == 0,
            d.primitive_topology == PRIMITIVE_TOPOLOGY_TRIANGLE_LIST,
            d.rendering_state.color_attachments@.len() == 0,
            d.rendering_state.depth_attachment is None,
            d.rendering_state.width == 1,
            d.rendering_state.height == 1,
            d.vertex_const_size is None,
            d.fragment_const_size is None,
            d.shader_state.stages@.len() == 0,
            d.width == 1,
            d.height == 1,
    {
        GraphicsPipelineDesc {
            vertex_input_state: VertexInputState::new(),
            rasterization_state: RasterizationState::new(),
            depth_stencil_state: DepthStencilState::new(),
            blend_states: Vec::new(),
            primitive_topology: PRIMITIVE_TOPOLOGY_TRIANGLE_LIST,
            rendering_state: RenderingState::new_dimensionless(),
            vertex_const_size: None,
            fragment_const_size: None,
            shader_state: ShaderStateDesc::new(),
            width: 1,
            height: 1,
        }
    }

    pub fn set_shader_state(self, shader_state: ShaderStateDesc) -> (d: Self)
        ensures
            d == (GraphicsPipelineDesc { shader_state, ..self }),
    {
        GraphicsPipelineDesc { shader_state, ..self }
    }

    pub fn set_rendering_state(self, rendering_state: RenderingState) -> (d: Self)
        ensures
            d == (GraphicsPipelineDesc { rendering_state, ..self }),
    {
        GraphicsPipelineDesc { rendering_state, ..self }
    }

    pub fn set_extent(self, width: u32, height: u32) -> (d: Self)
        ensures
            d == (GraphicsPipelineDesc { width, height, ..self }),
    {
        GraphicsPipelineDesc { width, height, ..self }
    }

    pub fn set_rasterization_state(self, rasterization_state: RasterizationState) -> (d: Self)
        ensures
            d == (GraphicsPipelineDesc { rasterization_state, ..self }),
    {
        GraphicsPipelineDesc { rasterization_state, ..self }
    }

    pub fn set_depth_stencil_state(self, depth_stencil_state: DepthStencilState) -> (d: Self)
        ensures
            d == (GraphicsPipelineDesc { depth_stencil_state, ..self }),
    {
        GraphicsPipelineDesc { depth_stencil_state, ..self }
    }

    pub fn set_vertex_input_state(self, vertex_input_state: VertexInputState) -> (d: Self)
        ensures
            d == (GraphicsPipelineDesc { vertex_input_state, ..self }),
    {
        GraphicsPipelineDesc { vertex_input_state, ..self }
    }
}

/// A push constant range: the stages that see it, its offset and size.
#[derive(Clone, Copy, PartialEq, Eq, Structural, Debug)]
pub struct PushConstantRange {
    pub stage_flags: u32,
    pub offset: u32,
    pub size: u32,
}

pub open spec fn spec_push_constant_ranges(vertex_const_size: Option<u32>, fragment_const_size: Option<u32>) -> Seq<
    PushConstantRange,
> {
    let vertex = match vertex_const_size {
        Some(size) => seq![PushConstantRange { stage_flags: SHADER_STAGE_VERTEX, offset: 0, size }],
        None => Seq::empty(),
    };
    let fragment = match fragment_const_size {
        Some(size) => seq![PushConstantRange { stage_flags: SHADER_STAGE_FRAGMENT, offset: 0, size }],
        None => Seq::empty(),
    };
    vertex + fragment
}

/// The push constant ranges of the pipeline layout: one for the vertex
/// stage, then one for the fragment stage, each where the description asks
/// for it, both from offset zero.
pub fn push_constant_ranges(desc: &GraphicsPipelineDesc) -> (r: Vec<PushConstantRange>)
    ensures
        r@ == spec_push_constant_ranges(desc.vertex_const_size, desc.fragment_const_size),
{
    let mut r: Vec<PushConstantRange> = Vec::new();
    if let Some(size) = desc.vertex_const_size {
        r.push(PushConstantRange { stage_flags: SHADER_STAGE_VERTEX, offset: 0, size });
    }
    if let Some(size) = desc.fragment_const_size {
        r.push(PushConstantRange { stage_flags: SHADER_STAGE_FRAGMENT, offset: 0, size });
    }
    assert(r@ =~= spec_push_constant_ranges(desc.vertex_const_size, desc.fragment_const_size));
    r
}

/// How one color attachment blends, as the pipeline states it.
#[derive(Clone, Copy, PartialEq, Eq, Structural, Debug)]
pub struct ColorBlendAttachment {
    pub color_write_mask: u32,
    pub blend_enable: bool,
    pub src_color_blend_factor: i32,
    pub dst_color_blend_factor: i32,
    pub color_blend_op: i32,
    pub src_alpha_blend_factor: i32,
    pub dst_alpha_blend_factor: i32,
    pub alpha_blend_op: i32,
}

/// The blend of an attachment with blend state `b`: alpha blends as color
/// does unless the state separates them.
pub open spec fn blend_attachment_for(b: BlendState) -> ColorBlendAttachment {
    ColorBlendAttachment {
        color_write_mask: COLOR_COMPONENT_RGBA,
        blend_enable: b.enable,
        src_color_blend_factor: b.source_color,
        dst_color_blend_factor: b.destination_color,
        color_blend_op: b.color_operation,
        src_alpha_blend_factor: if b.separate_alpha { b.source_alpha } else { b.source_color },
        dst_alpha_blend_factor: if b.separate_alpha { b.destination_alpha } else { b.destination_color },
        alpha_blend_op: if b.separate_alpha { b.alpha_operation } else { b.color_operation },
    }
}

/// The blend of an attachment without a blend state: blending off, every
/// component written.
pub open spec fn no_blend_attachment() -> ColorBlendAttachment {
    ColorBlendAttachment {
        color_write_mask: COLOR_COMPONENT_RGBA,
        blend_enable: false,
        src_color_blend_factor: 0,
        dst_color_blend_factor: 0,
        color_blend_op: 0,
        src_alpha_blend_factor: 0,
        dst_alpha_blend_factor: 0,
        alpha_blend_op: 0,
    }
}

/// The blends of the pipeline's color attachments: one per blend state
/// where there are blend states, which then match the attachments one for
/// one; else blending off for every attachment.
pub fn color_blend_attachments(desc: &GraphicsPipelineDesc) -> (r: Vec<ColorBlendAttachment>)
    requires
        desc.blend_states@.len() == 0 || desc.blend_states@.len() == desc.rendering_state.color_attachments@.len(),
    ensures
        desc.blend_states@.len() > 0 ==> r@ == desc.blend_states@.map_values(|b: BlendState| blend_attachment_for(b)),
        desc.blend_states@.len() == 0 ==> r@ == Seq::new(
            desc.rendering_state.color_attachments@.len(),
            |i: int| no_blend_attachment(),
        ),
{
    let mut r: Vec<ColorBlendAttachment> = Vec::new();
    if desc.blend_states.len() > 0 {
        let mut i: usize = 0;
        while i < desc.blend_states.len()
            invariant
                i <= desc.blend_states@.len(),
                r@ == desc.blend_states@.take(i as int).map_values(|b: BlendState| blend_attachment_for(b)),
            decreases desc.blend_states@.len() - i,
        {
            let b = desc.blend_states[i];
            let a = if b.separate_alpha {
                ColorBlendAttachment {
                    color_write_mask: COLOR_COMPONENT_RGBA,
                    blend_enable: b.enable,
                    src_color_blend_factor: b.source_color,
                    dst_color_blend_factor: b.destination_color,
                    color_blend_op: b.color_operation,
                    src_alpha_blend_factor: b.source_alpha,
                    dst_alpha_blend_factor: b.destination_alpha,
                    alpha_blend_op: b.alpha_operation,
                }
            } else {
                ColorBlendAttachment {
                    color_write_mask: COLOR_COMPONENT_RGBA,
                    blend_enable: b.enable,
                    src_color_blend_factor: b.source_color,
                    dst_color_blend_factor: b.destination_color,
                    color_blend_op: b.color_operation,
                    src_alpha_blend_factor: b.source_color,
                    dst_alpha_blend_factor: b.destination_color,
                    alpha_blend_op: b.color_operation,
                }
            };
            r.push(a);
            proof {
                assert(desc.blend_states@.take(i as int + 1) =~= desc.blend_states@.take(i as int).push(b));
            }
            i = i + 1;
            assert(r@ =~= desc.blend_states@.take(i as int).map_values(|b: BlendState| blend_attachment_for(b)));
        }
        assert(desc.blend_states@.take(i as int) =~= desc.blend_states@);
    } else {
        let n = desc.rendering_state.color_attachments.len();
        let mut i: usize = 0;
        while i < n
            invariant
                i <= n,
                n == desc.rendering_state.color_attachments@.len(),
                r@ == Seq::new(i as nat, |k: int| no_blend_attachment()),
            decreases n - i,
        {
            r.push(
                ColorBlendAttachment {
                    color_write_mask: COLOR_COMPONENT_RGBA,
                    blend_enable: false,
                    src_color_blend_factor: 0,
                    dst_color_blend_factor: 0,
                    color_blend_op: 0,
                    src_alpha_blend_factor: 0,
                    dst_alpha_blend_factor: 0,
                    alpha_blend_op: 0,
                },
            );
            i = i + 1;
            assert(r@ =~= Seq::new(i as nat, |k: int| no_blend_attachment()));
        }
    }
    r
}

/// The vertex attribute descriptions that the pipeline is made with: each
/// attribute's location, stream and format. The offset is not handed on and
/// stays zero.
pub fn vertex_attribute_descriptions(state: &VertexInputState) -> (r: Vec<VertexAttribute>)
    ensures
        r@ == state.vertex_attributes@.map_values(|a: VertexAttribute| VertexAttribute { offset: 0, ..a }),
{
    let mut r: Vec<VertexAttribute> = Vec::new();
    let mut i: usize = 0;
    while i < state.vertex_attributes.len()
        invariant
            i <= state.vertex_attributes@.len(),
            r@ == state.vertex_attributes@.take(i as int).map_values(|a: VertexAttribute| VertexAttribute { offset: 0, ..a }),
        decreases state.vertex_attributes@.len() - i,
    {
        let a = state.vertex_attributes[i];
        r.push(VertexAttribute { location: a.location, binding: a.binding, offset: 0, format: a.format });
        proof {
            assert(state.vertex_attributes@.take(i as int + 1) =~= state.vertex_attributes@.take(i as int).push(a));
        }
        i = i + 1;
        assert(r@ =~= state.vertex_attributes@.take(i as int).map_values(
            |a: VertexAttribute| VertexAttribute { offset: 0, ..a },
        ));
    }
    assert(state.vertex_attributes@.take(i as int) =~= state.vertex_attributes@);
    r
}

/// The formats of the color attachments, in order.
pub fn color_attachment_formats(state: &RenderingState) -> (r: Vec<i32>)
    ensures
        r@ == state.color_attachments@.map_values(|a: crate::gpu::types::RenderColorAttachment| a.format),
{
    let mut r: Vec<i32> = Vec::new();
    let mut i: usize = 0;
    while i < state.color_attachments.len()
        invariant
            i <= state.color_attachments@.len(),
            r@ == state.color_attachments@.take(i as int).map_values(
                |a: crate::gpu::types::RenderColorAttachment| a.format,
            ),
        decreases state.color_attachments@.len() - i,
    {
        r.push(state.color_attachments[i].format);
        proof {
            assert(state.color_attachments@.take(i as int + 1) =~= state.color_attachments@.take(i as int).push(
                state.color_attachments@[i as int],
            ));
        }
        i = i + 1;
        assert(r@ =~= state.color_attachments@.take(i as int).map_values(
            |a: crate::gpu::types::RenderColorAttachment| a.format,
        ));
    }
    assert(state.color_attachments@.take(i as int) =~= state.color_attachments@);
    r
}

/// The format of the depth attachment, or undefined without one.
pub fn depth_attachment_format(state: &RenderingState) -> (f: i32)
    ensures
        f == match state.depth_attachment {
            Some(d) => d.format,
            None => FORMAT_UNDEFINED,
        },
{
    match state.depth_attachment {
        Some(d) => d.format,
        None => FORMAT_UNDEFINED,
    }
}

/// Where the bindless textures live: the binding indices of the sampled and
/// of the storage images in the bindless set, and the number of
/// descriptors each holds.
#[derive(Clone, Copy, PartialEq, Eq, Structural, Debug)]
pub struct BindlessSetup {
    pub sampled_image_index: u32,
    pub storage_image_index: u32,
    pub max_resources: u32,
}

/// The layout of a descriptor set that reflection found: the shared
/// bindless layout where its first binding is the bindless sampled-image
/// binding, else a plain layout of its own bindings.
pub open spec fn layout_desc_for(set: Seq<DescriptorBinding>, bindless: BindlessSetup) -> (Seq<DescriptorBinding>, bool, bool, u32) {
    if set[0].index == bindless.sampled_image_index {
        (
            seq![
                DescriptorBinding {
                    descriptor_type: DESCRIPTOR_TYPE_COMBINED_IMAGE_SAMPLER,
                    index: bindless.sampled_image_index,
                    count: bindless.max_resources,
                    shader_stage_flags: SHADER_STAGE_FRAGMENT,
                },
                DescriptorBinding {
                    descriptor_type: DESCRIPTOR_TYPE_STORAGE_IMAGE,
                    index: bindless.storage_image_index,
                    count: bindless.max_resources,
                    shader_stage_flags: SHADER_STAGE_FRAGMENT,
                },
            ],
            true,
            false,
            LAYOUT_CREATE_UPDATE_AFTER_BIND_POOL,
        )
    } else {
        (set, false, false, 0)
    }
}

/// The fields of `d` as `layout_desc_for` gives them.
pub open spec fn layout_desc_fields(d: DescriptorSetLayoutDesc) -> (Seq<DescriptorBinding>, bool, bool, u32) {
    (d.bindings@, d.bindless, d.dynamic, d.flags)
}

/// The descriptor set layouts of a pipeline, one per descriptor set that
/// reflection found in its shaders, in order.
pub fn pipeline_layout_descs(sets: &Vec<Vec<DescriptorBinding>>, bindless: BindlessSetup) -> (r: Vec<DescriptorSetLayoutDesc>)
    requires
        forall|i: int| 0 <= i < sets@.len() ==> (#[trigger] sets@[i])@.len() > 0,
    ensures
        r@.len() == sets@.len(),
        forall|i: int| 0 <= i < sets@.len() ==> layout_desc_fields(#[trigger] r@[i]) == layout_desc_for(sets@[i]@, bindless),
{
    let mut r: Vec<DescriptorSetLayoutDesc> = Vec::new();
    let mut i: usize = 0;
    while i < sets.len()
        invariant
            i <= sets@.len(),
            forall|k: int| 0 <= k < sets@.len() ==> (#[trigger] sets@[k])@.len() > 0,
            r@.len() == i,
            forall|k: int| 0 <= k < i ==> layout_desc_fields(#[trigger] r@[k]) == layout_desc_for(sets@[k]@, bindless),
        decreases sets@.len() - i,
    {
        let set = &sets[i];
        assert(set@.len() > 0);
        let d = if set[0].index == bindless.sampled_image_index {
            let d = bindless_descriptor_set_layout_desc(bindless);
            assert(d.bindings@ =~= layout_desc_for(set@, bindless).0);
            d
        } else {
            let mut bindings: Vec<DescriptorBinding> = Vec::new();
            let mut j: usize = 0;
            while j < set.len()
                invariant
                    j <= set@.len(),
                    bindings@ == set@.take(j as int),
                decreases set@.len() - j,
            {
                bindings.push(set[j]);
                j = j + 1;
                assert(bindings@ =~= set@.take(j as int));
            }
            assert(set@.take(j as int) =~= set@);
            DescriptorSetLayoutDesc::new().set_bindings(bindings).set_bindless(false).set_dynamic(false)
        };
        r.push(d);
        i = i + 1;
    }
    r
}

/// Each color attachment blends by its own blend state: blending is on as
/// the state says, every component is written, the color factors and
/// operation are the state's; the alpha factors and operation are the
/// state's alpha ones where it separates alpha, and otherwise the same as
/// the color ones.
pub proof fn lemma_blend_attachments_follow_states(desc: GraphicsPipelineDesc, r: Seq<ColorBlendAttachment>, k: int)
    requires
        desc.blend_states@.len() > 0,
        r == desc.blend_states@.map_values(|b: BlendState| blend_attachment_for(b)),
        0 <= k < r.len(),
    ensures
        r.len() == desc.blend_states@.len(),
        r[k].blend_enable == desc.blend_states@[k].enable,
        r[k].color_write_mask == 0xf,
        r[k].src_color_blend_factor == desc.blend_states@[k].source_color,
        r[k].dst_color_blend_factor == desc.blend_states@[k].destination_color,
        r[k].color_blend_op == desc.blend_states@[k].color_operation,
        !desc.blend_states@[k].separate_alpha ==> {
            &&& r[k].src_alpha_blend_factor == desc.blend_states@[k].source_color
            &&& r[k].dst_alpha_blend_factor == desc.blend_states@[k].destination_color
            &&& r[k].alpha_blend_op == desc.blend_states@[k].color_operation
        },
        desc.blend_states@[k].separate_alpha ==> {
            &&& r[k].src_alpha_blend_factor == desc.blend_states@[k].source_alpha
            &&& r[k].dst_alpha_blend_factor == desc.blend_states@[k].destination_alpha
            &&& r[k].alpha_blend_op == desc.blend_states@[k].alpha_operation
        },
{
}

} // verus!
