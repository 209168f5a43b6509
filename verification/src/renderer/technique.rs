use vstd::prelude::*;

use crate::gpu::pipeline::GraphicsPipelineDesc;
use crate::gpu::pipeline::PRIMITIVE_TOPOLOGY_TRIANGLE_LIST;
use crate::gpu::shader_state::ShaderStageDataReadType;
use crate::gpu::shader_state::ShaderStageDesc;
use crate::gpu::shader_state::ShaderStageType;
use crate::gpu::shader_state::ShaderStateDesc;
use crate::gpu::types::DepthStencilState;
use crate::gpu::types::RasterizationState as GpuRasterizationState;
use crate::gpu::types::RenderColorAttachment;
use crate::gpu::types::RenderDepthStencilAttachment;
use crate::gpu::types::RenderingState;
use crate::gpu::types::VertexAttribute;
use crate::gpu::types::VertexInputState;
use crate::gpu::types::VertexStream;
use crate::gpu::types::CULL_MODE_BACK;
use crate::gpu::types::CULL_MODE_FRONT;
use crate::gpu::types::CULL_MODE_FRONT_AND_BACK;
use crate::gpu::types::CULL_MODE_NONE;
use crate::gpu::types::FORMAT_D32_SFLOAT;
use crate::gpu::types::FRONT_FACE_CLOCKWISE;
use crate::gpu::types::FRONT_FACE_COUNTER_CLOCKWISE;
use crate::gpu::types::POLYGON_MODE_FILL;
use crate::gpu::types::POLYGON_MODE_LINE;
use crate::gpu::types::POLYGON_MODE_POINT;
use crate::gpu::types::VERTEX_INPUT_RATE_INSTANCE;
use crate::gpu::types::VERTEX_INPUT_RATE_VERTEX;
use crate::graph::graph::Graph;
use crate::graph::types::GraphError;

verus! {

/// Whether a vertex stream advances per vertex or per instance.
#[derive(Clone, Copy, PartialEq, Eq, Structural, Debug)]
pub enum VertexStreamRate {
    Vertex,
    Instance,
}

impl VertexStreamRate {
    pub open spec fn spec_input_rate(self) -> i32 {
        match self {
            VertexStreamRate::Vertex => VERTEX_INPUT_RATE_VERTEX,
            VertexStreamRate::Instance => VERTEX_INPUT_RATE_INSTANCE,
        }
    }

    /// The Vulkan vertex input rate.
    pub fn vk_input_rate(self) -> (r: i32)
        ensures
            r == self.spec_input_rate(),
    {
        match self {
            VertexStreamRate::Vertex => VERTEX_INPUT_RATE_VERTEX,
            VertexStreamRate::Instance => VERTEX_INPUT_RATE_INSTANCE,
        }
    }
}

/// One vertex input of a technique's pipeline: an attribute and the stream
/// it is read from.
#[derive(Clone, Copy, PartialEq, Eq, Structural, Debug)]
pub struct VertexInput {
    pub attribute_location: u32,
    pub attribute_binding: u32,
    pub attribute_offset: u32,
    pub attribute_format: i32,
    pub stream_binding: u32,
    pub stream_stride: u32,
    pub stream_rate: VertexStreamRate,
}

/// A depth comparison.
#[derive(Clone, Copy, PartialEq, Eq, Structural, Debug)]
pub enum CompareOp {
    Never,
    Less,
    Equal,
    LessOrEqual,
    Greater,
    NotEqual,
    GreaterOrEqual,
    Always,
}

impl CompareOp {
    pub open spec fn spec_vk(self) -> i32 {
        match self {
            CompareOp::Never => 0,
            CompareOp::Less => 1,
            CompareOp::Equal => 2,
            CompareOp::LessOrEqual => 3,
            CompareOp::Greater => 4,
            CompareOp::NotEqual => 5,
            CompareOp::GreaterOrEqual => 6,
            CompareOp::Always => 7,
        }
    }

    /// The Vulkan compare operation.
    pub fn vk_compare_op(self) -> (r: i32)
        ensures
            r == self.spec_vk(),
    {
        match self {
            CompareOp::Never => 0,
            CompareOp::Less => 1,
            CompareOp::Equal => 2,
            CompareOp::LessOrEqual => 3,
            CompareOp::Greater => 4,
            CompareOp::NotEqual => 5,
            CompareOp::GreaterOrEqual => 6,
            CompareOp::Always => 7,
        }
    }
}

/// The depth state of a technique's pipeline.
#[derive(Clone, Copy, PartialEq, Eq, Structural, Debug)]
pub struct DepthState {
    pub write_enable: bool,
    pub test_enable: bool,
    pub compare_op: CompareOp,
}

impl DepthState {
    pub open spec fn spec_depth_stencil_state(self) -> DepthStencilState {
        DepthStencilState {
            depth_test_enable: self.write_enable,
            depth_write_enable: self.write_enable,
            depth_compare: self.compare_op.spec_vk(),
        }
    }

    /// The pipeline's depth state. The depth test follows the write flag,
    /// as writes do.
    pub fn into_depth_stencil_state(self) -> (s: DepthStencilState)
        ensures
            s == self.spec_depth_stencil_state(),
    {
        DepthStencilState {
            depth_test_enable: self.write_enable,
            depth_write_enable: self.write_enable,
            depth_compare: self.compare_op.vk_compare_op(),
        }
    }
}

/// A shader of a technique's pipeline: its stage and its source file.
pub struct Shader {
    pub shader_type: ShaderStageType,
    pub file_name: String,
}

/// Which faces are culled.
#[derive(Clone, Copy, PartialEq, Eq, Structural, Debug)]
pub enum CullMode {
    NoCull,
    Front,
    Back,
    FrontAndBack,
}

impl CullMode {
    pub open spec fn spec_vk(self) -> u32 {
        match self {
            CullMode::NoCull => CULL_MODE_NONE,
            CullMode::Front => CULL_MODE_FRONT,
            CullMode::Back => CULL_MODE_BACK,
            CullMode::FrontAndBack => CULL_MODE_FRONT_AND_BACK,
        }
    }

    /// The Vulkan cull mode flags.
    pub fn vk_cull_mode(self) -> (r: u32)
        ensures
            r == self.spec_vk(),
    {
        match self {
            CullMode::NoCull => CULL_MODE_NONE,
            CullMode::Front => CULL_MODE_FRONT,
            CullMode::Back => CULL_MODE_BACK,
            CullMode::FrontAndBack => CULL_MODE_FRONT_AND_BACK,
        }
    }
}

/// Which winding is the front face.
#[derive(Clone, Copy, PartialEq, Eq, Structural, Debug)]
pub enum FrontFace {
    Clockwise,
    CounterClockwise,
}

impl FrontFace {
    pub open spec fn spec_vk(self) -> i32 {
        match self {
            FrontFace::Clockwise => FRONT_FACE_CLOCKWISE,
            FrontFace::CounterClockwise => FRONT_FACE_COUNTER_CLOCKWISE,
        }
    }

    /// The Vulkan front face.
    pub fn vk_front_face(self) -> (r: i32)
        ensures
            r == self.spec_vk(),
    {
        match self {
            FrontFace::Clockwise => FRONT_FACE_CLOCKWISE,
            FrontFace::CounterClockwise => FRONT_FACE_COUNTER_CLOCKWISE,
        }
    }
}

/// How polygons are drawn.
#[derive(Clone, Copy, PartialEq, Eq, Structural, Debug)]
pub enum PolygonMode {
    Fill,
    Line,
    Point,
}

impl PolygonMode {
    pub open spec fn spec_vk(self) -> i32 {
        match self {
            PolygonMode::Fill => POLYGON_MODE_FILL,
            PolygonMode::Line => POLYGON_MODE_LINE,
            PolygonMode::Point => POLYGON_MODE_POINT,
        }
    }

    /// The Vulkan polygon mode.
    pub fn vk_polygon_mode(self) -> (r: i32)
        ensures
            r == self.spec_vk(),
    {
        match self {
            PolygonMode::Fill => POLYGON_MODE_FILL,
            PolygonMode::Line => POLYGON_MODE_LINE,
            PolygonMode::Point => POLYGON_MODE_POINT,
        }
    }
}

/// The rasterization state of a technique's pipeline.
#[derive(Clone, Copy, PartialEq, Eq, Structural, Debug)]
pub struct RasterizationState {
    pub cull_mode: CullMode,
    pub front_face: FrontFace,
    pub polygon_mode: PolygonMode,
}

impl RasterizationState {
    pub open spec fn spec_gpu(self) -> GpuRasterizationState {
        GpuRasterizationState {
            cull_mode: self.cull_mode.spec_vk(),
            front_face: self.front_face.spec_vk(),
            polygon_mode: self.polygon_mode.spec_vk(),
        }
    }

    /// The pipeline's rasterization state.
    pub fn into_gpu_rasterization_state(self) -> (s: GpuRasterizationState)
        ensures
            s == self.spec_gpu(),
    {
        GpuRasterizationState {
            cull_mode: self.cull_mode.vk_cull_mode(),
            front_face: self.front_face.vk_front_face(),
            polygon_mode: self.polygon_mode.vk_polygon_mode(),
        }
    }
}

/// One pipeline of a technique: its shaders, its vertex inputs, the render
/// pass it draws in (`"swapchain"` for the swapchain image), and the depth
/// and rasterization states where they differ from the defaults.
pub struct Pipeline {
    pub name: String,
    pub render_pass: String,
    pub shaders: Vec<Shader>,
    pub vertex_inputs: Vec<VertexInput>,
    pub depth_state: Option<DepthState>,
    pub rasterization_state: Option<RasterizationState>,
}

/// The vertex attribute that an input adds. Its offset is the attribute's
/// location, as the pipeline is set up.
pub open spec fn attribute_of(v: VertexInput) -> VertexAttribute {
    VertexAttribute {
        location: v.attribute_location,
        binding: v.attribute_binding,
        offset: v.attribute_location,
        format: v.attribute_format,
    }
}

/// The vertex stream that an input adds.
pub open spec fn stream_of(v: VertexInput) -> VertexStream {
    VertexStream { binding: v.stream_binding, stride: v.stream_stride, input_rate: v.stream_rate.spec_input_rate() }
}

/// The stage that a shader of a technique becomes: compiled from its source
/// file.
pub open spec fn stage_of(s: ShaderStageDesc, shader: Shader) -> bool {
    &&& s.read_type == ShaderStageDataReadType::SourceFromFile
    &&& s.file_name is Some
    &&& s.file_name->0@ == shader.file_name@
    &&& s.source is None
    &&& s.bytes is None
    &&& s.shader_type == shader.shader_type
}

/// The rendering state of a pipeline that draws to the swapchain: one color
/// attachment of the swapchain's format and a 32-bit float depth
/// attachment, of extent one by one.
pub open spec fn swapchain_rendering_state(state: RenderingState, swapchain_format: i32) -> bool {
    &&& state.color_attachments@ == seq![RenderColorAttachment { format: swapchain_format, ..RenderColorAttachment::spec_new() }]
    &&& state.depth_attachment == Some(RenderDepthStencilAttachment { format: FORMAT_D32_SFLOAT, ..RenderDepthStencilAttachment::spec_new() })
    &&& state.width == 1
    &&& state.height == 1
}

/// `d` is the description that pipeline `p` becomes, drawing at extent
/// `width` by `height`, with swapchain format `swapchain_format`, in
/// `render_graph`.
pub open spec fn pipeline_desc_matches(
    p: Pipeline,
    d: GraphicsPipelineDesc,
    width: u32,
    height: u32,
    swapchain_format: i32,
    render_graph: Graph,
) -> bool {
    &&& d.width == width
    &&& d.height == height
    &&& d.blend_states@.len() == 0
    &&& d.primitive_topology == PRIMITIVE_TOPOLOGY_TRIANGLE_LIST
    &&& d.vertex_const_size is None
    &&& d.fragment_const_size is None
    &&& d.shader_state.stages@.len() == p.shaders@.len()
    &&& forall|i: int| 0 <= i < p.shaders@.len() ==> stage_of(#[trigger] d.shader_state.stages@[i], p.shaders@[i])
    &&& d.vertex_input_state.vertex_attributes@ == p.vertex_inputs@.map_values(|v: VertexInput| attribute_of(v))
    &&& d.vertex_input_state.vertex_streams@ == p.vertex_inputs@.map_values(|v: VertexInput| stream_of(v))
    &&& p.draws_to_swapchain() ==> swapchain_rendering_state(d.rendering_state, swapchain_format)
    &&& !p.draws_to_swapchain() ==> {
        let node = render_graph.node_by_name(p.render_pass@)->Ok_0;
        let state = node.rendering_state->0;
        &&& d.rendering_state.color_attachments@ == state.color_attachments@
        &&& d.rendering_state.depth_attachment == state.depth_attachment
        &&& d.rendering_state.width == state.width
        &&& d.rendering_state.height == state.height
    }
    &&& d.depth_stencil_state == match p.depth_state {
        Some(s) => s.spec_depth_stencil_state(),
        None => DepthStencilState::spec_default(),
    }
    &&& d.rasterization_state == match p.rasterization_state {
        Some(s) => s.spec_gpu(),
        None => GpuRasterizationState::spec_default(),
    }
}

/// Pipeline `p` finds the rendering state it draws with in `render_graph`.
pub open spec fn pipeline_resolves(p: Pipeline, render_graph: Graph) -> bool {
    p.draws_to_swapchain() || render_graph.node_by_name(p.render_pass@) is Ok
}

/// Where pipeline `p` draws in a node of `render_graph`, that node has a
/// rendering state.
pub open spec fn pipeline_state_set(p: Pipeline, render_graph: Graph) -> bool {
    !p.draws_to_swapchain() && render_graph.node_by_name(p.render_pass@) is Ok
        ==> render_graph.node_by_name(p.render_pass@)->Ok_0.rendering_state is Some
}

impl Pipeline {
    pub open spec fn draws_to_swapchain(&self) -> bool {
        self.render_pass@ == "swapchain"@
    }

    /// The graphics pipeline description of this pipeline, drawing at the
    /// renderer's extent: its shaders compiled from their files, its vertex
    /// inputs, the rendering state of its render pass (or of the
    /// swapchain), and its depth and rasterization states. An error where
    /// the graph has no usable node of the render pass's name.
    pub fn into_graphics_pipeline_desc(self, width: u32, height: u32, swapchain_format: i32, render_graph: &Graph) -> (r:
        Result<GraphicsPipelineDesc, GraphError>)
        requires
            pipeline_state_set(self, *render_graph),
        ensures
            !self.draws_to_swapchain() && render_graph.node_by_name(self.render_pass@) is Err ==> r
                == Err::<GraphicsPipelineDesc, GraphError>(render_graph.node_by_name(self.render_pass@)->Err_0),
            r is Ok ==> pipeline_desc_matches(self, r->Ok_0, width, height, swapchain_format, *render_graph),
            r is Ok <==> pipeline_resolves(self, *render_graph),
    {
        let Pipeline { name, render_pass, shaders, vertex_inputs, depth_state, rasterization_state } = self;
        let mut desc = GraphicsPipelineDesc::new().set_extent(width, height);

        let mut shader_state = ShaderStateDesc::new();
        let mut i: usize = 0;
        while i < shaders.len()
            invariant
                i <= shaders@.len(),
                shader_state.stages@.len() == i,
                forall|k: int| 0 <= k < i ==> stage_of(#[trigger] shader_state.stages@[k], shaders@[k]),
            decreases shaders@.len() - i,
        {
            let stage = ShaderStageDesc::new_from_source_file(shaders[i].file_name.as_str(), shaders[i].shader_type);
            proof {
                assert(stage.file_name->0@ == shaders@[i as int].file_name@);
            }
            let ghost before = shader_state.stages@;
            shader_state = shader_state.add_stage(stage);
            proof {
                assert forall|k: int| 0 <= k < i + 1 implies stage_of(#[trigger] shader_state.stages@[k], shaders@[k]) by {
                    if k < i {
                        assert(shader_state.stages@[k] == before[k]);
                    }
                }
            }
            i = i + 1;
        }
        desc = desc.set_shader_state(shader_state);

        let mut vertex_input_state = VertexInputState::new();
        let mut j: usize = 0;
        while j < vertex_inputs.len()
            invariant
                j <= vertex_inputs@.len(),
                vertex_input_state.vertex_attributes@ == vertex_inputs@.take(j as int).map_values(
                    |v: VertexInput| attribute_of(v),
                ),
                vertex_input_state.vertex_streams@ == vertex_inputs@.take(j as int).map_values(|v: VertexInput| stream_of(v)),
            decreases vertex_inputs@.len() - j,
        {
            let v = vertex_inputs[j];
            let rate = v.stream_rate.vk_input_rate();
            vertex_input_state = vertex_input_state.add_vertex_attribute(
                v.attribute_location,
                v.attribute_binding,
                v.attribute_location,
                v.attribute_format,
            ).add_vertex_stream(v.stream_binding, v.stream_stride, rate);
            proof {
                assert(vertex_inputs@.take(j as int + 1) =~= vertex_inputs@.take(j as int).push(v));
            }
            j = j + 1;
            assert(vertex_input_state.vertex_attributes@ =~= vertex_inputs@.take(j as int).map_values(
                |v: VertexInput| attribute_of(v),
            ));
            assert(vertex_input_state.vertex_streams@ =~= vertex_inputs@.take(j as int).map_values(
                |v: VertexInput| stream_of(v),
            ));
        }
        assert(vertex_inputs@.take(j as int) =~= vertex_inputs@);
        desc = desc.set_vertex_input_state(vertex_input_state);

        let swapchain = String::from_str("swapchain");
        proof {
            reveal_strlit("swapchain");
        }
        if render_pass == swapchain {
            let state = RenderingState::new_dimensionless().add_color_attachment(
                RenderColorAttachment::new().set_format(swapchain_format),
            ).set_depth_attachment(RenderDepthStencilAttachment::new().set_format(FORMAT_D32_SFLOAT));
            proof {
                assert(state.color_attachments@ =~= seq![RenderColorAttachment { format: swapchain_format, ..RenderColorAttachment::spec_new() }]);
            }
            desc = desc.set_rendering_state(state);
        } else {
            let node = render_graph.access_node_by_name(render_pass.as_str())?;
            let state = node.rendering_state.as_ref().unwrap().clone_state();
            desc = desc.set_rendering_state(state);
        }

        if let Some(depth_state) = depth_state {
            desc = desc.set_depth_stencil_state(depth_state.into_depth_stencil_state());
        }
        if let Some(rasterization_state) = rasterization_state {
            desc = desc.set_rasterization_state(rasterization_state.into_gpu_rasterization_state());
        }
        Ok(desc)
    }
}

/// A render technique: its name and pipelines.
pub struct Technique {
    pub name: String,
    pub pipelines: Vec<Pipeline>,
}

/// The first of `pipelines` that does not resolve in `render_graph`.
pub open spec fn first_unresolved(pipelines: Seq<Pipeline>, render_graph: Graph) -> int
    decreases pipelines.len(),
{
    if pipelines.len() == 0 {
        0
    } else if !pipeline_resolves(pipelines[0], render_graph) {
        0
    } else {
        1 + first_unresolved(pipelines.drop_first(), render_graph)
    }
}

impl Technique {
    /// The descriptions of the technique's pipelines, in order, drawing at
    /// the renderer's extent; the error of the first pipeline whose render
    /// pass the graph cannot give.
    pub fn into_render_technique_desc(self, width: u32, height: u32, swapchain_format: i32, render_graph: &Graph) -> (r:
        Result<RenderTechniqueDesc, GraphError>)
        requires
            forall|i: int| 0 <= i < self.pipelines@.len() ==> pipeline_state_set(#[trigger] self.pipelines@[i], *render_graph),
        ensures
            r is Ok <==> forall|i: int| 0 <= i < self.pipelines@.len() ==> pipeline_resolves(#[trigger] self.pipelines@[i], *render_graph),
            r is Ok ==> {
                let d = r->Ok_0;
                &&& d.graphics_pipelines@.len() == self.pipelines@.len()
                &&& forall|i: int|
                    0 <= i < self.pipelines@.len() ==> pipeline_desc_matches(
                        self.pipelines@[i],
                        #[trigger] d.graphics_pipelines@[i],
                        width,
                        height,
                        swapchain_format,
                        *render_graph,
                    )
            },
            r is Err ==> exists|i: int|
                0 <= i < self.pipelines@.len() && !pipeline_resolves(#[trigger] self.pipelines@[i], *render_graph)
                    && r->Err_0 == render_graph.node_by_name(self.pipelines@[i].render_pass@)->Err_0 && forall|k: int|
                    0 <= k < i ==> pipeline_resolves(#[trigger] self.pipelines@[k], *render_graph),
    {
        let Technique { name, pipelines } = self;
        let ghost all = pipelines@;
        let num_pipelines = pipelines.len();
        let mut rest = pipelines;
        let mut desc = RenderTechniqueDesc::new();
        let mut i: usize = 0;
        while rest.len() > 0
            invariant
                i + rest@.len() == all.len(),
                all == self.pipelines@,
                all.len() == num_pipelines,
                rest@ == all.subrange(i as int, all.len() as int),
                forall|k: int| 0 <= k < all.len() ==> pipeline_state_set(#[trigger] all[k], *render_graph),
                forall|k: int| 0 <= k < i ==> pipeline_resolves(#[trigger] all[k], *render_graph),
                desc.graphics_pipelines@.len() == i,
                forall|k: int|
                    0 <= k < i ==> pipeline_desc_matches(
                        all[k],
                        #[trigger] desc.graphics_pipelines@[k],
                        width,
                        height,
                        swapchain_format,
                        *render_graph,
                    ),
            decreases rest@.len(),
        {
            let pipeline = rest.remove(0);
            assert(pipeline == all[i as int]);
            let ghost before = desc.graphics_pipelines@;
            match pipeline.into_graphics_pipeline_desc(width, height, swapchain_format, render_graph) {
                Ok(d) => {
                    desc = desc.add_graphics_pipeline(d);
                    proof {
                        assert forall|k: int| 0 <= k < i + 1 implies pipeline_desc_matches(
                            all[k],
                            #[trigger] desc.graphics_pipelines@[k],
                            width,
                            height,
                            swapchain_format,
                            *render_graph,
                        ) by {
                            if k < i {
                                assert(desc.graphics_pipelines@[k] == before[k]);
                            }
                        }
                        assert(rest@ =~= all.subrange(i + 1, all.len() as int));
                    }
                    i = i + 1;
                },
                Err(e) => {
                    assert(!pipeline_resolves(all[i as int], *render_graph));
                    assert(self.pipelines@[i as int] == all[i as int]);
                    return Err(e);
                },
            }
        }
        Ok(desc)
    }
}

/// The graphics pipelines of a render technique, in order.
pub struct RenderTechniqueDesc {
    pub graphics_pipelines: Vec<GraphicsPipelineDesc>,
}

impl RenderTechniqueDesc {
    pub fn new() -> (d: Self)
        ensures
            d.graphics_pipelines@.len() == 0,
    {
        RenderTechniqueDesc { graphics_pipelines: Vec::new() }
    }

    pub fn add_graphics_pipeline(self, graphics_pipeline: GraphicsPipelineDesc) -> (d: Self)
        ensures
            d.graphics_pipelines@ == self.graphics_pipelines@.push(graphics_pipeline),
    {
        let mut d = self;
        d.graphics_pipelines.push(graphics_pipeline);
        d
    }
}

/// The polygon modes of a technique are Vulkan's: filled polygons are
/// `VK_POLYGON_MODE_FILL` (0), outlines `VK_POLYGON_MODE_LINE` (1) and
/// vertices `VK_POLYGON_MODE_POINT` (2), so two different modes never draw
/// alike.
pub proof fn lemma_polygon_modes_are_distinct_vulkan_modes(a: PolygonMode, b: PolygonMode)
    ensures
        PolygonMode::Fill.spec_vk() == 0,
        PolygonMode::Line.spec_vk() == 1,
        PolygonMode::Point.spec_vk() == 2,
        a != b ==> a.spec_vk() != b.spec_vk(),
{
}

/// A pipeline description made from a technique's pipeline fills its
/// polygons (Vulkan's 0) where the pipeline asks for filled polygons or
/// gives no rasterization state, and draws outlines (1) or vertices (2)
/// only where it asks for them.
pub proof fn lemma_pipeline_polygon_mode(
    p: Pipeline,
    d: GraphicsPipelineDesc,
    width: u32,
    height: u32,
    swapchain_format: i32,
    render_graph: Graph,
)
    requires
        pipeline_desc_matches(p, d, width, height, swapchain_format, render_graph),
    ensures
        p.rasterization_state is None ==> d.rasterization_state.polygon_mode == 0,
        p.rasterization_state matches Some(s) ==> {
            &&& s.polygon_mode == PolygonMode::Fill ==> d.rasterization_state.polygon_mode == 0
            &&& s.polygon_mode == PolygonMode::Line ==> d.rasterization_state.polygon_mode == 1
            &&& s.polygon_mode == PolygonMode::Point ==> d.rasterization_state.polygon_mode == 2
        },
{
}

/// The cull modes of a technique are Vulkan's cull flags: none culls no
/// face (0), front the front faces (1), back the back faces (2), and front
/// and back both (3, the union of the two); the front faces are Vulkan's
/// counter-clockwise (0) and clockwise (1) windings.
pub proof fn lemma_cull_modes_and_front_faces_are_vulkan_values()
    ensures
        CullMode::NoCull.spec_vk() == 0,
        CullMode::Front.spec_vk() == 1,
        CullMode::Back.spec_vk() == 2,
        CullMode::FrontAndBack.spec_vk() == (CullMode::Front.spec_vk() | CullMode::Back.spec_vk()),
        FrontFace::CounterClockwise.spec_vk() == 0,
        FrontFace::Clockwise.spec_vk() == 1,
{
    assert(1u32 | 2u32 == 3u32) by (bit_vector);
}

} // verus!
