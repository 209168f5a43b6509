use rikka::gpu::shader_state::ShaderStageType;
use rikka::gpu::types::ImageLayout;
use rikka::gpu::types::RenderColorAttachment;
use rikka::gpu::types::RenderingState;
use rikka::graph::parser;
use rikka::graph::types::GraphError;
use rikka::graph::types::ResourceType;
use rikka::renderer::technique::CompareOp;
use rikka::renderer::technique::CullMode;
use rikka::renderer::technique::DepthState;
use rikka::renderer::technique::FrontFace;
use rikka::renderer::technique::Pipeline;
use rikka::renderer::technique::PolygonMode;
use rikka::renderer::technique::RasterizationState;
use rikka::renderer::technique::Shader;
use rikka::renderer::technique::Technique;
use rikka::renderer::technique::VertexInput;
use rikka::renderer::technique::VertexStreamRate;

fn graph_with_pass() -> rikka::graph::graph::Graph {
    let pass = parser::Pass {
        name: String::from("gbuffer_pass"),
        inputs: vec![],
        outputs: vec![parser::Output {
            resource_type: ResourceType::Attachment,
            name: String::from("colour"),
            image: None,
        }],
    };
    let mut graph = parser::parse(parser::Graph { name: String::from("g"), passes: vec![pass] }).unwrap();
    let state = RenderingState::new(1280, 720).add_color_attachment(RenderColorAttachment::new().set_format(37));
    graph.builder.access_node_mut_by_name("gbuffer_pass").unwrap().set_rendering_state(state);
    graph
}

fn pipeline(render_pass: &str) -> Pipeline {
    Pipeline {
        name: String::from("main"),
        render_pass: String::from(render_pass),
        shaders: vec![
            Shader { shader_type: ShaderStageType::Vertex, file_name: String::from("main.vert") },
            Shader { shader_type: ShaderStageType::Fragment, file_name: String::from("main.frag") },
        ],
        vertex_inputs: vec![VertexInput {
            attribute_location: 2,
            attribute_binding: 1,
            attribute_offset: 8,
            attribute_format: 103,
            stream_binding: 1,
            stream_stride: 8,
            stream_rate: VertexStreamRate::Instance,
        }],
        depth_state: Some(DepthState { write_enable: false, test_enable: true, compare_op: CompareOp::Greater }),
        rasterization_state: Some(RasterizationState {
            cull_mode: CullMode::Back,
            front_face: FrontFace::Clockwise,
            polygon_mode: PolygonMode::Line,
        }),
    }
}

#[test]
fn vulkan_values_of_the_technique_enums() {
    assert_eq!(VertexStreamRate::Vertex.vk_input_rate(), 0);
    assert_eq!(VertexStreamRate::Instance.vk_input_rate(), 1);
    assert_eq!(CompareOp::Never.vk_compare_op(), 0);
    assert_eq!(CompareOp::LessOrEqual.vk_compare_op(), 3);
    assert_eq!(CompareOp::Always.vk_compare_op(), 7);
    assert_eq!(CullMode::NoCull.vk_cull_mode(), 0);
    assert_eq!(CullMode::FrontAndBack.vk_cull_mode(), 3);
    assert_eq!(FrontFace::CounterClockwise.vk_front_face(), 0);
    assert_eq!(PolygonMode::Point.vk_polygon_mode(), 2);
}

#[test]
fn depth_test_follows_the_write_flag() {
    let state = DepthState { write_enable: true, test_enable: false, compare_op: CompareOp::Less }.into_depth_stencil_state();
    assert!(state.depth_test_enable);
    assert!(state.depth_write_enable);
    assert_eq!(state.depth_compare, 1);
}

#[test]
fn swapchain_pipeline_description() {
    let graph = graph_with_pass();
    let desc = pipeline("swapchain").into_graphics_pipeline_desc(1920, 1080, 44, &graph).ok().unwrap();
    assert_eq!((desc.width, desc.height), (1920, 1080));
    assert_eq!(desc.shader_state.stages.len(), 2);
    assert_eq!(desc.shader_state.stages[1].file_name.as_deref(), Some("main.frag"));
    assert_eq!(desc.shader_state.stages[1].shader_type, ShaderStageType::Fragment);
    let attribute = desc.vertex_input_state.vertex_attributes[0];
    // The attribute's offset is its location.
    assert_eq!((attribute.location, attribute.binding, attribute.offset, attribute.format), (2, 1, 2, 103));
    assert_eq!(desc.vertex_input_state.vertex_streams[0].input_rate, 1);
    assert_eq!(desc.rendering_state.color_attachments.len(), 1);
    assert_eq!(desc.rendering_state.color_attachments[0].format, 44);
    assert_eq!(desc.rendering_state.color_attachments[0].image_layout, ImageLayout::ColorAttachmentOptimal);
    assert_eq!(desc.rendering_state.depth_attachment.unwrap().format, 126);
    assert!(!desc.depth_stencil_state.depth_test_enable);
    assert_eq!(desc.depth_stencil_state.depth_compare, 4);
    assert_eq!(desc.rasterization_state.cull_mode, 2);
    assert_eq!(desc.rasterization_state.front_face, 1);
    assert_eq!(desc.rasterization_state.polygon_mode, 1);
}

#[test]
fn graph_pass_pipeline_takes_the_node_rendering_state() {
    let graph = graph_with_pass();
    let mut p = pipeline("gbuffer_pass");
    p.depth_state = None;
    p.rasterization_state = None;
    let desc = p.into_graphics_pipeline_desc(10, 10, 44, &graph).ok().unwrap();
    assert_eq!(desc.rendering_state.width, 1280);
    assert_eq!(desc.rendering_state.color_attachments[0].format, 37);
    assert!(desc.rendering_state.depth_attachment.is_none());
    assert!(desc.depth_stencil_state.depth_test_enable);
    assert_eq!(desc.rasterization_state.cull_mode, 0);
}

#[test]
fn unknown_render_pass_is_an_error() {
    let graph = graph_with_pass();
    assert_eq!(pipeline("nowhere").into_graphics_pipeline_desc(1, 1, 44, &graph).err(), Some(GraphError::UnknownName));
    let technique = Technique {
        name: String::from("t"),
        pipelines: vec![pipeline("swapchain"), pipeline("nowhere"), pipeline("gbuffer_pass")],
    };
    assert_eq!(technique.into_render_technique_desc(1, 1, 44, &graph).err(), Some(GraphError::UnknownName));
}

#[test]
fn technique_describes_each_pipeline_in_order() {
    let graph = graph_with_pass();
    let technique = Technique { name: String::from("t"), pipelines: vec![pipeline("gbuffer_pass"), pipeline("swapchain")] };
    let desc = technique.into_render_technique_desc(1, 1, 50, &graph).ok().unwrap();
    assert_eq!(desc.graphics_pipelines.len(), 2);
    assert_eq!(desc.graphics_pipelines[0].rendering_state.color_attachments[0].format, 37);
    assert_eq!(desc.graphics_pipelines[1].rendering_state.color_attachments[0].format, 50);
}
