use rikka::gpu::command_buffer::rendering_info;
use rikka::gpu::image::image_create_plan;
use rikka::gpu::image::BindlessIndexCounter;
use rikka::gpu::image::ImageDesc;
use rikka::gpu::image::NO_BINDLESS_INDEX;
use rikka::gpu::sampler::sampler_create_plan;
use rikka::gpu::sampler::SamplerDesc;
use rikka::gpu::sampler::ADDRESS_MODE_REPEAT;
use rikka::gpu::transfer::TransferScheduler;
use rikka::gpu::types::AttachmentStoreOp;
use rikka::gpu::types::GpuImage;
use rikka::gpu::types::ImageLayout;
use rikka::gpu::types::RenderColorAttachment;
use rikka::gpu::types::RenderDepthStencilAttachment;
use rikka::gpu::types::RenderPassOperation;
use rikka::gpu::types::RenderingState;
use rikka::gpu::types::SubresourceRange;
use rikka::graph::builder::Builder;
use rikka::graph::graph::RenderCommand;
use rikka::graph::parser;
use rikka::graph::pool::ResourcePool;
use rikka::graph::types::GraphError;
use rikka::graph::types::InputDesc;
use rikka::graph::types::OutputDesc;
use rikka::graph::types::ResourceInfo;
use rikka::graph::types::ResourceType;
use rikka::renderer::mesh_checks::check_primitive;
use rikka::renderer::mesh_checks::select_mesh_draws;
use rikka::renderer::mesh_checks::MeshDrawPlan;
use rikka::renderer::mesh_checks::PrimitiveSource;
use rikka::renderer::scene_walk::depth_hierarchy_calls;
use rikka::graph::types::NodeDesc;
use rikka::renderer::mesh_checks::PrimitiveError;
use rikka::renderer::mesh_checks::PrimitiveLayout;
use rikka::renderer::mesh_checks::PrimitiveMode;
use rikka::renderer::scene::INVALID_INDEX;
use rikka::renderer::scene_walk::hierarchy_calls;
use rikka::rhi::frame::FrameIndexData;
use rikka::rhi::queue::device_extensions;
use rikka::rhi::swapchain::swapchain_create_plan;
use rikka::rhi::swapchain::Extent2D;
use rikka::rhi::swapchain::SharingMode;
use rikka::rhi::swapchain::SurfaceCapabilities;
use rikka::rhi::swapchain::SurfaceFormat;
use rikka::rhi::swapchain::SwapchainDesc;
use rikka::rhi::swapchain::COMPOSITE_ALPHA_OPAQUE;

#[test]
fn new_image_starts_without_bindless_index_or_sampler() {
    let plan = image_create_plan(&ImageDesc::new(16, 16, 1));
    assert_eq!(plan.bindless_index, NO_BINDLESS_INDEX);
    assert_eq!(plan.bindless_index, u32::MAX);
    assert!(!plan.has_sampler);
    assert!(plan.owning);
    assert_eq!(plan.initial_layout, ImageLayout::Undefined);
    assert_eq!(plan.resource_state, 0);
}

#[test]
fn bindless_indices_are_handed_out_in_order() {
    let mut counter = BindlessIndexCounter::new();
    assert_eq!(counter.assign(), 0);
    assert_eq!(counter.assign(), 1);
    assert_eq!(counter.assign(), 2);
}

#[test]
fn device_is_created_with_swapchain_and_mesh_shader_extensions() {
    let extensions = device_extensions();
    assert_eq!(extensions, vec![String::from("VK_KHR_swapchain"), String::from("VK_NV_mesh_shader")]);
}

#[test]
fn rendering_stores_every_attachment_from_the_origin() {
    let state = RenderingState::new(320, 240)
        .add_color_attachment(RenderColorAttachment::new().set_operation(RenderPassOperation::Clear))
        .set_depth_attachment(RenderDepthStencilAttachment::new());
    let info = rendering_info(&state, false);
    assert_eq!(info.color_attachments[0].store_op, AttachmentStoreOp::Store);
    assert!(!info.color_attachments[0].resolves);
    assert_eq!(info.depth_attachment.unwrap().store_op, AttachmentStoreOp::Store);
    assert_eq!((info.offset_x, info.offset_y), (0, 0));
    assert_eq!((info.width, info.height), (320, 240));
    assert_eq!(info.layer_count, 1);
}

#[test]
fn sampler_never_sets_the_third_address_mode() {
    let desc = SamplerDesc {
        min_filter: 1,
        mag_filter: 0,
        mipmap_mode: 1,
        address_mode_u: 2,
        address_mode_v: 3,
        address_mode_w: 2,
        reduction_mode: 0,
    };
    let plan = sampler_create_plan(&desc);
    assert_eq!(plan.address_mode_u, 2);
    assert_eq!(plan.address_mode_v, 3);
    assert_eq!(plan.address_mode_w, ADDRESS_MODE_REPEAT);
    assert_eq!(plan.reduction_mode, None);
    let min = sampler_create_plan(&SamplerDesc { reduction_mode: 1, ..desc });
    assert_eq!(min.reduction_mode, Some(1));
}

#[test]
fn swapchain_create_plan_uses_current_transform_and_opaque_alpha() {
    let caps = SurfaceCapabilities {
        min_image_count: 2,
        max_image_count: 3,
        current_extent: Extent2D { width: 800, height: 600 },
        min_image_extent: Extent2D { width: 1, height: 1 },
        max_image_extent: Extent2D { width: 4096, height: 4096 },
        current_transform: 4,
    };
    let formats = vec![SurfaceFormat { format: 50, color_space: 0 }];
    let plan = swapchain_create_plan(&formats, &[0, 2], &caps, &SwapchainDesc::new(1024, 768, 0, 1));
    assert_eq!(plan.min_image_count, 3);
    assert_eq!(plan.surface_format, SurfaceFormat { format: 50, color_space: 0 });
    assert_eq!(plan.extent, Extent2D { width: 800, height: 600 });
    assert_eq!(plan.array_layers, 1);
    assert_eq!(plan.image_usage, 0x10 | 0x2 | 0x1);
    assert_eq!(plan.pre_transform, 4);
    assert_eq!(plan.composite_alpha, COMPOSITE_ALPHA_OPAQUE);
    assert_eq!(plan.present_mode, 2);
    assert_eq!(plan.sharing_mode, SharingMode::Concurrent);
    assert_eq!(plan.queue_family_indices, vec![0, 1]);
}

#[test]
fn frame_counters_after_several_advances() {
    let mut frame = FrameIndexData::new();
    for _ in 0..7 {
        frame.advance_frame_counters(3);
    }
    assert_eq!(frame.absolute, 7);
    assert_eq!(frame.current, 7 % 3);
    assert_eq!(frame.previous, 6 % 3);
}

#[test]
fn every_upload_is_reported_exactly_once() {
    let mut transfers = TransferScheduler::new();
    let mut reported: Vec<u64> = Vec::new();
    let arrivals = vec![vec![1, 2, 3], vec![], vec![4], vec![], vec![], vec![], vec![]];
    for received in arrivals {
        let step = transfers.perform_transfers(received);
        reported.extend(step.finished.iter().copied());
    }
    reported.sort();
    assert_eq!(reported, vec![1, 2, 3, 4]);
}

#[test]
fn pool_slots_stay_readable_and_never_coincide() {
    let mut pool: ResourcePool<u32> = ResourcePool::new();
    let a = pool.new_index();
    let b = pool.new_index();
    let c = pool.new_index();
    assert!(a != b && b != c && a != c);
    *pool.get_mut(b).unwrap() = 9;
    pool.free_resource(b);
    // Freeing does not clear the slot.
    assert_eq!(pool.get(b), Some(&9));
    let d = pool.new_index();
    assert_eq!(d, b);
    assert!(d != a && d != c);
    assert!(pool.get(a).is_some() && pool.get(c).is_some());
    assert!(pool.get(3).is_none());
}

#[test]
fn name_lookup_finds_the_last_output_and_never_an_input() {
    let mut builder = Builder::new();
    let info = ResourceInfo::default();
    let node = rikka::graph::types::ResourceHandle::new(0);
    builder.create_output(OutputDesc { resource_type: ResourceType::Attachment, name: String::from("colour"), info }, node);
    let second = builder.create_output(OutputDesc { resource_type: ResourceType::Texture, name: String::from("colour"), info }, node);
    builder.create_output(OutputDesc { resource_type: ResourceType::Reference, name: String::from("colour"), info }, node);
    builder.create_input(InputDesc { resource_type: ResourceType::Attachment, name: String::from("colour") });
    builder.create_input(InputDesc { resource_type: ResourceType::Texture, name: String::from("only_read") });
    let found = builder.access_resource_by_name("colour").unwrap();
    assert_eq!(found.output, second);
    assert_eq!(found.resource_type, ResourceType::Texture);
    assert_eq!(builder.access_resource_by_name("only_read").err(), Some(GraphError::UnknownName));
}

fn single_pass_graph() -> parser::Graph {
    parser::Graph {
        name: String::from("single"),
        passes: vec![parser::Pass {
            name: String::from("depth_pass"),
            inputs: vec![],
            outputs: vec![parser::Output {
                resource_type: ResourceType::Attachment,
                name: String::from("depth"),
                image: Some(parser::ImageDesc { format: 126, resolution: [64, 32], load_op: RenderPassOperation::Clear }),
            }],
        }],
    }
}

#[test]
fn render_plan_lists_each_node_commands() {
    for has_render_pass in [true, false] {
        let mut graph = parser::parse(single_pass_graph()).unwrap();
        let requests = graph.compile().unwrap();
        assert_eq!(requests.len(), 1);
        let image = GpuImage {
            raw: 7,
            raw_view: 8,
            subresource_range: SubresourceRange { aspect_mask: 2, base_mip_level: 0, level_count: 1, base_array_layer: 0, layer_count: 1 },
            bindless_index: 0,
        };
        graph.set_output_image(&requests[0].output, image).unwrap();
        graph.create_rendering_states().unwrap();
        let plan = graph.render_plan(&[has_render_pass]).unwrap();
        assert_eq!(plan.len(), 1);
        assert_eq!(plan[0].node.index, 0);
        assert_eq!(plan[0].barriers.image_barriers().len(), 1);
        if has_render_pass {
            assert_eq!(
                plan[0].commands,
                vec![
                    RenderCommand::Begin,
                    RenderCommand::PipelineBarrier,
                    RenderCommand::PreRender,
                    RenderCommand::BeginRendering,
                    RenderCommand::Render,
                    RenderCommand::EndRendering,
                    RenderCommand::End,
                ]
            );
            let state = plan[0].rendering_state.as_ref().unwrap();
            assert_eq!((state.width, state.height), (64, 32));
            assert!(state.depth_attachment.is_some());
        } else {
            assert_eq!(plan[0].commands, vec![RenderCommand::Begin, RenderCommand::PipelineBarrier, RenderCommand::End]);
            assert!(plan[0].rendering_state.is_none());
        }
    }
}

#[test]
fn hierarchy_walk_counts_levels_by_nodes_taken() {
    // 0 -> (1, 2), 1 -> (3), 4 is a second root.
    let children = vec![vec![1, 2], vec![3], vec![], vec![], vec![]];
    let calls = hierarchy_calls(&[0, 4], &children);
    assert_eq!(
        calls,
        vec![
            (0, INVALID_INDEX, 0),
            (4, INVALID_INDEX, 0),
            (1, 0, 1),
            (2, 0, 1),
            (3, 1, 3),
        ]
    );
}

#[test]
fn primitive_checks_come_in_order() {
    let good = PrimitiveLayout {
        mode: PrimitiveMode::Triangles,
        has_positions: true,
        has_indices: true,
        has_tex_coords: true,
        has_normals: true,
        has_tangents: false,
    };
    assert_eq!(check_primitive(&good), Ok(false));
    assert_eq!(check_primitive(&PrimitiveLayout { mode: PrimitiveMode::Lines, has_positions: false, ..good }), Err(PrimitiveError::NotTriangles));
    assert_eq!(check_primitive(&PrimitiveLayout { has_positions: false, has_normals: false, ..good }), Err(PrimitiveError::NoPositions));
    assert_eq!(check_primitive(&PrimitiveLayout { has_indices: false, ..good }), Err(PrimitiveError::NoIndices));
    assert_eq!(check_primitive(&PrimitiveLayout { has_tex_coords: false, ..good }), Err(PrimitiveError::NoTexCoords));
    assert_eq!(check_primitive(&PrimitiveLayout { has_normals: false, ..good }), Err(PrimitiveError::NoNormals));
    assert_eq!(PrimitiveError::NoNormals.message(), "glTF normals accessor does not exist!");
}

#[test]
fn depth_walk_sets_children_one_level_below_their_parent() {
    // 0 -> (1, 2), 1 -> (3), 4 is a second root.
    let children = vec![vec![1, 2], vec![3], vec![], vec![], vec![]];
    let calls = depth_hierarchy_calls(&[0, 4], &children);
    assert_eq!(
        calls,
        vec![
            (0, INVALID_INDEX, 0),
            (4, INVALID_INDEX, 0),
            (1, 0, 1),
            (2, 0, 1),
            (3, 1, 2),
        ]
    );
}

fn primitive(node: usize, base: Option<u32>, omr: Option<u32>, normal: Option<u32>) -> PrimitiveSource {
    PrimitiveSource {
        node,
        layout: PrimitiveLayout {
            mode: PrimitiveMode::Triangles,
            has_positions: true,
            has_indices: true,
            has_tex_coords: true,
            has_normals: true,
            has_tangents: true,
        },
        index_count: 36,
        base_color_texture: base,
        metallic_roughness_texture: omr,
        normal_texture: normal,
    }
}

#[test]
fn mesh_draws_skip_primitives_without_textures() {
    let prims = vec![
        primitive(0, Some(1), Some(2), Some(3)),
        primitive(1, None, Some(2), None),
        primitive(2, Some(4), None, None),
        primitive(3, Some(5), Some(6), Some(7)),
    ];
    let draws = select_mesh_draws(&prims).unwrap();
    assert_eq!(
        draws,
        vec![
            MeshDrawPlan { node: 0, index_count: 36, diffuse_texture: 1, omr_texture: 2, normal_texture: 3, has_tangents: true },
            MeshDrawPlan { node: 3, index_count: 36, diffuse_texture: 5, omr_texture: 6, normal_texture: 7, has_tangents: true },
        ]
    );
    let mut bad = primitive(2, None, None, None);
    bad.layout.has_indices = false;
    let failing = vec![primitive(0, Some(1), Some(2), Some(3)), bad, primitive(3, Some(1), Some(2), Some(3))];
    assert_eq!(select_mesh_draws(&failing), Err(PrimitiveError::NoIndices));
}

#[test]
fn created_node_outputs_are_found_by_name() {
    let mut builder = Builder::new();
    let info = ResourceInfo::default();
    let node = builder.create_node(NodeDesc {
        inputs: vec![InputDesc { resource_type: ResourceType::Texture, name: String::from("shadow") }],
        outputs: vec![
            OutputDesc { resource_type: ResourceType::Attachment, name: String::from("colour"), info },
            OutputDesc { resource_type: ResourceType::Attachment, name: String::from("depth"), info },
        ],
        enabled: true,
        name: String::from("pass"),
    });
    let colour = builder.access_resource_by_name("colour").unwrap();
    assert_eq!(colour.output.index, 0);
    assert_eq!(colour.producer, node);
    let depth = builder.access_resource_by_name("depth").unwrap();
    assert_eq!(depth.output.index, 1);
    assert_eq!(builder.access_resource_by_name("shadow").err(), Some(GraphError::UnknownName));
    assert_eq!(builder.access_node_by_name("pass").unwrap().outputs.len(), 2);
}

#[test]
fn fresh_pool_hands_out_slots_in_order() {
    let mut pool: ResourcePool<u32> = ResourcePool::new();
    for k in 0..5 {
        assert_eq!(pool.new_index(), k);
    }
    pool.free_resource(2);
    for k in 0..5 {
        assert!(pool.get(k).is_some());
    }
    assert!(pool.get(5).is_none());
}

#[test]
fn bindless_indices_never_repeat() {
    let mut counter = BindlessIndexCounter::new();
    let indices: Vec<u32> = (0..6).map(|_| counter.assign()).collect();
    assert_eq!(indices, vec![0, 1, 2, 3, 4, 5]);
    assert!(!indices.contains(&NO_BINDLESS_INDEX));
}
