use rikka::gpu::shader_state::shader_code;
use rikka::gpu::shader_state::ShaderCode;
use rikka::gpu::command_buffer::buffer_image_copy;
use rikka::gpu::command_buffer::upload_barriers;
use rikka::gpu::barriers::access_flags_from_state;
use rikka::gpu::barriers::image_layout_from_state;
use rikka::gpu::barriers::pipeline_stages_from_access;
use rikka::gpu::barriers::Barriers;
use rikka::gpu::barriers::QueueType;
use rikka::gpu::command_buffer::primary_command_buffer_layout;
use rikka::gpu::command_buffer::rendering_info;
use rikka::gpu::command_buffer::ClearValue;
use rikka::gpu::command_buffer::CommandBufferError;
use rikka::gpu::command_buffer::CommandBufferManager;
use rikka::gpu::command_buffer::CommandBufferMetaData;
use rikka::gpu::descriptor_set::can_descriptor_type_be_bindless;
use rikka::gpu::descriptor_set::descriptor_writes;
use rikka::gpu::descriptor_set::DescriptorBinding;
use rikka::gpu::descriptor_set::DescriptorPoolDesc;
use rikka::gpu::descriptor_set::DescriptorSetBindingResource;
use rikka::gpu::descriptor_set::DescriptorSetBindingResourceType;
use rikka::gpu::descriptor_set::DescriptorSetDesc;
use rikka::gpu::descriptor_set::DescriptorSetLayout;
use rikka::gpu::descriptor_set::DescriptorSetLayoutDesc;
use rikka::gpu::descriptor_set::DescriptorSetLayoutError;
use rikka::gpu::descriptor_set::WriteInfo;
use rikka::gpu::image::image_create_plan;
use rikka::gpu::image::image_view_type;
use rikka::gpu::image::IMAGE_TYPE_2D;
use rikka::gpu::image::IMAGE_VIEW_TYPE_2D;
use rikka::gpu::image::swapchain_image_info;
use rikka::gpu::image::ImageDesc;
use rikka::gpu::image::MemoryLocation;
use rikka::gpu::pipeline::color_attachment_formats;
use rikka::gpu::pipeline::color_blend_attachments;
use rikka::gpu::pipeline::depth_attachment_format;
use rikka::gpu::pipeline::pipeline_layout_descs;
use rikka::gpu::pipeline::push_constant_ranges;
use rikka::gpu::pipeline::vertex_attribute_descriptions;
use rikka::gpu::pipeline::BindlessSetup;
use rikka::gpu::pipeline::GraphicsPipelineDesc;
use rikka::gpu::pipeline::PushConstantRange;
use rikka::gpu::shader_state::shader_stage_flags;
use rikka::gpu::shader_state::shader_stage_type_to_vk_flags;
use rikka::gpu::shader_state::ShaderStageDataReadType;
use rikka::gpu::shader_state::ShaderStageDesc;
use rikka::gpu::shader_state::ShaderStageType;
use rikka::gpu::shader_state::ShaderStateDesc;
use rikka::gpu::shader_state::ShaderStateError;
use rikka::gpu::types::format_has_depth;
use rikka::gpu::types::format_has_stencil;
use rikka::gpu::types::BlendState;
use rikka::gpu::types::ClearColor;
use rikka::gpu::types::DepthStencilState;
use rikka::gpu::types::GpuImage;
use rikka::gpu::types::ImageLayout;
use rikka::gpu::types::RasterizationState;
use rikka::gpu::types::RenderColorAttachment;
use rikka::gpu::types::RenderDepthStencilAttachment;
use rikka::gpu::types::RenderPassOperation;
use rikka::gpu::types::RenderingState;
use rikka::gpu::types::SubresourceRange;
use rikka::gpu::types::VertexInputState;
use rikka::gpu::types::AttachmentLoadOp;
use rikka::gpu::types::PipelineStage;
use rikka::gpu::types::ResourceUsageType;
use rikka::gpu::synchronization::SemaphoreType;

fn binding(descriptor_type: i32, index: u32) -> DescriptorBinding {
    DescriptorBinding::new(descriptor_type, index, 1, 0x10)
}

#[test]
fn bindless_descriptor_types() {
    assert!(can_descriptor_type_be_bindless(1));
    assert!(can_descriptor_type_be_bindless(3));
    assert!(!can_descriptor_type_be_bindless(6));
    assert!(!can_descriptor_type_be_bindless(7));
}

#[test]
fn layout_table_maps_binding_indices() {
    let desc = DescriptorSetLayoutDesc::new().add_binding(binding(6, 2)).add_binding(binding(1, 0));
    let layout = DescriptorSetLayout::from_desc(desc, 8).ok().unwrap().with_raw(77);
    assert_eq!(layout.raw(), 77);
    assert_eq!(layout.num_bidings(), 2);
    assert_eq!(*layout.binding_for_shader_binding_index(2), binding(6, 2));
    assert_eq!(*layout.binding_for_shader_binding_index(0), binding(1, 0));
    assert!(!layout.is_bindless());
    assert_eq!(layout.bindings().len(), 2);
}

#[test]
fn layout_errors() {
    let empty = DescriptorSetLayoutDesc::new();
    assert_eq!(DescriptorSetLayout::from_desc(empty, 8).err(), Some(DescriptorSetLayoutError::InvalidMaxBindingIndex));
    let too_large = DescriptorSetLayoutDesc::new().add_binding(binding(6, 9));
    assert_eq!(DescriptorSetLayout::from_desc(too_large, 8).err(), Some(DescriptorSetLayoutError::InvalidMaxBindingIndex));
    assert_eq!(DescriptorSetLayoutError::InvalidMaxBindingIndex.message(), "Maximum shader binding index is invalid");
}

#[test]
fn layout_flags() {
    let plain = DescriptorSetLayoutDesc::new().add_binding(binding(6, 0)).set_flags(0x8);
    assert_eq!(plain.create_flags(), 0x8);
    assert!(plain.binding_flags().is_empty());
    let bindless = DescriptorSetLayoutDesc::new().add_binding(binding(1, 0)).add_binding(binding(3, 1)).set_bindless(true);
    assert_eq!(bindless.create_flags(), 0x2);
    assert_eq!(bindless.binding_flags(), vec![0x5, 0x5]);
    let dynamic = DescriptorSetLayoutDesc::new().set_dynamic(true).set_bindings(vec![binding(6, 1)]);
    assert!(dynamic.dynamic);
    assert_eq!(dynamic.bindings.len(), 1);
}

#[test]
fn descriptor_writes_follow_the_binding_types() {
    let desc = DescriptorSetLayoutDesc::new()
        .add_binding(binding(6, 0))
        .add_binding(binding(1, 1))
        .add_binding(binding(3, 2))
        .add_binding(binding(7, 3));
    let layout = DescriptorSetLayout::from_desc(desc, 4).ok().unwrap();
    let resources = vec![
        DescriptorSetBindingResource::buffer(100, 0),
        DescriptorSetBindingResource::image(200, 1),
        DescriptorSetBindingResource::image(300, 2),
        DescriptorSetBindingResource::buffer(400, 3),
    ];
    let writes = descriptor_writes(&layout, &resources);
    assert_eq!(writes.len(), 4);
    assert_eq!(writes[0].info, WriteInfo::Buffer { buffer: 100 });
    assert_eq!(writes[1].info, WriteInfo::Image { image: 200, image_layout: 5, with_sampler: true });
    assert_eq!(writes[2].info, WriteInfo::Image { image: 300, image_layout: 1, with_sampler: false });
    assert_eq!(writes[3].info, WriteInfo::Buffer { buffer: 400 });
    assert_eq!(writes[1].binding, 1);
    assert_eq!(writes[1].descriptor_type, 1);
    assert_eq!(writes[3].count, 1);
}

#[test]
fn bindless_layout_skips_image_writes() {
    let desc = DescriptorSetLayoutDesc::new().add_binding(binding(1, 0)).add_binding(binding(6, 1)).set_bindless(true);
    let layout = DescriptorSetLayout::from_desc(desc, 2).ok().unwrap();
    let resources = vec![DescriptorSetBindingResource::image(5, 0), DescriptorSetBindingResource::buffer(6, 1)];
    let writes = descriptor_writes(&layout, &resources);
    assert_eq!(writes.len(), 1);
    assert_eq!(writes[0].info, WriteInfo::Buffer { buffer: 6 });
}

#[test]
fn descriptor_set_desc_builds() {
    let desc = DescriptorSetDesc::new(9).add_buffer_resource(1, 0).add_image_resource(2, 1).set_pool(3);
    assert_eq!(desc.layout, 9);
    assert_eq!(desc.pool, Some(3));
    assert_eq!(desc.binding_resources.len(), 2);
    assert_eq!(desc.binding_resources[0].resource_type(), DescriptorSetBindingResourceType::Buffer);
    assert_eq!(desc.binding_resources[1].resource_type(), DescriptorSetBindingResourceType::ImageSampler);
    let pool = DescriptorPoolDesc::new().add_pool_size(1, 16).set_flags(2).set_max_sets(4);
    assert_eq!(pool.pool_sizes.len(), 1);
    assert_eq!(pool.flags, 2);
    assert_eq!(pool.max_sets, 4);
}

#[test]
fn command_buffers_are_handed_out_per_pool() {
    let mut manager = CommandBufferManager::new(2, 3, 2, 2);
    assert_eq!(manager.pool_index_from_indices(1, 2), 5);
    assert_eq!(manager.command_buffer(1, 1), Ok(8));
    assert_eq!(manager.command_buffer(1, 1), Ok(9));
    // The count may pass the pool's buffers by one before an error comes:
    // the extra buffer is the first of the next pool.
    assert_eq!(manager.command_buffer(1, 1), Ok(10));
    assert_eq!(manager.command_buffer(1, 1), Err(CommandBufferError::AllCommandBuffersUsed));
    assert_eq!(manager.command_buffer(0, 0), Ok(0));
    manager.reset_pools(1);
    assert_eq!(manager.command_buffer(1, 2), Ok(10));
    assert_eq!(manager.command_buffer(1, 2), Ok(11));
    assert_eq!(manager.command_buffer(0, 0), Ok(1));
}

#[test]
fn secondary_command_buffers() {
    let mut manager = CommandBufferManager::new(2, 2, 1, 2);
    // The first index of a pool's secondaries is the pool index times their
    // number, multiplied by the count in use.
    assert_eq!(manager.secondary_command_buffer(0, 1), Ok(0));
    assert_eq!(manager.secondary_command_buffer(0, 1), Ok(2));
    assert_eq!(manager.secondary_command_buffer(0, 1), Ok(4));
    assert_eq!(
        manager.secondary_command_buffer(0, 1),
        Err(CommandBufferError::AllSecondaryCommandBuffersUsed)
    );
    assert_eq!(
        CommandBufferError::AllCommandBuffersUsed.message(),
        "All command buffers in current frame thread are already used!"
    );
}

#[test]
fn primary_layout_is_frame_then_thread() {
    let layout = primary_command_buffer_layout(2, 2, 2);
    assert_eq!(layout.len(), 8);
    assert_eq!(layout[0], CommandBufferMetaData { array_index: 0, frame_index: 0, thread_index: 0 });
    assert_eq!(layout[3], CommandBufferMetaData { array_index: 3, frame_index: 0, thread_index: 1 });
    assert_eq!(layout[5], CommandBufferMetaData { array_index: 5, frame_index: 1, thread_index: 0 });
    assert_eq!(layout[7], CommandBufferMetaData { array_index: 7, frame_index: 1, thread_index: 1 });
}

fn blend(separate_alpha: bool) -> BlendState {
    BlendState {
        source_color: 6,
        destination_color: 7,
        color_operation: 0,
        source_alpha: 1,
        destination_alpha: 0,
        alpha_operation: 4,
        enable: true,
        separate_alpha,
    }
}

#[test]
fn pipeline_plans() {
    let mut desc = GraphicsPipelineDesc::new();
    assert_eq!(desc.primitive_topology, 3);
    assert_eq!((desc.width, desc.height), (1, 1));
    assert!(push_constant_ranges(&desc).is_empty());
    desc.vertex_const_size = Some(64);
    desc.fragment_const_size = Some(16);
    assert_eq!(
        push_constant_ranges(&desc),
        vec![
            PushConstantRange { stage_flags: 0x1, offset: 0, size: 64 },
            PushConstantRange { stage_flags: 0x10, offset: 0, size: 16 },
        ]
    );
    desc.fragment_const_size = None;
    assert_eq!(push_constant_ranges(&desc).len(), 1);

    let state = RenderingState::new(10, 10)
        .add_color_attachment(RenderColorAttachment::new().set_format(44))
        .add_color_attachment(RenderColorAttachment::new().set_format(37));
    let desc = desc.set_rendering_state(state);
    let blends = color_blend_attachments(&desc);
    assert_eq!(blends.len(), 2);
    assert!(!blends[0].blend_enable);
    assert_eq!(blends[1].color_write_mask, 0xf);
    assert_eq!(color_attachment_formats(&desc.rendering_state), vec![44, 37]);
    assert_eq!(depth_attachment_format(&desc.rendering_state), 0);

    let mut desc = desc;
    desc.blend_states = vec![blend(false), blend(true)];
    let blends = color_blend_attachments(&desc);
    assert_eq!(blends[0].src_alpha_blend_factor, 6);
    assert_eq!(blends[0].alpha_blend_op, 0);
    assert_eq!(blends[1].src_alpha_blend_factor, 1);
    assert_eq!(blends[1].alpha_blend_op, 4);

    let with_depth = RenderingState::new_dimensionless().set_depth_attachment(RenderDepthStencilAttachment::new().set_format(126));
    assert_eq!(depth_attachment_format(&with_depth), 126);
}

#[test]
fn vertex_attribute_offsets_are_not_handed_on() {
    let state = VertexInputState::new().add_vertex_attribute(0, 0, 12, 106).add_vertex_stream(0, 32, 0);
    let attributes = vertex_attribute_descriptions(&state);
    assert_eq!(attributes.len(), 1);
    assert_eq!(attributes[0].offset, 0);
    assert_eq!(attributes[0].format, 106);
    assert_eq!(state.vertex_streams[0].stride, 32);
}

#[test]
fn pipeline_layouts_from_reflection() {
    let bindless = BindlessSetup { sampled_image_index: 10, storage_image_index: 11, max_resources: 1024 };
    let sets = vec![vec![binding(6, 0), binding(1, 1)], vec![binding(1, 10)]];
    let descs = pipeline_layout_descs(&sets, bindless);
    assert_eq!(descs.len(), 2);
    assert_eq!(descs[0].bindings, vec![binding(6, 0), binding(1, 1)]);
    assert!(!descs[0].bindless);
    assert!(descs[1].bindless);
    assert_eq!(descs[1].flags, 0x2);
    assert_eq!(descs[1].bindings, vec![DescriptorBinding::new(1, 10, 1024, 0x10), DescriptorBinding::new(3, 11, 1024, 0x10)]);
}

#[test]
fn shader_stages() {
    assert_eq!(shader_stage_type_to_vk_flags(ShaderStageType::Vertex), 0x1);
    assert_eq!(shader_stage_type_to_vk_flags(ShaderStageType::Fragment), 0x10);
    assert_eq!(shader_stage_type_to_vk_flags(ShaderStageType::Mesh), 0x80);
    assert_eq!(shader_stage_flags(&ShaderStateDesc::new()).err(), Some(ShaderStateError::NoStages));
    let desc = ShaderStateDesc::new()
        .add_stage(ShaderStageDesc::new_from_source_file("a.vert", ShaderStageType::Vertex))
        .add_stage(ShaderStageDesc::new_from_source_file("a.frag", ShaderStageType::Fragment));
    assert_eq!(shader_stage_flags(&desc).ok(), Some(vec![0x1, 0x10]));
    assert_eq!(desc.stages[0].read_type, ShaderStageDataReadType::SourceFromFile);
    assert_eq!(desc.stages[0].file_name.as_deref(), Some("a.vert"));
    assert_eq!(ShaderStateError::NoStages.message(), "Shader stages from description is empty!");
}

#[test]
fn image_plans() {
    let desc = ImageDesc::new(64, 32, 1).set_format(126).set_usage_flags(0x20);
    let plan = image_create_plan(&desc);
    assert_eq!(plan.usage_flags, 0x23);
    assert_eq!(plan.subresource_range.aspect_mask, 0x2);
    assert_eq!(plan.memory_location, MemoryLocation::GpuOnly);
    let color = image_create_plan(&ImageDesc::new(4, 4, 1).set_format(44).set_image_type(1));
    assert_eq!(color.subresource_range.aspect_mask, 0x1);
    assert_eq!(color.view_type, 1);
    let swapchain = swapchain_image_info(44, 800, 600);
    assert_eq!(swapchain.depth, 0);
    assert!(!swapchain.owning);
}

#[test]
fn rendering_info_clears_only_clearing_attachments() {
    let clear = ClearColor { red: 1, green: 2, blue: 3, alpha: 4 };
    let state = RenderingState::new(800, 600)
        .add_color_attachment(RenderColorAttachment::new().set_operation(RenderPassOperation::Clear).set_clear_value(clear).set_image_view(5))
        .add_color_attachment(RenderColorAttachment::new().set_operation(RenderPassOperation::Load).set_clear_value(clear))
        .set_depth_attachment(RenderDepthStencilAttachment::new().set_depth_operation(RenderPassOperation::Clear).set_clear_value(7, 8));
    let info = rendering_info(&state, true);
    assert!(info.contents_secondary);
    assert_eq!(info.color_attachments[0].clear_value, ClearValue::Color(clear));
    assert_eq!(info.color_attachments[0].load_op, AttachmentLoadOp::Clear);
    assert_eq!(info.color_attachments[0].image_view, 5);
    assert_eq!(info.color_attachments[1].clear_value, ClearValue::Zero);
    assert_eq!(info.color_attachments[1].load_op, AttachmentLoadOp::Load);
    assert_eq!(info.depth_attachment.unwrap().clear_value, ClearValue::DepthStencil { depth: 7, stencil: 8 });
    assert_eq!((info.width, info.height), (800, 600));
    let bare = rendering_info(&RenderingState::new_dimensionless(), false);
    assert!(bare.depth_attachment.is_none());
}

#[test]
fn depth_formats() {
    assert!(format_has_depth(126));
    assert!(format_has_depth(130));
    assert!(!format_has_depth(44));
    assert!(format_has_stencil(129));
    assert!(!format_has_stencil(126));
}

#[test]
fn default_states() {
    let r = RasterizationState::new().set_cull_mode(2).set_front_face(1).set_polygon_mode(1);
    assert_eq!((r.cull_mode, r.front_face, r.polygon_mode), (2, 1, 1));
    let d = DepthStencilState::new();
    assert!(d.depth_test_enable && d.depth_write_enable);
    assert_eq!(d.depth_compare, 3);
    let d = d.set_depth_test(false).set_depth_write(false).set_depth_compare(7);
    assert_eq!((d.depth_test_enable, d.depth_write_enable, d.depth_compare), (false, false, 7));
}

#[test]
fn barriers_for_a_render_target_transition() {
    assert_eq!(access_flags_from_state(0x4), 0x80 | 0x100);
    assert_eq!(image_layout_from_state(0x4), ImageLayout::ColorAttachmentOptimal);
    assert_eq!(pipeline_stages_from_access(0, QueueType::Graphics), 0x1);
    assert_eq!(pipeline_stages_from_access(0x80 | 0x100, QueueType::Graphics), 0x400);
    let image = GpuImage {
        raw: 1,
        raw_view: 2,
        subresource_range: SubresourceRange { aspect_mask: 1, base_mip_level: 0, level_count: 1, base_array_layer: 0, layer_count: 1 },
        bindless_index: 0,
    };
    let mut barriers = Barriers::new();
    barriers.add_image(&image, 0x0, 0x4);
    let list = barriers.image_barriers();
    assert_eq!(list.len(), 1);
    assert_eq!(list[0].dst_access_mask, 0x180);
    assert_eq!(list[0].old_layout, ImageLayout::Undefined);
    assert_eq!(list[0].new_layout, ImageLayout::ColorAttachmentOptimal);
    assert_eq!(list[0].image, 1);
}

#[test]
fn plain_gpu_enums() {
    assert_ne!(SemaphoreType::Binary, SemaphoreType::Timeline);
    assert_ne!(PipelineStage::DrawIndirect, PipelineStage::Transfer);
    assert_ne!(ResourceUsageType::Immutable, ResourceUsageType::Stream);
}

#[test]
fn shader_code_sources() {
    let from_source = ShaderStageDesc::new_from_source_file("shaders/pbr.frag", ShaderStageType::Fragment);
    match shader_code(&from_source) {
        ShaderCode::CompileFile { source, destination } => {
            assert_eq!(source, "shaders/pbr.frag");
            assert_eq!(destination, "shaders/pbr.frag.spv");
        }
        _ => panic!("a source file is compiled"),
    }
    let binary = ShaderStageDesc {
        read_type: ShaderStageDataReadType::BytesFromFile,
        file_name: Some(String::from("a.spv")),
        source: None,
        bytes: None,
        shader_type: ShaderStageType::Compute,
    };
    match shader_code(&binary) {
        ShaderCode::ReadBinaryFile { file } => assert_eq!(file, "a.spv"),
        _ => panic!("a binary file is read"),
    }
    let bytes = ShaderStageDesc {
        read_type: ShaderStageDataReadType::Bytes,
        file_name: None,
        source: None,
        bytes: Some(vec![3, 2, 35, 7]),
        shader_type: ShaderStageType::Vertex,
    };
    match shader_code(&bytes) {
        ShaderCode::Bytes { bytes } => assert_eq!(bytes, vec![3, 2, 35, 7]),
        _ => panic!("bytes are taken as they are"),
    }
}

#[test]
fn upload_plan() {
    let copy = buffer_image_copy(256, 64, 32, 1);
    assert_eq!(copy.buffer_offset, 256);
    assert_eq!((copy.width, copy.height, copy.depth), (64, 32, 1));
    assert_eq!(copy.layer_count, 1);
    assert_eq!(copy.dst_image_layout, ImageLayout::TransferDstOptimal);
    let image = GpuImage {
        raw: 9,
        raw_view: 10,
        subresource_range: SubresourceRange { aspect_mask: 1, base_mip_level: 0, level_count: 1, base_array_layer: 0, layer_count: 1 },
        bindless_index: 0,
    };
    let (before, after) = upload_barriers(&image);
    assert_eq!(before.image_barriers()[0].old_layout, ImageLayout::Undefined);
    assert_eq!(before.image_barriers()[0].new_layout, ImageLayout::TransferDstOptimal);
    assert_eq!(after.image_barriers()[0].old_layout, ImageLayout::TransferDstOptimal);
    assert_eq!(after.image_barriers()[0].new_layout, ImageLayout::ShaderReadOnlyOptimal);
}

#[test]
fn two_dimensional_images_get_two_dimensional_views() {
    assert_eq!(image_view_type(IMAGE_TYPE_2D), IMAGE_VIEW_TYPE_2D);
    let plan = image_create_plan(&ImageDesc::new(8, 8, 1).set_image_type(IMAGE_TYPE_2D));
    assert_eq!(plan.view_type, IMAGE_VIEW_TYPE_2D);
}
