use rikka::gpu::bindless::bindless_descriptor_pool_desc;
use rikka::gpu::bindless::bindless_descriptor_set_layout_desc;
use rikka::gpu::bindless::bindless_image_writes;
use rikka::gpu::bindless::global_descriptor_pool_desc;
use rikka::gpu::bindless::BindlessImageUpdate;
use rikka::gpu::command_buffer::CommandBufferError;
use rikka::gpu::frame::FrameCycle;
use rikka::gpu::pipeline::BindlessSetup;
use rikka::gpu::transfer::TransferScheduler;
use rikka::renderer::texture::dxgi_format_to_vulkan_format;
use rikka::renderer::texture::mag_filter_to_vulkan_filter;
use rikka::renderer::texture::min_filter_to_vulkan_filter;
use rikka::renderer::texture::MagFilter;
use rikka::renderer::texture::MinFilter;
use rikka::rhi::queue::device_queue_family_indices;
use rikka::rhi::queue::sorted_unique;
use rikka::rhi::queue::QueueFamily;
use rikka::rhi::queue::QueueFamilyIndices;
use rikka::rhi::queue::QueueFamilyProperties;

#[test]
fn frame_cycle_hands_out_buffers_of_the_current_frame() {
    let mut cycle = FrameCycle::new(2, 2, 2, 1);
    assert_eq!(cycle.current_frame_index(), 0);
    cycle.new_frame();
    assert_eq!(cycle.current_command_buffer(1), Ok(2));
    assert_eq!(cycle.current_command_buffer(1), Ok(3));
    cycle.present();
    assert_eq!(cycle.current_frame_index(), 1);
    assert_eq!(cycle.absolute_frame_index(), 1);
    cycle.new_frame();
    // Frame slot 1, thread 0: pool 2, whose first buffer is 4.
    assert_eq!(cycle.current_command_buffer(0), Ok(4));
    cycle.present();
    assert_eq!(cycle.current_frame_index(), 0);
    cycle.new_frame();
    assert_eq!(cycle.current_command_buffer(1), Ok(2));
    assert_eq!(cycle.current_command_buffer(1), Ok(3));
    assert_eq!(cycle.current_command_buffer(1), Ok(4));
    assert_eq!(cycle.current_command_buffer(1), Err(CommandBufferError::AllCommandBuffersUsed));
}

#[test]
fn transfers_report_an_upload_one_step_later() {
    let mut transfers = TransferScheduler::new();
    let step = transfers.perform_transfers(vec![]);
    assert_eq!(step.wait_value, None);
    assert!(step.finished.is_empty());
    assert_eq!(step.upload, None);

    let step = transfers.perform_transfers(vec![10, 11]);
    assert_eq!(step.wait_value, None);
    assert_eq!(step.upload, Some(11));
    assert_eq!(step.signal_value, Some(1));
    assert_eq!(transfers.submission_index(), 1);

    let step = transfers.perform_transfers(vec![]);
    assert_eq!(step.wait_value, Some(1));
    assert_eq!(step.finished, vec![11]);
    assert_eq!(step.upload, Some(10));
    assert_eq!(step.signal_value, Some(2));

    let step = transfers.perform_transfers(vec![]);
    assert_eq!(step.wait_value, Some(2));
    assert_eq!(step.finished, vec![10]);
    assert_eq!(step.upload, None);
    let step = transfers.perform_transfers(vec![]);
    assert_eq!(step.wait_value, None);
}

#[test]
fn bindless_descriptions() {
    let setup = BindlessSetup { sampled_image_index: 10, storage_image_index: 11, max_resources: 1024 };
    let pool = bindless_descriptor_pool_desc(setup);
    assert_eq!(pool.max_sets, 2048);
    assert_eq!(pool.flags, 0x2);
    assert_eq!(pool.pool_sizes.len(), 2);
    assert_eq!(pool.pool_sizes[1].descriptor_type, 3);
    let layout = bindless_descriptor_set_layout_desc(setup);
    assert!(layout.bindless);
    assert_eq!(layout.bindings[0].index, 10);
    assert_eq!(layout.bindings[1].count, 1024);
    let global = global_descriptor_pool_desc(4096, 128);
    let types: Vec<i32> = global.pool_sizes.iter().map(|s| s.descriptor_type).collect();
    assert_eq!(types, vec![0, 1, 2, 3, 6, 8, 4, 7, 9, 5, 10]);
    assert!(global.pool_sizes.iter().all(|s| s.count == 128));
    assert_eq!(global.max_sets, 4096);
}

#[test]
fn bindless_writes_use_the_default_sampler() {
    let setup = BindlessSetup { sampled_image_index: 10, storage_image_index: 11, max_resources: 16 };
    let updates = vec![
        BindlessImageUpdate { image_view: Some(5), bindless_index: 3, sampler: None },
        BindlessImageUpdate { image_view: None, bindless_index: 0, sampler: Some(8) },
        BindlessImageUpdate { image_view: Some(6), bindless_index: 4, sampler: Some(9) },
    ];
    let writes = bindless_image_writes(&updates, 77, setup, u32::MAX);
    assert_eq!(writes.len(), 2);
    assert_eq!((writes[0].array_element, writes[0].binding, writes[0].image_view, writes[0].sampler), (3, 10, 5, 77));
    assert_eq!((writes[1].array_element, writes[1].sampler), (4, 9));
    assert_eq!(writes[1].image_layout, 5);
}

#[test]
fn texture_formats_and_filters() {
    assert_eq!(dxgi_format_to_vulkan_format(71), 133);
    assert_eq!(dxgi_format_to_vulkan_format(72), 134);
    assert_eq!(dxgi_format_to_vulkan_format(77), 137);
    assert_eq!(dxgi_format_to_vulkan_format(78), 138);
    assert_eq!(dxgi_format_to_vulkan_format(83), 141);
    assert_eq!(min_filter_to_vulkan_filter(MinFilter::LinearMipmapNearest), 1);
    assert_eq!(min_filter_to_vulkan_filter(MinFilter::NearestMipmapLinear), 0);
    assert_eq!(mag_filter_to_vulkan_filter(MagFilter::Linear), 1);
    assert_eq!(mag_filter_to_vulkan_filter(MagFilter::Nearest), 0);
}

#[test]
fn unique_sorted_family_indices() {
    assert_eq!(sorted_unique(&[3, 1, 3, 2, 1]), vec![1, 2, 3]);
    assert!(sorted_unique(&[]).is_empty());
    let family = |index: u32| {
        QueueFamily::new(index, QueueFamilyProperties { queue_flags: 0x7, queue_count: 1, timestamp_valid_bits: 0 }, true)
    };
    let indices = QueueFamilyIndices { graphics: family(2), present: family(2), compute: family(0), transfer: family(2) };
    assert_eq!(device_queue_family_indices(&indices), vec![0, 2]);
}
