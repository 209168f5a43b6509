use rikka::gpu::synchronization::semaphore_submit_value;
use rikka::gpu::synchronization::SemaphoreType;
use rikka::rhi::command_buffer::CommandBufferManagerDesc;
use rikka::rhi::command_buffer::CommandBufferMetaData;
use rikka::rhi::frame::frame_thread_pool_index;
use rikka::rhi::frame::num_frame_thread_pools;
use rikka::rhi::frame::FrameIndexData;
use rikka::rhi::frame::FrameSemaphore;
use rikka::rhi::frame::FrameThreadPoolsDesc;
use rikka::rhi::graphics_pipeline::GraphicsPipelineCreationError;
use rikka::rhi::graphics_pipeline::RenderPassOperation;
use rikka::rhi::queue::select_queue_family_indices;
use rikka::rhi::queue::select_suitable_physical_device;
use rikka::rhi::queue::DeviceSelectionError;
use rikka::rhi::queue::PhysicalDevice;
use rikka::rhi::queue::QueueFamily;
use rikka::rhi::queue::QueueFamilyProperties;
use rikka::rhi::swapchain::choose_extent;
use rikka::rhi::swapchain::choose_image_count;
use rikka::rhi::swapchain::choose_present_mode;
use rikka::rhi::swapchain::choose_sharing_mode;
use rikka::rhi::swapchain::choose_surface_format;
use rikka::rhi::swapchain::Extent2D;
use rikka::rhi::swapchain::SharingMode;
use rikka::rhi::swapchain::SurfaceCapabilities;
use rikka::rhi::swapchain::SurfaceFormat;
use rikka::rhi::swapchain::SwapchainDesc;
use rikka::rhi::types::PipelineStage;
use rikka::rhi::types::ResourceUsageType;
use rikka::gpu::types::AttachmentLoadOp;

#[test]
fn frame_counters_wrap_around_the_frames_in_flight() {
    let mut data = FrameIndexData::new();
    for expected in [1u64, 2, 0, 1] {
        let before = data.current;
        data.advance_frame_counters(3);
        assert_eq!(data.previous, before);
        assert_eq!(data.current, expected);
    }
    assert_eq!(data.absolute, 4);
    assert_eq!(data.current, data.absolute % 3);
}

#[test]
fn graphics_waits_start_once_every_slot_is_used() {
    let mut data = FrameIndexData::new();
    assert!(!data.must_wait_for_graphics(2));
    let (wait, signal) = data.graphics_submit_semaphores(2);
    assert_eq!(wait.len(), 1);
    assert_eq!(wait[0].semaphore, FrameSemaphore::SwapchainImageAcquired);
    assert_eq!(signal[0].semaphore, FrameSemaphore::RenderComplete(0));
    assert_eq!(signal[1].value, Some(1));
    data.advance_frame_counters(2);
    data.advance_frame_counters(2);
    assert!(data.must_wait_for_graphics(2));
    let (wait, signal) = data.graphics_submit_semaphores(2);
    assert_eq!(wait.len(), 2);
    assert_eq!(wait[1].semaphore, FrameSemaphore::GraphicsWork);
    // Frame 2 waits for the value that frame 0 signalled.
    assert_eq!(wait[1].value, Some(1));
    assert_eq!(signal[1].value, Some(3));
    assert_eq!(data.graphics_semaphore_wait_value(2), 1);
    assert_eq!(data.graphics_semaphore_signal_value(), 3);
}

#[test]
fn frame_thread_pools() {
    let desc = FrameThreadPoolsDesc { num_threads: 3, time_queries_per_frame: 32, graphics_queue_family_index: 0 };
    assert_eq!(num_frame_thread_pools(&desc, 2), 6);
    assert_eq!(frame_thread_pool_index(1, 2, 3, 2), 5);
    assert_eq!(frame_thread_pool_index(0, 1, 3, 2), 1);
}

#[test]
fn semaphore_values() {
    assert_eq!(semaphore_submit_value(SemaphoreType::Binary, Some(5)), 0);
    assert_eq!(semaphore_submit_value(SemaphoreType::Binary, None), 0);
    assert_eq!(semaphore_submit_value(SemaphoreType::Timeline, Some(5)), 5);
}

fn family(index: u32, flags: u32, count: u32, present: bool) -> QueueFamily {
    QueueFamily::new(index, QueueFamilyProperties { queue_flags: flags, queue_count: count, timestamp_valid_bits: 64 }, present)
}

#[test]
fn queue_families_are_chosen_in_order() {
    let families = vec![
        family(0, 0x1 | 0x2 | 0x4, 0, true),
        family(1, 0x1 | 0x2 | 0x4, 16, true),
        family(2, 0x2 | 0x4, 2, false),
        family(3, 0x2 | 0x4, 2, false),
        family(4, 0x4, 1, false),
    ];
    let indices = select_queue_family_indices(&families);
    assert_eq!(indices.graphics.index(), 1);
    assert_eq!(indices.present.index(), 1);
    assert_eq!(indices.compute.index(), 2);
    assert_eq!(indices.transfer.index(), 4);
    assert!(indices.graphics.supports_graphics());
    assert!(indices.transfer.supports_transfer());
    assert!(!indices.transfer.supports_compute());
    assert!(indices.graphics.supports_timestamps());
    assert_eq!(indices.graphics.queue_count(), 16);
}

fn device(name: &str, device_type: i32, extensions: &[&str]) -> PhysicalDevice {
    PhysicalDevice {
        name: String::from(name),
        device_type,
        queue_families: vec![],
        supported_extensions: extensions.iter().map(|e| String::from(*e)).collect(),
    }
}

#[test]
fn first_discrete_gpu_is_chosen() {
    let devices = vec![device("integrated", 1, &[]), device("discrete", 2, &[]), device("other", 2, &[])];
    assert_eq!(select_suitable_physical_device(&devices), Ok(1));
    let none = vec![device("integrated", 1, &[]), device("cpu", 4, &[])];
    assert_eq!(select_suitable_physical_device(&none), Err(DeviceSelectionError::NoSuitableGpu));
    assert_eq!(DeviceSelectionError::NoSuitableGpu.message(), "Could not find suitable GPU!");
}

#[test]
fn device_extensions() {
    let d = device("gpu", 2, &["VK_KHR_swapchain", "VK_KHR_dynamic_rendering"]);
    assert!(d.supports_extensions(&["VK_KHR_swapchain"]));
    assert!(d.supports_extensions(&[]));
    assert!(d.supports_extensions(&["VK_KHR_dynamic_rendering", "VK_KHR_swapchain"]));
    assert!(!d.supports_extensions(&["VK_KHR_swapchain", "VK_NV_mesh_shader"]));
}

#[test]
fn surface_format_choice() {
    let open = vec![SurfaceFormat { format: 0, color_space: 0 }];
    assert_eq!(choose_surface_format(&open), SurfaceFormat { format: 44, color_space: 0 });
    let listed = vec![SurfaceFormat { format: 50, color_space: 0 }, SurfaceFormat { format: 44, color_space: 0 }];
    assert_eq!(choose_surface_format(&listed), SurfaceFormat { format: 44, color_space: 0 });
    let other = vec![SurfaceFormat { format: 50, color_space: 0 }, SurfaceFormat { format: 44, color_space: 7 }];
    assert_eq!(choose_surface_format(&other), SurfaceFormat { format: 50, color_space: 0 });
    assert_eq!(choose_present_mode(&[0, 1]), 2);
}

#[test]
fn swapchain_extent_and_image_count() {
    let desc = SwapchainDesc::new(4000, 10, 0, 1);
    let mut caps = SurfaceCapabilities {
        min_image_count: 2,
        max_image_count: 8,
        current_extent: Extent2D { width: 800, height: 600 },
        min_image_extent: Extent2D { width: 64, height: 64 },
        max_image_extent: Extent2D { width: 1920, height: 1080 },
        current_transform: 1,
    };
    assert_eq!(choose_extent(&caps, &desc), Extent2D { width: 800, height: 600 });
    caps.current_extent.width = u32::MAX;
    assert_eq!(choose_extent(&caps, &desc), Extent2D { width: 1920, height: 64 });
    assert_eq!(choose_image_count(&caps), 3);
    caps.max_image_count = 2;
    assert_eq!(choose_image_count(&caps), 2);
}

#[test]
fn swapchain_sharing() {
    let same = SwapchainDesc::new(1, 1, 2, 2);
    let (mode, families) = choose_sharing_mode(&same);
    assert_eq!(mode, SharingMode::Exclusive);
    assert!(families.is_empty());
    let split = SwapchainDesc::new(1, 1, 0, 3);
    let (mode, families) = choose_sharing_mode(&split);
    assert_eq!(mode, SharingMode::Concurrent);
    assert_eq!(families, vec![0, 3]);
    assert_eq!(split.present_queue_family_index, 3);
}

#[test]
fn rhi_plain_types() {
    assert_eq!(RenderPassOperation::Clear.vk_attachment_load_op(), AttachmentLoadOp::Clear);
    assert_eq!(RenderPassOperation::Load.vk_attachment_load_op(), AttachmentLoadOp::Load);
    assert_eq!(RenderPassOperation::DontCare.vk_attachment_load_op(), AttachmentLoadOp::DontCare);
    let meta = CommandBufferMetaData { index: 4 };
    assert_eq!(meta.index, 4);
    let _ = CommandBufferManagerDesc {};
    let _ = GraphicsPipelineCreationError {};
    assert_ne!(PipelineStage::Transfer, PipelineStage::VertexShader);
    assert_ne!(ResourceUsageType::Dynamic, ResourceUsageType::Staging);
}
