pub mod command_buffer;
pub mod frame;
pub mod graphics_pipeline;
pub mod queue;
pub mod swapchain;
pub mod types;
