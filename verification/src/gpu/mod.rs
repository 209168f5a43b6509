pub mod barriers;
pub mod bindless;
pub mod command_buffer;
pub mod descriptor_set;
pub mod frame;
pub mod image;
pub mod pipeline;
pub mod sampler;
pub mod shader_state;
pub mod synchronization;
pub mod transfer;
pub mod types;
