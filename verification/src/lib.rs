pub mod gpu;
pub mod graph;
pub mod renderer;
pub mod rhi;
