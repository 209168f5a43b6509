pub mod gpu_types;
pub mod mesh_checks;
pub mod scene;
pub mod scene_walk;
pub mod scene_renderer;
pub mod technique;
pub mod texture;
