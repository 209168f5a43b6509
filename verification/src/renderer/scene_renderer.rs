use vstd::prelude::*;

verus! {

/// The files a scene renderer loads: its render graph, its render
/// techniques and its glTF model.
pub struct FilePathsConfig {
    pub render_graph_file_path: String,
    pub render_techniques_file_paths: Vec<String>,
    pub gtlf_model_file_path: String,
}

} // verus!
