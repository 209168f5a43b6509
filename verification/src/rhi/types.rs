use vstd::prelude::*;

verus! {

/// The pipeline stage that a resource is used in.
#[derive(Clone, Copy, PartialEq, Eq, Structural, Debug)]
pub enum PipelineStage {
    DrawIndirect,
    VertexInput,
    VertexShader,
    FragmentShader,
    RenderTarget,
    ComputeShader,
    Transfer,
}

/// How often the contents of a resource change.
#[derive(Clone, Copy, PartialEq, Eq, Structural, Debug)]
pub enum ResourceUsageType {
    Immutable,
    Dynamic,
    Stream,
    Staging,
}

} // verus!
