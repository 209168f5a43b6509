use vstd::prelude::*;

use crate::gpu::types::AttachmentLoadOp;

verus! {

/// What happens to an attachment's contents when rendering begins.
#[derive(Clone, Copy, PartialEq, Eq, Structural, Debug)]
pub enum RenderPassOperation {
    DontCare,
    Load,
    Clear,
}

impl RenderPassOperation {
    pub open spec fn spec_load_op(self) -> AttachmentLoadOp {
        match self {
            RenderPassOperation::DontCare => AttachmentLoadOp::DontCare,
            RenderPassOperation::Load => AttachmentLoadOp::Load,
            RenderPassOperation::Clear => AttachmentLoadOp::Clear,
        }
    }

    /// The Vulkan load operation of this operation.
    pub fn vk_attachment_load_op(&self) -> (op: AttachmentLoadOp)
        ensures
            op == self.spec_load_op(),
    {
        match self {
            RenderPassOperation::DontCare => AttachmentLoadOp::DontCare,
            RenderPassOperation::Load => AttachmentLoadOp::Load,
            RenderPassOperation::Clear => AttachmentLoadOp::Clear,
        }
    }
}

/// The error that creating a graphics pipeline reports.
#[derive(Clone, Copy, PartialEq, Eq, Structural, Debug)]
pub struct GraphicsPipelineCreationError {}

} // verus!
