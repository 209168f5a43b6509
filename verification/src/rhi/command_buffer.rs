use vstd::prelude::*;

verus! {

/// Where a command buffer stands in the command buffer manager.
#[derive(Clone, Copy, PartialEq, Eq, Structural, Debug)]
pub struct CommandBufferMetaData {
    /// Index into the manager's array of command buffers.
    pub index: u32,
}

/// How a command buffer manager is set up.
#[derive(Clone, Copy, PartialEq, Eq, Structural, Debug)]
pub struct CommandBufferManagerDesc {}

} // verus!
