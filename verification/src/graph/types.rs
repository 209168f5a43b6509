use vstd::prelude::*;

use crate::gpu::types::{GpuImage, RenderPassOperation, RenderingState};

verus! {

#[derive(Clone, Copy, PartialEq, Eq, Structural, Debug)]
pub enum ResourceType {
    Buffer,
    Texture,
    Attachment,
    Reference,
}

/// Index of a resource (or of a node) inside its pool.
#[derive(Clone, Copy, PartialEq, Eq, Structural, Debug)]
pub struct ResourceHandle {
    pub index: usize,
}

pub type NodeHandle = ResourceHandle;

impl ResourceHandle {
    pub fn new(index: usize) -> (handle: Self)
        ensures
            handle.index == index,
    {
        Self { index }
    }

    /// The handle that refers to nothing.
    pub fn invalid() -> (handle: Self)
        ensures
            handle.index == usize::MAX,
    {
        Self { index: usize::MAX }
    }

    pub fn is_invalid(&self) -> (r: bool)
        ensures
            r == (self.index == usize::MAX),
    {
        self.index == usize::MAX
    }
}

/// What the graph knows of a GPU buffer that backs a resource.
#[derive(Clone, Copy, PartialEq, Eq, Structural, Debug)]
pub struct GpuBuffer {
    pub raw: u64,
}

#[derive(Clone, Copy, PartialEq, Eq, Structural, Debug)]
pub struct BufferInfo {
    pub buffer: Option<GpuBuffer>,
    pub size: u32,
    /// Raw Vulkan buffer usage flags.
    pub usage_flags: u32,
}

#[derive(Clone, Copy, PartialEq, Eq, Structural, Debug)]
pub struct ImageInfo {
    pub image: Option<GpuImage>,
    pub width: u32,
    pub height: u32,
    pub depth: u32,
    /// Raw Vulkan format.
    pub format: i32,
    /// Raw Vulkan image usage flags.
    pub usage_flags: u32,
    pub load_op: RenderPassOperation,
}

#[derive(Clone, Copy, PartialEq, Eq, Structural, Debug)]
pub struct ResourceInfo {
    pub buffer: Option<BufferInfo>,
    pub image: Option<ImageInfo>,
    pub external: bool,
}

impl ResourceInfo {
    pub open spec fn spec_default() -> Self {
        ResourceInfo { buffer: None, image: None, external: false }
    }
}

impl Default for ResourceInfo {
    fn default() -> (r: Self)
        ensures
            r == Self::spec_default(),
    {
        ResourceInfo { buffer: None, image: None, external: false }
    }
}

/// Why an access to the graph failed.
#[derive(Clone, Copy, PartialEq, Eq, Structural, Debug)]
pub enum GraphError {
    /// A handle does not refer to an element of its pool.
    InvalidHandle,
    /// No resource or node has been registered under the name.
    UnknownName,
    /// The resource has no image information.
    NotAnImage,
    /// The image resource has no GPU image yet.
    MissingGpuImage,
}

impl GraphError {
    pub fn message(&self) -> (s: &'static str)
        ensures
            *self == GraphError::InvalidHandle ==> s@ == "Failed to access resource"@,
            *self == GraphError::UnknownName ==> s@ == "Failed to retrieve node by name"@,
            *self == GraphError::NotAnImage ==> s@ == "Resource is not an image"@,
            *self == GraphError::MissingGpuImage ==> s@ == "Image resource does not contain a GPU image handle"@,
    {
        match self {
            GraphError::InvalidHandle => "Failed to access resource",
            GraphError::UnknownName => "Failed to retrieve node by name",
            GraphError::NotAnImage => "Resource is not an image",
            GraphError::MissingGpuImage => "Image resource does not contain a GPU image handle",
        }
    }
}

/// A resource of the render graph: an output that a node produces, or an
/// input that refers to an output by its name.
pub struct Resource {
    pub resource_type: ResourceType,
    pub info: ResourceInfo,
    pub producer: NodeHandle,
    pub output: ResourceHandle,
    pub ref_count: i32,
    pub name: String,
}

/// The plain values of a resource.
pub struct ResourceView {
    pub resource_type: ResourceType,
    pub info: ResourceInfo,
    pub producer: NodeHandle,
    pub output: ResourceHandle,
    pub ref_count: i32,
    pub name: Seq<char>,
}

impl View for Resource {
    type V = ResourceView;

    open spec fn view(&self) -> ResourceView {
        ResourceView {
            resource_type: self.resource_type,
            info: self.info,
            producer: self.producer,
            output: self.output,
            ref_count: self.ref_count,
            name: self.name@,
        }
    }
}

impl Resource {
    pub open spec fn spec_default() -> ResourceView {
        ResourceView {
            resource_type: ResourceType::Attachment,
            info: ResourceInfo::spec_default(),
            producer: ResourceHandle { index: usize::MAX },
            output: ResourceHandle { index: usize::MAX },
            ref_count: 0,
            name: Seq::<char>::empty(),
        }
    }

    pub fn new() -> (r: Self)
        ensures
            r@ == Self::spec_default(),
    {
        Self::default()
    }

    pub fn set_type(&mut self, resource_type: ResourceType) -> (r: &mut Self)
        ensures
            r@ == (ResourceView { resource_type, ..old(self)@ }),
            final(self)@ == final(r)@,
    {
        self.resource_type = resource_type;
        self
    }

    pub fn set_name(&mut self, name: String) -> (r: &mut Self)
        ensures
            r@ == (ResourceView { name: name@, ..old(self)@ }),
            final(self)@ == final(r)@,
    {
        self.name = name;
        self
    }

    pub fn set_info(&mut self, info: ResourceInfo) -> (r: &mut Self)
        ensures
            r@ == (ResourceView { info, ..old(self)@ }),
            final(self)@ == final(r)@,
    {
        self.info = info;
        self
    }

    pub fn set_output(&mut self, output: ResourceHandle) -> (r: &mut Self)
        ensures
            r@ == (ResourceView { output, ..old(self)@ }),
            final(self)@ == final(r)@,
    {
        self.output = output;
        self
    }

    pub fn set_producer(&mut self, producer: NodeHandle) -> (r: &mut Self)
        ensures
            r@ == (ResourceView { producer, ..old(self)@ }),
            final(self)@ == final(r)@,
    {
        self.producer = producer;
        self
    }

    pub fn set_ref_count(&mut self, value: i32) -> (r: &mut Self)
        ensures
            r@ == (ResourceView { ref_count: value, ..old(self)@ }),
            final(self)@ == final(r)@,
    {
        self.ref_count = value;
        self
    }

    pub fn add_ref_count(&mut self, value: i32)
        requires
            i32::MIN <= old(self).ref_count + value <= i32::MAX,
        ensures
            final(self)@ == (ResourceView { ref_count: (old(self).ref_count + value) as i32, ..old(self)@ }),
    {
        self.ref_count = self.ref_count + value;
    }

    pub fn remove_ref_count(&mut self, value: i32)
        requires
            i32::MIN <= old(self).ref_count - value <= i32::MAX,
        ensures
            final(self)@ == (ResourceView { ref_count: (old(self).ref_count - value) as i32, ..old(self)@ }),
    {
        self.ref_count = self.ref_count - value;
    }

    /// The GPU image of an image resource.
    pub fn gpu_image(&self) -> (r: Result<GpuImage, GraphError>)
        ensures
            r == (match self.info.image {
                None => Err(GraphError::NotAnImage),
                Some(image_info) => match image_info.image {
                    None => Err(GraphError::MissingGpuImage),
                    Some(image) => Ok(image),
                },
            }),
    {
        match self.info.image {
            None => Err(GraphError::NotAnImage),
            Some(image_info) => match image_info.image {
                None => Err(GraphError::MissingGpuImage),
                Some(image) => Ok(image),
            },
        }
    }

    /// The bindless texture slot of an image resource's GPU image.
    pub fn gpu_image_bindless_index(&self) -> (r: Result<u32, GraphError>)
        ensures
            r == (match self.info.image {
                None => Err(GraphError::NotAnImage),
                Some(image_info) => match image_info.image {
                    None => Err(GraphError::MissingGpuImage),
                    Some(image) => Ok(image.bindless_index),
                },
            }),
    {
        let image = self.gpu_image()?;
        Ok(image.bindless_index)
    }

    pub fn clone_resource(&self) -> (r: Self)
        ensures
            r@ == self@,
    {
        Resource {
            resource_type: self.resource_type,
            info: self.info,
            producer: self.producer,
            output: self.output,
            ref_count: self.ref_count,
            name: self.name.clone(),
        }
    }
}

impl Default for Resource {
    fn default() -> (r: Self)
        ensures
            r@ == Self::spec_default(),
    {
        Resource {
            resource_type: ResourceType::Attachment,
            info: ResourceInfo { buffer: None, image: None, external: false },
            producer: ResourceHandle::invalid(),
            output: ResourceHandle::invalid(),
            name: String::new(),
            ref_count: 0,
        }
    }
}

pub struct InputDesc {
    pub resource_type: ResourceType,
    /// Name of the output resource this input originates from.
    pub name: String,
}

pub struct InputDescView {
    pub resource_type: ResourceType,
    pub name: Seq<char>,
}

impl View for InputDesc {
    type V = InputDescView;

    open spec fn view(&self) -> InputDescView {
        InputDescView { resource_type: self.resource_type, name: self.name@ }
    }
}

pub struct OutputDesc {
    pub resource_type: ResourceType,
    pub name: String,
    pub info: ResourceInfo,
}

pub struct OutputDescView {
    pub resource_type: ResourceType,
    pub name: Seq<char>,
    pub info: ResourceInfo,
}

impl View for OutputDesc {
    type V = OutputDescView;

    open spec fn view(&self) -> OutputDescView {
        OutputDescView { resource_type: self.resource_type, name: self.name@, info: self.info }
    }
}

pub struct NodeDesc {
    pub inputs: Vec<InputDesc>,
    pub outputs: Vec<OutputDesc>,
    pub enabled: bool,
    pub name: String,
}

pub struct NodeDescView {
    pub inputs: Seq<InputDescView>,
    pub outputs: Seq<OutputDescView>,
    pub enabled: bool,
    pub name: Seq<char>,
}

impl View for NodeDesc {
    type V = NodeDescView;

    open spec fn view(&self) -> NodeDescView {
        NodeDescView {
            inputs: self.inputs@.map_values(|d: InputDesc| d@),
            outputs: self.outputs@.map_values(|d: OutputDesc| d@),
            enabled: self.enabled,
            name: self.name@,
        }
    }
}

/// A render pass of the graph.
pub struct Node {
    pub rendering_state: Option<RenderingState>,
    pub inputs: Vec<ResourceHandle>,
    pub outputs: Vec<ResourceHandle>,
    pub edges: Vec<NodeHandle>,
    pub enabled: bool,
    pub name: String,
}

/// The plain values of a node; the rendering state by whether it is set.
pub struct NodeView {
    pub has_rendering_state: bool,
    pub inputs: Seq<ResourceHandle>,
    pub outputs: Seq<ResourceHandle>,
    pub edges: Seq<NodeHandle>,
    pub enabled: bool,
    pub name: Seq<char>,
}

impl View for Node {
    type V = NodeView;

    open spec fn view(&self) -> NodeView {
        NodeView {
            has_rendering_state: self.rendering_state is Some,
            inputs: self.inputs@,
            outputs: self.outputs@,
            edges: self.edges@,
            enabled: self.enabled,
            name: self.name@,
        }
    }
}

fn append_handles(target: &mut Vec<ResourceHandle>, handles: &[ResourceHandle])
    ensures
        final(target)@ == old(target)@ + handles@,
{
    let mut i: usize = 0;
    while i < handles.len()
        invariant
            i <= handles@.len(),
            target@ == old(target)@ + handles@.take(i as int),
        decreases handles@.len() - i,
    {
        target.push(handles[i]);
        i = i + 1;
        assert(target@ =~= old(target)@ + handles@.take(i as int));
    }
    assert(handles@.take(i as int) =~= handles@);
}

impl Node {
    pub open spec fn spec_default() -> NodeView {
        NodeView {
            has_rendering_state: false,
            inputs: Seq::<ResourceHandle>::empty(),
            outputs: Seq::<ResourceHandle>::empty(),
            edges: Seq::<NodeHandle>::empty(),
            enabled: true,
            name: Seq::<char>::empty(),
        }
    }

    pub fn new() -> (r: Self)
        ensures
            r@ == Self::spec_default(),
    {
        Self::default()
    }

    pub fn set_rendering_state(&mut self, rendering_state: RenderingState) -> (r: &mut Self)
        ensures
            r@ == (NodeView { has_rendering_state: true, ..old(self)@ }),
            r.rendering_state == Some(rendering_state),
            final(self)@ == final(r)@,
    {
        self.rendering_state = Some(rendering_state);
        self
    }

    pub fn add_inputs(&mut self, inputs: &[ResourceHandle]) -> (r: &mut Self)
        ensures
            r@ == (NodeView { inputs: old(self)@.inputs + inputs@, ..old(self)@ }),
            final(self)@ == final(r)@,
    {
        append_handles(&mut self.inputs, inputs);
        self
    }

    pub fn add_outputs(&mut self, outputs: &[ResourceHandle]) -> (r: &mut Self)
        ensures
            r@ == (NodeView { outputs: old(self)@.outputs + outputs@, ..old(self)@ }),
            final(self)@ == final(r)@,
    {
        append_handles(&mut self.outputs, outputs);
        self
    }

    pub fn add_edges(&mut self, edges: &[NodeHandle]) -> (r: &mut Self)
        ensures
            r@ == (NodeView { edges: old(self)@.edges + edges@, ..old(self)@ }),
            final(self)@ == final(r)@,
    {
        append_handles(&mut self.edges, edges);
        self
    }

    pub fn set_enable(&mut self, enable: bool) -> (r: &mut Self)
        ensures
            r@ == (NodeView { enabled: enable, ..old(self)@ }),
            final(self)@ == final(r)@,
    {
        self.enabled = enable;
        self
    }

    pub fn set_name(&mut self, name: String) -> (r: &mut Self)
        ensures
            r@ == (NodeView { name: name@, ..old(self)@ }),
            final(self)@ == final(r)@,
    {
        self.name = name;
        self
    }
}

impl Default for Node {
    fn default() -> (r: Self)
        ensures
            r@ == Self::spec_default(),
    {
        Node {
            rendering_state: None,
            inputs: Vec::new(),
            outputs: Vec::new(),
            edges: Vec::new(),
            enabled: true,
            name: String::new(),
        }
    }
}

} // verus!
