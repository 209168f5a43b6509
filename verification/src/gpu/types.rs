use vstd::prelude::*;

verus! {

/// Vulkan's `VK_FORMAT_UNDEFINED`.
pub const FORMAT_UNDEFINED: i32 = 0;

/// Vulkan's `VK_FORMAT_B8G8R8A8_UNORM`.
pub const FORMAT_B8G8R8A8_UNORM: i32 = 44;

/// Vulkan's `VK_FORMAT_D32_SFLOAT`.
pub const FORMAT_D32_SFLOAT: i32 = 126;

/// Vulkan's `VK_FORMAT_D16_UNORM_S8_UINT`.
pub const FORMAT_D16_UNORM_S8_UINT: i32 = 128;

/// Vulkan's `VK_FORMAT_D24_UNORM_S8_UINT`.
pub const FORMAT_D24_UNORM_S8_UINT: i32 = 129;

/// Vulkan's `VK_FORMAT_D32_SFLOAT_S8_UINT`.
pub const FORMAT_D32_SFLOAT_S8_UINT: i32 = 130;

/// Vulkan's `VK_IMAGE_USAGE_TRANSFER_SRC_BIT`.
pub const IMAGE_USAGE_TRANSFER_SRC: u32 = 0x1;

/// Vulkan's `VK_IMAGE_USAGE_TRANSFER_DST_BIT`.
pub const IMAGE_USAGE_TRANSFER_DST: u32 = 0x2;

/// Vulkan's `VK_IMAGE_USAGE_COLOR_ATTACHMENT_BIT`.
pub const IMAGE_USAGE_COLOR_ATTACHMENT: u32 = 0x10;

/// Vulkan's `VK_IMAGE_USAGE_DEPTH_STENCIL_ATTACHMENT_BIT`.
pub const IMAGE_USAGE_DEPTH_STENCIL_ATTACHMENT: u32 = 0x20;

/// Bit pattern of the 32-bit float `1.0`, as clear values hold it.
pub const CLEAR_ONE_BITS: u32 = 0x3f80_0000;

/// Vulkan's `VK_IMAGE_ASPECT_COLOR_BIT`.
pub const IMAGE_ASPECT_COLOR: u32 = 0x1;

/// Vulkan's `VK_IMAGE_ASPECT_DEPTH_BIT`.
pub const IMAGE_ASPECT_DEPTH: u32 = 0x2;

/// The part of an image that a view or a barrier covers.
#[derive(Clone, Copy, PartialEq, Eq, Structural, Debug)]
pub struct SubresourceRange {
    pub aspect_mask: u32,
    pub base_mip_level: u32,
    pub level_count: u32,
    pub base_array_layer: u32,
    pub layer_count: u32,
}

/// What the renderer's logic knows of a GPU image: its raw Vulkan image and
/// view handles, the range that its view covers, and its slot in the bindless
/// texture array.
#[derive(Clone, Copy, PartialEq, Eq, Structural, Debug)]
pub struct GpuImage {
    pub raw: u64,
    pub raw_view: u64,
    pub subresource_range: SubresourceRange,
    pub bindless_index: u32,
}

/// The formats that carry a depth component.
pub open spec fn is_depth_format(format: i32) -> bool {
    format == FORMAT_D32_SFLOAT_S8_UINT || format == FORMAT_D32_SFLOAT || format
        == FORMAT_D24_UNORM_S8_UINT || format == FORMAT_D16_UNORM_S8_UINT
}

/// The formats that carry a stencil component.
pub open spec fn is_stencil_format(format: i32) -> bool {
    format == FORMAT_D32_SFLOAT_S8_UINT || format == FORMAT_D24_UNORM_S8_UINT || format
        == FORMAT_D16_UNORM_S8_UINT
}

/// Whether a (raw Vulkan) format has a depth component.
pub fn format_has_depth(format: i32) -> (r: bool)
    ensures
        r == is_depth_format(format),
{
    format == FORMAT_D32_SFLOAT_S8_UINT || format == FORMAT_D32_SFLOAT || format
        == FORMAT_D24_UNORM_S8_UINT || format == FORMAT_D16_UNORM_S8_UINT
}

/// Whether a (raw Vulkan) format has a stencil component.
pub fn format_has_stencil(format: i32) -> (r: bool)
    ensures
        r == is_stencil_format(format),
{
    format == FORMAT_D32_SFLOAT_S8_UINT || format == FORMAT_D24_UNORM_S8_UINT || format
        == FORMAT_D16_UNORM_S8_UINT
}

/// The pipeline stage that a resource is used in.
#[derive(Clone, Copy, PartialEq, Eq, Structural, Debug)]
pub enum PipelineStage {
    DrawIndirect,
    VertexInput,
    VertexShader,
    FragmentShader,
    RenderTarget,
    ComputeShader,
    Transfer,
}

/// How often the contents of a resource change.
#[derive(Clone, Copy, PartialEq, Eq, Structural, Debug)]
pub enum ResourceUsageType {
    Immutable,
    Dynamic,
    Stream,
    Staging,
}

/// What a render pass does with an attachment's contents when it begins.
#[derive(Clone, Copy, PartialEq, Eq, Structural, Debug)]
pub enum RenderPassOperation {
    DontCare,
    Load,
    Clear,
}

/// The attachment load operation, as Vulkan names it.
#[derive(Clone, Copy, PartialEq, Eq, Structural, Debug)]
pub enum AttachmentLoadOp {
    Load,
    Clear,
    DontCare,
}

/// What happens to an attachment's contents at the end of a pass.
#[derive(Clone, Copy, PartialEq, Eq, Structural, Debug)]
pub enum AttachmentStoreOp {
    Store,
    DontCare,
}

impl RenderPassOperation {
    pub open spec fn spec_load_op(self) -> AttachmentLoadOp {
        match self {
            RenderPassOperation::DontCare => AttachmentLoadOp::DontCare,
            RenderPassOperation::Load => AttachmentLoadOp::Load,
            RenderPassOperation::Clear => AttachmentLoadOp::Clear,
        }
    }

    /// The Vulkan load operation of this operation.
    pub fn vk_attachment_load_op(&self) -> (op: AttachmentLoadOp)
        ensures
            op == self.spec_load_op(),
    {
        match self {
            RenderPassOperation::DontCare => AttachmentLoadOp::DontCare,
            RenderPassOperation::Load => AttachmentLoadOp::Load,
            RenderPassOperation::Clear => AttachmentLoadOp::Clear,
        }
    }
}

/// Image layouts that the renderer uses.
#[derive(Clone, Copy, PartialEq, Eq, Structural, Debug)]
pub enum ImageLayout {
    Undefined,
    General,
    ColorAttachmentOptimal,
    DepthStencilAttachmentOptimal,
    DepthStencilReadOnlyOptimal,
    ShaderReadOnlyOptimal,
    TransferSrcOptimal,
    TransferDstOptimal,
    PresentSrc,
}

/// A clear colour, each component held as the bit pattern of a 32-bit float.
#[derive(Clone, Copy, PartialEq, Eq, Structural, Debug)]
pub struct ClearColor {
    pub red: u32,
    pub green: u32,
    pub blue: u32,
    pub alpha: u32,
}

/// A colour attachment of a dynamic rendering pass. The clear colour is held
/// as the bit patterns of its four 32-bit components, the image view as its
/// raw Vulkan handle.
#[derive(Clone, Copy, PartialEq, Eq, Structural, Debug)]
pub struct RenderColorAttachment {
    pub format: i32,
    pub image_layout: ImageLayout,
    pub operation: RenderPassOperation,
    pub clear_value: ClearColor,
    pub image_view: u64,
}

impl RenderColorAttachment {
    pub open spec fn spec_new() -> Self {
        RenderColorAttachment {
            format: FORMAT_UNDEFINED,
            image_layout: ImageLayout::ColorAttachmentOptimal,
            operation: RenderPassOperation::DontCare,
            clear_value: ClearColor { red: 0, green: 0, blue: 0, alpha: 0 },
            image_view: 0,
        }
    }

    pub fn new() -> (r: Self)
        ensures
            r == Self::spec_new(),
    {
        RenderColorAttachment {
            format: FORMAT_UNDEFINED,
            image_layout: ImageLayout::ColorAttachmentOptimal,
            operation: RenderPassOperation::DontCare,
            clear_value: ClearColor { red: 0, green: 0, blue: 0, alpha: 0 },
            image_view: 0,
        }
    }

    pub fn set_format(self, format: i32) -> (r: Self)
        ensures
            r == (RenderColorAttachment { format, ..self }),
    {
        RenderColorAttachment { format, ..self }
    }

    pub fn set_image_layout(self, image_layout: ImageLayout) -> (r: Self)
        ensures
            r == (RenderColorAttachment { image_layout, ..self }),
    {
        RenderColorAttachment { image_layout, ..self }
    }

    pub fn set_operation(self, operation: RenderPassOperation) -> (r: Self)
        ensures
            r == (RenderColorAttachment { operation, ..self }),
    {
        RenderColorAttachment { operation, ..self }
    }

    pub fn set_clear_value(self, clear_value: ClearColor) -> (r: Self)
        ensures
            r == (RenderColorAttachment { clear_value, ..self }),
    {
        RenderColorAttachment { clear_value, ..self }
    }

    pub fn set_image_view(self, image_view: u64) -> (r: Self)
        ensures
            r == (RenderColorAttachment { image_view, ..self }),
    {
        RenderColorAttachment { image_view, ..self }
    }
}

/// A depth/stencil attachment of a dynamic rendering pass. The clear depth is
/// held as the bit pattern of the 32-bit float.
#[derive(Clone, Copy, PartialEq, Eq, Structural, Debug)]
pub struct RenderDepthStencilAttachment {
    pub format: i32,
    pub image_layout: ImageLayout,
    pub depth_operation: RenderPassOperation,
    pub stencil_operation: RenderPassOperation,
    pub clear_depth: u32,
    pub clear_stencil: u32,
    pub image_view: u64,
}

impl RenderDepthStencilAttachment {
    pub open spec fn spec_new() -> Self {
        RenderDepthStencilAttachment {
            format: FORMAT_UNDEFINED,
            image_layout: ImageLayout::DepthStencilAttachmentOptimal,
            depth_operation: RenderPassOperation::DontCare,
            stencil_operation: RenderPassOperation::DontCare,
            clear_depth: 0,
            clear_stencil: 0,
            image_view: 0,
        }
    }

    pub fn new() -> (r: Self)
        ensures
            r == Self::spec_new(),
    {
        RenderDepthStencilAttachment {
            format: FORMAT_UNDEFINED,
            image_layout: ImageLayout::DepthStencilAttachmentOptimal,
            depth_operation: RenderPassOperation::DontCare,
            stencil_operation: RenderPassOperation::DontCare,
            clear_depth: 0,
            clear_stencil: 0,
            image_view: 0,
        }
    }

    pub fn set_format(self, format: i32) -> (r: Self)
        ensures
            r == (RenderDepthStencilAttachment { format, ..self }),
    {
        RenderDepthStencilAttachment { format, ..self }
    }

    pub fn set_image_layout(self, image_layout: ImageLayout) -> (r: Self)
        ensures
            r == (RenderDepthStencilAttachment { image_layout, ..self }),
    {
        RenderDepthStencilAttachment { image_layout, ..self }
    }

    pub fn set_depth_operation(self, depth_operation: RenderPassOperation) -> (r: Self)
        ensures
            r == (RenderDepthStencilAttachment { depth_operation, ..self }),
    {
        RenderDepthStencilAttachment { depth_operation, ..self }
    }

    pub fn set_stencil_operation(self, stencil_operation: RenderPassOperation) -> (r: Self)
        ensures
            r == (RenderDepthStencilAttachment { stencil_operation, ..self }),
    {
        RenderDepthStencilAttachment { stencil_operation, ..self }
    }

    pub fn set_clear_value(self, clear_depth: u32, clear_stencil: u32) -> (r: Self)
        ensures
            r == (RenderDepthStencilAttachment { clear_depth, clear_stencil, ..self }),
    {
        RenderDepthStencilAttachment { clear_depth, clear_stencil, ..self }
    }

    pub fn set_image_view(self, image_view: u64) -> (r: Self)
        ensures
            r == (RenderDepthStencilAttachment { image_view, ..self }),
    {
        RenderDepthStencilAttachment { image_view, ..self }
    }
}

/// The attachments and extent of a dynamic rendering pass.
pub struct RenderingState {
    pub color_attachments: Vec<RenderColorAttachment>,
    pub depth_attachment: Option<RenderDepthStencilAttachment>,
    pub width: u32,
    pub height: u32,
}

impl RenderingState {
    pub fn new(width: u32, height: u32) -> (r: Self)
        ensures
            r.width == width,
            r.height == height,
            r.color_attachments@ == Seq::<RenderColorAttachment>::empty(),
            r.depth_attachment is None,
    {
        RenderingState { width, height, color_attachments: Vec::new(), depth_attachment: None }
    }

    pub fn new_dimensionless() -> (r: Self)
        ensures
            r.width == 1,
            r.height == 1,
            r.color_attachments@ == Seq::<RenderColorAttachment>::empty(),
            r.depth_attachment is None,
    {
        RenderingState { width: 1, height: 1, color_attachments: Vec::new(), depth_attachment: None }
    }

    pub fn add_color_attachment(self, attachment: RenderColorAttachment) -> (r: Self)
        ensures
            r.color_attachments@ == self.color_attachments@.push(attachment),
            r.depth_attachment == self.depth_attachment,
            r.width == self.width,
            r.height == self.height,
    {
        let mut s = self;
        s.color_attachments.push(attachment);
        s
    }

    pub fn set_depth_attachment(self, attachment: RenderDepthStencilAttachment) -> (r: Self)
        ensures
            r.color_attachments@ == self.color_attachments@,
            r.depth_attachment == Some(attachment),
            r.width == self.width,
            r.height == self.height,
    {
        RenderingState { depth_attachment: Some(attachment), ..self }
    }

    pub fn set_width(self, width: u32) -> (r: Self)
        ensures
            r.color_attachments@ == self.color_attachments@,
            r.depth_attachment == self.depth_attachment,
            r.width == width,
            r.height == self.height,
    {
        RenderingState { width, ..self }
    }

    pub fn set_height(self, height: u32) -> (r: Self)
        ensures
            r.color_attachments@ == self.color_attachments@,
            r.depth_attachment == self.depth_attachment,
            r.width == self.width,
            r.height == height,
    {
        RenderingState { height, ..self }
    }

    pub fn clone_state(&self) -> (r: Self)
        ensures
            r.color_attachments@ == self.color_attachments@,
            r.depth_attachment == self.depth_attachment,
            r.width == self.width,
            r.height == self.height,
    {
        let mut colors: Vec<RenderColorAttachment> = Vec::new();
        let mut i: usize = 0;
        while i < self.color_attachments.len()
            invariant
                i <= self.color_attachments@.len(),
                colors@ == self.color_attachments@.take(i as int),
            decreases self.color_attachments@.len() - i,
        {
            colors.push(self.color_attachments[i]);
            i = i + 1;
            assert(colors@ =~= self.color_attachments@.take(i as int));
        }
        assert(colors@ =~= self.color_attachments@);
        RenderingState {
            color_attachments: colors,
            depth_attachment: self.depth_attachment,
            width: self.width,
            height: self.height,
        }
    }
}

/// Vulkan's `VK_CULL_MODE_NONE`.
pub const CULL_MODE_NONE: u32 = 0;

/// Vulkan's `VK_CULL_MODE_FRONT_BIT`.
pub const CULL_MODE_FRONT: u32 = 0x1;

/// Vulkan's `VK_CULL_MODE_BACK_BIT`.
pub const CULL_MODE_BACK: u32 = 0x2;

/// Vulkan's `VK_CULL_MODE_FRONT_AND_BACK`.
pub const CULL_MODE_FRONT_AND_BACK: u32 = 0x3;

/// Vulkan's `VK_FRONT_FACE_COUNTER_CLOCKWISE`.
pub const FRONT_FACE_COUNTER_CLOCKWISE: i32 = 0;

/// Vulkan's `VK_FRONT_FACE_CLOCKWISE`.
pub const FRONT_FACE_CLOCKWISE: i32 = 1;

/// Vulkan's `VK_POLYGON_MODE_FILL`.
pub const POLYGON_MODE_FILL: i32 = 0;

/// Vulkan's `VK_POLYGON_MODE_LINE`.
pub const POLYGON_MODE_LINE: i32 = 1;

/// Vulkan's `VK_POLYGON_MODE_POINT`.
pub const POLYGON_MODE_POINT: i32 = 2;

/// Vulkan's `VK_COMPARE_OP_LESS_OR_EQUAL`.
pub const COMPARE_OP_LESS_OR_EQUAL: i32 = 3;

/// Vulkan's `VK_VERTEX_INPUT_RATE_VERTEX`.
pub const VERTEX_INPUT_RATE_VERTEX: i32 = 0;

/// Vulkan's `VK_VERTEX_INPUT_RATE_INSTANCE`.
pub const VERTEX_INPUT_RATE_INSTANCE: i32 = 1;

/// How a color attachment blends: the Vulkan blend factors and operations
/// for color and for alpha.
#[derive(Clone, Copy, PartialEq, Eq, Structural, Debug)]
pub struct BlendState {
    pub source_color: i32,
    pub destination_color: i32,
    pub color_operation: i32,
    pub source_alpha: i32,
    pub destination_alpha: i32,
    pub alpha_operation: i32,
    pub enable: bool,
    /// Where false, alpha blends as color does.
    pub separate_alpha: bool,
}

/// A vertex attribute: its shader location, its stream, its offset in the
/// stream's elements and its Vulkan format.
#[derive(Clone, Copy, PartialEq, Eq, Structural, Debug)]
pub struct VertexAttribute {
    pub location: u32,
    pub binding: u32,
    pub offset: u32,
    pub format: i32,
}

/// A vertex stream: its binding, the size of its elements and whether it
/// advances per vertex or per instance.
#[derive(Clone, Copy, PartialEq, Eq, Structural, Debug)]
pub struct VertexStream {
    pub binding: u32,
    pub stride: u32,
    pub input_rate: i32,
}

/// The vertex attributes and streams of a pipeline.
pub struct VertexInputState {
    pub vertex_attributes: Vec<VertexAttribute>,
    pub vertex_streams: Vec<VertexStream>,
}

impl VertexInputState {
    pub fn new() -> (r: Self)
        ensures
            r.vertex_attributes@ == Seq::<VertexAttribute>::empty(),
            r.vertex_streams@ == Seq::<VertexStream>::empty(),
    {
        VertexInputState { vertex_attributes: Vec::new(), vertex_streams: Vec::new() }
    }

    pub fn add_vertex_attribute(self, location: u32, binding: u32, offset: u32, format: i32) -> (r: Self)
        ensures
            r.vertex_attributes@ == self.vertex_attributes@.push(VertexAttribute { location, binding, offset, format }),
            r.vertex_streams@ == self.vertex_streams@,
    {
        let mut s = self;
        s.vertex_attributes.push(VertexAttribute { location, binding, offset, format });
        s
    }

    pub fn add_vertex_stream(self, binding: u32, stride: u32, input_rate: i32) -> (r: Self)
        ensures
            r.vertex_attributes@ == self.vertex_attributes@,
            r.vertex_streams@ == self.vertex_streams@.push(VertexStream { binding, stride, input_rate }),
    {
        let mut s = self;
        s.vertex_streams.push(VertexStream { binding, stride, input_rate });
        s
    }
}

/// Which faces are culled, which face is the front one, and how polygons
/// are filled, as Vulkan values.
#[derive(Clone, Copy, PartialEq, Eq, Structural, Debug)]
pub struct RasterizationState {
    pub cull_mode: u32,
    pub front_face: i32,
    pub polygon_mode: i32,
}

impl RasterizationState {
    pub open spec fn spec_default() -> Self {
        RasterizationState {
            cull_mode: CULL_MODE_NONE,
            front_face: FRONT_FACE_COUNTER_CLOCKWISE,
            polygon_mode: POLYGON_MODE_FILL,
        }
    }

    /// No culling, counter-clockwise front faces, filled polygons.
    pub fn new() -> (r: Self)
        ensures
            r == Self::spec_default(),
    {
        RasterizationState {
            cull_mode: CULL_MODE_NONE,
            front_face: FRONT_FACE_COUNTER_CLOCKWISE,
            polygon_mode: POLYGON_MODE_FILL,
        }
    }

    pub fn set_cull_mode(self, cull_mode: u32) -> (r: Self)
        ensures
            r == (RasterizationState { cull_mode, ..self }),
    {
        RasterizationState { cull_mode, ..self }
    }

    pub fn set_front_face(self, front_face: i32) -> (r: Self)
        ensures
            r == (RasterizationState { front_face, ..self }),
    {
        RasterizationState { front_face, ..self }
    }

    pub fn set_polygon_mode(self, polygon_mode: i32) -> (r: Self)
        ensures
            r == (RasterizationState { polygon_mode, ..self }),
    {
        RasterizationState { polygon_mode, ..self }
    }
}

/// Whether the depth test and depth writes are on, and the Vulkan compare
/// operation of the test.
#[derive(Clone, Copy, PartialEq, Eq, Structural, Debug)]
pub struct DepthStencilState {
    pub depth_test_enable: bool,
    pub depth_write_enable: bool,
    pub depth_compare: i32,
}

impl DepthStencilState {
    pub open spec fn spec_default() -> Self {
        DepthStencilState {
            depth_test_enable: true,
            depth_write_enable: true,
            depth_compare: COMPARE_OP_LESS_OR_EQUAL,
        }
    }

    /// Depth test and writes on, passing where less or equal.
    pub fn new() -> (r: Self)
        ensures
            r == Self::spec_default(),
    {
        DepthStencilState { depth_test_enable: true, depth_write_enable: true, depth_compare: COMPARE_OP_LESS_OR_EQUAL }
    }

    pub fn set_depth_test(self, enable: bool) -> (r: Self)
        ensures
            r == (DepthStencilState { depth_test_enable: enable, ..self }),
    {
        DepthStencilState { depth_test_enable: enable, ..self }
    }

    pub fn set_depth_write(self, enable: bool) -> (r: Self)
        ensures
            r == (DepthStencilState { depth_write_enable: enable, ..self }),
    {
        DepthStencilState { depth_write_enable: enable, ..self }
    }

    pub fn set_depth_compare(self, depth_compare: i32) -> (r: Self)
        ensures
            r == (DepthStencilState { depth_compare, ..self }),
    {
        DepthStencilState { depth_compare, ..self }
    }
}

} // verus!
