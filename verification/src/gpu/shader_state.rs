use vstd::prelude::*;

verus! {

/// Vulkan's `VK_SHADER_STAGE_VERTEX_BIT`.
pub const SHADER_STAGE_VERTEX: u32 = 0x1;

/// Vulkan's `VK_SHADER_STAGE_GEOMETRY_BIT`.
pub const SHADER_STAGE_GEOMETRY: u32 = 0x8;

/// Vulkan's `VK_SHADER_STAGE_FRAGMENT_BIT`.
pub const SHADER_STAGE_FRAGMENT: u32 = 0x10;

/// Vulkan's `VK_SHADER_STAGE_COMPUTE_BIT`.
pub const SHADER_STAGE_COMPUTE: u32 = 0x20;

/// Vulkan's `VK_SHADER_STAGE_TASK_BIT_NV`.
pub const SHADER_STAGE_TASK: u32 = 0x40;

/// Vulkan's `VK_SHADER_STAGE_MESH_BIT_NV`.
pub const SHADER_STAGE_MESH: u32 = 0x80;

/// The stage of the pipeline that a shader runs in.
#[derive(Clone, Copy, PartialEq, Eq, Structural, Debug)]
pub enum ShaderStageType {
    Vertex,
    Fragment,
    Geometry,
    Compute,
    Mesh,
    Task,
}

pub open spec fn spec_stage_flags(shader_type: ShaderStageType) -> u32 {
    match shader_type {
        ShaderStageType::Vertex => SHADER_STAGE_VERTEX,
        ShaderStageType::Fragment => SHADER_STAGE_FRAGMENT,
        ShaderStageType::Geometry => SHADER_STAGE_GEOMETRY,
        ShaderStageType::Compute => SHADER_STAGE_COMPUTE,
        ShaderStageType::Mesh => SHADER_STAGE_MESH,
        ShaderStageType::Task => SHADER_STAGE_TASK,
    }
}

/// The Vulkan stage flag of a shader stage.
pub fn shader_stage_type_to_vk_flags(shader_type: ShaderStageType) -> (flags: u32)
    ensures
        flags == spec_stage_flags(shader_type),
{
    match shader_type {
        ShaderStageType::Vertex => SHADER_STAGE_VERTEX,
        ShaderStageType::Fragment => SHADER_STAGE_FRAGMENT,
        ShaderStageType::Geometry => SHADER_STAGE_GEOMETRY,
        ShaderStageType::Compute => SHADER_STAGE_COMPUTE,
        ShaderStageType::Mesh => SHADER_STAGE_MESH,
        ShaderStageType::Task => SHADER_STAGE_TASK,
    }
}

/// Where a shader stage's code comes from.
#[derive(Clone, Copy, PartialEq, Eq, Structural, Debug)]
pub enum ShaderStageDataReadType {
    Bytes,
    BytesFromFile,
    SourceFromString,
    SourceFromFile,
}

/// One shader stage: where its code comes from, and its stage.
pub struct ShaderStageDesc {
    pub read_type: ShaderStageDataReadType,
    pub file_name: Option<String>,
    pub source: Option<String>,
    pub bytes: Option<Vec<u8>>,
    pub shader_type: ShaderStageType,
}

impl ShaderStageDesc {
    /// A stage compiled from the source file `file_name`.
    pub fn new_from_source_file(file_name: &str, shader_type: ShaderStageType) -> (d: Self)
        ensures
            d.read_type == ShaderStageDataReadType::SourceFromFile,
            d.file_name is Some,
            d.file_name->0@ == file_name@,
            d.source is None,
            d.bytes is None,
            d.shader_type == shader_type,
    {
        ShaderStageDesc {
            read_type: ShaderStageDataReadType::SourceFromFile,
            file_name: Some(file_name.to_owned()),
            source: None,
            bytes: None,
            shader_type,
        }
    }
}

/// The shader stages of a pipeline, in order.
pub struct ShaderStateDesc {
    pub stages: Vec<ShaderStageDesc>,
}

impl ShaderStateDesc {
    pub fn new() -> (d: Self)
        ensures
            d.stages@.len() == 0,
    {
        ShaderStateDesc { stages: Vec::new() }
    }

    pub fn add_stage(self, stage: ShaderStageDesc) -> (d: Self)
        ensures
            d.stages@ == self.stages@.push(stage),
    {
        let mut d = self;
        d.stages.push(stage);
        d
    }
}

/// Why a shader state cannot be built.
#[derive(Clone, Copy, PartialEq, Eq, Structural, Debug)]
pub enum ShaderStateError {
    /// The description has no stage.
    NoStages,
}

impl ShaderStateError {
    pub fn message(&self) -> (s: String)
        ensures
            s@ == "Shader stages from description is empty!"@,
    {
        String::from_str("Shader stages from description is empty!")
    }
}

/// The Vulkan stage flags of the stages of `desc`, in order, as the
/// pipeline's stage create infos carry them; an error for a description
/// without stages.
pub fn shader_stage_flags(desc: &ShaderStateDesc) -> (r: Result<Vec<u32>, ShaderStateError>)
    ensures
        desc.stages@.len() == 0 <==> r is Err,
        r is Err ==> r->Err_0 == ShaderStateError::NoStages,
        r is Ok ==> r->Ok_0@ == desc.stages@.map_values(|s: ShaderStageDesc| spec_stage_flags(s.shader_type)),
{
    if desc.stages.len() == 0 {
        return Err(ShaderStateError::NoStages);
    }
    let mut flags: Vec<u32> = Vec::new();
    let mut i: usize = 0;
    while i < desc.stages.len()
        invariant
            i <= desc.stages@.len(),
            flags@ == desc.stages@.take(i as int).map_values(|s: ShaderStageDesc| spec_stage_flags(s.shader_type)),
        decreases desc.stages@.len() - i,
    {
        let f = shader_stage_type_to_vk_flags(desc.stages[i].shader_type);
        flags.push(f);
        proof {
            assert(desc.stages@.take(i as int + 1) =~= desc.stages@.take(i as int).push(desc.stages@[i as int]));
        }
        i = i + 1;
        assert(flags@ =~= desc.stages@.take(i as int).map_values(|s: ShaderStageDesc| spec_stage_flags(s.shader_type)));
    }
    assert(desc.stages@.take(i as int) =~= desc.stages@);
    Ok(flags)
}

/// Where the code of a shader stage is taken from.
pub enum ShaderCode {
    /// Compiled from the source file `source` into the binary `destination`.
    CompileFile { source: String, destination: String },
    /// Read from the binary file `file`.
    ReadBinaryFile { file: String },
    /// The bytes the description holds.
    Bytes { bytes: Vec<u8> },
}

/// The stage's code can be found: a file name where it is read from a file,
/// bytes where it holds them. Compiling from a string is not supported.
pub open spec fn shader_code_available(desc: ShaderStageDesc) -> bool {
    match desc.read_type {
        ShaderStageDataReadType::SourceFromFile => desc.file_name is Some,
        ShaderStageDataReadType::BytesFromFile => desc.file_name is Some,
        ShaderStageDataReadType::Bytes => desc.bytes is Some,
        ShaderStageDataReadType::SourceFromString => false,
    }
}

/// Where the code of stage `desc` comes from: a source file compiles to the
/// binary of the same name with `.spv` appended.
pub fn shader_code(desc: &ShaderStageDesc) -> (code: ShaderCode)
    requires
        shader_code_available(*desc),
    ensures
        desc.read_type == ShaderStageDataReadType::SourceFromFile ==> (code matches ShaderCode::CompileFile {
            source,
            destination,
        } && source@ == desc.file_name->0@ && destination@ == desc.file_name->0@ + ".spv"@),
        desc.read_type == ShaderStageDataReadType::BytesFromFile ==> (code matches ShaderCode::ReadBinaryFile { file }
            && file@ == desc.file_name->0@),
        desc.read_type == ShaderStageDataReadType::Bytes ==> (code matches ShaderCode::Bytes { bytes } && bytes@
            == desc.bytes->0@),
{
    match desc.read_type {
        ShaderStageDataReadType::SourceFromFile => {
            let source = desc.file_name.as_ref().unwrap().clone();
            let destination = source.clone().concat(".spv");
            ShaderCode::CompileFile { source, destination }
        },
        ShaderStageDataReadType::BytesFromFile => {
            ShaderCode::ReadBinaryFile { file: desc.file_name.as_ref().unwrap().clone() }
        },
        ShaderStageDataReadType::Bytes => {
            let from = desc.bytes.as_ref().unwrap();
            let mut bytes: Vec<u8> = Vec::new();
            let mut i: usize = 0;
            while i < from.len()
                invariant
                    i <= from@.len(),
                    bytes@ == from@.take(i as int),
                decreases from@.len() - i,
            {
                bytes.push(from[i]);
                i = i + 1;
                assert(bytes@ =~= from@.take(i as int));
            }
            assert(from@.take(i as int) =~= from@);
            ShaderCode::Bytes { bytes }
        },
        ShaderStageDataReadType::SourceFromString => vstd::pervasive::unreached(),
    }
}

} // verus!
