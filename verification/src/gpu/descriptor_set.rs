use vstd::prelude::*;

verus! {

/// Vulkan's `VK_DESCRIPTOR_TYPE_COMBINED_IMAGE_SAMPLER`.
pub const DESCRIPTOR_TYPE_COMBINED_IMAGE_SAMPLER: i32 = 1;

/// Vulkan's `VK_DESCRIPTOR_TYPE_STORAGE_IMAGE`.
pub const DESCRIPTOR_TYPE_STORAGE_IMAGE: i32 = 3;

/// Vulkan's `VK_DESCRIPTOR_TYPE_UNIFORM_BUFFER`.
pub const DESCRIPTOR_TYPE_UNIFORM_BUFFER: i32 = 6;

/// Vulkan's `VK_DESCRIPTOR_TYPE_STORAGE_BUFFER`.
pub const DESCRIPTOR_TYPE_STORAGE_BUFFER: i32 = 7;

/// Vulkan's `VK_DESCRIPTOR_SET_LAYOUT_CREATE_UPDATE_AFTER_BIND_POOL_BIT`.
pub const LAYOUT_CREATE_UPDATE_AFTER_BIND_POOL: u32 = 0x2;

/// Vulkan's `VK_DESCRIPTOR_BINDING_UPDATE_AFTER_BIND_BIT`.
pub const BINDING_UPDATE_AFTER_BIND: u32 = 0x1;

/// Vulkan's `VK_DESCRIPTOR_BINDING_PARTIALLY_BOUND_BIT`.
pub const BINDING_PARTIALLY_BOUND: u32 = 0x4;

/// One binding of a descriptor set layout: its Vulkan descriptor type, its
/// binding index in the shader, its number of descriptors and the Vulkan
/// stages that see it.
#[derive(Clone, Copy, PartialEq, Eq, Structural, Debug)]
pub struct DescriptorBinding {
    pub descriptor_type: i32,
    pub index: u32,
    pub count: u32,
    pub shader_stage_flags: u32,
}

impl DescriptorBinding {
    pub fn new(descriptor_type: i32, index: u32, count: u32, shader_stage_flags: u32) -> (b: Self)
        ensures
            b == (DescriptorBinding { descriptor_type, index, count, shader_stage_flags }),
    {
        DescriptorBinding { descriptor_type, index, count, shader_stage_flags }
    }
}

/// How many descriptors of a type a pool holds.
#[derive(Clone, Copy, PartialEq, Eq, Structural, Debug)]
pub struct DescriptorPoolSize {
    pub descriptor_type: i32,
    pub count: u32,
}

/// What a descriptor pool is created with.
pub struct DescriptorPoolDesc {
    pub pool_sizes: Vec<DescriptorPoolSize>,
    pub flags: u32,
    pub max_sets: u32,
}

impl DescriptorPoolDesc {
    pub fn new() -> (d: Self)
        ensures
            d.pool_sizes@.len() == 0,
            d.flags == 0,
            d.max_sets == 0,
    {
        DescriptorPoolDesc { pool_sizes: Vec::new(), flags: 0, max_sets: 0 }
    }

    pub fn add_pool_size(self, descriptor_type: i32, count: u32) -> (d: Self)
        ensures
            d.pool_sizes@ == self.pool_sizes@.push(DescriptorPoolSize { descriptor_type, count }),
            d.flags == self.flags,
            d.max_sets == self.max_sets,
    {
        let mut d = self;
        d.pool_sizes.push(DescriptorPoolSize { descriptor_type, count });
        d
    }

    pub fn set_flags(self, flags: u32) -> (d: Self)
        ensures
            d.pool_sizes@ == self.pool_sizes@,
            d.flags == flags,
            d.max_sets == self.max_sets,
    {
        DescriptorPoolDesc { flags, ..self }
    }

    pub fn set_max_sets(self, max_sets: u32) -> (d: Self)
        ensures
            d.pool_sizes@ == self.pool_sizes@,
            d.flags == self.flags,
            d.max_sets == max_sets,
    {
        DescriptorPoolDesc { max_sets, ..self }
    }
}

/// What a descriptor set layout is created with.
pub struct DescriptorSetLayoutDesc {
    pub bindings: Vec<DescriptorBinding>,
    pub bindless: bool,
    pub dynamic: bool,
    pub flags: u32,
}

impl DescriptorSetLayoutDesc {
    pub fn new() -> (d: Self)
        ensures
            d.bindings@.len() == 0,
            !d.bindless,
            !d.dynamic,
            d.flags == 0,
    {
        DescriptorSetLayoutDesc { bindings: Vec::new(), bindless: false, dynamic: false, flags: 0 }
    }

    pub fn add_binding(self, binding: DescriptorBinding) -> (d: Self)
        ensures
            d.bindings@ == self.bindings@.push(binding),
            d.bindless == self.bindless,
            d.dynamic == self.dynamic,
            d.flags == self.flags,
    {
        let mut d = self;
        d.bindings.push(binding);
        d
    }

    pub fn set_bindings(self, bindings: Vec<DescriptorBinding>) -> (d: Self)
        ensures
            d.bindings@ == bindings@,
            d.bindless == self.bindless,
            d.dynamic == self.dynamic,
            d.flags == self.flags,
    {
        DescriptorSetLayoutDesc { bindings, ..self }
    }

    pub fn set_bindless(self, bindless: bool) -> (d: Self)
        ensures
            d.bindings@ == self.bindings@,
            d.bindless == bindless,
            d.dynamic == self.dynamic,
            d.flags == self.flags,
    {
        DescriptorSetLayoutDesc { bindless, ..self }
    }

    pub fn set_dynamic(self, dynamic: bool) -> (d: Self)
        ensures
            d.bindings@ == self.bindings@,
            d.bindless == self.bindless,
            d.dynamic == dynamic,
            d.flags == self.flags,
    {
        DescriptorSetLayoutDesc { dynamic, ..self }
    }

    pub fn set_flags(self, flags: u32) -> (d: Self)
        ensures
            d.bindings@ == self.bindings@,
            d.bindless == self.bindless,
            d.dynamic == self.dynamic,
            d.flags == flags,
    {
        DescriptorSetLayoutDesc { flags, ..self }
    }

    /// The flags that the Vulkan layout is created with: a bindless layout
    /// is updated after binding, from a pool that allows it.
    pub fn create_flags(&self) -> (f: u32)
        ensures
            f == if self.bindless {
                LAYOUT_CREATE_UPDATE_AFTER_BIND_POOL
            } else {
                self.flags
            },
    {
        if self.bindless {
            LAYOUT_CREATE_UPDATE_AFTER_BIND_POOL
        } else {
            self.flags
        }
    }

    /// The per-binding flags of a bindless layout: every binding partially
    /// bound and updatable after binding. A layout that is not bindless has
    /// none.
    pub fn binding_flags(&self) -> (f: Vec<u32>)
        ensures
            f@ == if self.bindless {
                Seq::new(self.bindings@.len(), |i: int| (BINDING_PARTIALLY_BOUND | BINDING_UPDATE_AFTER_BIND) as u32)
            } else {
                Seq::<u32>::empty()
            },
    {
        let mut f: Vec<u32> = Vec::new();
        if self.bindless {
            let mut i: usize = 0;
            while i < self.bindings.len()
                invariant
                    i <= self.bindings@.len(),
                    f@ == Seq::new(i as nat, |k: int| (BINDING_PARTIALLY_BOUND | BINDING_UPDATE_AFTER_BIND) as u32),
                decreases self.bindings@.len() - i,
            {
                f.push(BINDING_PARTIALLY_BOUND | BINDING_UPDATE_AFTER_BIND);
                i = i + 1;
                assert(f@ =~= Seq::new(i as nat, |k: int| (BINDING_PARTIALLY_BOUND | BINDING_UPDATE_AFTER_BIND) as u32));
            }
        }
        assert(self.bindless ==> f@ =~= Seq::new(
            self.bindings@.len(),
            |i: int| (BINDING_PARTIALLY_BOUND | BINDING_UPDATE_AFTER_BIND) as u32,
        ));
        f
    }
}

/// Whether descriptors of this type can live in the bindless set.
pub fn can_descriptor_type_be_bindless(descriptor_type: i32) -> (b: bool)
    ensures
        b == (descriptor_type == DESCRIPTOR_TYPE_COMBINED_IMAGE_SAMPLER || descriptor_type
            == DESCRIPTOR_TYPE_STORAGE_IMAGE),
{
    descriptor_type == DESCRIPTOR_TYPE_COMBINED_IMAGE_SAMPLER || descriptor_type == DESCRIPTOR_TYPE_STORAGE_IMAGE
}

/// The largest shader binding index among `bindings`, or -1 for none.
pub open spec fn max_binding_index(bindings: Seq<DescriptorBinding>) -> int
    decreases bindings.len(),
{
    if bindings.len() == 0 {
        -1
    } else {
        let before = max_binding_index(bindings.drop_last());
        if bindings.last().index as int > before {
            bindings.last().index as int
        } else {
            before
        }
    }
}

/// The position in `bindings` of the last binding with shader binding index
/// `shader_index`, or `usize::MAX` for none.
pub open spec fn binding_slot(bindings: Seq<DescriptorBinding>, shader_index: int) -> usize
    decreases bindings.len(),
{
    if bindings.len() == 0 {
        usize::MAX
    } else if bindings.last().index as int == shader_index {
        (bindings.len() - 1) as usize
    } else {
        binding_slot(bindings.drop_last(), shader_index)
    }
}

/// Why a descriptor set layout cannot be built.
#[derive(Clone, Copy, PartialEq, Eq, Structural, Debug)]
pub enum DescriptorSetLayoutError {
    /// The layout has no binding, or a binding index above the maximum.
    InvalidMaxBindingIndex,
}

impl DescriptorSetLayoutError {
    pub fn message(&self) -> (s: String)
        ensures
            s@ == "Maximum shader binding index is invalid"@,
    {
        String::from_str("Maximum shader binding index is invalid")
    }
}

/// What the renderer keeps of a descriptor set layout: its Vulkan handle,
/// its bindings, a table from shader binding index to position among the
/// bindings, and whether it is bindless or dynamic.
pub struct DescriptorSetLayout {
    raw: u64,
    bindings: Vec<DescriptorBinding>,
    binding_index_to_array_index: Vec<usize>,
    bindless: bool,
    dynamic: bool,
}

impl DescriptorSetLayout {
    pub closed spec fn spec_raw(&self) -> u64 {
        self.raw
    }

    pub closed spec fn spec_bindings(&self) -> Seq<DescriptorBinding> {
        self.bindings@
    }

    pub closed spec fn spec_table(&self) -> Seq<usize> {
        self.binding_index_to_array_index@
    }

    pub closed spec fn spec_bindless(&self) -> bool {
        self.bindless
    }

    pub closed spec fn spec_dynamic(&self) -> bool {
        self.dynamic
    }

    /// Checks the bindings of `desc` against the largest shader binding
    /// index `max_shader_binding_index` and builds the layout's table; the
    /// Vulkan handle is set once Vulkan has made the layout.
    pub fn from_desc(desc: DescriptorSetLayoutDesc, max_shader_binding_index: u32) -> (r: Result<
        Self,
        DescriptorSetLayoutError,
    >)
        requires
            max_binding_index(desc.bindings@) != max_shader_binding_index,
        ensures
            r is Err <==> (desc.bindings@.len() == 0 || max_binding_index(desc.bindings@) > max_shader_binding_index),
            r is Err ==> r->Err_0 == DescriptorSetLayoutError::InvalidMaxBindingIndex,
            r is Ok ==> {
                let layout = r->Ok_0;
                &&& layout.spec_raw() == 0
                &&& layout.spec_bindings() == desc.bindings@
                &&& layout.spec_table() == Seq::new(
                    max_shader_binding_index as nat,
                    |i: int| binding_slot(desc.bindings@, i),
                )
                &&& layout.spec_bindless() == desc.bindless
                &&& layout.spec_dynamic() == desc.dynamic
            },
    {
        let n = desc.bindings.len();
        if n == 0 {
            return Err(DescriptorSetLayoutError::InvalidMaxBindingIndex);
        }
        let mut max_index: u32 = 0;
        let mut k: usize = 0;
        while k < n
            invariant
                n == desc.bindings@.len(),
                k <= n,
                k == 0 ==> max_index == 0,
                k > 0 ==> max_index as int == max_binding_index(desc.bindings@.take(k as int)),
            decreases n - k,
        {
            proof {
                assert(desc.bindings@.take(k as int + 1).drop_last() =~= desc.bindings@.take(k as int));
                assert(desc.bindings@.take(k as int) =~= Seq::<DescriptorBinding>::empty() || k > 0);
                if k == 0 {
                    assert(max_binding_index(desc.bindings@.take(0)) == -1);
                }
            }
            if k == 0 || desc.bindings[k].index > max_index {
                max_index = desc.bindings[k].index;
            }
            k = k + 1;
        }
        assert(desc.bindings@.take(n as int) =~= desc.bindings@);
        if max_index > max_shader_binding_index {
            return Err(DescriptorSetLayoutError::InvalidMaxBindingIndex);
        }
        let mut table: Vec<usize> = Vec::new();
        let mut i: u32 = 0;
        while i < max_shader_binding_index
            invariant
                i <= max_shader_binding_index,
                table@ == Seq::new(i as nat, |j: int| usize::MAX),
            decreases max_shader_binding_index - i,
        {
            table.push(usize::MAX);
            i = i + 1;
            assert(table@ =~= Seq::new(i as nat, |j: int| usize::MAX));
        }
        assert(table@ =~= Seq::new(
            max_shader_binding_index as nat,
            |j: int| binding_slot(desc.bindings@.take(0), j),
        ));
        let mut a: usize = 0;
        while a < n
            invariant
                n == desc.bindings@.len(),
                a <= n,
                max_index as int == max_binding_index(desc.bindings@),
                max_index < max_shader_binding_index,
                table@ == Seq::new(
                    max_shader_binding_index as nat,
                    |j: int| binding_slot(desc.bindings@.take(a as int), j),
                ),
            decreases n - a,
        {
            let index = desc.bindings[a].index;
            proof {
                lemma_index_at_most_max(desc.bindings@, a as int);
            }
            table.set(index as usize, a);
            proof {
                let prev = desc.bindings@.take(a as int);
                let next = desc.bindings@.take(a as int + 1);
                assert(next.drop_last() =~= prev);
                assert(next.last() == desc.bindings@[a as int]);
                assert(table@ =~= Seq::new(
                    max_shader_binding_index as nat,
                    |j: int| binding_slot(next, j),
                ));
            }
            a = a + 1;
        }
        assert(desc.bindings@.take(n as int) =~= desc.bindings@);
        Ok(DescriptorSetLayout {
            raw: 0,
            bindings: desc.bindings,
            binding_index_to_array_index: table,
            bindless: desc.bindless,
            dynamic: desc.dynamic,
        })
    }

    /// The layout with the Vulkan handle `raw`.
    pub fn with_raw(self, raw: u64) -> (l: Self)
        ensures
            l.spec_raw() == raw,
            l.spec_bindings() == self.spec_bindings(),
            l.spec_table() == self.spec_table(),
            l.spec_bindless() == self.spec_bindless(),
            l.spec_dynamic() == self.spec_dynamic(),
    {
        DescriptorSetLayout { raw, ..self }
    }

    pub fn raw(&self) -> (r: u64)
        ensures
            r == self.spec_raw(),
    {
        self.raw
    }

    pub fn num_bidings(&self) -> (n: u32)
        requires
            self.spec_bindings().len() <= u32::MAX,
        ensures
            n == self.spec_bindings().len(),
    {
        self.bindings.len() as u32
    }

    pub fn bindings(&self) -> (b: &[DescriptorBinding])
        ensures
            b@ == self.spec_bindings(),
    {
        self.bindings.as_slice()
    }

    /// The binding that the shader sees at `shader_binding_index`.
    pub fn binding_for_shader_binding_index(&self, shader_binding_index: u32) -> (b: &DescriptorBinding)
        requires
            shader_binding_index < self.spec_table().len(),
            self.spec_table()[shader_binding_index as int] < self.spec_bindings().len(),
        ensures
            *b == self.spec_bindings()[self.spec_table()[shader_binding_index as int] as int],
    {
        let slot = self.binding_index_to_array_index[shader_binding_index as usize];
        &self.bindings[slot]
    }

    pub fn is_bindless(&self) -> (b: bool)
        ensures
            b == self.spec_bindless(),
    {
        self.bindless
    }
}

proof fn lemma_index_at_most_max(bindings: Seq<DescriptorBinding>, a: int)
    requires
        0 <= a < bindings.len(),
    ensures
        bindings[a].index as int <= max_binding_index(bindings),
    decreases bindings.len(),
{
    if a < bindings.len() - 1 {
        lemma_index_at_most_max(bindings.drop_last(), a);
    }
}

/// The kind of resource bound to a descriptor.
#[derive(Clone, Copy, PartialEq, Eq, Structural, Debug)]
pub enum DescriptorSetBindingResourceType {
    Buffer,
    ImageSampler,
}

/// Vulkan's `VK_IMAGE_LAYOUT_GENERAL`.
pub const IMAGE_LAYOUT_GENERAL: i32 = 1;

/// Vulkan's `VK_IMAGE_LAYOUT_SHADER_READ_ONLY_OPTIMAL`.
pub const IMAGE_LAYOUT_SHADER_READ_ONLY_OPTIMAL: i32 = 5;

/// A resource bound at a shader binding index: a buffer or an image, named
/// by the handle the renderer finds it again by.
#[derive(Clone, Copy, PartialEq, Eq, Structural, Debug)]
pub struct DescriptorSetBindingResource {
    pub resource_type: DescriptorSetBindingResourceType,
    pub buffer: Option<u64>,
    pub image: Option<u64>,
    pub count: u32,
    pub binding_index: u32,
}

impl DescriptorSetBindingResource {
    pub open spec fn spec_resource_type(self) -> DescriptorSetBindingResourceType {
        self.resource_type
    }

    pub fn buffer(buffer: u64, binding_index: u32) -> (r: Self)
        ensures
            r.spec_resource_type() == DescriptorSetBindingResourceType::Buffer,
            r.buffer == Some(buffer),
            r.image is None,
            r.count == 1,
            r.binding_index == binding_index,
    {
        DescriptorSetBindingResource {
            resource_type: DescriptorSetBindingResourceType::Buffer,
            buffer: Some(buffer),
            image: None,
            count: 1,
            binding_index,
        }
    }

    pub fn image(image: u64, binding_index: u32) -> (r: Self)
        ensures
            r.spec_resource_type() == DescriptorSetBindingResourceType::ImageSampler,
            r.buffer is None,
            r.image == Some(image),
            r.count == 1,
            r.binding_index == binding_index,
    {
        DescriptorSetBindingResource {
            resource_type: DescriptorSetBindingResourceType::ImageSampler,
            buffer: None,
            image: Some(image),
            count: 1,
            binding_index,
        }
    }

    pub fn resource_type(&self) -> (t: DescriptorSetBindingResourceType)
        ensures
            t == self.spec_resource_type(),
    {
        self.resource_type
    }
}

/// What a descriptor set is allocated from and bound to: its resources,
/// its pool and its layout, by handle.
pub struct DescriptorSetDesc {
    pub binding_resources: Vec<DescriptorSetBindingResource>,
    pub pool: Option<u64>,
    pub layout: u64,
}

impl DescriptorSetDesc {
    pub fn new(layout: u64) -> (d: Self)
        ensures
            d.binding_resources@.len() == 0,
            d.pool is None,
            d.layout == layout,
    {
        DescriptorSetDesc { binding_resources: Vec::new(), pool: None, layout }
    }

    pub fn set_binding_resources(self, binding_resources: Vec<DescriptorSetBindingResource>) -> (d: Self)
        ensures
            d.binding_resources@ == binding_resources@,
            d.pool == self.pool,
            d.layout == self.layout,
    {
        DescriptorSetDesc { binding_resources, ..self }
    }

    pub fn add_binding_resource(self, binding_resource: DescriptorSetBindingResource) -> (d: Self)
        ensures
            d.binding_resources@ == self.binding_resources@.push(binding_resource),
            d.pool == self.pool,
            d.layout == self.layout,
    {
        let mut d = self;
        d.binding_resources.push(binding_resource);
        d
    }

    pub fn add_buffer_resource(self, buffer: u64, binding_index: u32) -> (d: Self)
        ensures
            d.binding_resources@.len() == self.binding_resources@.len() + 1,
            d.binding_resources@.drop_last() == self.binding_resources@,
            d.binding_resources@.last().spec_resource_type() == DescriptorSetBindingResourceType::Buffer,
            d.binding_resources@.last().buffer == Some(buffer),
            d.binding_resources@.last().image is None,
            d.binding_resources@.last().count == 1,
            d.binding_resources@.last().binding_index == binding_index,
            d.pool == self.pool,
            d.layout == self.layout,
    {
        let r = DescriptorSetBindingResource::buffer(buffer, binding_index);
        let d = self.add_binding_resource(r);
        assert(d.binding_resources@.drop_last() =~= self.binding_resources@);
        d
    }

    pub fn add_image_resource(self, image: u64, binding_index: u32) -> (d: Self)
        ensures
            d.binding_resources@.len() == self.binding_resources@.len() + 1,
            d.binding_resources@.drop_last() == self.binding_resources@,
            d.binding_resources@.last().spec_resource_type() == DescriptorSetBindingResourceType::ImageSampler,
            d.binding_resources@.last().buffer is None,
            d.binding_resources@.last().image == Some(image),
            d.binding_resources@.last().count == 1,
            d.binding_resources@.last().binding_index == binding_index,
            d.pool == self.pool,
            d.layout == self.layout,
    {
        let r = DescriptorSetBindingResource::image(image, binding_index);
        let d = self.add_binding_resource(r);
        assert(d.binding_resources@.drop_last() =~= self.binding_resources@);
        d
    }

    pub fn set_pool(self, pool: u64) -> (d: Self)
        ensures
            d.binding_resources@ == self.binding_resources@,
            d.pool == Some(pool),
            d.layout == self.layout,
    {
        DescriptorSetDesc { pool: Some(pool), ..self }
    }
}

/// What one descriptor write points at.
#[derive(Clone, Copy, PartialEq, Eq, Structural, Debug)]
pub enum WriteInfo {
    /// An image in the given Vulkan layout, with its linked sampler or not.
    Image { image: u64, image_layout: i32, with_sampler: bool },
    /// A whole buffer, from offset zero.
    Buffer { buffer: u64 },
}

/// One Vulkan descriptor write: the binding it fills, its descriptor type
/// and count, and what it points at.
#[derive(Clone, Copy, PartialEq, Eq, Structural, Debug)]
pub struct DescriptorWrite {
    pub binding: u32,
    pub descriptor_type: i32,
    pub count: u32,
    pub info: WriteInfo,
}

/// The layout binding that `resource` is bound to.
pub open spec fn resource_binding(layout: DescriptorSetLayout, resource: DescriptorSetBindingResource) -> DescriptorBinding {
    layout.spec_bindings()[layout.spec_table()[resource.binding_index as int] as int]
}

/// A bindless layout takes no write for a binding whose descriptors live in
/// the bindless set.
pub open spec fn write_skipped(layout: DescriptorSetLayout, binding: DescriptorBinding) -> bool {
    layout.spec_bindless() && (binding.descriptor_type == DESCRIPTOR_TYPE_COMBINED_IMAGE_SAMPLER
        || binding.descriptor_type == DESCRIPTOR_TYPE_STORAGE_IMAGE)
}

/// The write for `resource` at `binding`.
pub open spec fn write_for(binding: DescriptorBinding, resource: DescriptorSetBindingResource) -> DescriptorWrite {
    let info = if binding.descriptor_type == DESCRIPTOR_TYPE_COMBINED_IMAGE_SAMPLER {
        WriteInfo::Image {
            image: resource.image->0,
            image_layout: IMAGE_LAYOUT_SHADER_READ_ONLY_OPTIMAL,
            with_sampler: true,
        }
    } else if binding.descriptor_type == DESCRIPTOR_TYPE_STORAGE_IMAGE {
        WriteInfo::Image { image: resource.image->0, image_layout: IMAGE_LAYOUT_GENERAL, with_sampler: false }
    } else {
        WriteInfo::Buffer { buffer: resource.buffer->0 }
    };
    DescriptorWrite {
        binding: resource.binding_index,
        descriptor_type: binding.descriptor_type,
        count: binding.count,
        info,
    }
}

/// `resource` finds its binding in `layout` at its own index, and, unless
/// its write is skipped, the binding's type is one that can be written and
/// the resource holds what the write needs: an image with a count of one
/// for a combined image sampler, an image for a storage image, a buffer for
/// a uniform or storage buffer.
pub open spec fn resource_writable(layout: DescriptorSetLayout, resource: DescriptorSetBindingResource) -> bool {
    let binding = resource_binding(layout, resource);
    &&& resource.binding_index < layout.spec_table().len()
    &&& layout.spec_table()[resource.binding_index as int] < layout.spec_bindings().len()
    &&& binding.index == resource.binding_index
    &&& !write_skipped(layout, binding) ==> {
        ||| binding.descriptor_type == DESCRIPTOR_TYPE_COMBINED_IMAGE_SAMPLER && binding.count == 1
            && resource.image is Some
        ||| binding.descriptor_type == DESCRIPTOR_TYPE_STORAGE_IMAGE && resource.image is Some
        ||| (binding.descriptor_type == DESCRIPTOR_TYPE_UNIFORM_BUFFER || binding.descriptor_type
            == DESCRIPTOR_TYPE_STORAGE_BUFFER) && resource.buffer is Some
    }
}

/// The writes for `resources`, in order, leaving out the skipped ones.
pub open spec fn planned_writes(layout: DescriptorSetLayout, resources: Seq<DescriptorSetBindingResource>) -> Seq<
    DescriptorWrite,
>
    decreases resources.len(),
{
    if resources.len() == 0 {
        Seq::empty()
    } else {
        let before = planned_writes(layout, resources.drop_last());
        let binding = resource_binding(layout, resources.last());
        if write_skipped(layout, binding) {
            before
        } else {
            before.push(write_for(binding, resources.last()))
        }
    }
}

/// The descriptor writes that update a set of layout `layout` with
/// `resources`.
pub fn descriptor_writes(layout: &DescriptorSetLayout, resources: &[DescriptorSetBindingResource]) -> (writes: Vec<
    DescriptorWrite,
>)
    requires
        forall|i: int| 0 <= i < resources@.len() ==> resource_writable(*layout, #[trigger] resources@[i]),
    ensures
        writes@ == planned_writes(*layout, resources@),
{
    let mut writes: Vec<DescriptorWrite> = Vec::new();
    let mut i: usize = 0;
    while i < resources.len()
        invariant
            i <= resources@.len(),
            forall|k: int| 0 <= k < resources@.len() ==> resource_writable(*layout, #[trigger] resources@[k]),
            writes@ == planned_writes(*layout, resources@.take(i as int)),
        decreases resources@.len() - i,
    {
        let resource = resources[i];
        proof {
            assert(resource_writable(*layout, resources@[i as int]));
            assert(resources@.take(i as int + 1).drop_last() =~= resources@.take(i as int));
            assert(resources@.take(i as int + 1).last() == resource);
        }
        let binding = *layout.binding_for_shader_binding_index(resource.binding_index);
        if !(layout.is_bindless() && can_descriptor_type_be_bindless(binding.descriptor_type)) {
            let info = if binding.descriptor_type == DESCRIPTOR_TYPE_COMBINED_IMAGE_SAMPLER {
                WriteInfo::Image {
                    image: resource.image.unwrap(),
                    image_layout: IMAGE_LAYOUT_SHADER_READ_ONLY_OPTIMAL,
                    with_sampler: true,
                }
            } else if binding.descriptor_type == DESCRIPTOR_TYPE_STORAGE_IMAGE {
                WriteInfo::Image { image: resource.image.unwrap(), image_layout: IMAGE_LAYOUT_GENERAL, with_sampler: false }
            } else {
                WriteInfo::Buffer { buffer: resource.buffer.unwrap() }
            };
            writes.push(
                DescriptorWrite {
                    binding: resource.binding_index,
                    descriptor_type: binding.descriptor_type,
                    count: binding.count,
                    info,
                },
            );
        }
        i = i + 1;
    }
    assert(resources@.take(i as int) =~= resources@);
    writes
}

proof fn lemma_binding_slot(bindings: Seq<DescriptorBinding>, k: int)
    requires
        0 <= k < bindings.len(),
        bindings.len() <= usize::MAX,
    ensures
        k <= binding_slot(bindings, bindings[k].index as int) < bindings.len(),
        bindings[binding_slot(bindings, bindings[k].index as int) as int].index == bindings[k].index,
        (forall|j: int| 0 <= j < bindings.len() && j != k ==> #[trigger] bindings[j].index != bindings[k].index)
            ==> binding_slot(bindings, bindings[k].index as int) == k,
    decreases bindings.len(),
{
    let idx = bindings[k].index as int;
    let rest = bindings.drop_last();
    if bindings.last().index as int != idx {
        assert(k < bindings.len() - 1);
        assert(rest[k] == bindings[k]);
        lemma_binding_slot(rest, k);
        let slot = binding_slot(rest, idx);
        assert(binding_slot(bindings, idx) == slot);
        assert(rest[slot as int] == bindings[slot as int]);
        if forall|j: int| 0 <= j < bindings.len() && j != k ==> #[trigger] bindings[j].index != bindings[k].index {
            assert forall|j: int| 0 <= j < rest.len() && j != k implies #[trigger] rest[j].index != rest[k].index by {
                assert(rest[j] == bindings[j]);
            }
        }
    } else {
        assert(bindings.last() == bindings[bindings.len() - 1]);
        assert(binding_slot(bindings, idx) == (bindings.len() - 1) as usize);
        assert(bindings[bindings.len() - 1].index == bindings[k].index);
    }
}

/// A layout built from a description finds each of its bindings by the
/// binding's shader index: the lookup gives a binding of that index, and
/// the binding itself where no other binding shares the index.
pub proof fn lemma_layout_finds_bindings(bindings: Seq<DescriptorBinding>, max_shader_binding_index: u32, layout: DescriptorSetLayout, k: int)
    requires
        layout.spec_bindings() == bindings,
        bindings.len() <= usize::MAX,
        layout.spec_table() == Seq::new(max_shader_binding_index as nat, |i: int| binding_slot(bindings, i)),
        0 <= k < bindings.len(),
        bindings[k].index < max_shader_binding_index,
    ensures
        bindings[k].index < layout.spec_table().len(),
        layout.spec_table()[bindings[k].index as int] < layout.spec_bindings().len(),
        layout.spec_bindings()[layout.spec_table()[bindings[k].index as int] as int].index == bindings[k].index,
        (forall|j: int| 0 <= j < bindings.len() && j != k ==> #[trigger] bindings[j].index != bindings[k].index)
            ==> layout.spec_bindings()[layout.spec_table()[bindings[k].index as int] as int] == bindings[k],
{
    lemma_binding_slot(bindings, k);
}

} // verus!
