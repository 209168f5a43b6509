use vstd::prelude::*;

use crate::gpu::descriptor_set::DescriptorBinding;
use crate::gpu::descriptor_set::DescriptorPoolDesc;
use crate::gpu::descriptor_set::DescriptorPoolSize;
use crate::gpu::descriptor_set::DescriptorSetLayoutDesc;
use crate::gpu::descriptor_set::DESCRIPTOR_TYPE_COMBINED_IMAGE_SAMPLER;
use crate::gpu::descriptor_set::DESCRIPTOR_TYPE_STORAGE_IMAGE;
use crate::gpu::descriptor_set::IMAGE_LAYOUT_SHADER_READ_ONLY_OPTIMAL;
use crate::gpu::descriptor_set::LAYOUT_CREATE_UPDATE_AFTER_BIND_POOL;
use crate::gpu::pipeline::BindlessSetup;
use crate::gpu::shader_state::SHADER_STAGE_FRAGMENT;

verus! {

/// Vulkan's `VK_DESCRIPTOR_POOL_CREATE_UPDATE_AFTER_BIND_BIT`.
pub const POOL_CREATE_UPDATE_AFTER_BIND: u32 = 0x2;

/// The descriptor types of the global pool, in the order the pool lists
/// them: sampler, combined image sampler, sampled image, storage image,
/// uniform buffer, dynamic uniform buffer, uniform texel buffer, storage
/// buffer, dynamic storage buffer, storage texel buffer, input attachment.
pub open spec fn global_pool_types() -> Seq<i32> {
    seq![0i32, 1, 2, 3, 6, 8, 4, 7, 9, 5, 10]
}

/// The global descriptor pool: `max_sets` sets, `element_size` descriptors
/// of every type.
pub fn global_descriptor_pool_desc(max_sets: u32, element_size: u32) -> (d: DescriptorPoolDesc)
    ensures
        d.max_sets == max_sets,
        d.flags == 0,
        d.pool_sizes@ == global_pool_types().map_values(|t: i32| DescriptorPoolSize { descriptor_type: t, count: element_size }),
{
    let d = DescriptorPoolDesc::new().set_max_sets(max_sets).add_pool_size(0, element_size).add_pool_size(
        1,
        element_size,
    ).add_pool_size(2, element_size).add_pool_size(3, element_size).add_pool_size(6, element_size).add_pool_size(
        8,
        element_size,
    ).add_pool_size(4, element_size).add_pool_size(7, element_size).add_pool_size(9, element_size).add_pool_size(
        5,
        element_size,
    ).add_pool_size(10, element_size);
    assert(d.pool_sizes@ =~= global_pool_types().map_values(
        |t: i32| DescriptorPoolSize { descriptor_type: t, count: element_size },
    ));
    d
}

/// The bindless descriptor pool: updatable after binding, twice as many
/// sets as bindless resources, and that many combined image samplers and
/// storage images.
pub fn bindless_descriptor_pool_desc(setup: BindlessSetup) -> (d: DescriptorPoolDesc)
    requires
        setup.max_resources * 2 <= u32::MAX,
    ensures
        d.flags == POOL_CREATE_UPDATE_AFTER_BIND,
        d.max_sets == setup.max_resources * 2,
        d.pool_sizes@ == seq![
            DescriptorPoolSize { descriptor_type: DESCRIPTOR_TYPE_COMBINED_IMAGE_SAMPLER, count: setup.max_resources },
            DescriptorPoolSize { descriptor_type: DESCRIPTOR_TYPE_STORAGE_IMAGE, count: setup.max_resources },
        ],
{
    let d = DescriptorPoolDesc::new().set_flags(POOL_CREATE_UPDATE_AFTER_BIND).set_max_sets(
        setup.max_resources * 2,
    ).add_pool_size(DESCRIPTOR_TYPE_COMBINED_IMAGE_SAMPLER, setup.max_resources).add_pool_size(
        DESCRIPTOR_TYPE_STORAGE_IMAGE,
        setup.max_resources,
    );
    assert(d.pool_sizes@ =~= seq![
        DescriptorPoolSize { descriptor_type: DESCRIPTOR_TYPE_COMBINED_IMAGE_SAMPLER, count: setup.max_resources },
        DescriptorPoolSize { descriptor_type: DESCRIPTOR_TYPE_STORAGE_IMAGE, count: setup.max_resources },
    ]);
    d
}

/// The bindings of the bindless set: the sampled images, then the storage
/// images, each `max_resources` descriptors seen by the fragment stage.
pub open spec fn bindless_bindings(setup: BindlessSetup) -> Seq<DescriptorBinding> {
    seq![
        DescriptorBinding {
            descriptor_type: DESCRIPTOR_TYPE_COMBINED_IMAGE_SAMPLER,
            index: setup.sampled_image_index,
            count: setup.max_resources,
            shader_stage_flags: SHADER_STAGE_FRAGMENT,
        },
        DescriptorBinding {
            descriptor_type: DESCRIPTOR_TYPE_STORAGE_IMAGE,
            index: setup.storage_image_index,
            count: setup.max_resources,
            shader_stage_flags: SHADER_STAGE_FRAGMENT,
        },
    ]
}

/// The layout of the bindless set, shared by every pipeline that samples
/// bindless textures.
pub fn bindless_descriptor_set_layout_desc(setup: BindlessSetup) -> (d: DescriptorSetLayoutDesc)
    ensures
        d.bindings@ == bindless_bindings(setup),
        d.bindless,
        !d.dynamic,
        d.flags == LAYOUT_CREATE_UPDATE_AFTER_BIND_POOL,
{
    let d = DescriptorSetLayoutDesc::new().set_flags(LAYOUT_CREATE_UPDATE_AFTER_BIND_POOL).set_bindless(true).add_binding(
        DescriptorBinding::new(
            DESCRIPTOR_TYPE_COMBINED_IMAGE_SAMPLER,
            setup.sampled_image_index,
            setup.max_resources,
            SHADER_STAGE_FRAGMENT,
        ),
    ).add_binding(
        DescriptorBinding::new(
            DESCRIPTOR_TYPE_STORAGE_IMAGE,
            setup.storage_image_index,
            setup.max_resources,
            SHADER_STAGE_FRAGMENT,
        ),
    );
    assert(d.bindings@ =~= bindless_bindings(setup));
    d
}

/// An image to enter in the bindless set: its view and slot, and the
/// sampler it asks for, if any.
#[derive(Clone, Copy, PartialEq, Eq, Structural, Debug)]
pub struct BindlessImageUpdate {
    pub image_view: Option<u64>,
    pub bindless_index: u32,
    pub sampler: Option<u64>,
}

/// One write into the bindless set: the slot, the binding, and the image
/// view and sampler it holds, read-only in shaders.
#[derive(Clone, Copy, PartialEq, Eq, Structural, Debug)]
pub struct BindlessImageWrite {
    pub array_element: u32,
    pub binding: u32,
    pub image_view: u64,
    pub sampler: u64,
    pub image_layout: i32,
}

pub open spec fn bindless_write_for(update: BindlessImageUpdate, default_sampler: u64, binding: u32) -> BindlessImageWrite {
    BindlessImageWrite {
        array_element: update.bindless_index,
        binding,
        image_view: update.image_view->0,
        sampler: match update.sampler {
            Some(s) => s,
            None => default_sampler,
        },
        image_layout: IMAGE_LAYOUT_SHADER_READ_ONLY_OPTIMAL,
    }
}

/// The writes for the updates that carry an image, in order.
pub open spec fn bindless_writes(updates: Seq<BindlessImageUpdate>, default_sampler: u64, binding: u32) -> Seq<
    BindlessImageWrite,
>
    decreases updates.len(),
{
    if updates.len() == 0 {
        Seq::empty()
    } else {
        let before = bindless_writes(updates.drop_last(), default_sampler, binding);
        if updates.last().image_view is Some {
            before.push(bindless_write_for(updates.last(), default_sampler, binding))
        } else {
            before
        }
    }
}

/// The bindless writes for `updates`: each image lands in its slot of the
/// sampled-image binding, with its own sampler or the default one. Every
/// image must have a slot.
pub fn bindless_image_writes(
    updates: &[BindlessImageUpdate],
    default_sampler: u64,
    setup: BindlessSetup,
    invalid_index: u32,
) -> (writes: Vec<BindlessImageWrite>)
    requires
        forall|i: int|
            0 <= i < updates@.len() && (#[trigger] updates@[i]).image_view is Some ==> updates@[i].bindless_index
                != invalid_index,
    ensures
        writes@ == bindless_writes(updates@, default_sampler, setup.sampled_image_index),
{
    let mut writes: Vec<BindlessImageWrite> = Vec::new();
    let mut i: usize = 0;
    while i < updates.len()
        invariant
            i <= updates@.len(),
            writes@ == bindless_writes(updates@.take(i as int), default_sampler, setup.sampled_image_index),
        decreases updates@.len() - i,
    {
        let update = updates[i];
        proof {
            assert(updates@.take(i as int + 1).drop_last() =~= updates@.take(i as int));
            assert(updates@.take(i as int + 1).last() == update);
        }
        if let Some(image_view) = update.image_view {
            let sampler = match update.sampler {
                Some(s) => s,
                None => default_sampler,
            };
            writes.push(
                BindlessImageWrite {
                    array_element: update.bindless_index,
                    binding: setup.sampled_image_index,
                    image_view,
                    sampler,
                    image_layout: IMAGE_LAYOUT_SHADER_READ_ONLY_OPTIMAL,
                },
            );
        }
        i = i + 1;
    }
    assert(updates@.take(i as int) =~= updates@);
    writes
}

} // verus!
