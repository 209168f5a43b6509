use vstd::prelude::*;

verus! {

/// The kind of a Vulkan semaphore: binary, or a timeline that counts up.
#[derive(Clone, Copy, PartialEq, Eq, Structural, Debug)]
pub enum SemaphoreType {
    Binary,
    Timeline,
}

/// The value that a semaphore submission hands to Vulkan: the requested
/// value for a timeline semaphore, zero for a binary one.
pub fn semaphore_submit_value(semaphore_type: SemaphoreType, value: Option<u64>) -> (v: u64)
    requires
        semaphore_type == SemaphoreType::Timeline ==> value is Some,
    ensures
        v == (if semaphore_type == SemaphoreType::Timeline {
            value->0
        } else {
            0
        }),
{
    match semaphore_type {
        SemaphoreType::Timeline => value.unwrap(),
        SemaphoreType::Binary => 0,
    }
}

} // verus!
