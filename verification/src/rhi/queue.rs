use vstd::prelude::*;

verus! {

/// Vulkan's `VK_QUEUE_GRAPHICS_BIT`.
pub const QUEUE_GRAPHICS: u32 = 0x1;

/// Vulkan's `VK_QUEUE_COMPUTE_BIT`.
pub const QUEUE_COMPUTE: u32 = 0x2;

/// Vulkan's `VK_QUEUE_TRANSFER_BIT`.
pub const QUEUE_TRANSFER: u32 = 0x4;

/// Vulkan's `VK_PHYSICAL_DEVICE_TYPE_DISCRETE_GPU`.
pub const PHYSICAL_DEVICE_TYPE_DISCRETE_GPU: i32 = 2;

/// What Vulkan reports of a queue family.
#[derive(Clone, Copy, PartialEq, Eq, Structural, Debug)]
pub struct QueueFamilyProperties {
    pub queue_flags: u32,
    pub queue_count: u32,
    pub timestamp_valid_bits: u32,
}

/// A queue family of a physical device, and whether it can present to the
/// surface.
#[derive(Clone, Copy, PartialEq, Eq, Structural, Debug)]
pub struct QueueFamily {
    index: u32,
    properties: QueueFamilyProperties,
    supports_present: bool,
}

impl QueueFamily {
    pub closed spec fn spec_index(self) -> u32 {
        self.index
    }

    pub closed spec fn spec_properties(self) -> QueueFamilyProperties {
        self.properties
    }

    pub closed spec fn spec_supports_present(self) -> bool {
        self.supports_present
    }

    pub open spec fn spec_supports_graphics(self) -> bool {
        self.spec_properties().queue_flags & QUEUE_GRAPHICS != 0
    }

    pub open spec fn spec_supports_compute(self) -> bool {
        self.spec_properties().queue_flags & QUEUE_COMPUTE != 0
    }

    pub open spec fn spec_supports_transfer(self) -> bool {
        self.spec_properties().queue_flags & QUEUE_TRANSFER != 0
    }

    pub fn new(index: u32, properties: QueueFamilyProperties, supports_present: bool) -> (f: Self)
        ensures
            f.spec_index() == index,
            f.spec_properties() == properties,
            f.spec_supports_present() == supports_present,
    {
        QueueFamily { index, properties, supports_present }
    }

    pub fn index(&self) -> (i: u32)
        ensures
            i == self.spec_index(),
    {
        self.index
    }

    pub fn supports_graphics(&self) -> (b: bool)
        ensures
            b == self.spec_supports_graphics(),
    {
        self.properties.queue_flags & QUEUE_GRAPHICS != 0
    }

    pub fn supports_present(&self) -> (b: bool)
        ensures
            b == self.spec_supports_present(),
    {
        self.supports_present
    }

    pub fn supports_compute(&self) -> (b: bool)
        ensures
            b == self.spec_supports_compute(),
    {
        self.properties.queue_flags & QUEUE_COMPUTE != 0
    }

    pub fn supports_transfer(&self) -> (b: bool)
        ensures
            b == self.spec_supports_transfer(),
    {
        self.properties.queue_flags & QUEUE_TRANSFER != 0
    }

    /// Whether the family's queues can write timestamps.
    pub fn supports_timestamps(&self) -> (b: bool)
        ensures
            b == (self.spec_properties().timestamp_valid_bits > 0),
    {
        self.properties.timestamp_valid_bits > 0
    }

    pub fn queue_count(&self) -> (n: u32)
        ensures
            n == self.spec_properties().queue_count,
    {
        self.properties.queue_count
    }
}

/// The queue families chosen for each kind of work.
#[derive(Clone, Copy, PartialEq, Eq, Structural, Debug)]
pub struct QueueFamilyIndices {
    pub graphics: QueueFamily,
    pub present: QueueFamily,
    pub compute: QueueFamily,
    pub transfer: QueueFamily,
}

/// The families chosen, for graphics, compute and transfer, after looking at
/// the first `n` families: each kind takes the first family that has queues
/// and supports it and that no earlier kind in that order took; transfer
/// takes only a family without compute.
pub open spec fn chosen_families(families: Seq<QueueFamily>, n: int) -> (
    Option<QueueFamily>,
    Option<QueueFamily>,
    Option<QueueFamily>,
)
    decreases n,
{
    if n <= 0 {
        (None, None, None)
    } else {
        let (graphics, compute, transfer) = chosen_families(families, n - 1);
        let family = families[n - 1];
        if family.spec_properties().queue_count == 0 {
            (graphics, compute, transfer)
        } else if family.spec_supports_graphics() && graphics is None {
            (Some(family), compute, transfer)
        } else if family.spec_supports_compute() && compute is None {
            (graphics, Some(family), transfer)
        } else if family.spec_supports_transfer() && !family.spec_supports_compute() && transfer is None {
            (graphics, compute, Some(family))
        } else {
            (graphics, compute, transfer)
        }
    }
}

/// Every kind of work finds a family, and the graphics family can present.
pub open spec fn queue_families_complete(families: Seq<QueueFamily>) -> bool {
    let (graphics, compute, transfer) = chosen_families(families, families.len() as int);
    &&& graphics is Some
    &&& graphics->0.spec_supports_present()
    &&& compute is Some
    &&& transfer is Some
}

/// One graphics family that also presents, one compute family and one
/// transfer-only family, each the first that fits.
pub fn select_queue_family_indices(families: &[QueueFamily]) -> (indices: QueueFamilyIndices)
    requires
        queue_families_complete(families@),
    ensures
        ({
            let (graphics, compute, transfer) = chosen_families(families@, families@.len() as int);
            &&& indices.graphics == graphics->0
            &&& indices.present == graphics->0
            &&& indices.compute == compute->0
            &&& indices.transfer == transfer->0
        }),
{
    let mut graphics: Option<QueueFamily> = None;
    let mut compute: Option<QueueFamily> = None;
    let mut transfer: Option<QueueFamily> = None;
    let mut i: usize = 0;
    while i < families.len()
        invariant
            i <= families@.len(),
            (graphics, compute, transfer) == chosen_families(families@, i as int),
        decreases families@.len() - i,
    {
        let family = families[i];
        if family.queue_count() > 0 {
            if family.supports_graphics() && graphics.is_none() {
                graphics = Some(family);
            } else if family.supports_compute() && compute.is_none() {
                compute = Some(family);
            } else if family.supports_transfer() && !family.supports_compute() && transfer.is_none() {
                transfer = Some(family);
            }
        }
        i = i + 1;
    }
    let graphics = graphics.unwrap();
    QueueFamilyIndices {
        graphics,
        present: graphics,
        compute: compute.unwrap(),
        transfer: transfer.unwrap(),
    }
}

/// What the renderer reads of a physical device.
pub struct PhysicalDevice {
    pub name: String,
    pub device_type: i32,
    pub queue_families: Vec<QueueFamily>,
    pub supported_extensions: Vec<String>,
}

/// Why no physical device could be used.
#[derive(Clone, Copy, PartialEq, Eq, Structural, Debug)]
pub enum DeviceSelectionError {
    /// No device is a discrete GPU.
    NoSuitableGpu,
}

impl DeviceSelectionError {
    pub fn message(&self) -> (s: String)
        ensures
            s@ == "Could not find suitable GPU!"@,
    {
        String::from_str("Could not find suitable GPU!")
    }
}

/// Whether `name` is among `supported`.
pub open spec fn has_extension(supported: Seq<String>, name: Seq<char>) -> bool {
    exists|j: int| 0 <= j < supported.len() && #[trigger] supported[j]@ == name
}

impl PhysicalDevice {
    /// Whether every one of `extensions` is among the device's supported
    /// extensions.
    pub fn supports_extensions(&self, extensions: &[&str]) -> (b: bool)
        ensures
            b == (forall|i: int|
                0 <= i < extensions@.len() ==> has_extension(self.supported_extensions@, #[trigger] extensions@[i]@)),
    {
        let mut i: usize = 0;
        while i < extensions.len()
            invariant
                i <= extensions@.len(),
                forall|k: int| 0 <= k < i ==> has_extension(self.supported_extensions@, #[trigger] extensions@[k]@),
            decreases extensions@.len() - i,
        {
            let wanted = extensions[i].to_owned();
            let mut found = false;
            let mut j: usize = 0;
            while j < self.supported_extensions.len()
                invariant
                    j <= self.supported_extensions@.len(),
                    wanted@ == extensions@[i as int]@,
                    i < extensions@.len(),
                    found ==> has_extension(self.supported_extensions@, extensions@[i as int]@),
                    !found ==> forall|m: int| 0 <= m < j ==> #[trigger] self.supported_extensions@[m]@ != extensions@[i as int]@,
                decreases self.supported_extensions@.len() - j,
            {
                if self.supported_extensions[j] == wanted {
                    found = true;
                }
                j = j + 1;
            }
            if !found {
                return false;
            }
            i = i + 1;
        }
        true
    }
}

/// The index of the first discrete GPU among `devices`.
pub fn select_suitable_physical_device(devices: &[PhysicalDevice]) -> (r: Result<usize, DeviceSelectionError>)
    ensures
        match r {
            Ok(i) => i < devices@.len() && devices@[i as int].device_type == PHYSICAL_DEVICE_TYPE_DISCRETE_GPU
                && forall|k: int| 0 <= k < i ==> #[trigger] devices@[k].device_type != PHYSICAL_DEVICE_TYPE_DISCRETE_GPU,
            Err(e) => e == DeviceSelectionError::NoSuitableGpu && forall|k: int|
                0 <= k < devices@.len() ==> #[trigger] devices@[k].device_type != PHYSICAL_DEVICE_TYPE_DISCRETE_GPU,
        },
{
    let mut i: usize = 0;
    while i < devices.len()
        invariant
            i <= devices@.len(),
            forall|k: int| 0 <= k < i ==> #[trigger] devices@[k].device_type != PHYSICAL_DEVICE_TYPE_DISCRETE_GPU,
        decreases devices@.len() - i,
    {
        if devices[i].device_type == PHYSICAL_DEVICE_TYPE_DISCRETE_GPU {
            return Ok(i);
        }
        i = i + 1;
    }
    Err(DeviceSelectionError::NoSuitableGpu)
}

proof fn lemma_chosen_families_fit(families: Seq<QueueFamily>, n: int)
    requires
        0 <= n <= families.len(),
    ensures
        ({
            let (graphics, compute, transfer) = chosen_families(families, n);
            &&& graphics is Some ==> graphics->0.spec_supports_graphics() && graphics->0.spec_properties().queue_count > 0
            &&& compute is Some ==> compute->0.spec_supports_compute() && compute->0.spec_properties().queue_count > 0
            &&& transfer is Some ==> transfer->0.spec_supports_transfer() && !transfer->0.spec_supports_compute()
                && transfer->0.spec_properties().queue_count > 0
        }),
    decreases n,
{
    if n > 0 {
        lemma_chosen_families_fit(families, n - 1);
    }
}

/// The families chosen fit their work: each has queues, the graphics family
/// supports graphics and presenting, the compute family compute, and the
/// transfer family transfer without compute.
pub proof fn lemma_selected_families_fit(families: Seq<QueueFamily>, indices: QueueFamilyIndices)
    requires
        queue_families_complete(families),
        ({
            let (graphics, compute, transfer) = chosen_families(families, families.len() as int);
            &&& indices.graphics == graphics->0
            &&& indices.present == graphics->0
            &&& indices.compute == compute->0
            &&& indices.transfer == transfer->0
        }),
    ensures
        indices.graphics.spec_supports_graphics(),
        indices.graphics.spec_properties().queue_count > 0,
        indices.present.spec_supports_present(),
        indices.compute.spec_supports_compute(),
        indices.compute.spec_properties().queue_count > 0,
        indices.transfer.spec_supports_transfer(),
        !indices.transfer.spec_supports_compute(),
        indices.transfer.spec_properties().queue_count > 0,
{
    lemma_chosen_families_fit(families, families.len() as int);
}

/// `values` strictly increase.
pub open spec fn strictly_increasing(values: Seq<u32>) -> bool {
    forall|i: int, j: int| 0 <= i < j < values.len() ==> values[i] < values[j]
}

/// `values` sorted, each value once.
pub fn sorted_unique(values: &[u32]) -> (r: Vec<u32>)
    ensures
        strictly_increasing(r@),
        r@.to_set() == values@.to_set(),
{
    let mut r: Vec<u32> = Vec::new();
    let mut i: usize = 0;
    while i < values.len()
        invariant
            i <= values@.len(),
            strictly_increasing(r@),
            r@.to_set() == values@.take(i as int).to_set(),
        decreases values@.len() - i,
    {
        let v = values[i];
        let ghost before = r@;
        // The position of the first element not below `v`.
        let mut p: usize = 0;
        while p < r.len() && r[p] < v
            invariant
                p <= r@.len(),
                r@ == before,
                forall|k: int| 0 <= k < p ==> #[trigger] r@[k] < v,
            decreases r@.len() - p,
        {
            p = p + 1;
        }
        if p < r.len() && r[p] == v {
            proof {
                assert(values@.take(i as int + 1) =~= values@.take(i as int).push(v));
                values@.take(i as int).lemma_push_to_set_commute(v);
                assert(r@.to_set().contains(v)) by {
                    assert(r@[p as int] == v);
                }
                assert(values@.take(i as int + 1).to_set() =~= values@.take(i as int).to_set().insert(v));
            }
        } else {
            r.insert(p, v);
            proof {
                assert(r@ =~= before.subrange(0, p as int).push(v) + before.subrange(p as int, before.len() as int));
                assert forall|a: int, b: int| 0 <= a < b < r@.len() implies r@[a] < r@[b] by {
                    if b < p {
                    } else if b == p {
                        assert(r@[a] == before[a]);
                    } else if a == p {
                        assert(r@[b] == before[b - 1]);
                        assert(before[p as int] >= v);
                        if b - 1 > p {
                            assert(before[p as int] < before[b - 1]);
                        }
                    } else if a < p {
                        assert(r@[a] == before[a]);
                        assert(r@[b] == before[b - 1]);
                    } else {
                        assert(r@[a] == before[a - 1]);
                        assert(r@[b] == before[b - 1]);
                    }
                }
                assert(values@.take(i as int + 1) =~= values@.take(i as int).push(v));
                values@.take(i as int).lemma_push_to_set_commute(v);
                assert(r@.to_set() =~= before.to_set().insert(v)) by {
                    assert forall|x: u32| r@.to_set().contains(x) implies before.to_set().insert(v).contains(x) by {
                        let k = choose|k: int| 0 <= k < r@.len() && r@[k] == x;
                        if k < p {
                            assert(before[k] == x);
                        } else if k > p {
                            assert(before[k - 1] == x);
                        }
                    }
                    assert forall|x: u32| before.to_set().insert(v).contains(x) implies r@.to_set().contains(x) by {
                        if x == v {
                            assert(r@[p as int] == v);
                        } else {
                            let k = choose|k: int| 0 <= k < before.len() && before[k] == x;
                            if k < p {
                                assert(r@[k] == x);
                            } else {
                                assert(r@[k + 1] == x);
                            }
                        }
                    }
                }
                assert(values@.take(i as int + 1).to_set() =~= values@.take(i as int).to_set().insert(v));
            }
        }
        i = i + 1;
    }
    assert(values@.take(i as int) =~= values@);
    r
}

/// The queue families that the logical device gets queues from: the
/// graphics, compute and transfer families, each once, by index.
pub fn device_queue_family_indices(indices: &QueueFamilyIndices) -> (r: Vec<u32>)
    ensures
        strictly_increasing(r@),
        r@.to_set() == set![
            indices.graphics.spec_index(),
            indices.compute.spec_index(),
            indices.transfer.spec_index(),
        ],
{
    let families = [
        indices.graphics.index(),
        indices.compute.index(),
        indices.transfer.index(),
        indices.compute.index(),
    ];
    let r = sorted_unique(&families);
    proof {
        let s = families@;
        assert(s.to_set() =~= set![
            indices.graphics.spec_index(),
            indices.compute.spec_index(),
            indices.transfer.spec_index(),
        ]) by {
            assert(s[0] == indices.graphics.spec_index());
            assert(s[1] == indices.compute.spec_index());
            assert(s[2] == indices.transfer.spec_index());
            assert(s[3] == indices.compute.spec_index());
        }
    }
    r
}

/// The extensions that the logical device is created with: the swapchain
/// and the NVIDIA mesh shader extensions, in that order.
pub fn device_extensions() -> (r: Vec<String>)
    ensures
        r@.len() == 2,
        r@[0]@ == "VK_KHR_swapchain"@,
        r@[1]@ == "VK_NV_mesh_shader"@,
{
    let mut r: Vec<String> = Vec::new();
    r.push(String::from_str("VK_KHR_swapchain"));
    r.push(String::from_str("VK_NV_mesh_shader"));
    r
}

} // verus!
