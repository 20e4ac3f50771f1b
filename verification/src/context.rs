//! The device-side decisions of context creation: which physical device and
//! queue family compute runs on, and which memory type backs a buffer.
use vstd::prelude::*;

verus! {

/// `VkPhysicalDeviceType` code of an integrated GPU.
pub const DEVICE_TYPE_INTEGRATED_GPU: i32 = 1i32;

/// `VkPhysicalDeviceType` code of a discrete GPU.
pub const DEVICE_TYPE_DISCRETE_GPU: i32 = 2i32;

/// `VkQueueFlagBits` bit of compute-capable queue families.
pub const QUEUE_COMPUTE_BIT: u32 = 2u32;

/// What device selection reads of a physical device: its type code and the
/// flags of its queue families, in order.
pub struct DeviceCandidate {
    pub device_type: i32,
    pub queue_flags: Vec<u32>,
}

/// Preference of a device type: discrete 3, integrated 2, any other 1.
pub open spec fn type_score(t: i32) -> int {
    if t == DEVICE_TYPE_DISCRETE_GPU {
        3
    } else if t == DEVICE_TYPE_INTEGRATED_GPU {
        2
    } else {
        1
    }
}

/// The first queue family at or after `i` whose flags include compute.
pub open spec fn first_compute(flags: Seq<u32>, i: int) -> Option<int>
    decreases flags.len() - i,
{
    if i < 0 || i >= flags.len() {
        None
    } else if flags[i] & QUEUE_COMPUTE_BIT != 0 {
        Some(i)
    } else {
        first_compute(flags, i + 1)
    }
}

/// The choice over the first `k` candidates: (device, family, score) of the
/// first device with the highest type score among those having a compute
/// family, with its first compute family.
pub open spec fn pick_among(c: Seq<DeviceCandidate>, k: int) -> Option<(int, int, int)>
    decreases k,
{
    if k <= 0 || k > c.len() {
        None
    } else {
        let prev = pick_among(c, k - 1);
        let d = k - 1;
        match first_compute(c[d].queue_flags@, 0) {
            None => prev,
            Some(f) => {
                let s = type_score(c[d].device_type);
                let best = match prev {
                    Some(p) => p.2,
                    None => 0,
                };
                if best < s {
                    Some((d, f, s))
                } else {
                    prev
                }
            },
        }
    }
}

proof fn lemma_first_compute_range(flags: Seq<u32>, i: int)
    requires
        0 <= i,
    ensures
        first_compute(flags, i) matches Some(f) ==> i <= f < flags.len(),
    decreases flags.len() - i,
{
    if i < flags.len() {
        lemma_first_compute_range(flags, i + 1);
    }
}

proof fn lemma_pick_range(c: Seq<DeviceCandidate>, k: int)
    requires
        0 <= k <= c.len(),
    ensures
        pick_among(c, k) matches Some(p) ==> 0 <= p.0 < k && 0 <= p.1 < c[p.0].queue_flags@.len()
            && 1 <= p.2 <= 3,
    decreases k,
{
    if k > 0 {
        lemma_pick_range(c, k - 1);
        lemma_first_compute_range(c[k - 1].queue_flags@, 0);
    }
}

proof fn lemma_pick_best(c: Seq<DeviceCandidate>, k: int)
    requires
        0 <= k <= c.len(),
    ensures
        match pick_among(c, k) {
            None => forall|j: int| 0 <= j < k ==> #[trigger] first_compute(c[j].queue_flags@, 0) is None,
            Some(p) => {
                &&& 0 <= p.0 < k
                &&& first_compute(c[p.0].queue_flags@, 0) == Some(p.1)
                &&& p.2 == type_score(c[p.0].device_type)
                &&& forall|j: int| 0 <= j < k && #[trigger] first_compute(c[j].queue_flags@, 0) is Some
                    ==> type_score(c[j].device_type) <= p.2
                &&& forall|j: int| 0 <= j < p.0 && #[trigger] first_compute(c[j].queue_flags@, 0) is Some
                    ==> type_score(c[j].device_type) < p.2
            },
        },
    decreases k,
{
    if k > 0 {
        lemma_pick_best(c, k - 1);
    }
}

/// Device preference: the chosen device can compute and runs on its first
/// compute-capable queue family; no device that can compute is of a more
/// preferred type (a discrete GPU over an integrated one, an integrated GPU
/// over any other type); and every device before it that can compute is of
/// a less preferred type. No device is chosen only when none can compute.
pub proof fn lemma_device_preference(c: Seq<DeviceCandidate>)
    ensures
        match pick_among(c, c.len() as int) {
            None => forall|j: int|
                0 <= j < c.len() ==> #[trigger] first_compute(c[j].queue_flags@, 0) is None,
            Some(p) => {
                let t = c[p.0].device_type;
                &&& 0 <= p.0 < c.len()
                &&& first_compute(c[p.0].queue_flags@, 0) == Some(p.1)
                &&& forall|j: int|
                    0 <= j < c.len() && #[trigger] first_compute(c[j].queue_flags@, 0) is Some ==> {
                        &&& c[j].device_type == DEVICE_TYPE_DISCRETE_GPU ==> t
                            == DEVICE_TYPE_DISCRETE_GPU
                        &&& c[j].device_type == DEVICE_TYPE_INTEGRATED_GPU ==> (t
                            == DEVICE_TYPE_DISCRETE_GPU || t == DEVICE_TYPE_INTEGRATED_GPU)
                        &&& j < p.0 ==> ((t == DEVICE_TYPE_DISCRETE_GPU && c[j].device_type
                            != DEVICE_TYPE_DISCRETE_GPU) || (t == DEVICE_TYPE_INTEGRATED_GPU
                            && c[j].device_type != DEVICE_TYPE_DISCRETE_GPU && c[j].device_type
                            != DEVICE_TYPE_INTEGRATED_GPU))
                    }
            },
        },
{
    lemma_pick_best(c, c.len() as int);
}

fn first_compute_family(flags: &Vec<u32>) -> (r: Option<usize>)
    ensures
        match first_compute(flags@, 0) {
            Some(f) => r == Some(f as usize),
            None => r is None,
        },
{
    let mut i: usize = 0;
    while i < flags.len()
        invariant
            i <= flags@.len(),
            first_compute(flags@, 0) == first_compute(flags@, i as int),
        decreases flags@.len() - i,
    {
        if flags[i] & QUEUE_COMPUTE_BIT != 0 {
            return Some(i);
        }
        i = i + 1;
    }
    None
}

/// Picks the device and queue family compute runs on: among devices with a
/// compute-capable queue family, the first one of the most preferred type
/// (discrete, then integrated, then any other), on its first compute family.
/// `None` when no device can compute.
pub fn pick_device(devices: &Vec<DeviceCandidate>) -> (r: Option<(usize, usize)>)
    ensures
        match pick_among(devices@, devices@.len() as int) {
            Some(p) => r == Some((p.0 as usize, p.1 as usize)),
            None => r is None,
        },
        r is None <==> forall|j: int|
            0 <= j < devices@.len() ==> #[trigger] first_compute(devices@[j].queue_flags@, 0) is None,
        r matches Some((i, q)) ==> {
            let t = devices@[i as int].device_type;
            &&& i < devices@.len()
            &&& first_compute(devices@[i as int].queue_flags@, 0) == Some(q as int)
            &&& forall|j: int|
                0 <= j < devices@.len() && #[trigger] first_compute(devices@[j].queue_flags@, 0) is Some
                    ==> {
                    &&& devices@[j].device_type == DEVICE_TYPE_DISCRETE_GPU ==> t
                        == DEVICE_TYPE_DISCRETE_GPU
                    &&& devices@[j].device_type == DEVICE_TYPE_INTEGRATED_GPU ==> (t
                        == DEVICE_TYPE_DISCRETE_GPU || t == DEVICE_TYPE_INTEGRATED_GPU)
                    &&& j < i ==> ((t == DEVICE_TYPE_DISCRETE_GPU && devices@[j].device_type
                        != DEVICE_TYPE_DISCRETE_GPU) || (t == DEVICE_TYPE_INTEGRATED_GPU
                        && devices@[j].device_type != DEVICE_TYPE_DISCRETE_GPU
                        && devices@[j].device_type != DEVICE_TYPE_INTEGRATED_GPU))
                }
        },
{
    proof {
        lemma_device_preference(devices@);
    }
    let mut best: Option<(usize, usize, u8)> = None;
    let mut k: usize = 0;
    while k < devices.len()
        invariant
            k <= devices@.len(),
            match pick_among(devices@, k as int) {
                Some(p) => best == Some((p.0 as usize, p.1 as usize, p.2 as u8)),
                None => best is None,
            },
        decreases devices@.len() - k,
    {
        proof {
            lemma_pick_range(devices@, k as int);
            lemma_pick_range(devices@, k + 1);
            lemma_first_compute_range(devices@[k as int].queue_flags@, 0);
        }
        let cand = &devices[k];
        let score: u8 = if cand.device_type == DEVICE_TYPE_DISCRETE_GPU {
            3
        } else if cand.device_type == DEVICE_TYPE_INTEGRATED_GPU {
            2
        } else {
            1
        };
        if let Some(f) = first_compute_family(&cand.queue_flags) {
            let current: u8 = match best {
                Some(b) => b.2,
                None => 0,
            };
            if current < score {
                best = Some((k, f, score));
            }
        }
        k = k + 1;
    }
    proof {
        lemma_pick_range(devices@, k as int);
        lemma_device_preference(devices@);
        if let Some(p) = pick_among(devices@, devices@.len() as int) {
            assert((p.0 as usize) as int == p.0);
            assert(devices@[p.0].queue_flags@.len() == devices@[p.0].queue_flags.len());
            assert((p.1 as usize) as int == p.1);
        }
    }
    match best {
        Some(b) => Some((b.0, b.1)),
        None => None,
    }
}

/// Memory type `i` is allowed by the requirement bits `filter` and has all
/// the property flags `need`.
pub open spec fn memory_type_suits(filter: u32, need: u32, flags: Seq<u32>, i: int) -> bool {
    filter & (1u32 << (i as u32)) != 0 && flags[i] & need == need
}

/// The first memory type allowed by `filter` whose property flags include
/// all of `need`, among the device's memory types (`type_flags`, at most 32
/// as Vulkan bounds them).
pub fn find_memory_type(filter: u32, need: u32, type_flags: &[u32]) -> (r: Option<u32>)
    requires
        type_flags@.len() <= 32,
    ensures
        r matches Some(i) ==> i < type_flags@.len() && memory_type_suits(filter, need, type_flags@, i as int)
            && forall|j: int| 0 <= j < i ==> !memory_type_suits(filter, need, type_flags@, j),
        r is None ==> forall|j: int|
            0 <= j < type_flags@.len() ==> !memory_type_suits(filter, need, type_flags@, j),
{
    let mut i: u32 = 0;
    while (i as usize) < type_flags.len()
        invariant
            type_flags@.len() <= 32,
            i <= type_flags@.len(),
            forall|j: int| 0 <= j < i ==> !memory_type_suits(filter, need, type_flags@, j),
        decreases type_flags@.len() - i,
    {
        if filter & (1u32 << i) != 0 && type_flags[i as usize] & need == need {
            return Some(i);
        }
        i = i + 1;
    }
    None
}

/// The bytes of a NUL-terminated name held in a fixed field: everything
/// before the first zero byte, or the whole field when it holds none.
pub fn name_bytes(raw: &[u8]) -> (r: Vec<u8>)
    ensures
        r@ == raw@.subrange(0, r@.len() as int),
        forall|i: int| 0 <= i < r@.len() ==> r@[i] != 0u8,
        r@.len() < raw@.len() ==> raw@[r@.len() as int] == 0u8,
{
    let mut r: Vec<u8> = Vec::new();
    let mut i: usize = 0;
    while i < raw.len()
        invariant
            i <= raw@.len(),
            r@ == raw@.subrange(0, i as int),
            forall|j: int| 0 <= j < i ==> raw@[j] != 0u8,
        decreases raw@.len() - i,
    {
        if raw[i] == 0 {
            return r;
        }
        r.push(raw[i]);
        i = i + 1;
        proof {
            assert(r@ =~= raw@.subrange(0, i as int));
        }
    }
    r
}

} // verus!
