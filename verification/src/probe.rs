//! Capability probe: an immutable snapshot of one physical accelerator's
//! queue-family table and memory-type table, and the two selection queries
//! used throughout the core. A candidate qualifies only when its flag word
//! fully contains the required flags (strict superset test, not mere overlap).

use vstd::prelude::*;

verus! {

/// Queue capability bit: graphics operations.
pub const QUEUE_GRAPHICS: u32 = 0x1;
/// Queue capability bit: compute dispatch.
pub const QUEUE_COMPUTE: u32 = 0x2;
/// Queue capability bit: transfer (copy/fill) operations.
pub const QUEUE_TRANSFER: u32 = 0x4;

/// Memory property bit: resides in on-device memory.
pub const MEMORY_DEVICE_LOCAL: u32 = 0x1;
/// Memory property bit: mappable by the host.
pub const MEMORY_HOST_VISIBLE: u32 = 0x2;
/// Memory property bit: host writes need no explicit flush.
pub const MEMORY_HOST_COHERENT: u32 = 0x4;

/// One queue-family descriptor: the operations its queues support and how
/// many queues the family offers.
#[derive(Clone, Copy, Debug, PartialEq, Eq, Structural)]
pub struct QueueFamily {
    pub queue_flags: u32,
    pub queue_count: u32,
}

/// One entry of the memory-type table: its property flags and the index of
/// the heap that backs it.
#[derive(Clone, Copy, Debug, PartialEq, Eq, Structural)]
pub struct MemoryType {
    pub property_flags: u32,
    pub heap_index: u32,
}

/// True when every bit set in `required` is also set in `candidate`.
pub open spec fn flags_contain(candidate: u32, required: u32) -> bool {
    candidate & required == required
}

/// Runtime form of the containment test.
pub fn contains_flags(candidate: u32, required: u32) -> (r: bool)
    ensures
        r == flags_contain(candidate, required),
{
    candidate & required == required
}

/// Snapshot of one physical device's capabilities, taken once at probe time
/// and read-only thereafter.
pub struct GpuProperties {
    queue_families: Vec<QueueFamily>,
    memory_types: Vec<MemoryType>,
}

impl GpuProperties {
    /// The queue-family table, in driver order.
    pub closed spec fn families(&self) -> Seq<QueueFamily> {
        self.queue_families@
    }

    /// The memory-type table, in driver order.
    pub closed spec fn mem_types(&self) -> Seq<MemoryType> {
        self.memory_types@
    }

    pub fn new(queue_families: Vec<QueueFamily>, memory_types: Vec<MemoryType>) -> (r: Self)
        ensures
            r.families() == queue_families@,
            r.mem_types() == memory_types@,
    {
        GpuProperties { queue_families, memory_types }
    }

    pub fn queue_family_properties(&self) -> (r: &Vec<QueueFamily>)
        ensures
            r@ == self.families(),
    {
        &self.queue_families
    }

    pub fn memory_properties(&self) -> (r: &Vec<MemoryType>)
        ensures
            r@ == self.mem_types(),
    {
        &self.memory_types
    }

    /// The lowest index of a queue family whose capability mask contains
    /// `required`, or `None` when no family qualifies.
    pub fn find_queue_family(&self, required: u32) -> (r: Option<usize>)
        ensures
            match r {
                Some(i) => i < self.families().len()
                    && flags_contain(self.families()[i as int].queue_flags, required)
                    && forall|j: int|
                        0 <= j < i ==> !flags_contain(
                            #[trigger] self.families()[j].queue_flags,
                            required,
                        ),
                None => forall|j: int|
                    0 <= j < self.families().len() ==> !flags_contain(
                        #[trigger] self.families()[j].queue_flags,
                        required,
                    ),
            },
    {
        let n = self.queue_families.len();
        let mut i: usize = 0;
        while i < n
            invariant
                i <= n,
                n == self.families().len(),
                forall|j: int|
                    0 <= j < i ==> !flags_contain(
                        #[trigger] self.families()[j].queue_flags,
                        required,
                    ),
            decreases n - i,
        {
            if contains_flags(self.queue_families[i].queue_flags, required) {
                return Some(i);
            }
            i += 1;
        }
        None
    }

    /// Every index of a queue family whose capability mask contains
    /// `required`, in ascending order; `None` when no family qualifies.
    /// The first element, when present, is the index `find_queue_family`
    /// returns.
    pub fn find_queue_families(&self, required: u32) -> (r: Option<Vec<usize>>)
        ensures
            match r {
                Some(v) => v@.len() > 0
                    && (forall|k: int|
                        0 <= k < v@.len() ==> #[trigger] v@[k] < self.families().len()
                            && flags_contain(self.families()[v@[k] as int].queue_flags, required))
                    && (forall|k1: int, k2: int|
                        0 <= k1 < k2 < v@.len() ==> v@[k1] < v@[k2])
                    && (forall|j: int|
                        0 <= j < self.families().len() && flags_contain(
                            #[trigger] self.families()[j].queue_flags,
                            required,
                        ) ==> v@.contains(j as usize)),
                None => forall|j: int|
                    0 <= j < self.families().len() ==> !flags_contain(
                        #[trigger] self.families()[j].queue_flags,
                        required,
                    ),
            },
    {
        let n = self.queue_families.len();
        let mut out: Vec<usize> = Vec::new();
        let mut i: usize = 0;
        while i < n
            invariant
                i <= n,
                n == self.families().len(),
                forall|k: int|
                    0 <= k < out@.len() ==> #[trigger] out@[k] < i
                        && flags_contain(self.families()[out@[k] as int].queue_flags, required),
                forall|k1: int, k2: int| 0 <= k1 < k2 < out@.len() ==> out@[k1] < out@[k2],
                forall|j: int|
                    0 <= j < i && flags_contain(
                        #[trigger] self.families()[j].queue_flags,
                        required,
                    ) ==> out@.contains(j as usize),
            decreases n - i,
        {
            if contains_flags(self.queue_families[i].queue_flags, required) {
                let ghost prev = out@;
                out.push(i);
                proof {
                    assert(out@ == prev.push(i));
                    assert forall|j: int|
                        0 <= j < i + 1 && flags_contain(
                            self.families()[j].queue_flags,
                            required,
                        ) implies out@.contains(j as usize) by {
                        if j == i {
                            assert(out@[out@.len() - 1] == i as usize);
                        } else {
                            let k = choose|k: int|
                                0 <= k < prev.len() && prev[k] == j as usize;
                            assert(out@[k] == j as usize);
                        }
                    }
                }
            }
            i += 1;
        }
        if out.len() == 0 {
            None
        } else {
            Some(out)
        }
    }

    /// The lowest index of a memory type whose property flags contain
    /// `required` (first match in table order), or `None` when the
    /// requirement is unsatisfiable on this device.
    pub fn find_memory_type(&self, required: u32) -> (r: Option<usize>)
        ensures
            match r {
                Some(i) => i < self.mem_types().len()
                    && flags_contain(self.mem_types()[i as int].property_flags, required)
                    && forall|j: int|
                        0 <= j < i ==> !flags_contain(
                            #[trigger] self.mem_types()[j].property_flags,
                            required,
                        ),
                None => forall|j: int|
                    0 <= j < self.mem_types().len() ==> !flags_contain(
                        #[trigger] self.mem_types()[j].property_flags,
                        required,
                    ),
            },
    {
        let n = self.memory_types.len();
        let mut i: usize = 0;
        while i < n
            invariant
                i <= n,
                n == self.mem_types().len(),
                forall|j: int|
                    0 <= j < i ==> !flags_contain(
                        #[trigger] self.mem_types()[j].property_flags,
                        required,
                    ),
            decreases n - i,
        {
            if contains_flags(self.memory_types[i].property_flags, required) {
                return Some(i);
            }
            i += 1;
        }
        None
    }
}

} // verus!
