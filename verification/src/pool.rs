//! Resource pool: owns every memory allocation and buffer object created
//! against one device session, keyed by small integer ids local to the pool.
//! Binding a buffer to an allocation is explicit and immutable once
//! established, and teardown is buffer-before-allocation: an allocation
//! cannot be released while a live buffer still references it.

use vstd::prelude::*;

use crate::probe::GpuProperties;
use crate::probe::MemoryType;
use crate::probe::flags_contain;
use crate::tiers::plan_tier;
use crate::tiers::plan_sizes;
use crate::tiers::tier_size;

verus! {

/// Everything that can go wrong inside the pool or the driver calls it
/// mirrors: capability errors, driver resource exhaustion, and lifecycle
/// misuse.
#[derive(Clone, Copy, Debug, PartialEq, Eq, Structural)]
pub enum PoolError {
    /// No entry of the memory-type table contains the required flags.
    NoSuitableMemoryType,
    /// The driver could not back the requested allocation.
    OutOfDeviceMemory,
    /// The driver rejected the buffer-object create request.
    BufferCreationFailed,
    /// The buffer already has a binding; bindings are immutable.
    AlreadyBound,
    /// An id names no live allocation or buffer of this pool.
    InvalidHandle,
    /// The binding would run past the end of the allocation.
    InsufficientAllocationSize,
    /// A live buffer still references the allocation.
    AllocationInUse,
}

/// Usage intent of a buffer: source of a transfer, destination, or both.
#[derive(Clone, Copy, Debug, PartialEq, Eq, Structural)]
pub enum BufferUsage {
    TransferSource,
    TransferDestination,
    TransferBoth,
}

/// An established buffer-to-allocation association.
#[derive(Clone, Copy, Debug, PartialEq, Eq, Structural)]
pub struct BufferBinding {
    pub allocation: usize,
    pub offset: u64,
}

/// One backing-memory allocation: its declared size, the index of the
/// memory type it was made from, and whether it is still live.
#[derive(Clone, Copy, Debug, PartialEq, Eq, Structural)]
pub struct Allocation {
    pub size: u64,
    pub memory_type: usize,
    pub live: bool,
}

/// One buffer object: declared size, usage intent, its binding (if any),
/// and whether it is still live.
#[derive(Clone, Copy, Debug, PartialEq, Eq)]
pub struct BufferHandle {
    pub size: u64,
    pub usage: BufferUsage,
    pub binding: Option<BufferBinding>,
    pub live: bool,
}

/// `a` names a live allocation of the table.
pub open spec fn valid_allocation(allocs: Seq<Allocation>, a: int) -> bool {
    0 <= a < allocs.len() && allocs[a].live
}

/// `b` names a live buffer of the table.
pub open spec fn valid_buffer(bufs: Seq<BufferHandle>, b: int) -> bool {
    0 <= b < bufs.len() && bufs[b].live
}

/// Live buffer `b` is bound to allocation `a`.
pub open spec fn buffer_is_bound_to(bufs: Seq<BufferHandle>, b: int, a: int) -> bool {
    &&& valid_buffer(bufs, b)
    &&& bufs[b].binding is Some
    &&& bufs[b].binding->Some_0.allocation == a
}

/// Some live buffer is bound to allocation `a`.
pub open spec fn allocation_referenced(bufs: Seq<BufferHandle>, a: int) -> bool {
    exists|b: int| buffer_is_bound_to(bufs, b, a)
}

/// A buffer's binding, when present, points into the allocation table at a
/// live allocation large enough to hold the buffer at the bound offset.
pub open spec fn binding_ok(allocs: Seq<Allocation>, h: BufferHandle) -> bool {
    h.binding matches Some(bd) ==> {
        &&& bd.allocation < allocs.len()
        &&& allocs[bd.allocation as int].live
        &&& bd.offset + h.size <= allocs[bd.allocation as int].size
    }
}

/// Pool invariant: every live buffer's binding is sound.
pub open spec fn pool_wf(allocs: Seq<Allocation>, bufs: Seq<BufferHandle>) -> bool {
    forall|b: int|
        0 <= b < bufs.len() && (#[trigger] bufs[b]).live ==> binding_ok(allocs, bufs[b])
}

/// `i` is the first (lowest) index of the memory-type table whose property
/// flags contain `required`.
pub open spec fn first_matching_memory_type(types: Seq<MemoryType>, required: u32, i: int) -> bool {
    &&& 0 <= i < types.len()
    &&& flags_contain(types[i].property_flags, required)
    &&& forall|j: int|
        0 <= j < i ==> !flags_contain(#[trigger] types[j].property_flags, required)
}

/// No entry of the memory-type table contains `required`.
pub open spec fn no_matching_memory_type(types: Seq<MemoryType>, required: u32) -> bool {
    forall|j: int|
        0 <= j < types.len() ==> !flags_contain(#[trigger] types[j].property_flags, required)
}

/// Outcome `bind` owes for the given pool state and arguments: unknown or
/// dead handles are rejected first, then an existing binding, then a
/// binding that would run past the allocation's end.
pub open spec fn bind_check(
    allocs: Seq<Allocation>,
    bufs: Seq<BufferHandle>,
    b: int,
    a: int,
    off: u64,
) -> Result<(), PoolError> {
    if !valid_buffer(bufs, b) || !valid_allocation(allocs, a) {
        Err(PoolError::InvalidHandle)
    } else if bufs[b].binding is Some {
        Err(PoolError::AlreadyBound)
    } else if off + bufs[b].size > allocs[a].size {
        Err(PoolError::InsufficientAllocationSize)
    } else {
        Ok(())
    }
}

/// The buffer table after a successful bind of `b` to `a` at `off`.
pub open spec fn bufs_after_bind(bufs: Seq<BufferHandle>, b: int, a: int, off: u64) -> Seq<
    BufferHandle,
> {
    bufs.update(
        b,
        (BufferHandle {
            binding: Some(BufferBinding { allocation: a as usize, offset: off }),
            ..bufs[b]
        }),
    )
}

/// Outcome `release_buffer` owes.
pub open spec fn release_buffer_check(bufs: Seq<BufferHandle>, b: int) -> Result<(), PoolError> {
    if valid_buffer(bufs, b) {
        Ok(())
    } else {
        Err(PoolError::InvalidHandle)
    }
}

/// The buffer table after releasing buffer `b`.
pub open spec fn bufs_after_release(bufs: Seq<BufferHandle>, b: int) -> Seq<BufferHandle> {
    bufs.update(b, (BufferHandle { live: false, binding: None, ..bufs[b] }))
}

/// Outcome `release_allocation` owes: a live allocation can be released
/// only once no live buffer references it.
pub open spec fn release_allocation_check(
    allocs: Seq<Allocation>,
    bufs: Seq<BufferHandle>,
    a: int,
) -> Result<(), PoolError> {
    if !valid_allocation(allocs, a) {
        Err(PoolError::InvalidHandle)
    } else if allocation_referenced(bufs, a) {
        Err(PoolError::AllocationInUse)
    } else {
        Ok(())
    }
}

/// The allocation table after releasing allocation `a`.
pub open spec fn allocs_after_release(allocs: Seq<Allocation>, a: int) -> Seq<Allocation> {
    allocs.update(a, (Allocation { live: false, ..allocs[a] }))
}

/// Owns the allocations and buffers of one session, indexed by the small
/// integer ids it hands out. Ids are never reused: releasing marks the slot
/// dead, so a stale id is rejected as `InvalidHandle` instead of silently
/// naming a newer resource.
pub struct ResourcePool {
    allocations: Vec<Allocation>,
    buffers: Vec<BufferHandle>,
}

impl ResourcePool {
    /// The allocation table, in creation order.
    pub closed spec fn allocs(&self) -> Seq<Allocation> {
        self.allocations@
    }

    /// The buffer table, in creation order.
    pub closed spec fn bufs(&self) -> Seq<BufferHandle> {
        self.buffers@
    }

    pub open spec fn wf(&self) -> bool {
        pool_wf(self.allocs(), self.bufs())
    }

    /// Nothing is live any more: the pool may be dropped and its session
    /// closed.
    pub open spec fn is_drained(&self) -> bool {
        &&& forall|a: int| 0 <= a < self.allocs().len() ==> !(#[trigger] self.allocs()[a]).live
        &&& forall|b: int| 0 <= b < self.bufs().len() ==> !(#[trigger] self.bufs()[b]).live
    }

    pub fn new() -> (r: Self)
        ensures
            r.allocs().len() == 0,
            r.bufs().len() == 0,
            r.wf(),
            r.is_drained(),
    {
        ResourcePool { allocations: Vec::new(), buffers: Vec::new() }
    }

    pub fn allocation_count(&self) -> (n: usize)
        ensures
            n == self.allocs().len(),
    {
        self.allocations.len()
    }

    pub fn buffer_count(&self) -> (n: usize)
        ensures
            n == self.bufs().len(),
    {
        self.buffers.len()
    }

    /// The allocation slot behind an id, also after release; `None` only
    /// for an id this pool never handed out.
    pub fn allocation(&self, a: usize) -> (r: Option<&Allocation>)
        ensures
            match r {
                Some(al) => a < self.allocs().len() && *al == self.allocs()[a as int],
                None => a >= self.allocs().len(),
            },
    {
        if a < self.allocations.len() {
            Some(&self.allocations[a])
        } else {
            None
        }
    }

    /// The buffer slot behind an id, also after release; `None` only for an
    /// id this pool never handed out.
    pub fn buffer(&self, b: usize) -> (r: Option<&BufferHandle>)
        ensures
            match r {
                Some(h) => b < self.bufs().len() && *h == self.bufs()[b as int],
                None => b >= self.bufs().len(),
            },
    {
        if b < self.buffers.len() {
            Some(&self.buffers[b])
        } else {
            None
        }
    }

    /// True when some live buffer is bound to allocation `a`.
    pub fn allocation_is_referenced(&self, a: usize) -> (r: bool)
        ensures
            r == allocation_referenced(self.bufs(), a as int),
    {
        let n = self.buffers.len();
        let mut b: usize = 0;
        while b < n
            invariant
                b <= n,
                n == self.bufs().len(),
                forall|j: int| 0 <= j < b ==> !buffer_is_bound_to(self.bufs(), j, a as int),
            decreases n - b,
        {
            let h = &self.buffers[b];
            if h.live {
                if let Some(bd) = h.binding {
                    if bd.allocation == a {
                        assert(buffer_is_bound_to(self.bufs(), b as int, a as int));
                        return true;
                    }
                }
            }
            b += 1;
        }
        false
    }

    /// Runtime form of `is_drained`.
    pub fn check_drained(&self) -> (r: bool)
        ensures
            r == self.is_drained(),
    {
        let na = self.allocations.len();
        let mut i: usize = 0;
        while i < na
            invariant
                i <= na,
                na == self.allocs().len(),
                forall|j: int| 0 <= j < i ==> !(#[trigger] self.allocs()[j]).live,
            decreases na - i,
        {
            if self.allocations[i].live {
                return false;
            }
            i += 1;
        }
        let nb = self.buffers.len();
        let mut b: usize = 0;
        while b < nb
            invariant
                b <= nb,
                nb == self.bufs().len(),
                forall|j: int| 0 <= j < self.allocs().len() ==> !(#[trigger] self.allocs()[j]).live,
                forall|j: int| 0 <= j < b ==> !(#[trigger] self.bufs()[j]).live,
            decreases nb - b,
        {
            if self.buffers[b].live {
                return false;
            }
            b += 1;
        }
        true
    }

    /// Requests backing memory of `size` bytes from the first memory type
    /// of `profile` whose property flags contain `required_flags`.
    /// The new allocation's id is the previous allocation count.
    pub fn allocate(&mut self, size: u64, profile: &GpuProperties, required_flags: u32) -> (r:
        Result<usize, PoolError>)
        requires
            old(self).wf(),
        ensures
            final(self).wf(),
            match r {
                Ok(a) => {
                    &&& a == old(self).allocs().len()
                    &&& final(self).allocs().len() == old(self).allocs().len() + 1
                    &&& (final(self).allocs()[a as int] matches Allocation { size: s, memory_type: mt, live } ==> s == size && live && first_matching_memory_type(profile.mem_types(), required_flags, mt as int))
                    &&& forall|j: int|
                        0 <= j < old(self).allocs().len() ==> final(self).allocs()[j] == old(self).allocs()[j]
                    &&& final(self).bufs() == old(self).bufs()
                },
                Err(e) => {
                    &&& e == PoolError::NoSuitableMemoryType
                    &&& no_matching_memory_type(profile.mem_types(), required_flags)
                    &&& final(self).allocs() == old(self).allocs()
                    &&& final(self).bufs() == old(self).bufs()
                },
            },
    {
        match profile.find_memory_type(required_flags) {
            None => Err(PoolError::NoSuitableMemoryType),
            Some(mt) => {
                let a = self.allocations.len();
                self.allocations.push(Allocation { size, memory_type: mt, live: true });
                proof {
                    assert forall|b: int|
                        0 <= b < self.bufs().len() && (#[trigger] self.bufs()[b]).live implies
                    binding_ok(self.allocs(), self.bufs()[b]) by {
                        assert(binding_ok(old(self).allocs(), self.bufs()[b]));
                    }
                }
                Ok(a)
            },
        }
    }

    /// Creates a buffer object of the given size and usage intent, unbound;
    /// its id is the previous buffer count.
    pub fn create_buffer(&mut self, size: u64, usage: BufferUsage) -> (b: usize)
        requires
            old(self).wf(),
        ensures
            final(self).wf(),
            b == old(self).bufs().len(),
            final(self).bufs() == old(self).bufs().push(
                (BufferHandle { size, usage, binding: None, live: true }),
            ),
            final(self).allocs() == old(self).allocs(),
    {
        let b = self.buffers.len();
        self.buffers.push(BufferHandle { size, usage, binding: None, live: true });
        b
    }

    /// Applies the driver's verdict to a pending allocation: on success the
    /// allocation stays live; on failure it is released and the caller is
    /// owed `OutOfDeviceMemory`.
    pub fn confirm_allocation(&mut self, a: usize, created: bool) -> (r: Result<usize, PoolError>)
        requires
            old(self).wf(),
            valid_allocation(old(self).allocs(), a as int),
            !allocation_referenced(old(self).bufs(), a as int),
        ensures
            final(self).wf(),
            created ==> r == Ok::<usize, PoolError>(a) && final(self).allocs() == old(self).allocs()
                && final(self).bufs() == old(self).bufs(),
            !created ==> r == Err::<usize, PoolError>(PoolError::OutOfDeviceMemory) && final(self).allocs() == allocs_after_release(old(self).allocs(), a as int) && final(self).bufs()
                == old(self).bufs(),
    {
        if created {
            Ok(a)
        } else {
            let slot = self.allocations[a];
            self.allocations[a] = Allocation { live: false, ..slot };
            proof {
                self.lemma_wf_after_allocation_release(*old(self), a as int);
            }
            Err(PoolError::OutOfDeviceMemory)
        }
    }

    /// Applies the driver's verdict to a pending buffer: on success the
    /// buffer stays live; on failure it is released and the caller is owed
    /// `BufferCreationFailed`.
    pub fn confirm_buffer(&mut self, b: usize, created: bool) -> (r: Result<usize, PoolError>)
        requires
            old(self).wf(),
            valid_buffer(old(self).bufs(), b as int),
            old(self).bufs()[b as int].binding is None,
        ensures
            final(self).wf(),
            created ==> r == Ok::<usize, PoolError>(b) && final(self).allocs() == old(self).allocs()
                && final(self).bufs() == old(self).bufs(),
            !created ==> r == Err::<usize, PoolError>(PoolError::BufferCreationFailed) && final(self).bufs() == bufs_after_release(old(self).bufs(), b as int) && final(self).allocs()
                == old(self).allocs(),
    {
        if created {
            Ok(b)
        } else {
            let slot = self.buffers[b];
            self.buffers[b] = BufferHandle { live: false, binding: None, ..slot };
            Err(PoolError::BufferCreationFailed)
        }
    }

    /// Binds buffer `buffer` to allocation `allocation` at byte `offset`.
    /// Rejects unknown or dead ids, a buffer that is already bound
    /// (bindings are immutable once established), and a binding that would
    /// run past the allocation's end; on any error the pool is unchanged.
    pub fn bind(&mut self, buffer: usize, allocation: usize, offset: u64) -> (r: Result<
        (),
        PoolError,
    >)
        requires
            old(self).wf(),
        ensures
            final(self).wf(),
            r == bind_check(
                old(self).allocs(),
                old(self).bufs(),
                buffer as int,
                allocation as int,
                offset,
            ),
            r is Ok ==> final(self).bufs() == bufs_after_bind(
                old(self).bufs(),
                buffer as int,
                allocation as int,
                offset,
            ) && final(self).allocs() == old(self).allocs(),
            r is Err ==> final(self).bufs() == old(self).bufs() && final(self).allocs() == old(self).allocs(),
    {
        if buffer >= self.buffers.len() || !self.buffers[buffer].live {
            return Err(PoolError::InvalidHandle);
        }
        if allocation >= self.allocations.len() || !self.allocations[allocation].live {
            return Err(PoolError::InvalidHandle);
        }
        let h = self.buffers[buffer];
        if h.binding.is_some() {
            return Err(PoolError::AlreadyBound);
        }
        let asize = self.allocations[allocation].size;
        if h.size > asize || offset > asize - h.size {
            return Err(PoolError::InsufficientAllocationSize);
        }
        self.buffers[buffer] = BufferHandle {
            binding: Some(BufferBinding { allocation, offset }),
            ..h
        };
        proof {
            assert forall|b: int|
                0 <= b < self.bufs().len() && (#[trigger] self.bufs()[b]).live implies binding_ok(
                self.allocs(),
                self.bufs()[b],
            ) by {
                if b != buffer as int {
                    assert(self.bufs()[b] == old(self).bufs()[b]);
                    assert(binding_ok(old(self).allocs(), old(self).bufs()[b]));
                }
            }
        }
        Ok(())
    }

    /// Releases a buffer: its slot goes dead and its binding is dropped.
    pub fn release_buffer(&mut self, buffer: usize) -> (r: Result<(), PoolError>)
        requires
            old(self).wf(),
        ensures
            final(self).wf(),
            r == release_buffer_check(old(self).bufs(), buffer as int),
            r is Ok ==> final(self).bufs() == bufs_after_release(old(self).bufs(), buffer as int)
                && final(self).allocs() == old(self).allocs(),
            r is Err ==> final(self).bufs() == old(self).bufs() && final(self).allocs() == old(self).allocs(),
    {
        if buffer >= self.buffers.len() || !self.buffers[buffer].live {
            return Err(PoolError::InvalidHandle);
        }
        let h = self.buffers[buffer];
        self.buffers[buffer] = BufferHandle { live: false, binding: None, ..h };
        Ok(())
    }

    /// Releases an allocation; refused with `AllocationInUse` while any
    /// live buffer is still bound to it (release the buffer first).
    pub fn release_allocation(&mut self, allocation: usize) -> (r: Result<(), PoolError>)
        requires
            old(self).wf(),
        ensures
            final(self).wf(),
            r == release_allocation_check(
                old(self).allocs(),
                old(self).bufs(),
                allocation as int,
            ),
            r is Ok ==> final(self).allocs() == allocs_after_release(
                old(self).allocs(),
                allocation as int,
            ) && final(self).bufs() == old(self).bufs(),
            r is Err ==> final(self).bufs() == old(self).bufs() && final(self).allocs() == old(self).allocs(),
    {
        if allocation >= self.allocations.len() || !self.allocations[allocation].live {
            return Err(PoolError::InvalidHandle);
        }
        if self.allocation_is_referenced(allocation) {
            return Err(PoolError::AllocationInUse);
        }
        let slot = self.allocations[allocation];
        self.allocations[allocation] = Allocation { live: false, ..slot };
        proof {
            self.lemma_wf_after_allocation_release(*old(self), allocation as int);
        }
        Ok(())
    }

    /// Killing an unreferenced allocation keeps the pool invariant: no live
    /// buffer's binding pointed at it.
    proof fn lemma_wf_after_allocation_release(&self, pre: ResourcePool, a: int)
        requires
            pre.wf(),
            !allocation_referenced(pre.bufs(), a),
            self.bufs() == pre.bufs(),
            self.allocs() == allocs_after_release(pre.allocs(), a),
            0 <= a < pre.allocs().len(),
        ensures
            self.wf(),
    {
        assert forall|b: int|
            0 <= b < self.bufs().len() && (#[trigger] self.bufs()[b]).live implies binding_ok(
            self.allocs(),
            self.bufs()[b],
        ) by {
            assert(binding_ok(pre.allocs(), pre.bufs()[b]));
            if self.bufs()[b].binding is Some {
                let bd = self.bufs()[b].binding->Some_0;
                if bd.allocation as int == a {
                    assert(buffer_is_bound_to(pre.bufs(), b, a));
                    assert(false);
                }
            }
        }
    }
}

/// Binding the same buffer twice fails with `AlreadyBound`, and the first
/// binding is unaffected: after a successful bind of buffer `b`, a further
/// bind of `b` to any live allocation is owed `AlreadyBound`, and the table
/// still records the first binding.
pub proof fn lemma_bind_is_immutable(
    allocs: Seq<Allocation>,
    bufs: Seq<BufferHandle>,
    b: int,
    a: int,
    off: u64,
    a2: int,
    off2: u64,
)
    requires
        bind_check(allocs, bufs, b, a, off) is Ok,
        valid_allocation(allocs, a2),
    ensures
        bind_check(allocs, bufs_after_bind(bufs, b, a, off), b, a2, off2) == Err::<(), PoolError>(
            PoolError::AlreadyBound,
        ),
        bufs_after_bind(bufs, b, a, off)[b].binding == Some(
            BufferBinding { allocation: a as usize, offset: off },
        ),
{
}

/// Teardown order: while live buffer `b` (the only live buffer bound to
/// allocation `a`) exists, releasing `a` is owed `AllocationInUse`;
/// releasing `b` is owed success, and afterwards releasing `a` is too.
pub proof fn lemma_release_ordering(
    allocs: Seq<Allocation>,
    bufs: Seq<BufferHandle>,
    b: int,
    a: int,
)
    requires
        valid_allocation(allocs, a),
        buffer_is_bound_to(bufs, b, a),
        forall|b2: int| buffer_is_bound_to(bufs, b2, a) ==> b2 == b,
    ensures
        release_allocation_check(allocs, bufs, a) == Err::<(), PoolError>(PoolError::AllocationInUse),
        release_buffer_check(bufs, b) is Ok,
        release_allocation_check(allocs, bufs_after_release(bufs, b), a) is Ok,
{
    let bufs2 = bufs_after_release(bufs, b);
    assert forall|b2: int| !buffer_is_bound_to(bufs2, b2, a) by {
        if 0 <= b2 < bufs2.len() && b2 != b {
            assert(bufs2[b2] == bufs[b2]);
            if buffer_is_bound_to(bufs2, b2, a) {
                assert(buffer_is_bound_to(bufs, b2, a));
            }
        }
    }
}

/// Allocates, creates and binds the full graduated plan: for each of the
/// thirty planned (tier, size) pairs one allocation and one buffer of that
/// size, bound at offset zero — no two buffers share an allocation, so a
/// discrepancy localizes to one size/tier pair. On failure (no suitable
/// memory type, possible only before anything was made) the pool is
/// unchanged.
pub fn provision_tiered(
    pool: &mut ResourcePool,
    profile: &GpuProperties,
    required_flags: u32,
    usage: BufferUsage,
) -> (r: Result<Vec<(usize, usize)>, PoolError>)
    requires
        old(pool).wf(),
    ensures
        final(pool).wf(),
        match r {
            Ok(pairs) => {
                &&& pairs@.len() == 30
                &&& final(pool).bufs().len() == old(pool).bufs().len() + 30
                &&& final(pool).allocs().len() == old(pool).allocs().len() + 30
                &&& forall|j: int|
                    0 <= j < old(pool).bufs().len() ==> final(pool).bufs()[j] == old(pool).bufs()[j]
                &&& forall|j: int|
                    0 <= j < old(pool).allocs().len() ==> final(pool).allocs()[j] == old(pool).allocs()[j]
                &&& forall|k: int|
                    0 <= k < 30 ==> (#[trigger] pairs@[k]).0 == old(pool).bufs().len() + k
                        && pairs@[k].1 == old(pool).allocs().len() + k
                &&& forall|k: int|
                    0 <= k < 30 ==> {
                        let h = #[trigger] final(pool).bufs()[old(pool).bufs().len() + k];
                        &&& h.live
                        &&& h.size == tier_size(plan_tier(k), (k % 10) as u64)
                        &&& h.usage == usage
                        &&& h.binding is Some
                        &&& h.binding->Some_0.allocation == old(pool).allocs().len() + k
                        &&& h.binding->Some_0.offset == 0
                    }
                &&& forall|k: int|
                    0 <= k < 30 ==> {
                        let al = #[trigger] final(pool).allocs()[old(pool).allocs().len() + k];
                        &&& al.live
                        &&& al.size == tier_size(plan_tier(k), (k % 10) as u64)
                        &&& first_matching_memory_type(
                            profile.mem_types(),
                            required_flags,
                            al.memory_type as int,
                        )
                    }
            },
            Err(e) => {
                &&& e == PoolError::NoSuitableMemoryType
                &&& no_matching_memory_type(profile.mem_types(), required_flags)
                &&& final(pool).allocs() == old(pool).allocs()
                &&& final(pool).bufs() == old(pool).bufs()
            },
        },
{
    let ghost init_allocs = pool.allocs();
    let ghost init_bufs = pool.bufs();
    let plan = plan_sizes();
    let mut pairs: Vec<(usize, usize)> = Vec::new();
    let mut k: usize = 0;
    while k < 30
        invariant
            k <= 30,
            pool.wf(),
            plan@.len() == 30,
            forall|j: int|
                0 <= j < 30 ==> #[trigger] plan@[j] == (plan_tier(j), tier_size(
                    plan_tier(j),
                    (j % 10) as u64,
                )),
            pairs@.len() == k,
            pool.bufs().len() == init_bufs.len() + k,
            pool.allocs().len() == init_allocs.len() + k,
            forall|j: int| 0 <= j < init_bufs.len() ==> pool.bufs()[j] == init_bufs[j],
            forall|j: int| 0 <= j < init_allocs.len() ==> pool.allocs()[j] == init_allocs[j],
            init_allocs == old(pool).allocs(),
            init_bufs == old(pool).bufs(),
            forall|j: int|
                0 <= j < k ==> (#[trigger] pairs@[j]).0 == init_bufs.len() + j && pairs@[j].1
                    == init_allocs.len() + j,
            forall|j: int|
                0 <= j < k ==> {
                    let h = #[trigger] pool.bufs()[init_bufs.len() + j];
                    &&& h.live
                    &&& h.size == tier_size(plan_tier(j), (j % 10) as u64)
                    &&& h.usage == usage
                    &&& h.binding is Some
                    &&& h.binding->Some_0.allocation == init_allocs.len() + j
                    &&& h.binding->Some_0.offset == 0
                },
            forall|j: int|
                0 <= j < k ==> {
                    let al = #[trigger] pool.allocs()[init_allocs.len() + j];
                    &&& al.live
                    &&& al.size == tier_size(plan_tier(j), (j % 10) as u64)
                    &&& first_matching_memory_type(
                        profile.mem_types(),
                        required_flags,
                        al.memory_type as int,
                    )
                },
            k > 0 ==> !no_matching_memory_type(profile.mem_types(), required_flags),
        decreases 30 - k,
    {
        let (_, size) = plan[k];
        let a = match pool.allocate(size, profile, required_flags) {
            Ok(a) => a,
            Err(e) => {
                proof {
                    assert(k == 0);
                    assert(pool.allocs() =~= old(pool).allocs());
                    assert(pool.bufs() =~= old(pool).bufs());
                }
                return Err(e);
            },
        };
        let b = pool.create_buffer(size, usage);
        let bound = pool.bind(b, a, 0);
        proof {
            assert(bound is Ok);
        }
        pairs.push((b, a));
        k += 1;
    }
    Ok(pairs)
}

} // verus!
