//! Device sessions: a logical-device handle opened against one physical
//! accelerator with a transfer-capable queue family. A registry enforces the
//! single-open invariant — at most one live session per physical device —
//! and a session owns the resource pool scoped to it, which must be drained
//! before the session may close.

use vstd::prelude::*;

use crate::pool::ResourcePool;
use crate::probe::GpuProperties;
use crate::probe::flags_contain;

verus! {

/// Why a session could not be opened or completed.
#[derive(Clone, Copy, Debug, PartialEq, Eq, Structural)]
pub enum SessionError {
    /// The physical device already has a live session.
    AlreadyOpen,
    /// No queue family of the device contains the required capability flags.
    NoSuitableQueueFamily,
    /// The driver rejected the logical-device create request.
    DeviceCreationFailed,
}

/// A borrowed handle to one queue of a session: the chosen family and the
/// queue's index within it.
#[derive(Clone, Copy, Debug, PartialEq, Eq, Structural)]
pub struct QueueRef {
    pub family: usize,
    pub index: u32,
}

/// One live logical-device session: the physical device it was opened
/// against, the queue family its queues come from, how many queues were
/// requested, and the resource pool scoped to it.
pub struct DeviceSession {
    device_id: u64,
    queue_family: usize,
    queue_count: u32,
    pool: ResourcePool,
}

impl DeviceSession {
    /// The physical device this session is open against.
    pub closed spec fn id(&self) -> u64 {
        self.device_id
    }

    /// The chosen queue family's index.
    pub closed spec fn family(&self) -> usize {
        self.queue_family
    }

    /// How many queues were opened from the family.
    pub closed spec fn queues(&self) -> u32 {
        self.queue_count
    }

    /// The pool of allocations and buffers scoped to this session.
    pub closed spec fn pool_state(&self) -> ResourcePool {
        self.pool
    }

    pub fn device_id(&self) -> (r: u64)
        ensures
            r == self.id(),
    {
        self.device_id
    }

    pub fn queue_family(&self) -> (r: usize)
        ensures
            r == self.family(),
    {
        self.queue_family
    }

    /// The `index`-th queue of the session's family, `Some` exactly for
    /// indices below the opened queue count.
    pub fn queue(&self, index: u32) -> (r: Option<QueueRef>)
        ensures
            match r {
                Some(q) => index < self.queues() && q.family == self.family() && q.index == index,
                None => index >= self.queues(),
            },
    {
        if index < self.queue_count {
            Some(QueueRef { family: self.queue_family, index })
        } else {
            None
        }
    }

    /// Read access to the session's pool.
    pub fn pool(&self) -> (p: &ResourcePool)
        ensures
            *p == self.pool_state(),
    {
        &self.pool
    }

    /// Mutable access to the session's pool; only the pool can change
    /// through it.
    pub fn pool_mut(&mut self) -> (p: &mut ResourcePool)
        ensures
            *p == old(self).pool_state(),
            final(self).pool_state() == *final(p),
            final(self).id() == old(self).id(),
            final(self).family() == old(self).family(),
            final(self).queues() == old(self).queues(),
    {
        &mut self.pool
    }
}

/// `open` is owed a session exactly when the device has no live session and
/// some queue family of its profile contains the required flags.
pub open spec fn open_would_succeed(
    reg: SessionRegistry,
    profile: GpuProperties,
    device_id: u64,
    required_flags: u32,
) -> bool {
    &&& !reg.is_open(device_id)
    &&& exists|j: int|
        0 <= j < profile.families().len() && flags_contain(
            #[trigger] profile.families()[j].queue_flags,
            required_flags,
        )
}

/// Tracks which physical devices have a live session, and enforces that
/// opening a second session on a device fails rather than leaking or
/// overwriting the first.
pub struct SessionRegistry {
    open_ids: Vec<u64>,
}

impl SessionRegistry {
    /// The devices with a live session.
    pub closed spec fn open_devices(&self) -> Seq<u64> {
        self.open_ids@
    }

    /// Device `id` has a live session.
    pub open spec fn is_open(&self, id: u64) -> bool {
        self.open_devices().contains(id)
    }

    /// No device is tracked twice.
    pub closed spec fn wf(&self) -> bool {
        forall|i: int, j: int|
            0 <= i < j < self.open_ids@.len() ==> self.open_ids@[i] != self.open_ids@[j]
    }

    pub fn new() -> (r: Self)
        ensures
            r.wf(),
            forall|id: u64| !r.is_open(id),
    {
        let r = SessionRegistry { open_ids: Vec::new() };
        proof {
            assert forall|id: u64| !r.is_open(id) by {
                assert(r.open_devices().len() == 0);
            }
        }
        r
    }

    /// Runtime form of `is_open`.
    pub fn device_is_open(&self, id: u64) -> (r: bool)
        ensures
            r == self.is_open(id),
    {
        let n = self.open_ids.len();
        let mut i: usize = 0;
        while i < n
            invariant
                i <= n,
                n == self.open_devices().len(),
                forall|j: int| 0 <= j < i ==> self.open_devices()[j] != id,
            decreases n - i,
        {
            if self.open_ids[i] == id {
                assert(self.open_devices()[i as int] == id);
                return true;
            }
            i += 1;
        }
        assert(!self.open_devices().contains(id));
        false
    }

    /// Opens a logical-device session against `device_id`, drawing
    /// `queue_count` queues from the first queue family of `profile` whose
    /// capability mask contains `required_flags`. Owed `AlreadyOpen` while
    /// the device has a live session and `NoSuitableQueueFamily` when no
    /// family qualifies; on error the registry is unchanged.
    pub fn open(
        &mut self,
        device_id: u64,
        profile: &GpuProperties,
        required_flags: u32,
        queue_count: u32,
    ) -> (r: Result<DeviceSession, SessionError>)
        requires
            old(self).wf(),
        ensures
            final(self).wf(),
            match r {
                Ok(s) => {
                    &&& open_would_succeed(*old(self), *profile, device_id, required_flags)
                    &&& s.id() == device_id
                    &&& s.queues() == queue_count
                    &&& s.family() < profile.families().len()
                    &&& flags_contain(
                        profile.families()[s.family() as int].queue_flags,
                        required_flags,
                    )
                    &&& forall|j: int|
                        0 <= j < s.family() ==> !flags_contain(
                            #[trigger] profile.families()[j].queue_flags,
                            required_flags,
                        )
                    &&& s.pool_state().wf()
                    &&& s.pool_state().is_drained()
                    &&& s.pool_state().allocs().len() == 0
                    &&& s.pool_state().bufs().len() == 0
                    &&& forall|x: u64|
                        final(self).is_open(x) <==> (old(self).is_open(x) || x == device_id)
                },
                Err(SessionError::AlreadyOpen) => old(self).is_open(device_id) && *final(self)
                    == *old(self),
                Err(SessionError::NoSuitableQueueFamily) => !old(self).is_open(device_id) && (
                forall|j: int|
                    0 <= j < profile.families().len() ==> !flags_contain(
                        #[trigger] profile.families()[j].queue_flags,
                        required_flags,
                    )) && *final(self) == *old(self),
                Err(SessionError::DeviceCreationFailed) => false,
            },
    {
        if self.device_is_open(device_id) {
            return Err(SessionError::AlreadyOpen);
        }
        let family = match profile.find_queue_family(required_flags) {
            None => {
                return Err(SessionError::NoSuitableQueueFamily);
            },
            Some(f) => f,
        };
        let ghost prev = self.open_ids@;
        self.open_ids.push(device_id);
        proof {
            assert(self.open_devices() == prev.push(device_id));
            assert forall|x: u64| self.is_open(x) <==> (prev.contains(x) || x == device_id) by {
                if self.is_open(x) {
                    let i = choose|i: int|
                        0 <= i < self.open_devices().len() && self.open_devices()[i] == x;
                    if i < prev.len() {
                        assert(prev[i] == x);
                    }
                } else {
                    if prev.contains(x) {
                        let i = choose|i: int| 0 <= i < prev.len() && prev[i] == x;
                        assert(self.open_devices()[i] == x);
                    }
                    assert(self.open_devices()[prev.len() as int] == device_id);
                }
            }
            assert forall|i: int, j: int|
                0 <= i < j < self.open_devices().len() implies self.open_devices()[i]
                != self.open_devices()[j] by {
                if j == prev.len() {
                    assert(self.open_devices()[j] == device_id);
                    assert(prev[i] == self.open_devices()[i]);
                    assert(prev.contains(prev[i]));
                }
            }
        }
        Ok(
            DeviceSession {
                device_id,
                queue_family: family,
                queue_count,
                pool: ResourcePool::new(),
            },
        )
    }

    /// Closes a session: the last teardown step for its device, legal only
    /// once the session's pool is drained (every buffer and allocation
    /// released, buffers first). Consumes the session; afterwards the
    /// device may be opened again.
    pub fn close(&mut self, session: DeviceSession)
        requires
            old(self).wf(),
            old(self).is_open(session.id()),
            session.pool_state().is_drained(),
        ensures
            final(self).wf(),
            forall|x: u64| final(self).is_open(x) <==> (old(self).is_open(x) && x != session.id()),
    {
        let id = session.device_id();
        let n = self.open_ids.len();
        let mut i: usize = 0;
        while i < n
            invariant
                i <= n,
                n == self.open_devices().len(),
                self.wf(),
                *self == *old(self),
                forall|j: int| 0 <= j < i ==> self.open_devices()[j] != id,
                id == session.id(),
                self.open_devices().contains(id),
            decreases n - i,
        {
            if self.open_ids[i] == id {
                let ghost prev = self.open_ids@;
                self.open_ids.remove(i);
                proof {
                    assert(self.open_devices() == prev.remove(i as int));
                    assert(prev[i as int] == id);
                    assert forall|x: u64|
                        self.is_open(x) <==> (prev.contains(x) && x != id) by {
                        if self.is_open(x) {
                            let j = choose|j: int|
                                0 <= j < self.open_devices().len() && self.open_devices()[j] == x;
                            if j < i {
                                assert(prev[j] == x);
                            } else {
                                assert(prev[j + 1] == x);
                            }
                            assert(x != id) by {
                                if j < i {
                                    assert(prev[j] == x);
                                } else {
                                    assert(prev[j + 1] == x);
                                }
                            }
                        }
                        if prev.contains(x) && x != id {
                            let j = choose|j: int| 0 <= j < prev.len() && prev[j] == x;
                            assert(j != i);
                            if j < i {
                                assert(self.open_devices()[j] == x);
                            } else {
                                assert(self.open_devices()[j - 1] == x);
                            }
                        }
                    }
                    assert forall|i2: int, j2: int|
                        0 <= i2 < j2 < self.open_devices().len() implies self.open_devices()[i2]
                        != self.open_devices()[j2] by {
                        let pi = if i2 < i { i2 } else { i2 + 1 };
                        let pj = if j2 < i { j2 } else { j2 + 1 };
                        assert(self.open_devices()[i2] == prev[pi]);
                        assert(self.open_devices()[j2] == prev[pj]);
                    }
                }
                return ;
            }
            i += 1;
        }
        proof {
            assert(!self.open_devices().contains(id));
            assert(false);
        }
    }

    /// Applies the driver's verdict on the logical-device create request to
    /// a freshly opened session: on success the session stays; on rejection
    /// it is closed, its device freed for another attempt, and the caller
    /// is owed `DeviceCreationFailed`.
    pub fn complete_open(&mut self, session: DeviceSession, created: bool) -> (r: Result<
        DeviceSession,
        SessionError,
    >)
        requires
            old(self).wf(),
            old(self).is_open(session.id()),
            session.pool_state().is_drained(),
        ensures
            final(self).wf(),
            match r {
                Ok(s) => created && s == session && *final(self) == *old(self),
                Err(e) => {
                    &&& !created
                    &&& e == SessionError::DeviceCreationFailed
                    &&& forall|x: u64|
                        final(self).is_open(x) <==> (old(self).is_open(x) && x != session.id())
                },
            },
    {
        if created {
            Ok(session)
        } else {
            self.close(session);
            Err(SessionError::DeviceCreationFailed)
        }
    }
}

/// At most one live session per physical device: while `reg` holds a live
/// session for `id`, a further open of `id` is owed `AlreadyOpen` (it cannot
/// succeed); and for any registry state in which `id` was closed — exactly
/// the live devices of `reg` except `id` — an open of `id` succeeds again
/// whenever some queue family of the profile qualifies.
pub proof fn lemma_session_exclusivity(
    reg: SessionRegistry,
    reg_after_close: SessionRegistry,
    profile: GpuProperties,
    id: u64,
    required_flags: u32,
)
    requires
        reg.is_open(id),
        forall|x: u64| reg_after_close.is_open(x) <==> (reg.is_open(x) && x != id),
        exists|j: int|
            0 <= j < profile.families().len() && flags_contain(
                #[trigger] profile.families()[j].queue_flags,
                required_flags,
            ),
    ensures
        !open_would_succeed(reg, profile, id, required_flags),
        open_would_succeed(reg_after_close, profile, id, required_flags),
{
    assert(!reg_after_close.is_open(id));
}

} // verus!
