use memtest_gpu_ecc::pool::provision_tiered;
use memtest_gpu_ecc::pool::BufferBinding;
use memtest_gpu_ecc::pool::BufferUsage;
use memtest_gpu_ecc::pool::PoolError;
use memtest_gpu_ecc::pool::ResourcePool;
use memtest_gpu_ecc::probe::GpuProperties;
use memtest_gpu_ecc::probe::MemoryType;
use memtest_gpu_ecc::probe::QueueFamily;
use memtest_gpu_ecc::probe::MEMORY_DEVICE_LOCAL;
use memtest_gpu_ecc::probe::MEMORY_HOST_VISIBLE;
use memtest_gpu_ecc::probe::QUEUE_GRAPHICS;
use memtest_gpu_ecc::probe::QUEUE_TRANSFER;
use memtest_gpu_ecc::session::SessionError;
use memtest_gpu_ecc::session::SessionRegistry;
use memtest_gpu_ecc::tiers::GIGABYTE;
use memtest_gpu_ecc::tiers::KILOBYTE;
use memtest_gpu_ecc::tiers::MEGABYTE;

fn device_profile() -> GpuProperties {
    GpuProperties::new(
        vec![
            QueueFamily { queue_flags: QUEUE_GRAPHICS, queue_count: 2 },
            QueueFamily { queue_flags: QUEUE_TRANSFER, queue_count: 1 },
        ],
        vec![
            MemoryType { property_flags: MEMORY_HOST_VISIBLE, heap_index: 0 },
            MemoryType { property_flags: MEMORY_DEVICE_LOCAL, heap_index: 1 },
        ],
    )
}

#[test]
fn binding_twice_fails_already_bound_first_binding_unaffected() {
    let profile = device_profile();
    let mut pool = ResourcePool::new();
    let a = pool.allocate(4096, &profile, MEMORY_DEVICE_LOCAL).unwrap();
    let b = pool.create_buffer(4096, BufferUsage::TransferBoth);
    assert_eq!(pool.bind(b, a, 0), Ok(()));

    let a2 = pool.allocate(8192, &profile, MEMORY_DEVICE_LOCAL).unwrap();
    assert_eq!(pool.bind(b, a2, 0), Err(PoolError::AlreadyBound));
    assert_eq!(pool.bind(b, a, 0), Err(PoolError::AlreadyBound));

    let handle = pool.buffer(b).unwrap();
    assert_eq!(handle.binding, Some(BufferBinding { allocation: a, offset: 0 }));
}

#[test]
fn release_order_is_buffer_before_allocation() {
    let profile = device_profile();
    let mut pool = ResourcePool::new();
    let a = pool.allocate(4096, &profile, MEMORY_DEVICE_LOCAL).unwrap();
    let b = pool.create_buffer(4096, BufferUsage::TransferSource);
    pool.bind(b, a, 0).unwrap();

    // Releasing the allocation while the buffer still references it fails.
    assert_eq!(pool.release_allocation(a), Err(PoolError::AllocationInUse));
    // Buffer first, then the allocation succeeds.
    assert_eq!(pool.release_buffer(b), Ok(()));
    assert_eq!(pool.release_allocation(a), Ok(()));
    assert!(pool.check_drained());
}

#[test]
fn released_ids_stay_invalid() {
    let profile = device_profile();
    let mut pool = ResourcePool::new();
    let a = pool.allocate(1024, &profile, MEMORY_DEVICE_LOCAL).unwrap();
    let b = pool.create_buffer(1024, BufferUsage::TransferDestination);
    pool.release_buffer(b).unwrap();
    assert_eq!(pool.release_buffer(b), Err(PoolError::InvalidHandle));
    assert_eq!(pool.bind(b, a, 0), Err(PoolError::InvalidHandle));
    pool.release_allocation(a).unwrap();
    assert_eq!(pool.release_allocation(a), Err(PoolError::InvalidHandle));
}

#[test]
fn bind_rejects_unknown_handles() {
    let mut pool = ResourcePool::new();
    assert_eq!(pool.bind(0, 0, 0), Err(PoolError::InvalidHandle));
}

#[test]
fn bind_rejects_insufficient_allocation_size() {
    let profile = device_profile();
    let mut pool = ResourcePool::new();
    let a = pool.allocate(1024, &profile, MEMORY_DEVICE_LOCAL).unwrap();
    let big = pool.create_buffer(2048, BufferUsage::TransferBoth);
    assert_eq!(pool.bind(big, a, 0), Err(PoolError::InsufficientAllocationSize));
    let snug = pool.create_buffer(1024, BufferUsage::TransferBoth);
    assert_eq!(pool.bind(snug, a, 1), Err(PoolError::InsufficientAllocationSize));
    assert_eq!(pool.bind(snug, a, 0), Ok(()));
}

#[test]
fn allocate_fails_without_suitable_memory_type() {
    let profile = GpuProperties::new(
        vec![],
        vec![MemoryType { property_flags: MEMORY_HOST_VISIBLE, heap_index: 0 }],
    );
    let mut pool = ResourcePool::new();
    assert_eq!(
        pool.allocate(1024, &profile, MEMORY_DEVICE_LOCAL),
        Err(PoolError::NoSuitableMemoryType),
    );
}

#[test]
fn driver_rejection_retires_allocation_as_out_of_memory() {
    let profile = device_profile();
    let mut pool = ResourcePool::new();
    let a = pool.allocate(1 << 40, &profile, MEMORY_DEVICE_LOCAL).unwrap();
    assert_eq!(pool.confirm_allocation(a, false), Err(PoolError::OutOfDeviceMemory));
    assert!(!pool.allocation(a).unwrap().live);

    let a2 = pool.allocate(1024, &profile, MEMORY_DEVICE_LOCAL).unwrap();
    assert_eq!(pool.confirm_allocation(a2, true), Ok(a2));
    assert!(pool.allocation(a2).unwrap().live);
}

#[test]
fn driver_rejection_retires_buffer_as_creation_failed() {
    let mut pool = ResourcePool::new();
    let b = pool.create_buffer(1024, BufferUsage::TransferBoth);
    assert_eq!(pool.confirm_buffer(b, false), Err(PoolError::BufferCreationFailed));
    assert!(!pool.buffer(b).unwrap().live);

    let b2 = pool.create_buffer(1024, BufferUsage::TransferBoth);
    assert_eq!(pool.confirm_buffer(b2, true), Ok(b2));
}

#[test]
fn tiered_provisioning_makes_thirty_private_pairs() {
    let profile = device_profile();
    let mut pool = ResourcePool::new();
    let pairs = provision_tiered(&mut pool, &profile, MEMORY_DEVICE_LOCAL, BufferUsage::TransferBoth)
        .unwrap();
    assert_eq!(pairs.len(), 30);
    assert_eq!(pool.buffer_count(), 30);
    assert_eq!(pool.allocation_count(), 30);

    // Every buffer id and allocation id is distinct: nothing is shared.
    for (k, &(b, a)) in pairs.iter().enumerate() {
        assert_eq!(b, k);
        assert_eq!(a, k);
        let handle = pool.buffer(b).unwrap();
        assert!(handle.live);
        assert_eq!(handle.binding, Some(BufferBinding { allocation: a, offset: 0 }));
    }

    // Ten geometric steps per unit: spot-check the exact sizes.
    assert_eq!(pool.buffer(0).unwrap().size, KILOBYTE);
    assert_eq!(pool.buffer(9).unwrap().size, 512 * KILOBYTE);
    assert_eq!(pool.buffer(10).unwrap().size, MEGABYTE);
    assert_eq!(pool.buffer(19).unwrap().size, 512 * MEGABYTE);
    assert_eq!(pool.buffer(20).unwrap().size, GIGABYTE);
    assert_eq!(pool.buffer(29).unwrap().size, 512 * GIGABYTE);
}

#[test]
fn tiered_provisioning_fails_cleanly_without_memory_type() {
    let profile = GpuProperties::new(vec![], vec![]);
    let mut pool = ResourcePool::new();
    assert_eq!(
        provision_tiered(&mut pool, &profile, MEMORY_DEVICE_LOCAL, BufferUsage::TransferBoth),
        Err(PoolError::NoSuitableMemoryType),
    );
    assert_eq!(pool.buffer_count(), 0);
    assert_eq!(pool.allocation_count(), 0);
}

#[test]
fn second_session_on_same_device_fails_already_open() {
    let profile = device_profile();
    let mut registry = SessionRegistry::new();

    let first = registry.open(7, &profile, QUEUE_TRANSFER, 1).unwrap();
    assert_eq!(first.device_id(), 7);
    assert_eq!(first.queue_family(), 1);

    // Second open on the same physical device fails; the first session is
    // unaffected.
    match registry.open(7, &profile, QUEUE_TRANSFER, 1) {
        Err(SessionError::AlreadyOpen) => {},
        other => panic!("expected AlreadyOpen, got {:?}", other.map(|s| s.device_id())),
    }
    assert!(registry.device_is_open(7));

    // A different physical device is free to open.
    let other = registry.open(9, &profile, QUEUE_TRANSFER, 1).unwrap();
    assert_eq!(other.device_id(), 9);

    // After closing the first, the device can be opened again.
    registry.close(first);
    assert!(!registry.device_is_open(7));
    let reopened = registry.open(7, &profile, QUEUE_TRANSFER, 1).unwrap();
    assert_eq!(reopened.device_id(), 7);
}

#[test]
fn open_fails_without_suitable_queue_family() {
    let profile = GpuProperties::new(
        vec![QueueFamily { queue_flags: QUEUE_GRAPHICS, queue_count: 1 }],
        vec![],
    );
    let mut registry = SessionRegistry::new();
    match registry.open(1, &profile, QUEUE_TRANSFER, 1) {
        Err(SessionError::NoSuitableQueueFamily) => {},
        other => panic!("expected NoSuitableQueueFamily, got {:?}", other.map(|s| s.device_id())),
    }
    assert!(!registry.device_is_open(1));
}

#[test]
fn driver_rejection_surfaces_device_creation_failed() {
    let profile = device_profile();
    let mut registry = SessionRegistry::new();
    let session = registry.open(3, &profile, QUEUE_TRANSFER, 1).unwrap();
    match registry.complete_open(session, false) {
        Err(SessionError::DeviceCreationFailed) => {},
        other => panic!("expected DeviceCreationFailed, got {:?}", other.map(|s| s.device_id())),
    }
    // The failed open frees the device for another attempt.
    assert!(!registry.device_is_open(3));
    let retry = registry.open(3, &profile, QUEUE_TRANSFER, 1).unwrap();
    let kept = registry.complete_open(retry, true).unwrap();
    assert_eq!(kept.device_id(), 3);
}

#[test]
fn session_queues_are_bounded_by_the_requested_count() {
    let profile = device_profile();
    let mut registry = SessionRegistry::new();
    let session = registry.open(1, &profile, QUEUE_TRANSFER, 2).unwrap();
    let q0 = session.queue(0).unwrap();
    assert_eq!(q0.family, session.queue_family());
    assert_eq!(q0.index, 0);
    assert!(session.queue(1).is_some());
    assert!(session.queue(2).is_none());
}

#[test]
fn session_pool_is_scoped_and_usable() {
    let profile = device_profile();
    let mut registry = SessionRegistry::new();
    let mut session = registry.open(5, &profile, QUEUE_TRANSFER, 1).unwrap();
    let a = session.pool_mut().allocate(2048, &profile, MEMORY_DEVICE_LOCAL).unwrap();
    let b = session.pool_mut().create_buffer(2048, BufferUsage::TransferBoth);
    session.pool_mut().bind(b, a, 0).unwrap();
    assert!(!session.pool().check_drained());
    session.pool_mut().release_buffer(b).unwrap();
    session.pool_mut().release_allocation(a).unwrap();
    assert!(session.pool().check_drained());
    registry.close(session);
}
