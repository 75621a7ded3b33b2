use memtest_gpu_ecc::probe::GpuProperties;
use memtest_gpu_ecc::probe::MemoryType;
use memtest_gpu_ecc::probe::QueueFamily;
use memtest_gpu_ecc::probe::MEMORY_DEVICE_LOCAL;
use memtest_gpu_ecc::probe::MEMORY_HOST_COHERENT;
use memtest_gpu_ecc::probe::MEMORY_HOST_VISIBLE;
use memtest_gpu_ecc::probe::QUEUE_COMPUTE;
use memtest_gpu_ecc::probe::QUEUE_GRAPHICS;
use memtest_gpu_ecc::probe::QUEUE_TRANSFER;

fn family(queue_flags: u32) -> QueueFamily {
    QueueFamily { queue_flags, queue_count: 1 }
}

fn mem_type(property_flags: u32) -> MemoryType {
    MemoryType { property_flags, heap_index: 0 }
}

#[test]
fn queue_family_lowest_superset_wins() {
    // Families [Graphics, Transfer, Compute|Transfer]: requesting Transfer
    // must return index 1, not index 2.
    let profile = GpuProperties::new(
        vec![
            family(QUEUE_GRAPHICS),
            family(QUEUE_TRANSFER),
            family(QUEUE_COMPUTE | QUEUE_TRANSFER),
        ],
        vec![],
    );
    assert_eq!(profile.find_queue_family(QUEUE_TRANSFER), Some(1));
}

#[test]
fn queue_family_requires_containment_not_overlap() {
    // A family carrying only Graphics overlaps a Graphics|Transfer request
    // but does not contain it: the request must not match.
    let profile = GpuProperties::new(vec![family(QUEUE_GRAPHICS)], vec![]);
    assert_eq!(profile.find_queue_family(QUEUE_GRAPHICS | QUEUE_TRANSFER), None);

    let both = GpuProperties::new(vec![family(QUEUE_GRAPHICS | QUEUE_TRANSFER)], vec![]);
    assert_eq!(both.find_queue_family(QUEUE_GRAPHICS | QUEUE_TRANSFER), Some(0));
}

#[test]
fn queue_family_none_when_no_family_qualifies() {
    let profile = GpuProperties::new(vec![family(QUEUE_GRAPHICS), family(QUEUE_COMPUTE)], vec![]);
    assert_eq!(profile.find_queue_family(QUEUE_TRANSFER), None);
}

#[test]
fn queue_families_lists_every_superset_in_order() {
    let profile = GpuProperties::new(
        vec![
            family(QUEUE_GRAPHICS),
            family(QUEUE_TRANSFER),
            family(QUEUE_COMPUTE | QUEUE_TRANSFER),
        ],
        vec![],
    );
    assert_eq!(profile.find_queue_families(QUEUE_TRANSFER), Some(vec![1, 2]));
    assert_eq!(profile.find_queue_families(QUEUE_COMPUTE | QUEUE_TRANSFER), Some(vec![2]));
    assert_eq!(profile.find_queue_families(QUEUE_GRAPHICS | QUEUE_COMPUTE), None);
}

#[test]
fn memory_type_first_match_by_table_order() {
    // Table [HostVisible, DeviceLocal, DeviceLocal|HostCoherent]: requesting
    // DeviceLocal must return index 1.
    let profile = GpuProperties::new(
        vec![],
        vec![
            mem_type(MEMORY_HOST_VISIBLE),
            mem_type(MEMORY_DEVICE_LOCAL),
            mem_type(MEMORY_DEVICE_LOCAL | MEMORY_HOST_COHERENT),
        ],
    );
    assert_eq!(profile.find_memory_type(MEMORY_DEVICE_LOCAL), Some(1));
}

#[test]
fn memory_type_requires_containment_not_overlap() {
    let profile = GpuProperties::new(
        vec![],
        vec![mem_type(MEMORY_DEVICE_LOCAL), mem_type(MEMORY_HOST_VISIBLE)],
    );
    assert_eq!(
        profile.find_memory_type(MEMORY_DEVICE_LOCAL | MEMORY_HOST_VISIBLE),
        None,
    );
    assert_eq!(profile.find_memory_type(MEMORY_HOST_VISIBLE), Some(1));
}

#[test]
fn memory_type_none_when_unsatisfiable() {
    let profile = GpuProperties::new(vec![], vec![mem_type(MEMORY_HOST_VISIBLE)]);
    assert_eq!(profile.find_memory_type(MEMORY_HOST_COHERENT), None);
}

#[test]
fn probe_tables_are_kept_verbatim() {
    let fams = vec![family(QUEUE_TRANSFER)];
    let mems = vec![mem_type(MEMORY_DEVICE_LOCAL)];
    let profile = GpuProperties::new(fams.clone(), mems.clone());
    assert_eq!(profile.queue_family_properties(), &fams);
    assert_eq!(profile.memory_properties(), &mems);
}
