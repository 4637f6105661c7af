use rust_kvm::memory::DefaultGuestPhysMemorySet;
use rust_kvm::memory::GuestMemoryAttr;
use rust_kvm::memory::GuestPhysMemorySetTrait;
use rust_kvm::memory::HostRange;
use rust_kvm::memory::KvmError;
use rust_kvm::memory::KvmMemorySlot;
use rust_kvm::memory::GUEST_PHYS_SPACE_SIZE;

fn rwx() -> GuestMemoryAttr {
    GuestMemoryAttr::default()
}

fn read_only() -> GuestMemoryAttr {
    GuestMemoryAttr::new(true, false, false)
}

#[test]
fn add_region_then_translate_offset() {
    let mut set = DefaultGuestPhysMemorySet::new();
    assert_eq!(set.add_region(0x0, 0x1000, rwx()), Ok(()));
    let r = set.translate(0x500, 16, read_only());
    assert_eq!(r, Ok(HostRange { start: 0x500, size: 16 }));
}

#[test]
fn adjacent_regions_succeed_overlap_conflicts() {
    let mut set = DefaultGuestPhysMemorySet::new();
    assert_eq!(set.add_region(0, 0x1000, rwx()), Ok(()));
    assert_eq!(set.add_region(0x1000, 0x2000, rwx()), Ok(()));
    assert_eq!(set.add_region(0x800, 0x1800, rwx()), Err(KvmError::InvalidParam));
}

#[test]
fn disjoint_regions_succeed_in_any_order() {
    let mut set = DefaultGuestPhysMemorySet::new();
    assert_eq!(set.add_region(0x4000, 0x5000, rwx()), Ok(()));
    assert_eq!(set.add_region(0x1000, 0x2000, rwx()), Ok(()));
    assert_eq!(set.add_region(0x8000, 0x9000, read_only()), Ok(()));
    // A second insertion over any of them is refused.
    assert_eq!(set.add_region(0x4800, 0x4c00, rwx()), Err(KvmError::InvalidParam));
}

#[test]
fn malformed_and_out_of_range_regions() {
    let mut set = DefaultGuestPhysMemorySet::new();
    assert_eq!(set.add_region(0x2000, 0x2000, rwx()), Err(KvmError::InvalidParam));
    assert_eq!(set.add_region(0x3000, 0x2000, rwx()), Err(KvmError::InvalidParam));
    assert_eq!(
        set.add_region(0xffff_f000, 0x1_0000_1000, rwx()),
        Err(KvmError::OutOfRange)
    );
}

#[test]
fn find_region_hit_and_miss() {
    let mut set = DefaultGuestPhysMemorySet::new();
    assert_eq!(set.add_region(0x1000, 0x2000, read_only()), Ok(()));
    let region = set.find_region(0x1800).expect("address is held");
    assert_eq!(region.start_paddr, 0x1000);
    assert_eq!(region.end_paddr, 0x2000);
    assert!(region.attr.is_read());
    assert!(!region.attr.is_write());
    assert_eq!(set.find_region(0x2000), Err(KvmError::NotFound));
    assert_eq!(set.find_region(0x0), Err(KvmError::NotFound));
}

#[test]
fn test_free_region_reports_overlap() {
    let mut set = DefaultGuestPhysMemorySet::new();
    assert!(set.test_free_region(0, 0x1000));
    assert_eq!(set.add_region(0, 0x1000, rwx()), Ok(()));
    assert!(!set.test_free_region(0xfff, 0x2000));
    assert!(set.test_free_region(0x1000, 0x2000));
}

#[test]
fn translate_rejects_zero_length_and_spanning() {
    let mut set = DefaultGuestPhysMemorySet::new();
    assert_eq!(set.add_region(0, 0x1000, rwx()), Ok(()));
    assert_eq!(set.add_region(0x1000, 0x2000, rwx()), Ok(()));
    assert_eq!(set.translate(0x500, 0, read_only()), Err(KvmError::InvalidParam));
    // The two regions are adjacent, but their host backing need not be
    // contiguous: a span across the boundary is refused.
    assert_eq!(set.translate(0xf00, 0x200, read_only()), Err(KvmError::OutOfRange));
    assert_eq!(set.translate(0x3000, 4, read_only()), Err(KvmError::OutOfRange));
    assert_eq!(set.translate(0xff0, 0x10, read_only()), Ok(HostRange { start: 0xff0, size: 0x10 }));
}

#[test]
fn translate_checks_permission() {
    let mut set = DefaultGuestPhysMemorySet::new();
    assert_eq!(set.add_region(0, 0x1000, read_only()), Ok(()));
    assert_eq!(set.translate(0x10, 8, read_only()), Ok(HostRange { start: 0x10, size: 8 }));
    let write = GuestMemoryAttr::new(false, true, false);
    assert_eq!(set.translate(0x10, 8, write), Err(KvmError::InvalidParam));
    let execute = GuestMemoryAttr::new(false, false, true);
    assert_eq!(set.translate(0x10, 8, execute), Err(KvmError::InvalidParam));
}

#[test]
fn write_then_read_round_trip() {
    let mut set = DefaultGuestPhysMemorySet::new();
    assert_eq!(set.add_region(0, 0x1000, rwx()), Ok(()));
    let data = vec![1u8, 2, 3];
    assert_eq!(GuestPhysMemorySetTrait::write_memory(&mut set, 0x500, &data), Ok(3));
    let mut buf = vec![0u8; 3];
    assert_eq!(GuestPhysMemorySetTrait::read_memory(&set, 0x500, &mut buf), Ok(3));
    assert_eq!(buf, vec![1u8, 2, 3]);
    // A fresh region reads as zeroes.
    let mut zeros = vec![0xffu8; 4];
    assert_eq!(set.read_memory(0x800, &mut zeros), Ok(4));
    assert_eq!(zeros, vec![0u8; 4]);
}

#[test]
fn write_respects_permission_and_bounds() {
    let mut set = DefaultGuestPhysMemorySet::new();
    assert_eq!(set.add_region(0, 0x1000, read_only()), Ok(()));
    let data = vec![9u8; 8];
    assert_eq!(set.write_memory(0x10, &data), Err(KvmError::InvalidParam));
    let mut buf = vec![0u8; 8];
    assert_eq!(set.read_memory(0x10, &mut buf), Ok(8));
    assert_eq!(buf, vec![0u8; 8]);
    // A copy crossing the end of the region is refused and copies nothing.
    let mut long = vec![7u8; 0x20];
    assert_eq!(set.read_memory(0xff0, &mut long), Err(KvmError::OutOfRange));
    assert_eq!(long, vec![7u8; 0x20]);
}

#[test]
fn size_is_the_advertised_space() {
    let set = DefaultGuestPhysMemorySet::new();
    assert_eq!(set.size(), 1u64 << 32);
    assert_eq!(GuestPhysMemorySetTrait::size(&set), GUEST_PHYS_SPACE_SIZE);
    // Region insertion does not grow it.
    let mut set = set;
    assert_eq!(set.add_region(0, 0x1000, rwx()), Ok(()));
    assert_eq!(set.size(), GUEST_PHYS_SPACE_SIZE);
}

#[test]
fn attr_defaults_and_emptiness() {
    let full = GuestMemoryAttr::default();
    assert!(full.is_read() && full.is_write() && full.is_execute());
    let none = GuestMemoryAttr::empty();
    assert!(!none.is_read() && !none.is_write() && !none.is_execute());
}

#[test]
fn memory_slot_holds_its_fields() {
    let slot = KvmMemorySlot { userspace_addr: 0x8000, flags: 3, id: 7, as_id: 1 };
    assert_eq!(slot.userspace_addr, 0x8000);
    assert_eq!(slot.flags, 3);
    assert_eq!(slot.id, 7);
    assert_eq!(slot.as_id, 1);
}
