use rust_kvm::memory::GuestMemoryAttr;
use rust_kvm::memory::KvmError;
use rust_kvm::page_table::IntoKvmPageTableFlags;
use rust_kvm::page_table::KvmPageTable;
use rust_kvm::page_table::ShadowPageTable;
use rust_kvm::page_table::PAGE_SIZE;

fn rw() -> GuestMemoryAttr {
    GuestMemoryAttr::new(true, true, false)
}

#[test]
fn map_query_unmap_round_trip() {
    let mut pt = ShadowPageTable::new(0x42000);
    assert_eq!(pt.map(0x3000, 0x9000, rw()), Ok(()));
    assert_eq!(pt.query(0x3000), Ok(0x9000));
    assert_eq!(pt.unmap(0x3000), Ok(()));
    assert_eq!(pt.query(0x3000), Err(KvmError::NotFound));
}

#[test]
fn unmap_is_idempotent() {
    let mut pt = ShadowPageTable::new(0x1000);
    // Unmapping a never-mapped page succeeds.
    assert_eq!(pt.unmap(0x5000), Ok(()));
    assert_eq!(pt.map(0x5000, 0x7000, rw()), Ok(()));
    assert_eq!(pt.unmap(0x5000), Ok(()));
    // Unmapping twice succeeds as well, and the page stays unmapped.
    assert_eq!(pt.unmap(0x5000), Ok(()));
    assert_eq!(pt.query(0x5000), Err(KvmError::NotFound));
}

#[test]
fn protect_changes_permission_keeps_host_address() {
    let mut pt = ShadowPageTable::new(0x1000);
    assert_eq!(pt.map(0x3000, 0x9000, rw()), Ok(()));
    let before = pt.query_attr(0x3000).expect("mapped");
    assert!(before.is_write());
    assert_eq!(pt.protect(0x3000, GuestMemoryAttr::new(true, false, false)), Ok(()));
    let after = pt.query_attr(0x3000).expect("still mapped");
    assert!(after.is_read());
    assert!(!after.is_write());
    assert_eq!(pt.query(0x3000), Ok(0x9000));
}

#[test]
fn protect_unmapped_page_is_not_found() {
    let mut pt = ShadowPageTable::new(0x1000);
    assert_eq!(
        pt.protect(0x3000, GuestMemoryAttr::new(true, false, false)),
        Err(KvmError::NotFound)
    );
}

#[test]
fn map_rejects_misaligned_addresses() {
    let mut pt = ShadowPageTable::new(0x1000);
    assert_eq!(pt.map(0x3001, 0x9000, rw()), Err(KvmError::InvalidParam));
    assert_eq!(pt.map(0x3000, 0x9010, rw()), Err(KvmError::InvalidParam));
    assert_eq!(pt.query(0x3000), Err(KvmError::NotFound));
    assert_eq!(PAGE_SIZE, 4096);
}

#[test]
fn map_overwrites_existing_entry() {
    let mut pt = ShadowPageTable::new(0x1000);
    assert_eq!(pt.map(0x3000, 0x9000, rw()), Ok(()));
    assert_eq!(pt.map(0x3000, 0xa000, rw()), Ok(()));
    assert_eq!(pt.query(0x3000), Ok(0xa000));
}

#[test]
fn table_phys_is_stable() {
    let mut pt = ShadowPageTable::new(0x42000);
    assert_eq!(pt.table_phys(), 0x42000);
    assert_eq!(pt.map(0x3000, 0x9000, rw()), Ok(()));
    assert_eq!(pt.map(0x4000, 0xb000, rw()), Ok(()));
    assert_eq!(pt.unmap(0x3000), Ok(()));
    assert_eq!(pt.table_phys(), 0x42000);
}

#[test]
fn attr_carries_page_table_flags() {
    let attr = GuestMemoryAttr::new(true, false, true);
    assert!(IntoKvmPageTableFlags::is_read(&attr));
    assert!(!IntoKvmPageTableFlags::is_write(&attr));
    assert!(IntoKvmPageTableFlags::is_execute(&attr));
}
