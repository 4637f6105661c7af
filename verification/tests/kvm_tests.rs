use rust_kvm::kvm::Kvm;
use rust_kvm::kvm::KvmVmState;

#[test]
fn create_vm_counts_users_and_adds_slots() {
    let mut kvm = Kvm::new();
    assert_eq!(kvm.user_counts, None);
    assert!(!kvm.state.enabled);
    assert_eq!(kvm.create_vm(0, 4, Some(0x77)), Ok(()));
    assert_eq!(kvm.user_counts, Some(1));
    assert!(kvm.state.enabled);
    assert_eq!(kvm.mm, Some(0x77));
    assert_eq!(kvm.memslots.len(), 4);
    assert!(kvm.memslots.iter().all(|slot| slot.is_none()));
    assert_eq!(kvm.create_vm(0, 2, Some(0x77)), Ok(()));
    assert_eq!(kvm.user_counts, Some(2));
    assert_eq!(kvm.memslots.len(), 6);
}

#[test]
fn create_vcpu_assigns_the_id() {
    let mut kvm = Kvm::new();
    assert_eq!(kvm.create_vcpu(5), Ok(()));
    assert_eq!(kvm.create_vcpu(6), Ok(()));
    assert_eq!(kvm.vcpus.len(), 2);
    assert_eq!(kvm.vcpus[0].id(), Some(5));
    assert_eq!(kvm.vcpus[1].id(), Some(6));
    assert!(!kvm.vcpus[0].launched);
}

#[test]
fn create_vm_refuses_unrepresentable_user_count() {
    let mut kvm = Kvm::new();
    kvm.user_counts = Some(u32::MAX);
    assert_eq!(kvm.create_vm(0, 1, None), Err(rust_kvm::memory::KvmError::Internal));
    assert_eq!(kvm.user_counts, Some(u32::MAX));
    assert_eq!(kvm.memslots.len(), 0);
}

#[test]
fn vm_state_toggles_deterministically() {
    let mut state = KvmVmState::new();
    assert!(!state.enabled);
    assert!(state.set_enabled(true));
    assert!(state.enabled);
    assert!(state.set_enabled(false));
    assert!(!state.enabled);
    assert_eq!(state.mmu_pte_write, None);
    assert_eq!(state.mmu_pte_updated, None);
}
