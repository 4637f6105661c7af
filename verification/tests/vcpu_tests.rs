use rust_kvm::memory::KvmError;
use rust_kvm::vcpu::Vcpu;
use rust_kvm::vmstat::GuestState;
use rust_kvm::vmstat::HostState;

#[test]
fn set_id_is_assign_once() {
    let mut vcpu = Vcpu::new();
    assert_eq!(vcpu.id(), None);
    assert_eq!(vcpu.set_id(2), Ok(()));
    assert_eq!(vcpu.set_id(3), Err(KvmError::BadState));
    assert_eq!(vcpu.id(), Some(2));
}

#[test]
fn fresh_vcpu_state() {
    let vcpu = Vcpu::new();
    assert!(!vcpu.launched);
    assert_eq!(vcpu.run, 0);
    assert_eq!(vcpu.guest_state.rax, 0);
    assert_eq!(vcpu.guest_state.r15, 0);
}

#[test]
fn mark_launched_sets_the_flag() {
    let mut vcpu = Vcpu::new();
    vcpu.mark_launched();
    assert!(vcpu.launched);
    vcpu.mark_launched();
    assert!(vcpu.launched);
}

#[test]
fn edx_eax_round_trip() {
    let mut state = GuestState::default();
    let value = 0xdead_beef_1234_5678u64;
    state.set_edx_eax(value);
    assert_eq!(state.get_edx_eax(), value);
    assert_eq!(state.rax, 0x1234_5678);
    assert_eq!(state.rdx, 0xdead_beef);
    state.set_edx_eax(u64::MAX);
    assert_eq!(state.get_edx_eax(), u64::MAX);
    state.set_edx_eax(0);
    assert_eq!(state.get_edx_eax(), 0);
}

#[test]
fn edx_eax_read_ignores_upper_halves() {
    let mut state = GuestState::default();
    state.rax = 0xffff_ffff_0000_1111;
    state.rdx = 0xaaaa_bbbb_cccc_dddd;
    assert_eq!(state.get_edx_eax(), 0xcccc_dddd_0000_1111);
}

#[test]
fn edx_eax_write_zero_extends_both_halves() {
    let mut state = GuestState::default();
    state.rax = u64::MAX;
    state.rdx = u64::MAX;
    state.rbx = 0x77;
    state.set_edx_eax(0x0000_0001_0000_0002);
    assert_eq!(state.rax, 2);
    assert_eq!(state.rdx, 1);
    // No other register changes.
    assert_eq!(state.rbx, 0x77);
}

#[test]
fn low_register_getters_truncate() {
    let mut state = GuestState::default();
    state.rax = 0x1111_2222_3333_4444;
    state.rcx = 0x5555_6666_7777_8888;
    state.rdx = 0x9999_aaaa_bbbb_cccc;
    state.rbx = 0xdddd_eeee_ffff_0000;
    assert_eq!(state.get_eax(), 0x3333_4444);
    assert_eq!(state.get_ecx(), 0x7777_8888);
    assert_eq!(state.get_edx(), 0xbbbb_cccc);
    assert_eq!(state.get_ebx(), 0xffff_0000);
}

#[test]
fn host_state_holds_its_fields() {
    let host = HostState { rsp: 0xfff0, xcr0: 7 };
    assert_eq!(host.rsp, 0xfff0);
    assert_eq!(host.xcr0, 7);
}
