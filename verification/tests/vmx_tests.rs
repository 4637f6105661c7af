use rust_kvm::memory::KvmError;
use rust_kvm::vmx::VmcsConfig;
use rust_kvm::vmx::VmxEnableState;
use rust_kvm::vmx::VmxSequencer;

fn configured(revision_id: u32) -> VmxSequencer {
    let mut seq = VmxSequencer::new();
    assert_eq!(seq.configure(revision_id, 4096, false, false, true), Ok(()));
    seq
}

/// One caller's pass through the idempotent enablement entry point, against
/// a simulated core whose control bit and enable instruction are plain
/// values. Returns whether this pass issued the hardware enable.
fn entry_pass(seq: &mut VmxSequencer, vmxe_bit: &mut bool) -> Result<bool, KvmError> {
    if seq.is_enabled() {
        return Ok(false);
    }
    let _header = seq.start_enable(*vmxe_bit)?;
    // The simulated hardware enable always succeeds and sets the bit.
    *vmxe_bit = true;
    seq.finish_enable(true)?;
    Ok(true)
}

#[test]
fn probe_requires_mandatory_features() {
    let mut seq = VmxSequencer::new();
    assert_eq!(
        seq.configure(0x12, 4096, false, false, false),
        Err(KvmError::NotSupported)
    );
    assert_eq!(seq.state, VmxEnableState::Disabled);
    assert_eq!(
        seq.configure(0x8000_0001, 4096, false, false, true),
        Err(KvmError::NotSupported)
    );
    assert_eq!(seq.configure(0x12, 4096, false, false, true), Ok(()));
    assert_eq!(seq.state, VmxEnableState::Configured);
    // Probing twice is a protocol violation.
    assert_eq!(seq.configure(0x12, 4096, false, false, true), Err(KvmError::BadState));
}

#[test]
fn enable_happens_exactly_once_for_two_callers() {
    let mut seq = configured(0x12);
    let mut vmxe_bit = false;
    // Two callers pass in turn through the entry point; the per-core flag
    // would serialize them exactly like this.
    let first = entry_pass(&mut seq, &mut vmxe_bit);
    let second = entry_pass(&mut seq, &mut vmxe_bit);
    assert_eq!(first, Ok(true));
    assert_eq!(second, Ok(false));
    assert!(seq.is_enabled());
}

#[test]
fn double_enable_is_refused() {
    let mut seq = configured(0x12);
    assert_eq!(seq.start_enable(false), Ok(0x12));
    assert_eq!(seq.finish_enable(true), Ok(()));
    assert!(seq.is_enabled());
    // Enabling an enabled core again is hardware-undefined and refused.
    assert_eq!(seq.start_enable(false), Err(KvmError::BadState));
    assert_eq!(seq.finish_enable(true), Err(KvmError::BadState));
}

#[test]
fn observed_control_bit_refuses_enable() {
    let seq = configured(0x12);
    // The processor's control state already shows the bit: someone else
    // enabled this core, so enabling again is refused, not retried.
    assert_eq!(seq.start_enable(true), Err(KvmError::BadState));
}

#[test]
fn enable_before_configure_is_refused() {
    let seq = VmxSequencer::new();
    assert_eq!(seq.start_enable(false), Err(KvmError::BadState));
}

#[test]
fn hardware_failure_is_internal_and_recoverable() {
    let mut seq = configured(0x12);
    assert_eq!(seq.start_enable(false), Ok(0x12));
    assert_eq!(seq.finish_enable(false), Err(KvmError::Internal));
    assert_eq!(seq.state, VmxEnableState::Configured);
    assert!(!seq.is_enabled());
    assert_eq!(seq.start_enable(false), Ok(0x12));
    assert_eq!(seq.finish_enable(true), Ok(()));
    assert!(seq.is_enabled());
}

#[test]
fn teardown_returns_to_disabled() {
    let mut seq = configured(0x12);
    assert_eq!(seq.start_enable(false), Ok(0x12));
    assert_eq!(seq.finish_enable(true), Ok(()));
    seq.teardown();
    assert_eq!(seq.state, VmxEnableState::Disabled);
    assert_eq!(seq.config, None);
}

#[test]
fn probe_yields_the_descriptor() {
    let config = VmcsConfig::probe(0x0102_0304, 1024, true, false, true).expect("supported");
    assert_eq!(config.revision_id, 0x0102_0304);
    assert_eq!(config.size, 1024);
    assert!(config.write_back);
    assert!(!config.io_exit_info);
    assert!(config.vmx_controls);
    assert_eq!(
        VmcsConfig::probe(0x12, 1024, true, false, false),
        Err(KvmError::NotSupported)
    );
}

#[test]
fn header_word_masks_the_top_bit() {
    let config = VmcsConfig::probe(0x0102_0304, 4096, false, false, true).expect("supported");
    assert_eq!(config.header_word(), 0x0102_0304);
    assert_eq!(config.header_word() & 0x8000_0000, 0);
}

#[test]
fn header_bytes_are_little_endian_at_page_start() {
    let config = VmcsConfig::probe(0x0102_0304, 4096, false, false, true).expect("supported");
    let mut page = vec![0xabu8; 4096];
    assert_eq!(config.write_header(&mut page), Ok(()));
    assert_eq!(&page[0..4], &[0x04, 0x03, 0x02, 0x01]);
    assert_eq!(page[3] & 0x80, 0);
    // Every other byte of the region is untouched.
    assert!(page[4..].iter().all(|b| *b == 0xab));
    let mut short = vec![0u8; 3];
    assert_eq!(config.write_header(&mut short), Err(KvmError::InvalidParam));
    assert_eq!(short, vec![0u8; 3]);
}
