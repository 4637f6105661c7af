//! The one-time, per-physical-core hardware enablement sequence: probing the
//! capability descriptor, formatting the hardware-mandated control region,
//! and the `Disabled -> Configured -> Enabled` state machine whose enable
//! side effect must happen exactly once per core.

use vstd::prelude::*;
use crate::memory::KvmError;
use crate::memory::KvmResult;

verus! {

/// The hardware capability descriptor, populated by probing once per process
/// lifetime and immutable afterwards.
#[derive(Debug, Clone, Copy, PartialEq, Eq, Structural)]
pub struct VmcsConfig {
    /// Hardware revision identifier; always below `1 << 31`.
    pub revision_id: u32,
    /// Size of the hardware control region in bytes.
    pub size: u16,
    pub write_back: bool,
    pub io_exit_info: bool,
    pub vmx_controls: bool,
}

impl VmcsConfig {
    /// Build the descriptor from probed capability values. The mandatory
    /// control capability must be present and the reported revision must fit
    /// the 31 bits the control-region header carries; otherwise the host is
    /// unsupported.
    pub fn probe(
        revision_id: u32,
        size: u16,
        write_back: bool,
        io_exit_info: bool,
        vmx_controls: bool,
    ) -> (r: KvmResult<VmcsConfig>)
        ensures
            (!vmx_controls || revision_id >= 0x8000_0000) ==> r == Err::<VmcsConfig, KvmError>(
                KvmError::NotSupported,
            ),
            (vmx_controls && revision_id < 0x8000_0000) ==> r == Ok::<VmcsConfig, KvmError>(
                (VmcsConfig { revision_id, size, write_back, io_exit_info, vmx_controls }),
            ),
    {
        if !vmx_controls || revision_id >= 0x8000_0000 {
            return Err(KvmError::NotSupported);
        }
        Ok(VmcsConfig { revision_id, size, write_back, io_exit_info, vmx_controls })
    }

    /// The first control word of the enablement region: the revision id in
    /// the low 31 bits, bit 31 zero.
    pub fn header_word(&self) -> (r: u32)
        ensures
            r == self.revision_id & 0x7fff_ffff,
            r & 0x8000_0000 == 0,
            self.revision_id < 0x8000_0000 ==> r == self.revision_id,
    {
        let r = self.revision_id & 0x7fff_ffff;
        proof {
            let v = self.revision_id;
            assert((v & 0x7fff_ffff) & 0x8000_0000 == 0) by (bit_vector);
            assert(v < 0x8000_0000 ==> v & 0x7fff_ffff == v) by (bit_vector);
        }
        r
    }

    /// Format the header of the enablement region into its backing page:
    /// the four little-endian bytes of the header word are written at the
    /// start of the page and every other byte is untouched. The page must be
    /// at least one word long, else the request is malformed.
    pub fn write_header(&self, page: &mut Vec<u8>) -> (r: KvmResult<()>)
        ensures
            final(page).len() == old(page).len(),
            old(page).len() < 4 ==> r == Err::<(), KvmError>(KvmError::InvalidParam)
                && final(page)@ == old(page)@,
            old(page).len() >= 4 ==> {
                let w = self.revision_id & 0x7fff_ffff;
                &&& r == Ok::<(), KvmError>(())
                &&& final(page)[0] as u32 == w & 0xff
                &&& final(page)[1] as u32 == (w >> 8) & 0xff
                &&& final(page)[2] as u32 == (w >> 16) & 0xff
                &&& final(page)[3] as u32 == (w >> 24) & 0xff
                &&& final(page)[3] & 0x80 == 0
                &&& forall|i: int| 4 <= i < old(page).len() ==> final(page)[i] == old(page)[i]
            },
    {
        if page.len() < 4 {
            return Err(KvmError::InvalidParam);
        }
        let w = self.header_word();
        proof {
            assert(w & 0xff < 256 && (w >> 8) & 0xff < 256 && (w >> 16) & 0xff < 256 && (w >> 24)
                & 0xff < 256) by (bit_vector);
        }
        page[0] = (w & 0xff) as u8;
        page[1] = ((w >> 8) & 0xff) as u8;
        page[2] = ((w >> 16) & 0xff) as u8;
        page[3] = ((w >> 24) & 0xff) as u8;
        proof {
            let v = self.revision_id;
            assert((((v & 0x7fff_ffff) >> 24) & 0xff) as u8 & 0x80 == 0) by (bit_vector);
        }
        Ok(())
    }
}

/// Per-core enablement state: `Disabled -> Configured -> Enabled`, back to
/// `Disabled` only at full teardown.
#[derive(Debug, Clone, Copy, PartialEq, Eq, Structural)]
pub enum VmxEnableState {
    Disabled,
    Configured,
    Enabled,
}

/// The enablement sequencer of one physical core. Concurrent callers of the
/// enablement entry point are serialized by the core's atomically
/// checked-and-set flag, so their passes form a sequence of the steps below.
#[derive(Debug, Clone, Copy, PartialEq, Eq, Structural)]
pub struct VmxSequencer {
    pub state: VmxEnableState,
    pub config: Option<VmcsConfig>,
}

impl VmxSequencer {
    /// Once configured, the sequencer holds the probed descriptor.
    pub open spec fn wf(self) -> bool {
        self.state != VmxEnableState::Disabled ==> self.config is Some
    }

    /// A sequencer starts disabled and unconfigured.
    pub fn new() -> (r: Self)
        ensures
            r.wf(),
            r.state == VmxEnableState::Disabled,
            r.config is None,
    {
        VmxSequencer { state: VmxEnableState::Disabled, config: None }
    }

    pub fn is_enabled(&self) -> (r: bool)
        ensures
            r == (self.state == VmxEnableState::Enabled),
    {
        match self.state {
            VmxEnableState::Enabled => true,
            _ => false,
        }
    }

    /// Probe: populate the descriptor from the given capability values and
    /// move `Disabled -> Configured`. Fails `NotSupported` when a mandatory
    /// feature is absent, and `BadState` when already configured or enabled.
    pub fn configure(
        &mut self,
        revision_id: u32,
        size: u16,
        write_back: bool,
        io_exit_info: bool,
        vmx_controls: bool,
    ) -> (r: KvmResult<()>)
        requires
            old(self).wf(),
        ensures
            final(self).wf(),
            old(self).state != VmxEnableState::Disabled ==> r == Err::<(), KvmError>(
                KvmError::BadState,
            ) && *final(self) == *old(self),
            old(self).state == VmxEnableState::Disabled && (!vmx_controls || revision_id
                >= 0x8000_0000) ==> r == Err::<(), KvmError>(KvmError::NotSupported)
                && *final(self) == *old(self),
            old(self).state == VmxEnableState::Disabled && vmx_controls && revision_id
                < 0x8000_0000 ==> r == Ok::<(), KvmError>(()) && final(self).state
                == VmxEnableState::Configured && final(self).config == Some(
                (VmcsConfig { revision_id, size, write_back, io_exit_info, vmx_controls }),
            ),
    {
        match self.state {
            VmxEnableState::Disabled => {
                let config = match VmcsConfig::probe(
                    revision_id,
                    size,
                    write_back,
                    io_exit_info,
                    vmx_controls,
                ) {
                    Ok(c) => c,
                    Err(e) => {
                        return Err(e);
                    },
                };
                self.config = Some(config);
                self.state = VmxEnableState::Configured;
                Ok(())
            },
            _ => Err(KvmError::BadState),
        }
    }

    /// The checks before the hardware enable: only a configured, not yet
    /// enabled core may be enabled, and if the processor's control state
    /// already shows the enablement bit set, enabling again is refused as
    /// `BadState` — never retried, since a double enable is undefined at the
    /// hardware level. On success the caller must issue the hardware enable
    /// instruction against a page formatted with the returned header word,
    /// and then report the outcome through `finish_enable`.
    pub fn start_enable(&self, vmxe_already_set: bool) -> (r: KvmResult<u32>)
        requires
            self.wf(),
        ensures
            self.state != VmxEnableState::Configured ==> r == Err::<u32, KvmError>(
                KvmError::BadState,
            ),
            self.state == VmxEnableState::Configured && vmxe_already_set ==> r == Err::<
                u32,
                KvmError,
            >(KvmError::BadState),
            self.state == VmxEnableState::Configured && !vmxe_already_set ==> r == Ok::<
                u32,
                KvmError,
            >(self.config->Some_0.revision_id & 0x7fff_ffff),
    {
        match self.state {
            VmxEnableState::Configured => {
                if vmxe_already_set {
                    return Err(KvmError::BadState);
                }
                let config = match self.config {
                    Some(c) => c,
                    None => {
                        return Err(KvmError::BadState);
                    },
                };
                Ok(config.header_word())
            },
            _ => Err(KvmError::BadState),
        }
    }

    /// Record the outcome of the hardware enable instruction: on success the
    /// core moves `Configured -> Enabled`; a hardware failure is reported as
    /// `Internal` and the core stays configured.
    pub fn finish_enable(&mut self, hardware_ok: bool) -> (r: KvmResult<()>)
        requires
            old(self).wf(),
        ensures
            final(self).wf(),
            old(self).state != VmxEnableState::Configured ==> r == Err::<(), KvmError>(
                KvmError::BadState,
            ) && *final(self) == *old(self),
            old(self).state == VmxEnableState::Configured && !hardware_ok ==> r == Err::<
                (),
                KvmError,
            >(KvmError::Internal) && *final(self) == *old(self),
            old(self).state == VmxEnableState::Configured && hardware_ok ==> r == Ok::<
                (),
                KvmError,
            >(()) && *final(self) == (VmxSequencer { state: VmxEnableState::Enabled, ..*old(self) }),
    {
        match self.state {
            VmxEnableState::Configured => {
                if !hardware_ok {
                    return Err(KvmError::Internal);
                }
                self.state = VmxEnableState::Enabled;
                Ok(())
            },
            _ => Err(KvmError::BadState),
        }
    }

    /// Full teardown: back to `Disabled` from any state.
    pub fn teardown(&mut self)
        ensures
            final(self).wf(),
            final(self).state == VmxEnableState::Disabled,
            final(self).config is None,
    {
        self.state = VmxEnableState::Disabled;
        self.config = None;
    }
}

/// One serialized pass of a caller through the idempotent enablement entry
/// point, assuming the hardware enable succeeds when issued: a caller that
/// finds the core `Enabled` returns at once without touching hardware; any
/// other caller performs probe and enable, issuing the hardware side effect,
/// and leaves the core `Enabled`. The result is the state after the pass and
/// whether this pass issued the hardware enable.
pub open spec fn spec_entry_pass(state: VmxEnableState) -> (VmxEnableState, bool) {
    match state {
        VmxEnableState::Enabled => (VmxEnableState::Enabled, false),
        _ => (VmxEnableState::Enabled, true),
    }
}

/// How many of `n` serialized passes starting from `state` issue the
/// hardware enable side effect.
pub open spec fn spec_entry_issue_count(state: VmxEnableState, n: nat) -> nat
    decreases n,
{
    if n == 0 {
        0
    } else {
        let (next, issued) = spec_entry_pass(state);
        (if issued {
            1nat
        } else {
            0nat
        }) + spec_entry_issue_count(next, (n - 1) as nat)
    }
}

/// The once-only enablement property: when any number of callers pass in
/// turn through the enablement entry point of one physical core — the
/// atomically checked-and-set per-core flag serializes them — the hardware
/// enable side effect happens exactly once if the core was not yet enabled,
/// and never if it already was; and every caller leaves the core `Enabled`.
pub proof fn lemma_enable_once(state: VmxEnableState, n: nat)
    requires
        n >= 1,
    ensures
        spec_entry_issue_count(state, n) == (if state == VmxEnableState::Enabled {
            0nat
        } else {
            1nat
        }),
        spec_entry_pass(state).0 == VmxEnableState::Enabled,
    decreases n,
{
    reveal_with_fuel(spec_entry_issue_count, 2);
    if n > 1 {
        lemma_enable_once(spec_entry_pass(state).0, (n - 1) as nat);
    }
}

} // verus!
