//! Per-virtual-CPU identity and lifecycle state.

use vstd::prelude::*;
use crate::memory::KvmError;
use crate::memory::KvmResult;
use crate::vmstat::GuestState;

verus! {

/// One virtual CPU: its assign-once identity, its owned register snapshot,
/// and its launch flag. `launched` turns true on the first hardware launch
/// and never reverts before destruction.
#[derive(Debug, Clone, Copy, PartialEq, Eq, Structural)]
pub struct Vcpu {
    /// Owned guest register snapshot.
    pub guest_state: GuestState,
    /// Shared-run-structure token handed in by the hosting layer.
    pub run: u64,
    /// Identity, assigned exactly once.
    pub vcpu_id: Option<u32>,
    /// Whether the vCPU was ever launched on hardware.
    pub launched: bool,
}

/// What `set_id` does: a first assignment succeeds and is permanent; any
/// reassignment is refused with `BadState` and changes nothing.
pub open spec fn spec_set_id(v: Vcpu, id: u32) -> (Vcpu, KvmResult<()>) {
    match v.vcpu_id {
        Some(_) => (v, Err(KvmError::BadState)),
        None => ((Vcpu { vcpu_id: Some(id), ..v }), Ok(())),
    }
}

impl Vcpu {
    /// A freshly created vCPU: no identity, zeroed registers, never launched.
    pub fn new() -> (r: Self)
        ensures
            r.vcpu_id is None,
            !r.launched,
            r.run == 0,
            r.guest_state == GuestState::spec_zeroed(),
    {
        Vcpu { guest_state: Default::default(), run: 0, vcpu_id: None, launched: false }
    }

    /// Assign the vCPU's identity. The assignment is permanent: once an id is
    /// held, any further call fails with `BadState` and the id is kept.
    pub fn set_id(&mut self, id: u32) -> (r: KvmResult<()>)
        ensures
            *final(self) == spec_set_id(*old(self), id).0,
            r == spec_set_id(*old(self), id).1,
    {
        match self.vcpu_id {
            Some(_) => Err(KvmError::BadState),
            None => {
                self.vcpu_id = Some(id);
                Ok(())
            },
        }
    }

    /// The assigned identity, if any.
    pub fn id(&self) -> (r: Option<u32>)
        ensures
            r == self.vcpu_id,
    {
        self.vcpu_id
    }

    /// Record the first hardware launch; permitted in every state and never
    /// reverted before destruction.
    pub fn mark_launched(&mut self)
        ensures
            *final(self) == (Vcpu { launched: true, ..*old(self) }),
    {
        self.launched = true;
    }
}

/// The identity of a vCPU is assign-once: from a vCPU without an id, a first
/// assignment of `id1` succeeds and stores it; a second assignment of any
/// `id2` fails with `BadState`, and the stored id remains `id1`.
pub proof fn lemma_set_id_assign_once(v: Vcpu, id1: u32, id2: u32)
    requires
        v.vcpu_id is None,
    ensures
        ({
            let (v1, r1) = spec_set_id(v, id1);
            let (v2, r2) = spec_set_id(v1, id2);
            &&& r1 == Ok::<(), KvmError>(())
            &&& v1.vcpu_id == Some(id1)
            &&& r2 == Err::<(), KvmError>(KvmError::BadState)
            &&& v2.vcpu_id == Some(id1)
        }),
{
}

} // verus!
