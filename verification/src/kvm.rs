//! The VM orchestrator: composes the per-VM address space, page table and
//! vCPU collection, and tracks the hosting layer's usage count.

use vstd::prelude::*;
use crate::memory::DefaultGuestPhysMemorySet;
use crate::memory::KvmError;
use crate::memory::KvmResult;
use crate::vcpu::Vcpu;
use crate::vmstat::GuestState;

verus! {

/// Coarse per-VM bookkeeping state.
#[derive(Debug, Clone, Copy, PartialEq, Eq, Structural)]
pub struct KvmVmState {
    /// Whether the VM is live.
    pub enabled: bool,
    pub mmu_pte_write: Option<u32>,
    pub mmu_pte_updated: Option<u32>,
}

impl KvmVmState {
    /// A fresh VM state: not live, no MMU counters.
    pub fn new() -> (r: Self)
        ensures
            !r.enabled,
            r.mmu_pte_write is None,
            r.mmu_pte_updated is None,
    {
        KvmVmState { enabled: false, mmu_pte_write: None, mmu_pte_updated: None }
    }

    /// Set whether the VM is live; the MMU counters are untouched.
    pub fn set_enabled(&mut self, enabled: bool) -> (r: bool)
        ensures
            *final(self) == (KvmVmState { enabled, ..*old(self) }),
            r,
    {
        self.enabled = enabled;
        true
    }
}

/// One virtual machine as the hosting layer sees it: an external memory
/// descriptor token, the memory slots, the vCPUs, and usage bookkeeping.
#[derive(Debug)]
pub struct Kvm {
    /// Token for the memory descriptor of the creating context; owned by the
    /// caller, carried here by value.
    pub mm: Option<u64>,
    pub memslots: Vec<Option<DefaultGuestPhysMemorySet>>,
    pub vcpus: Vec<Vcpu>,
    pub user_counts: Option<u32>,
    pub state: KvmVmState,
}

impl Kvm {
    /// An empty orchestrator: no VM created yet.
    pub fn new() -> (r: Self)
        ensures
            r.mm is None,
            r.memslots@ =~= Seq::<Option<DefaultGuestPhysMemorySet>>::empty(),
            r.vcpus@ =~= Seq::<Vcpu>::empty(),
            r.user_counts is None,
            !r.state.enabled,
    {
        Kvm {
            mm: None,
            memslots: Vec::new(),
            vcpus: Vec::new(),
            user_counts: None,
            state: KvmVmState::new(),
        }
    }

    /// Create a VM: count the user, mark the VM live, take the caller's
    /// memory-descriptor token, and append `mem_size` empty memory slots.
    /// `kvm_type` selects no behaviour of this core and is accepted as is.
    /// A usage count that can no longer be represented is an internal fault.
    pub fn create_vm(&mut self, kvm_type: u64, mem_size: u8, mm: Option<u64>) -> (r: KvmResult<()>)
        ensures
            old(self).user_counts == Some(u32::MAX) ==> r == Err::<(), KvmError>(KvmError::Internal)
                && *final(self) == *old(self),
            old(self).user_counts != Some(u32::MAX) ==> {
                &&& r == Ok::<(), KvmError>(())
                &&& final(self).user_counts == Some(
                    match old(self).user_counts {
                        None => 1u32,
                        Some(i) => (i + 1) as u32,
                    },
                )
                &&& final(self).mm == mm
                &&& final(self).state.enabled
                &&& final(self).state.mmu_pte_write == old(self).state.mmu_pte_write
                &&& final(self).state.mmu_pte_updated == old(self).state.mmu_pte_updated
                &&& final(self).memslots.len() == old(self).memslots.len() + mem_size
                &&& forall|i: int|
                    0 <= i < old(self).memslots.len() ==> final(self).memslots[i]
                        == old(self).memslots[i]
                &&& forall|i: int|
                    old(self).memslots.len() <= i < final(self).memslots.len()
                        ==> final(self).memslots[i] is None
                &&& final(self).vcpus@ == old(self).vcpus@
            },
    {
        let _ = kvm_type;
        self.user_counts = match self.user_counts {
            Some(i) => {
                if i == u32::MAX {
                    return Err(KvmError::Internal);
                }
                Some(i + 1)
            },
            None => Some(1),
        };
        self.state.set_enabled(true);
        self.mm = mm;
        let ghost mid = *self;
        let ghost pre_slots = self.memslots@;
        let mut k: u8 = 0;
        while k < mem_size
            invariant
                k <= mem_size,
                self.mm == mid.mm,
                self.user_counts == mid.user_counts,
                self.state == mid.state,
                self.vcpus@ == mid.vcpus@,
                self.memslots@.len() == pre_slots.len() + k,
                forall|i: int| 0 <= i < pre_slots.len() ==> self.memslots@[i] == pre_slots[i],
                forall|i: int|
                    pre_slots.len() <= i < self.memslots@.len() ==> self.memslots@[i] is None,
            decreases mem_size - k,
        {
            self.memslots.push(None);
            k = k + 1;
        }
        Ok(())
    }

    /// Create a vCPU with the given identity and add it to the VM. The fresh
    /// vCPU holds zeroed registers, is not launched, and carries exactly the
    /// requested id.
    pub fn create_vcpu(&mut self, vcpu_id: u32) -> (r: KvmResult<()>)
        ensures
            r == Ok::<(), KvmError>(()),
            final(self).vcpus.len() == old(self).vcpus.len() + 1,
            forall|i: int|
                0 <= i < old(self).vcpus.len() ==> final(self).vcpus[i] == old(self).vcpus[i],
            final(self).vcpus[old(self).vcpus.len() as int].vcpu_id == Some(vcpu_id),
            !final(self).vcpus[old(self).vcpus.len() as int].launched,
            final(self).vcpus[old(self).vcpus.len() as int].guest_state
                == GuestState::spec_zeroed(),
            final(self).mm == old(self).mm,
            final(self).memslots@ == old(self).memslots@,
            final(self).user_counts == old(self).user_counts,
            final(self).state == old(self).state,
    {
        let mut new_vcpu = Vcpu::new();
        let set = new_vcpu.set_id(vcpu_id);
        proof {
            assert(set == Ok::<(), KvmError>(()));
        }
        self.vcpus.push(new_vcpu);
        Ok(())
    }
}

} // verus!
