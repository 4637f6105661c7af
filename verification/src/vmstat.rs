//! Per-vCPU register snapshots exchanged at world-switch boundaries.

use vstd::prelude::*;

verus! {

/// Host-side values saved across a world switch and restored on guest exit.
#[derive(Debug, Clone, Copy, PartialEq, Eq, Structural)]
pub struct HostState {
    /// Host stack pointer.
    pub rsp: u64,
    /// Extended control register.
    pub xcr0: u64,
}

/// Snapshot of the guest general-purpose registers plus `cr2` and `xcr0`.
/// `rip`, `rsp` and `rflags` live in the hardware control structure and are
/// not part of this snapshot. The snapshot is owned by whichever execution
/// context currently runs the vCPU and is never shared.
#[derive(Debug, Clone, Copy, PartialEq, Eq, Structural)]
pub struct GuestState {
    pub rax: u64,
    pub rcx: u64,
    pub rdx: u64,
    pub rbx: u64,
    pub rbp: u64,
    pub rsi: u64,
    pub rdi: u64,
    pub r8: u64,
    pub r9: u64,
    pub r10: u64,
    pub r11: u64,
    pub r12: u64,
    pub r13: u64,
    pub r14: u64,
    pub r15: u64,
    /// Control register.
    pub cr2: u64,
    /// Extended control register.
    pub xcr0: u64,
}

impl Default for GuestState {
    /// A fresh snapshot holds zero in every register.
    fn default() -> (r: Self)
        ensures
            r == GuestState::spec_zeroed(),
    {
        GuestState {
            rax: 0,
            rcx: 0,
            rdx: 0,
            rbx: 0,
            rbp: 0,
            rsi: 0,
            rdi: 0,
            r8: 0,
            r9: 0,
            r10: 0,
            r11: 0,
            r12: 0,
            r13: 0,
            r14: 0,
            r15: 0,
            cr2: 0,
            xcr0: 0,
        }
    }
}

impl GuestState {
    /// The all-zero snapshot.
    pub open spec fn spec_zeroed() -> GuestState {
        GuestState {
            rax: 0,
            rcx: 0,
            rdx: 0,
            rbx: 0,
            rbp: 0,
            rsi: 0,
            rdi: 0,
            r8: 0,
            r9: 0,
            r10: 0,
            r11: 0,
            r12: 0,
            r13: 0,
            r14: 0,
            r15: 0,
            cr2: 0,
            xcr0: 0,
        }
    }

    /// Low 32 bits of `rax`.
    pub fn get_eax(&self) -> (r: u32)
        ensures
            r as u64 == self.rax & 0xffff_ffff,
    {
        proof {
            let v: u64 = self.rax;
            assert(v & 0xffff_ffff < 0x1_0000_0000) by (bit_vector);
        }
        (self.rax & 0xffff_ffff) as u32
    }

    /// Low 32 bits of `rcx`.
    pub fn get_ecx(&self) -> (r: u32)
        ensures
            r as u64 == self.rcx & 0xffff_ffff,
    {
        proof {
            let v: u64 = self.rcx;
            assert(v & 0xffff_ffff < 0x1_0000_0000) by (bit_vector);
        }
        (self.rcx & 0xffff_ffff) as u32
    }

    /// Low 32 bits of `rdx`.
    pub fn get_edx(&self) -> (r: u32)
        ensures
            r as u64 == self.rdx & 0xffff_ffff,
    {
        proof {
            let v: u64 = self.rdx;
            assert(v & 0xffff_ffff < 0x1_0000_0000) by (bit_vector);
        }
        (self.rdx & 0xffff_ffff) as u32
    }

    /// Low 32 bits of `rbx`.
    pub fn get_ebx(&self) -> (r: u32)
        ensures
            r as u64 == self.rbx & 0xffff_ffff,
    {
        proof {
            let v: u64 = self.rbx;
            assert(v & 0xffff_ffff < 0x1_0000_0000) by (bit_vector);
        }
        (self.rbx & 0xffff_ffff) as u32
    }

    /// The 64-bit value `edx:eax` used by instructions such as `rdmsr` and
    /// `wrmsr`: only the low 32 bits of `rdx` and `rax` are consulted; bits
    /// above them are never interpreted.
    pub fn get_edx_eax(&self) -> (r: u64)
        ensures
            r == ((self.rdx & 0xffff_ffff) << 32) | (self.rax & 0xffff_ffff),
    {
        let edx = self.get_edx();
        let eax = self.get_eax();
        ((edx as u64) << 32) | (eax as u64)
    }

    /// Store a 64-bit value as `edx:eax`: both halves are fully overwritten,
    /// each zero-extended from the 32 bits it receives, matching the hardware
    /// behaviour of instructions such as `rdmsr`. No other register changes.
    pub fn set_edx_eax(&mut self, value: u64)
        ensures
            final(self).rax == value & 0xffff_ffff,
            final(self).rdx == value >> 32,
            *final(self) == (GuestState { rax: value & 0xffff_ffff, rdx: value >> 32, ..*old(self) }),
    {
        proof {
            assert((value >> 32) & 0xffff_ffff == value >> 32) by (bit_vector);
        }
        self.rax = value & 0xffff_ffff;
        self.rdx = (value >> 32) & 0xffff_ffff;
    }
}

/// Writing a value through `set_edx_eax` and reading it back through
/// `get_edx_eax` yields exactly the written value, for every 64-bit value:
/// the stored halves are `value & 0xffff_ffff` and `value >> 32`, and
/// recomposing their low 32 bits restores `value`.
pub proof fn lemma_edx_eax_round_trip(value: u64)
    ensures
        ((((value >> 32)) & 0xffff_ffff) << 32) | ((value & 0xffff_ffff) & 0xffff_ffff) == value,
{
    assert(((((value >> 32)) & 0xffff_ffff) << 32) | ((value & 0xffff_ffff) & 0xffff_ffff)
        == value) by (bit_vector);
}

} // verus!
