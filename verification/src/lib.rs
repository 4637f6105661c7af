//! Core of a small hypervisor: guest physical address space management,
//! a software guest page table, the one-shot VMX enablement sequence, and
//! per-vCPU register and lifecycle state.

pub mod kvm;
pub mod memory;
pub mod page_table;
pub mod vcpu;
pub mod vmx;
pub mod vmstat;
