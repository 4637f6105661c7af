//! The guest page table: a capability over page-granular guest-physical to
//! host-physical translations, with a hardware-loadable root pointer.

use vstd::prelude::*;
use crate::memory::GuestMemoryAttr;
use crate::memory::GuestPhysAddr;
use crate::memory::HostPhysAddr;
use crate::memory::KvmError;
use crate::memory::KvmResult;

verus! {

/// Page granularity of the translation table.
pub const PAGE_SIZE: usize = 4096;

/// Permission bits a flags value carries into the page table.
pub trait IntoKvmPageTableFlags: Sized {
    spec fn spec_read(&self) -> bool;

    spec fn spec_write(&self) -> bool;

    spec fn spec_execute(&self) -> bool;

    fn is_read(&self) -> (r: bool)
        ensures
            r == self.spec_read(),
    ;

    fn is_write(&self) -> (r: bool)
        ensures
            r == self.spec_write(),
    ;

    fn is_execute(&self) -> (r: bool)
        ensures
            r == self.spec_execute(),
    ;
}

impl IntoKvmPageTableFlags for GuestMemoryAttr {
    open spec fn spec_read(&self) -> bool {
        self.read
    }

    open spec fn spec_write(&self) -> bool {
        self.write
    }

    open spec fn spec_execute(&self) -> bool {
        self.execute
    }

    fn is_read(&self) -> (r: bool) {
        self.read
    }

    fn is_write(&self) -> (r: bool) {
        self.write
    }

    fn is_execute(&self) -> (r: bool) {
        self.execute
    }
}

/// The attribute a flags value denotes.
pub open spec fn spec_flags_attr<F: IntoKvmPageTableFlags>(flags: F) -> GuestMemoryAttr {
    GuestMemoryAttr {
        read: flags.spec_read(),
        write: flags.spec_write(),
        execute: flags.spec_execute(),
    }
}

/// One page-granular translation entry.
#[derive(Debug, Clone, Copy, PartialEq, Eq, Structural)]
pub struct PtEntry {
    pub gpaddr: GuestPhysAddr,
    pub hpaddr: HostPhysAddr,
    pub attr: GuestMemoryAttr,
}

/// The uniform page-table capability: map, unmap, protect, query and the
/// stable root pointer. Variants may back it with shadow or nested tables;
/// the contract is over the abstract translation map alone.
pub trait KvmPageTable: Sized {
    /// The abstract translation: guest page address to host page address and
    /// permission.
    spec fn spec_entries(&self) -> Map<GuestPhysAddr, (HostPhysAddr, GuestMemoryAttr)>;

    /// The root pointer the hardware holds; stable for the table's lifetime.
    spec fn spec_root(&self) -> HostPhysAddr;

    /// Whether the table's representation is consistent.
    spec fn wf(&self) -> bool;

    /// Map the guest page `gpaddr` to the host page `hpaddr`, creating or
    /// overwriting the entry. Misaligned addresses are refused. Table
    /// metadata lives in owned containers, so the allocation failure a
    /// hardware-backed variant would report as `NoMemory` is not observable
    /// here: an aligned request always succeeds.
    fn map<F: IntoKvmPageTableFlags>(
        &mut self,
        gpaddr: GuestPhysAddr,
        hpaddr: HostPhysAddr,
        flags: F,
    ) -> (r: KvmResult<()>)
        requires
            old(self).wf(),
        ensures
            final(self).wf(),
            final(self).spec_root() == old(self).spec_root(),
            gpaddr % PAGE_SIZE != 0 || hpaddr % PAGE_SIZE != 0 ==> r == Err::<(), KvmError>(
                KvmError::InvalidParam,
            ) && final(self).spec_entries() == old(self).spec_entries(),
            gpaddr % PAGE_SIZE == 0 && hpaddr % PAGE_SIZE == 0 ==> r == Ok::<(), KvmError>(())
                && final(self).spec_entries() == old(self).spec_entries().insert(
                gpaddr,
                (hpaddr, spec_flags_attr(flags)),
            ),
    ;

    /// Unmap the guest page `gpaddr`. Idempotent: it succeeds whether or not
    /// a mapping existed, so teardown may race with exit handling.
    fn unmap(&mut self, gpaddr: GuestPhysAddr) -> (r: KvmResult<()>)
        requires
            old(self).wf(),
        ensures
            final(self).wf(),
            final(self).spec_root() == old(self).spec_root(),
            r == Ok::<(), KvmError>(()),
            final(self).spec_entries() == old(self).spec_entries().remove(gpaddr),
    ;

    /// Change the permission of the existing mapping of `gpaddr`, keeping its
    /// host address; `NotFound` if the page is unmapped.
    fn protect<F: IntoKvmPageTableFlags>(&mut self, gpaddr: GuestPhysAddr, flags: F) -> (r:
        KvmResult<()>)
        requires
            old(self).wf(),
        ensures
            final(self).wf(),
            final(self).spec_root() == old(self).spec_root(),
            old(self).spec_entries().dom().contains(gpaddr) ==> r == Ok::<(), KvmError>(())
                && final(self).spec_entries() == old(self).spec_entries().insert(
                gpaddr,
                (old(self).spec_entries()[gpaddr].0, spec_flags_attr(flags)),
            ),
            !old(self).spec_entries().dom().contains(gpaddr) ==> r == Err::<(), KvmError>(
                KvmError::NotFound,
            ) && final(self).spec_entries() == old(self).spec_entries(),
    ;

    /// The host page the guest page `gpaddr` maps to; `NotFound` if unmapped.
    fn query(&mut self, gpaddr: GuestPhysAddr) -> (r: KvmResult<HostPhysAddr>)
        requires
            old(self).wf(),
        ensures
            *final(self) == *old(self),
            old(self).spec_entries().dom().contains(gpaddr) ==> r == Ok::<HostPhysAddr, KvmError>(
                old(self).spec_entries()[gpaddr].0,
            ),
            !old(self).spec_entries().dom().contains(gpaddr) ==> r == Err::<
                HostPhysAddr,
                KvmError,
            >(KvmError::NotFound),
    ;

    /// Page table base address, as handed to the hardware translation
    /// mechanism.
    fn table_phys(&self) -> (r: HostPhysAddr)
        requires
            self.wf(),
        ensures
            r == self.spec_root(),
    ;
}

/// A software shadow page table: an owned list of entries, one per mapped
/// guest page, with a root pointer fixed at construction.
#[derive(Debug)]
pub struct ShadowPageTable {
    pub root_paddr: HostPhysAddr,
    pub entries: Vec<PtEntry>,
}

impl ShadowPageTable {
    /// Whether some entry translates the guest page `gpaddr`.
    pub open spec fn spec_has_entry(self, gpaddr: GuestPhysAddr) -> bool {
        exists|i: int|
            0 <= i < self.entries.len() && (#[trigger] self.entries[i]).gpaddr == gpaddr
    }

    /// Index of the entry translating `gpaddr`; meaningful only when
    /// `spec_has_entry(gpaddr)` holds (the entry is then unique).
    pub open spec fn spec_entry_index(self, gpaddr: GuestPhysAddr) -> int {
        choose|i: int|
            0 <= i < self.entries.len() && (#[trigger] self.entries[i]).gpaddr == gpaddr
    }

    /// Create an empty table whose root pointer is the physical address of
    /// its hardware-visible anchor page.
    pub fn new(root_paddr: HostPhysAddr) -> (r: Self)
        ensures
            r.wf(),
            r.spec_root() == root_paddr,
            r.spec_entries() =~= Map::<GuestPhysAddr, (HostPhysAddr, GuestMemoryAttr)>::empty(),
    {
        ShadowPageTable { root_paddr, entries: Vec::new() }
    }

    /// Two entries of a well-formed table never translate the same page.
    proof fn lemma_entry_index_unique(self, gpaddr: GuestPhysAddr, i: int, j: int)
        requires
            self.wf(),
            0 <= i < self.entries.len(),
            0 <= j < self.entries.len(),
            self.entries[i].gpaddr == gpaddr,
            self.entries[j].gpaddr == gpaddr,
        ensures
            i == j,
    {
    }

    /// Index of the entry translating `gpaddr`, if any.
    fn entry_index_of(&self, gpaddr: GuestPhysAddr) -> (r: Option<usize>)
        requires
            self.wf(),
        ensures
            match r {
                Some(i) => i < self.entries.len() && self.entries[i as int].gpaddr == gpaddr
                    && i as int == self.spec_entry_index(gpaddr),
                None => !self.spec_has_entry(gpaddr),
            },
    {
        let n = self.entries.len();
        let mut k: usize = 0;
        while k < n
            invariant
                self.wf(),
                n == self.entries.len(),
                k <= n,
                forall|i: int| 0 <= i < k ==> (#[trigger] self.entries[i]).gpaddr != gpaddr,
            decreases n - k,
        {
            if self.entries[k].gpaddr == gpaddr {
                proof {
                    let i = self.spec_entry_index(gpaddr);
                    self.lemma_entry_index_unique(gpaddr, i, k as int);
                }
                return Some(k);
            }
            k = k + 1;
        }
        None
    }

    /// The permission the table holds for the guest page `gpaddr`;
    /// `NotFound` if the page is unmapped.
    pub fn query_attr(&self, gpaddr: GuestPhysAddr) -> (r: KvmResult<GuestMemoryAttr>)
        requires
            self.wf(),
        ensures
            self.spec_entries().dom().contains(gpaddr) ==> r == Ok::<GuestMemoryAttr, KvmError>(
                self.spec_entries()[gpaddr].1,
            ),
            !self.spec_entries().dom().contains(gpaddr) ==> r == Err::<GuestMemoryAttr, KvmError>(
                KvmError::NotFound,
            ),
    {
        proof {
            self.lemma_entries_agree(gpaddr);
        }
        match self.entry_index_of(gpaddr) {
            Some(i) => Ok(self.entries[i].attr),
            None => Err(KvmError::NotFound),
        }
    }

    /// The abstract translation map agrees with the entry list: a page is in
    /// its domain exactly when an entry translates it, and maps to that
    /// entry's host page and attribute.
    pub proof fn lemma_entries_agree(self, gpaddr: GuestPhysAddr)
        requires
            self.wf(),
        ensures
            self.spec_entries().dom().contains(gpaddr) == self.spec_has_entry(gpaddr),
            self.spec_has_entry(gpaddr) ==> self.spec_entries()[gpaddr] == (
            self.entries[self.spec_entry_index(gpaddr)].hpaddr,
            self.entries[self.spec_entry_index(gpaddr)].attr,
            ),
    {
    }
}

impl KvmPageTable for ShadowPageTable {
    /// The translation map induced by the entry list.
    open spec fn spec_entries(&self) -> Map<GuestPhysAddr, (HostPhysAddr, GuestMemoryAttr)> {
        Map::new(
            |g: GuestPhysAddr| self.spec_has_entry(g),
            |g: GuestPhysAddr|
                (
                    self.entries[self.spec_entry_index(g)].hpaddr,
                    self.entries[self.spec_entry_index(g)].attr,
                ),
        )
    }

    open spec fn spec_root(&self) -> HostPhysAddr {
        self.root_paddr
    }

    /// Entries translate distinct, page-aligned guest pages.
    open spec fn wf(&self) -> bool {
        &&& forall|i: int, j: int|
            0 <= i < j < self.entries.len() ==> (#[trigger] self.entries[i]).gpaddr != (
            #[trigger] self.entries[j]).gpaddr
        &&& forall|i: int|
            0 <= i < self.entries.len() ==> (#[trigger] self.entries[i]).gpaddr % PAGE_SIZE == 0
    }

    fn map<F: IntoKvmPageTableFlags>(
        &mut self,
        gpaddr: GuestPhysAddr,
        hpaddr: HostPhysAddr,
        flags: F,
    ) -> (r: KvmResult<()>) {
        if gpaddr % PAGE_SIZE != 0 || hpaddr % PAGE_SIZE != 0 {
            return Err(KvmError::InvalidParam);
        }
        let attr = GuestMemoryAttr::new(flags.is_read(), flags.is_write(), flags.is_execute());
        let entry = PtEntry { gpaddr, hpaddr, attr };
        let ghost pre = *self;
        match self.entry_index_of(gpaddr) {
            Some(i) => {
                self.entries[i] = entry;
                proof {
                    self.lemma_after_update(pre, i as int, entry);
                }
            },
            None => {
                self.entries.push(entry);
                proof {
                    self.lemma_after_push(pre, entry);
                }
            },
        }
        Ok(())
    }

    fn unmap(&mut self, gpaddr: GuestPhysAddr) -> (r: KvmResult<()>) {
        let ghost pre = *self;
        match self.entry_index_of(gpaddr) {
            Some(i) => {
                self.entries.remove(i);
                proof {
                    self.lemma_after_remove(pre, i as int, gpaddr);
                }
            },
            None => {
                proof {
                    assert(self.spec_entries() =~= self.spec_entries().remove(gpaddr));
                }
            },
        }
        Ok(())
    }

    fn protect<F: IntoKvmPageTableFlags>(&mut self, gpaddr: GuestPhysAddr, flags: F) -> (r:
        KvmResult<()>) {
        let ghost pre = *self;
        proof {
            pre.lemma_entries_agree(gpaddr);
        }
        match self.entry_index_of(gpaddr) {
            Some(i) => {
                let attr = GuestMemoryAttr::new(
                    flags.is_read(),
                    flags.is_write(),
                    flags.is_execute(),
                );
                let entry = PtEntry { gpaddr, hpaddr: self.entries[i].hpaddr, attr };
                self.entries[i] = entry;
                proof {
                    self.lemma_after_update(pre, i as int, entry);
                }
                Ok(())
            },
            None => Err(KvmError::NotFound),
        }
    }

    fn query(&mut self, gpaddr: GuestPhysAddr) -> (r: KvmResult<HostPhysAddr>) {
        proof {
            self.lemma_entries_agree(gpaddr);
        }
        match self.entry_index_of(gpaddr) {
            Some(i) => Ok(self.entries[i].hpaddr),
            None => Err(KvmError::NotFound),
        }
    }

    fn table_phys(&self) -> (r: HostPhysAddr) {
        self.root_paddr
    }
}

impl ShadowPageTable {
    /// Effect of overwriting the unique entry of a page in place: the
    /// abstract map gains exactly the new translation.
    proof fn lemma_after_update(self, pre: Self, i: int, entry: PtEntry)
        requires
            pre.wf(),
            0 <= i < pre.entries.len(),
            pre.entries[i].gpaddr == entry.gpaddr,
            entry.gpaddr % PAGE_SIZE == 0,
            self.root_paddr == pre.root_paddr,
            self.entries@ == pre.entries@.update(i, entry),
        ensures
            self.wf(),
            self.spec_entries() == pre.spec_entries().insert(
                entry.gpaddr,
                (entry.hpaddr, entry.attr),
            ),
    {
        assert(self.wf());
        assert forall|g: GuestPhysAddr| self.spec_has_entry(g) == pre.spec_has_entry(g) by {
            if self.spec_has_entry(g) {
                let k = choose|k: int|
                    0 <= k < self.entries.len() && (#[trigger] self.entries[k]).gpaddr == g;
                if k == i {
                    assert(pre.entries[i].gpaddr == g);
                } else {
                    assert(pre.entries[k].gpaddr == g);
                }
            }
            if pre.spec_has_entry(g) {
                let k = choose|k: int|
                    0 <= k < pre.entries.len() && (#[trigger] pre.entries[k]).gpaddr == g;
                if k == i {
                    assert(self.entries[i].gpaddr == g);
                } else {
                    assert(self.entries[k].gpaddr == g);
                }
            }
        }
        assert forall|g: GuestPhysAddr| #[trigger]
            self.spec_entries().dom().contains(g) implies self.spec_entries()[g]
            == pre.spec_entries().insert(entry.gpaddr, (entry.hpaddr, entry.attr))[g] by {
            let k = self.spec_entry_index(g);
            assert(0 <= k < self.entries.len() && self.entries[k].gpaddr == g);
            if g == entry.gpaddr {
                self.lemma_entry_index_unique(g, k, i);
            } else {
                assert(k != i);
                assert(pre.entries[k].gpaddr == g);
                let k2 = pre.spec_entry_index(g);
                pre.lemma_entry_index_unique(g, k2, k);
            }
        }
        assert(self.spec_entries() =~= pre.spec_entries().insert(
            entry.gpaddr,
            (entry.hpaddr, entry.attr),
        ));
    }

    /// Effect of appending an entry for a page no entry translated: the
    /// abstract map gains exactly the new translation.
    proof fn lemma_after_push(self, pre: Self, entry: PtEntry)
        requires
            pre.wf(),
            !pre.spec_has_entry(entry.gpaddr),
            entry.gpaddr % PAGE_SIZE == 0,
            self.root_paddr == pre.root_paddr,
            self.entries@ == pre.entries@.push(entry),
        ensures
            self.wf(),
            self.spec_entries() == pre.spec_entries().insert(
                entry.gpaddr,
                (entry.hpaddr, entry.attr),
            ),
    {
        let n = pre.entries.len() as int;
        assert forall|i: int, j: int| 0 <= i < j < self.entries.len() implies (
        #[trigger] self.entries[i]).gpaddr != (#[trigger] self.entries[j]).gpaddr by {
            if j == n {
                assert(pre.entries[i].gpaddr != entry.gpaddr);
            }
        }
        assert forall|i: int| 0 <= i < self.entries.len() implies (#[trigger] self.entries[
        i]).gpaddr % PAGE_SIZE == 0 by {
            if i < n {
                assert(self.entries[i] == pre.entries[i]);
            }
        }
        assert(self.wf());
        assert forall|g: GuestPhysAddr| self.spec_has_entry(g) == (pre.spec_has_entry(g) || g
            == entry.gpaddr) by {
            if self.spec_has_entry(g) {
                let k = choose|k: int|
                    0 <= k < self.entries.len() && (#[trigger] self.entries[k]).gpaddr == g;
                if k < n {
                    assert(pre.entries[k].gpaddr == g);
                }
            }
            if pre.spec_has_entry(g) {
                let k = choose|k: int|
                    0 <= k < pre.entries.len() && (#[trigger] pre.entries[k]).gpaddr == g;
                assert(self.entries[k].gpaddr == g);
            }
            if g == entry.gpaddr {
                assert(self.entries[n].gpaddr == g);
            }
        }
        assert forall|g: GuestPhysAddr| #[trigger]
            self.spec_entries().dom().contains(g) implies self.spec_entries()[g]
            == pre.spec_entries().insert(entry.gpaddr, (entry.hpaddr, entry.attr))[g] by {
            let k = self.spec_entry_index(g);
            assert(0 <= k < self.entries.len() && self.entries[k].gpaddr == g);
            if g == entry.gpaddr {
                self.lemma_entry_index_unique(g, k, n);
            } else {
                assert(k < n);
                assert(pre.entries[k].gpaddr == g);
                let k2 = pre.spec_entry_index(g);
                pre.lemma_entry_index_unique(g, k2, k);
            }
        }
        assert(self.spec_entries() =~= pre.spec_entries().insert(
            entry.gpaddr,
            (entry.hpaddr, entry.attr),
        ));
    }

    /// Effect of removing the unique entry of a page: the abstract map loses
    /// exactly that translation.
    proof fn lemma_after_remove(self, pre: Self, i: int, gpaddr: GuestPhysAddr)
        requires
            pre.wf(),
            0 <= i < pre.entries.len(),
            pre.entries[i].gpaddr == gpaddr,
            self.root_paddr == pre.root_paddr,
            self.entries@ == pre.entries@.remove(i),
        ensures
            self.wf(),
            self.spec_entries() == pre.spec_entries().remove(gpaddr),
    {
        pre.entries@.remove_ensures(i);
        let n = pre.entries.len() as int;
        assert forall|j: int| 0 <= j < n - 1 implies #[trigger] self.entries[j] == (if j < i {
            pre.entries[j]
        } else {
            pre.entries[j + 1]
        }) by {
            if j >= i {
                assert(pre.entries@.remove(i)[j] == pre.entries@[j + 1]);
            }
        }
        assert forall|a: int, b: int| 0 <= a < b < self.entries.len() implies (
        #[trigger] self.entries[a]).gpaddr != (#[trigger] self.entries[b]).gpaddr by {
            let a0 = if a < i {
                a
            } else {
                a + 1
            };
            let b0 = if b < i {
                b
            } else {
                b + 1
            };
            assert(pre.entries[a0].gpaddr != pre.entries[b0].gpaddr);
        }
        assert(self.wf());
        assert forall|g: GuestPhysAddr| self.spec_has_entry(g) == (pre.spec_has_entry(g) && g
            != gpaddr) by {
            if self.spec_has_entry(g) {
                let k = choose|k: int|
                    0 <= k < self.entries.len() && (#[trigger] self.entries[k]).gpaddr == g;
                let k0 = if k < i {
                    k
                } else {
                    k + 1
                };
                assert(pre.entries[k0].gpaddr == g);
                if g == gpaddr {
                    pre.lemma_entry_index_unique(g, k0, i);
                }
            }
            if pre.spec_has_entry(g) && g != gpaddr {
                let k = choose|k: int|
                    0 <= k < pre.entries.len() && (#[trigger] pre.entries[k]).gpaddr == g;
                assert(k != i);
                if k < i {
                    assert(self.entries[k].gpaddr == g);
                } else {
                    assert(self.entries[k - 1].gpaddr == g);
                }
            }
        }
        assert forall|g: GuestPhysAddr| #[trigger]
            self.spec_entries().dom().contains(g) implies self.spec_entries()[g]
            == pre.spec_entries().remove(gpaddr)[g] by {
            let k = self.spec_entry_index(g);
            assert(0 <= k < self.entries.len() && self.entries[k].gpaddr == g);
            let k0 = if k < i {
                k
            } else {
                k + 1
            };
            assert(pre.entries[k0].gpaddr == g);
            let k2 = pre.spec_entry_index(g);
            pre.lemma_entry_index_unique(g, k2, k0);
        }
        assert(self.spec_entries() =~= pre.spec_entries().remove(gpaddr));
    }
}

/// Round trip: after `map(gpaddr, hpaddr, flags)` — whose contract makes the
/// translation map `m.insert(gpaddr, (hpaddr, attr))` — `query(gpaddr)`
/// returns exactly `hpaddr`, by its own contract.
pub proof fn lemma_map_then_query(
    m: Map<GuestPhysAddr, (HostPhysAddr, GuestMemoryAttr)>,
    gpaddr: GuestPhysAddr,
    hpaddr: HostPhysAddr,
    attr: GuestMemoryAttr,
)
    ensures
        m.insert(gpaddr, (hpaddr, attr)).dom().contains(gpaddr),
        m.insert(gpaddr, (hpaddr, attr))[gpaddr].0 == hpaddr,
{
}

/// `unmap` is idempotent: removing a page twice leaves the same translation
/// map as removing it once — so a second `unmap`, or one on a never-mapped
/// page, succeeds and changes nothing — and the page is absent afterwards,
/// so a subsequent `query` fails with `NotFound` by its contract.
pub proof fn lemma_unmap_idempotent(
    m: Map<GuestPhysAddr, (HostPhysAddr, GuestMemoryAttr)>,
    gpaddr: GuestPhysAddr,
)
    ensures
        m.remove(gpaddr).remove(gpaddr) == m.remove(gpaddr),
        !m.remove(gpaddr).dom().contains(gpaddr),
        !m.dom().contains(gpaddr) ==> m.remove(gpaddr) == m,
{
    assert(m.remove(gpaddr).remove(gpaddr) =~= m.remove(gpaddr));
    if !m.dom().contains(gpaddr) {
        assert(m.remove(gpaddr) =~= m);
    }
}

/// `protect` changes the observed permission of a mapped page without
/// altering its host address: the protected map still holds the page, with
/// the new attribute and the old host page.
pub proof fn lemma_protect_preserves_host(
    m: Map<GuestPhysAddr, (HostPhysAddr, GuestMemoryAttr)>,
    gpaddr: GuestPhysAddr,
    attr: GuestMemoryAttr,
)
    requires
        m.dom().contains(gpaddr),
    ensures
        m.insert(gpaddr, (m[gpaddr].0, attr)).dom().contains(gpaddr),
        m.insert(gpaddr, (m[gpaddr].0, attr))[gpaddr].0 == m[gpaddr].0,
        m.insert(gpaddr, (m[gpaddr].0, attr))[gpaddr].1 == attr,
{
}

} // verus!
