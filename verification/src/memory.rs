//! Guest physical address space: error kinds, access attributes, regions and
//! the region manager that resolves guest addresses to host-accessible ranges.

use vstd::prelude::*;

verus! {

/// A guest physical address.
pub type GuestPhysAddr = usize;
/// A host physical address.
pub type HostPhysAddr = usize;
/// A host virtual address.
pub type HostVirtAddr = usize;

/// Result type shared by every fallible operation of this crate.
pub type KvmResult<T> = Result<T, KvmError>;

/// Error kinds of the hypervisor core.
#[derive(Debug, PartialEq, Eq, Structural, Clone, Copy)]
pub enum KvmError {
    /// Hardware or otherwise unexpected failure.
    Internal,
    /// A mandatory hardware feature is absent.
    NotSupported,
    /// Allocation failure for table or region metadata.
    NoMemory,
    /// Misaligned address, permission violation or malformed request.
    InvalidParam,
    /// Access spans region boundaries or exceeds the address-space size.
    OutOfRange,
    /// Protocol violation, such as a double enable or an id reassignment.
    BadState,
    /// Lookup miss on a region, a mapping or a vCPU.
    NotFound,
}

/// Access attribute of a span of guest physical memory.
#[derive(Debug, Clone, Copy, PartialEq, Eq, Structural)]
pub struct GuestMemoryAttr {
    pub read: bool,
    pub write: bool,
    pub execute: bool,
}

impl GuestMemoryAttr {
    /// The all-false attribute: no access permitted.
    pub fn empty() -> (r: Self)
        ensures
            !r.read && !r.write && !r.execute,
    {
        Self { read: false, write: false, execute: false }
    }

    /// An attribute with the given permission bits.
    pub fn new(read: bool, write: bool, execute: bool) -> (r: Self)
        ensures
            r.read == read && r.write == write && r.execute == execute,
    {
        Self { read, write, execute }
    }

    pub fn is_read(&self) -> (r: bool)
        ensures
            r == self.read,
    {
        self.read
    }

    pub fn is_write(&self) -> (r: bool)
        ensures
            r == self.write,
    {
        self.write
    }

    pub fn is_execute(&self) -> (r: bool)
        ensures
            r == self.execute,
    {
        self.execute
    }

    /// Whether every permission required by `access` is granted by `self`.
    pub open spec fn spec_permits(self, access: GuestMemoryAttr) -> bool {
        (access.read ==> self.read)
            && (access.write ==> self.write)
            && (access.execute ==> self.execute)
    }

    /// Whether every permission required by `access` is granted by `self`.
    pub fn permits(&self, access: &GuestMemoryAttr) -> (r: bool)
        ensures
            r == self.spec_permits(*access),
    {
        (!access.read || self.read)
            && (!access.write || self.write)
            && (!access.execute || self.execute)
    }
}

impl Default for GuestMemoryAttr {
    /// The default attribute is fully permissive.
    fn default() -> (r: Self)
        ensures
            r.read && r.write && r.execute,
    {
        Self { read: true, write: true, execute: true }
    }
}

/// Identification of one userspace-provided memory slot. The host kernel's
/// intrusive index nodes are not kept: slots live in owned containers here.
#[derive(Debug, Clone, Copy, PartialEq, Eq, Structural)]
pub struct KvmMemorySlot {
    pub userspace_addr: u32,
    pub flags: u32,
    pub id: u16,
    pub as_id: u16,
}

/// A contiguous span `[start_paddr, end_paddr)` of guest physical addresses
/// with one access attribute.
#[derive(Debug, Clone, Copy, PartialEq, Eq, Structural)]
pub struct GuestPhysMemoryRegion {
    pub start_paddr: GuestPhysAddr,
    pub end_paddr: GuestPhysAddr,
    pub attr: GuestMemoryAttr,
}

impl GuestPhysMemoryRegion {
    /// Whether the region holds the address `guest_paddr`.
    pub open spec fn spec_contains(self, guest_paddr: int) -> bool {
        self.start_paddr <= guest_paddr && guest_paddr < self.end_paddr
    }

    /// Test whether a guest physical address is in the memory region.
    pub fn contains(&self, guest_paddr: GuestPhysAddr) -> (r: bool)
        ensures
            r == self.spec_contains(guest_paddr as int),
    {
        self.start_paddr <= guest_paddr && guest_paddr < self.end_paddr
    }

    /// Whether the region shares at least one address with `[start, end)`.
    pub open spec fn spec_overlaps(self, start: int, end: int) -> bool {
        !(self.end_paddr <= start || self.start_paddr >= end)
    }

    /// Test whether this region overlaps the span `[start_paddr, end_paddr)`.
    pub fn is_overlap_with(&self, start_paddr: GuestPhysAddr, end_paddr: GuestPhysAddr) -> (r: bool)
        ensures
            r == self.spec_overlaps(start_paddr as int, end_paddr as int),
    {
        let p0 = self.start_paddr;
        let p1 = self.end_paddr;
        let p2 = start_paddr;
        let p3 = end_paddr;
        !(p1 <= p2 || p0 >= p3)
    }

    /// A well-formed region is non-empty and lies below the address-space size.
    pub open spec fn wf(self) -> bool {
        self.start_paddr < self.end_paddr && self.end_paddr as u64 <= GUEST_PHYS_SPACE_SIZE
    }
}

/// Advertised size of the guest physical address space.
pub const GUEST_PHYS_SPACE_SIZE: u64 = 0x1_0000_0000;

/// A validated host-accessible range backing one guest physical span. In this
/// address-space model the host backing of a region is indexed by the guest
/// physical address itself, so `start` equals the translated guest address.
#[derive(Debug, Clone, Copy, PartialEq, Eq, Structural)]
pub struct HostRange {
    pub start: HostVirtAddr,
    pub size: usize,
}

/// The guest physical address space: an address-ordered set of disjoint
/// regions, each owning its host backing bytes.
#[derive(Debug)]
pub struct DefaultGuestPhysMemorySet {
    pub regions: Vec<GuestPhysMemoryRegion>,
    pub backing: Vec<Vec<u8>>,
}

impl DefaultGuestPhysMemorySet {
    /// Well-formedness: regions are well formed, address-ordered and pairwise
    /// disjoint, and each region's backing spans exactly the region.
    pub open spec fn wf(self) -> bool {
        &&& self.backing.len() == self.regions.len()
        &&& forall|i: int|
            0 <= i < self.regions.len() ==> (#[trigger] self.regions[i]).wf()
        &&& forall|i: int|
            0 <= i < self.regions.len() ==> (#[trigger] self.backing[i]).len()
                == self.regions[i].end_paddr - self.regions[i].start_paddr
        &&& forall|i: int, j: int|
            0 <= i < j < self.regions.len() ==> (#[trigger] self.regions[i]).end_paddr
                <= (#[trigger] self.regions[j]).start_paddr
    }

    /// Create an empty address space.
    pub fn new() -> (r: Self)
        ensures
            r.wf(),
            r.regions@ =~= Seq::<GuestPhysMemoryRegion>::empty(),
    {
        Self { regions: Vec::new(), backing: Vec::new() }
    }

    /// Whether some region holds the address `a`.
    pub open spec fn spec_has_region(self, a: int) -> bool {
        exists|i: int|
            0 <= i < self.regions.len() && (#[trigger] self.regions[i]).spec_contains(a)
    }

    /// Whether `[start, end)` overlaps no existing region.
    pub open spec fn spec_range_free(self, start: int, end: int) -> bool {
        forall|i: int|
            0 <= i < self.regions.len() ==> !(#[trigger] self.regions[i]).spec_overlaps(start, end)
    }

    /// Index of the region holding address `a`; meaningful only when
    /// `spec_has_region(a)` holds (the region is then unique).
    pub open spec fn spec_region_index(self, a: int) -> int {
        choose|i: int|
            0 <= i < self.regions.len() && (#[trigger] self.regions[i]).spec_contains(a)
    }

    /// Attribute governing address `a`; meaningful only when `spec_has_region(a)`.
    pub open spec fn spec_attr_at(self, a: int) -> GuestMemoryAttr {
        self.regions[self.spec_region_index(a)].attr
    }

    /// Backing byte at address `a`; meaningful only when `spec_has_region(a)`.
    pub open spec fn spec_byte_at(self, a: int) -> u8 {
        let i = self.spec_region_index(a);
        self.backing[i][a - self.regions[i].start_paddr]
    }

    /// Whether `[a, a + len)` lies entirely within one region.
    pub open spec fn spec_range_within(self, a: int, len: int) -> bool {
        exists|i: int|
            0 <= i < self.regions.len() && (#[trigger] self.regions[i]).start_paddr <= a
                && a + len <= self.regions[i].end_paddr
    }

    /// Two regions of a well-formed space never share an address.
    pub proof fn lemma_region_index_unique(self, a: int, i: int, j: int)
        requires
            self.wf(),
            0 <= i < self.regions.len(),
            0 <= j < self.regions.len(),
            self.regions[i].spec_contains(a),
            self.regions[j].spec_contains(a),
        ensures
            i == j,
    {
        if i < j {
            assert(self.regions[i].end_paddr <= self.regions[j].start_paddr);
        } else if j < i {
            assert(self.regions[j].end_paddr <= self.regions[i].start_paddr);
        }
    }

    /// Test if `[start_paddr, end_paddr)` is a free span: it overlaps no
    /// region already held by the address space.
    pub fn test_free_region(&self, start_paddr: GuestPhysAddr, end_paddr: GuestPhysAddr) -> (r: bool)
        ensures
            r == self.spec_range_free(start_paddr as int, end_paddr as int),
    {
        let n = self.regions.len();
        let mut k: usize = 0;
        while k < n
            invariant
                n == self.regions.len(),
                k <= n,
                forall|i: int|
                    0 <= i < k ==> !(#[trigger] self.regions[i]).spec_overlaps(
                        start_paddr as int,
                        end_paddr as int,
                    ),
            decreases n - k,
        {
            if self.regions[k].is_overlap_with(start_paddr, end_paddr) {
                return false;
            }
            k = k + 1;
        }
        true
    }

    /// Why `add_region(start, end, _)` would be refused, if it would: an empty
    /// or inverted span is malformed, a span past the address-space size is
    /// out of range, and a span overlapping an existing region conflicts.
    pub open spec fn spec_add_region_err(self, start: usize, end: usize) -> Option<KvmError> {
        if start >= end {
            Some(KvmError::InvalidParam)
        } else if end as u64 > GUEST_PHYS_SPACE_SIZE {
            Some(KvmError::OutOfRange)
        } else if !self.spec_range_free(start as int, end as int) {
            Some(KvmError::InvalidParam)
        } else {
            None
        }
    }

    /// Insert the region `[start_paddr, end_paddr)` with attribute `attr`, in
    /// address order, with zeroed host backing. Fails exactly as
    /// `spec_add_region_err` says, leaving the space unchanged; on success
    /// every already-held address keeps its attribute and byte, the new span
    /// becomes held with `attr` and zero bytes, and a span stays free exactly
    /// if it was free and misses the new region.
    pub fn add_region(
        &mut self,
        start_paddr: GuestPhysAddr,
        end_paddr: GuestPhysAddr,
        attr: GuestMemoryAttr,
    ) -> (r: KvmResult<()>)
        requires
            old(self).wf(),
        ensures
            final(self).wf(),
            match old(self).spec_add_region_err(start_paddr, end_paddr) {
                Some(e) => r == Err::<(), KvmError>(e) && *final(self) == *old(self),
                None => {
                    &&& r == Ok::<(), KvmError>(())
                    &&& final(self).regions.len() == old(self).regions.len() + 1
                    &&& forall|a: int|
                        final(self).spec_has_region(a) <==> old(self).spec_has_region(a)
                            || (start_paddr <= a < end_paddr)
                    &&& forall|s2: int, e2: int|
                        final(self).spec_range_free(s2, e2) <==> (old(self).spec_range_free(s2, e2)
                            && (end_paddr <= s2 || start_paddr >= e2))
                    &&& forall|a: int|
                        start_paddr <= a < end_paddr ==> final(self).spec_attr_at(a) == attr
                            && final(self).spec_byte_at(a) == 0u8
                    &&& forall|a: int|
                        old(self).spec_has_region(a) ==> final(self).spec_attr_at(a) == old(
                            self,
                        ).spec_attr_at(a) && final(self).spec_byte_at(a) == old(self).spec_byte_at(
                            a,
                        )
                    &&& forall|a: int, len: int|
                        old(self).spec_range_within(a, len) ==> final(self).spec_range_within(
                            a,
                            len,
                        )
                    &&& final(self).spec_range_within(start_paddr as int, end_paddr - start_paddr)
                },
            },
    {
        if start_paddr >= end_paddr {
            return Err(KvmError::InvalidParam);
        }
        if end_paddr as u64 > GUEST_PHYS_SPACE_SIZE {
            return Err(KvmError::OutOfRange);
        }
        if !self.test_free_region(start_paddr, end_paddr) {
            return Err(KvmError::InvalidParam);
        }
        let n = self.regions.len();
        let mut idx: usize = 0;
        while idx < n && self.regions[idx].end_paddr <= start_paddr
            invariant
                n == self.regions.len(),
                idx <= n,
                forall|k: int|
                    0 <= k < idx ==> (#[trigger] self.regions[k]).end_paddr <= start_paddr,
            decreases n - idx,
        {
            idx = idx + 1;
        }
        let ghost pre = *self;
        let new_region = GuestPhysMemoryRegion { start_paddr, end_paddr, attr };
        proof {
            assert forall|k: int| idx <= k < pre.regions.len() implies (#[trigger] pre.regions[k]).start_paddr >= end_paddr by {
                assert(!pre.regions[k].spec_overlaps(start_paddr as int, end_paddr as int));
                assert(pre.regions[idx as int].end_paddr > start_paddr);
                if k > idx {
                    assert(pre.regions[idx as int].end_paddr <= pre.regions[k].start_paddr);
                }
            }
        }
        let mut zeroed: Vec<u8> = Vec::new();
        let fill = end_paddr - start_paddr;
        while zeroed.len() < fill
            invariant
                zeroed.len() <= fill,
                forall|i: int| 0 <= i < zeroed.len() ==> zeroed[i] == 0u8,
            decreases fill - zeroed.len(),
        {
            zeroed.push(0u8);
        }
        let ghost zv: Vec<u8> = zeroed;
        self.regions.insert(idx, new_region);
        self.backing.insert(idx, zeroed);
        proof {
            self.lemma_after_insert(pre, idx as int, new_region, zv);
        }
        Ok(())
    }

    /// Effect of inserting one region, with zeroed backing, at its address
    /// position: the abstract view of every held address is preserved, the new
    /// span becomes held, and freeness of other spans is as before minus the
    /// new span.
    proof fn lemma_after_insert(self, pre: Self, idx: int, reg: GuestPhysMemoryRegion, zv: Vec<u8>)
        requires
            pre.wf(),
            reg.wf(),
            0 <= idx <= pre.regions.len(),
            forall|k: int| 0 <= k < idx ==> (#[trigger] pre.regions[k]).end_paddr <= reg.start_paddr,
            forall|k: int|
                idx <= k < pre.regions.len() ==> (#[trigger] pre.regions[k]).start_paddr
                    >= reg.end_paddr,
            zv.len() == reg.end_paddr - reg.start_paddr,
            forall|i: int| 0 <= i < zv.len() ==> zv[i] == 0u8,
            self.regions@ == pre.regions@.insert(idx, reg),
            self.backing@ == pre.backing@.insert(idx, zv),
        ensures
            self.wf(),
            self.regions.len() == pre.regions.len() + 1,
            forall|a: int|
                self.spec_has_region(a) <==> pre.spec_has_region(a) || (reg.start_paddr <= a
                    < reg.end_paddr),
            forall|s2: int, e2: int|
                self.spec_range_free(s2, e2) <==> (pre.spec_range_free(s2, e2) && (reg.end_paddr
                    <= s2 || reg.start_paddr >= e2)),
            forall|a: int|
                reg.start_paddr <= a < reg.end_paddr ==> self.spec_attr_at(a) == reg.attr
                    && self.spec_byte_at(a) == 0u8,
            forall|a: int|
                pre.spec_has_region(a) ==> self.spec_attr_at(a) == pre.spec_attr_at(a)
                    && self.spec_byte_at(a) == pre.spec_byte_at(a),
            forall|a: int, len: int|
                pre.spec_range_within(a, len) ==> self.spec_range_within(a, len),
            self.spec_range_within(reg.start_paddr as int, reg.end_paddr - reg.start_paddr),
    {
        pre.regions@.insert_ensures(idx, reg);
        pre.backing@.insert_ensures(idx, zv);
        let post = self;
        let n = pre.regions.len() as int;
        assert forall|j: int| 0 <= j < n + 1 implies #[trigger] post.regions[j] == (if j < idx {
            pre.regions[j]
        } else if j == idx {
            reg
        } else {
            pre.regions[j - 1]
        }) && post.backing[j] == (if j < idx {
            pre.backing[j]
        } else if j == idx {
            zv
        } else {
            pre.backing[j - 1]
        }) by {
            if j > idx {
                assert(pre.regions@.insert(idx, reg)[(j - 1) + 1] == pre.regions@[j - 1]);
                assert(pre.backing@.insert(idx, zv)[(j - 1) + 1] == pre.backing@[j - 1]);
            }
        }
        assert forall|i: int, j: int| 0 <= i < j < n + 1 implies (#[trigger] post.regions[i]).end_paddr <= (#[trigger] post.regions[j]).start_paddr by {
            if i < idx && j < idx {
            } else if j == idx {
                assert(pre.regions[i].end_paddr <= reg.start_paddr);
            } else if i == idx {
                assert(pre.regions[j - 1].start_paddr >= reg.end_paddr);
            } else if i < idx && j > idx {
                assert(pre.regions[i].end_paddr <= reg.start_paddr);
                assert(pre.regions[j - 1].start_paddr >= reg.end_paddr);
            }
        }
        assert(post.wf());
        // Each held address of the new space maps to its origin.
        assert forall|a: int| post.spec_has_region(a) implies pre.spec_has_region(a) || (
        reg.start_paddr <= a < reg.end_paddr) by {
            let i = choose|i: int|
                0 <= i < post.regions.len() && (#[trigger] post.regions[i]).spec_contains(a);
            if i < idx {
                assert(pre.regions[i].spec_contains(a));
            } else if i > idx {
                assert(pre.regions[i - 1].spec_contains(a));
            }
        }
        assert forall|a: int| pre.spec_has_region(a) || (reg.start_paddr <= a
            < reg.end_paddr) implies post.spec_has_region(a) by {
            if pre.spec_has_region(a) {
                let i = choose|i: int|
                    0 <= i < pre.regions.len() && (#[trigger] pre.regions[i]).spec_contains(a);
                if i < idx {
                    assert(post.regions[i].spec_contains(a));
                } else {
                    assert(post.regions[i + 1].spec_contains(a));
                }
            } else {
                assert(post.regions[idx].spec_contains(a));
            }
        }
        assert forall|s2: int, e2: int| #[trigger]
            post.spec_range_free(s2, e2) <==> (pre.spec_range_free(s2, e2) && (reg.end_paddr <= s2
                || reg.start_paddr >= e2)) by {
            if post.spec_range_free(s2, e2) {
                assert forall|k: int| 0 <= k < n implies !(#[trigger] pre.regions[k]).spec_overlaps(
                    s2,
                    e2,
                ) by {
                    if k < idx {
                        assert(!post.regions[k].spec_overlaps(s2, e2));
                    } else {
                        assert(!post.regions[k + 1].spec_overlaps(s2, e2));
                    }
                }
                assert(!post.regions[idx].spec_overlaps(s2, e2));
            }
            if pre.spec_range_free(s2, e2) && (reg.end_paddr <= s2 || reg.start_paddr >= e2) {
                assert forall|j: int| 0 <= j < n + 1 implies !(#[trigger] post.regions[j]).spec_overlaps(s2, e2) by {
                    if j < idx {
                        assert(!pre.regions[j].spec_overlaps(s2, e2));
                    } else if j > idx {
                        assert(!pre.regions[j - 1].spec_overlaps(s2, e2));
                    }
                }
            }
        }
        // The new span carries the new attribute over zeroed bytes.
        assert forall|a: int| reg.start_paddr <= a < reg.end_paddr implies post.spec_attr_at(a)
            == reg.attr && post.spec_byte_at(a) == 0u8 by {
            assert(post.regions[idx].spec_contains(a));
            let i = post.spec_region_index(a);
            post.lemma_region_index_unique(a, i, idx);
        }
        // Every previously held address keeps its attribute and byte.
        assert forall|a: int| pre.spec_has_region(a) implies post.spec_attr_at(a)
            == pre.spec_attr_at(a) && post.spec_byte_at(a) == pre.spec_byte_at(a) by {
            let i = pre.spec_region_index(a);
            assert(0 <= i < n && pre.regions[i].spec_contains(a));
            let j = if i < idx {
                i
            } else {
                i + 1
            };
            assert(post.regions[j].spec_contains(a));
            let j2 = post.spec_region_index(a);
            post.lemma_region_index_unique(a, j2, j);
            let i2 = pre.spec_region_index(a);
            pre.lemma_region_index_unique(a, i2, i);
        }
        assert forall|a: int, len: int| pre.spec_range_within(a, len) implies post.spec_range_within(
            a,
            len,
        ) by {
            let i = choose|i: int|
                0 <= i < pre.regions.len() && (#[trigger] pre.regions[i]).start_paddr <= a && a
                    + len <= pre.regions[i].end_paddr;
            if i < idx {
                assert(post.regions[i].start_paddr <= a && a + len <= post.regions[i].end_paddr);
            } else {
                assert(post.regions[i + 1].start_paddr <= a && a + len <= post.regions[i
                    + 1].end_paddr);
            }
        }
        assert(post.regions[idx].start_paddr <= reg.start_paddr as int && reg.start_paddr + (
        reg.end_paddr - reg.start_paddr) <= post.regions[idx].end_paddr);
    }

    /// Index of the region holding `gpaddr`, if any.
    fn region_index_of(&self, gpaddr: GuestPhysAddr) -> (r: Option<usize>)
        requires
            self.wf(),
        ensures
            match r {
                Some(i) => i < self.regions.len() && self.regions[i as int].spec_contains(
                    gpaddr as int,
                ) && i as int == self.spec_region_index(gpaddr as int),
                None => !self.spec_has_region(gpaddr as int),
            },
    {
        let n = self.regions.len();
        let mut k: usize = 0;
        while k < n
            invariant
                self.wf(),
                n == self.regions.len(),
                k <= n,
                forall|i: int|
                    0 <= i < k ==> !(#[trigger] self.regions[i]).spec_contains(gpaddr as int),
            decreases n - k,
        {
            if self.regions[k].contains(gpaddr) {
                proof {
                    let i = self.spec_region_index(gpaddr as int);
                    self.lemma_region_index_unique(gpaddr as int, i, k as int);
                }
                return Some(k);
            }
            k = k + 1;
        }
        None
    }

    /// Return the containing region of `gpaddr`, or `NotFound`.
    pub fn find_region(&self, gpaddr: GuestPhysAddr) -> (r: KvmResult<GuestPhysMemoryRegion>)
        requires
            self.wf(),
        ensures
            self.spec_has_region(gpaddr as int) ==> r == Ok::<GuestPhysMemoryRegion, KvmError>(
                self.regions[self.spec_region_index(gpaddr as int)],
            ),
            !self.spec_has_region(gpaddr as int) ==> r == Err::<GuestPhysMemoryRegion, KvmError>(
                KvmError::NotFound,
            ),
    {
        match self.region_index_of(gpaddr) {
            Some(i) => Ok(self.regions[i]),
            None => Err(KvmError::NotFound),
        }
    }

    /// What `translate(gpaddr, len, access)` returns: a zero-length request is
    /// malformed, a span not inside one region is out of range, a span whose
    /// region denies a required permission is an invalid access, and otherwise
    /// the validated host range starting at the translated address.
    pub open spec fn spec_translate(
        self,
        gpaddr: usize,
        len: usize,
        access: GuestMemoryAttr,
    ) -> KvmResult<HostRange> {
        if len == 0 {
            Err(KvmError::InvalidParam)
        } else if !self.spec_range_within(gpaddr as int, len as int) {
            Err(KvmError::OutOfRange)
        } else if !self.spec_attr_at(gpaddr as int).spec_permits(access) {
            Err(KvmError::InvalidParam)
        } else {
            Ok(HostRange { start: gpaddr, size: len })
        }
    }

    /// Resolve the guest span `[gpaddr, gpaddr + len)` for an access that
    /// requires the permission bits of `access`. The span must lie entirely
    /// within one region, whose attribute must grant every required bit.
    pub fn translate(&self, gpaddr: GuestPhysAddr, len: usize, access: GuestMemoryAttr) -> (r:
        KvmResult<HostRange>)
        requires
            self.wf(),
        ensures
            r == self.spec_translate(gpaddr, len, access),
    {
        if len == 0 {
            return Err(KvmError::InvalidParam);
        }
        match self.region_index_of(gpaddr) {
            None => {
                proof {
                    self.lemma_not_within(gpaddr as int, len as int);
                }
                Err(KvmError::OutOfRange)
            },
            Some(i) => {
                let region = self.regions[i];
                if len > region.end_paddr - gpaddr {
                    proof {
                        self.lemma_not_within_long(gpaddr as int, len as int, i as int);
                    }
                    return Err(KvmError::OutOfRange);
                }
                proof {
                    assert(self.regions[i as int].start_paddr <= gpaddr as int && gpaddr + len
                        <= self.regions[i as int].end_paddr);
                }
                if !region.attr.permits(&access) {
                    return Err(KvmError::InvalidParam);
                }
                Ok(HostRange { start: gpaddr, size: len })
            },
        }
    }

    /// A span starting at an address no region holds lies within no region.
    proof fn lemma_not_within(self, gpaddr: int, len: int)
        requires
            self.wf(),
            len >= 1,
            !self.spec_has_region(gpaddr),
        ensures
            !self.spec_range_within(gpaddr, len),
    {
        assert forall|j: int| 0 <= j < self.regions.len() implies !((#[trigger] self.regions[
        j]).start_paddr <= gpaddr && gpaddr + len <= self.regions[j].end_paddr) by {
            if self.regions[j].start_paddr <= gpaddr && gpaddr + len <= self.regions[j].end_paddr {
                assert(self.regions[j].spec_contains(gpaddr));
            }
        }
    }

    /// A span that runs past the end of the region holding its first address
    /// lies within no region.
    proof fn lemma_not_within_long(self, gpaddr: int, len: int, i: int)
        requires
            self.wf(),
            len >= 1,
            0 <= i < self.regions.len(),
            self.regions[i].spec_contains(gpaddr),
            gpaddr + len > self.regions[i].end_paddr,
        ensures
            !self.spec_range_within(gpaddr, len),
    {
        assert forall|j: int| 0 <= j < self.regions.len() implies !((#[trigger] self.regions[
        j]).start_paddr <= gpaddr && gpaddr + len <= self.regions[j].end_paddr) by {
            if self.regions[j].start_paddr <= gpaddr && gpaddr + len <= self.regions[j].end_paddr {
                assert(self.regions[j].spec_contains(gpaddr));
                self.lemma_region_index_unique(gpaddr, i, j);
            }
        }
    }
}

impl DefaultGuestPhysMemorySet {
    /// Advertised address-space size; an upper bound fixed at construction,
    /// not grown by region insertion.
    pub fn size(&self) -> (r: u64)
        ensures
            r == GUEST_PHYS_SPACE_SIZE,
    {
        GUEST_PHYS_SPACE_SIZE
    }

    /// Read `buf.len()` bytes of guest memory starting at `gpaddr` into
    /// `buf`, after validating the span as a read access; on failure `buf` is
    /// untouched.
    pub fn read_memory(&self, gpaddr: GuestPhysAddr, buf: &mut Vec<u8>) -> (r: KvmResult<usize>)
        requires
            self.wf(),
        ensures
            final(buf).len() == old(buf).len(),
            match self.spec_translate(gpaddr, old(buf).len(), spec_read_access()) {
                Ok(hr) => r == Ok::<usize, KvmError>(old(buf).len()) && forall|i: int|
                    0 <= i < old(buf).len() ==> final(buf)[i] == self.spec_byte_at(gpaddr + i),
                Err(e) => r == Err::<usize, KvmError>(e) && final(buf)@ == old(buf)@,
            },
    {
        let len = buf.len();
        if len == 0 {
            return Err(KvmError::InvalidParam);
        }
        let idx = match self.region_index_of(gpaddr) {
            None => {
                proof {
                    self.lemma_not_within(gpaddr as int, len as int);
                }
                return Err(KvmError::OutOfRange);
            },
            Some(i) => i,
        };
        let region = self.regions[idx];
        if len > region.end_paddr - gpaddr {
            proof {
                self.lemma_not_within_long(gpaddr as int, len as int, idx as int);
            }
            return Err(KvmError::OutOfRange);
        }
        proof {
            assert(self.regions[idx as int].start_paddr <= gpaddr as int && gpaddr + len
                <= self.regions[idx as int].end_paddr);
        }
        if !region.attr.permits(&GuestMemoryAttr::new(true, false, false)) {
            return Err(KvmError::InvalidParam);
        }
        let off = gpaddr - region.start_paddr;
        let mut out: Vec<u8> = Vec::new();
        let mut k: usize = 0;
        while k < len
            invariant
                self.wf(),
                idx < self.regions.len(),
                region == self.regions[idx as int],
                region.start_paddr <= gpaddr,
                off == gpaddr - region.start_paddr,
                gpaddr + len <= region.end_paddr,
                k <= len,
                out.len() == k,
                forall|i: int|
                    0 <= i < k ==> #[trigger] out[i] == self.backing[idx as int][off + i],
            decreases len - k,
        {
            out.push(self.backing[idx][off + k]);
            k = k + 1;
        }
        proof {
            assert forall|i: int| 0 <= i < len implies out[i] == self.spec_byte_at(gpaddr + i) by {
                assert(self.regions[idx as int].spec_contains(gpaddr + i));
                let j = self.spec_region_index(gpaddr + i);
                self.lemma_region_index_unique(gpaddr + i, j, idx as int);
            }
        }
        *buf = out;
        Ok(len)
    }

    /// Write the bytes of `buf` into guest memory starting at `gpaddr`, after
    /// validating the span as a write access; on failure the address space is
    /// untouched. Regions and attributes are never changed by a write, and
    /// bytes outside the written span keep their values.
    pub fn write_memory(&mut self, gpaddr: GuestPhysAddr, buf: &Vec<u8>) -> (r: KvmResult<usize>)
        requires
            old(self).wf(),
        ensures
            final(self).wf(),
            final(self).regions@ == old(self).regions@,
            match old(self).spec_translate(gpaddr, buf.len(), spec_write_access()) {
                Ok(hr) => {
                    &&& r == Ok::<usize, KvmError>(buf.len())
                    &&& forall|i: int|
                        0 <= i < buf.len() ==> final(self).spec_byte_at(gpaddr + i) == buf[i]
                    &&& forall|a: int|
                        old(self).spec_has_region(a) && !(gpaddr <= a < gpaddr + buf.len())
                            ==> final(self).spec_byte_at(a) == old(self).spec_byte_at(a)
                },
                Err(e) => r == Err::<usize, KvmError>(e) && *final(self) == *old(self),
            },
    {
        let len = buf.len();
        if len == 0 {
            return Err(KvmError::InvalidParam);
        }
        let idx = match self.region_index_of(gpaddr) {
            None => {
                proof {
                    self.lemma_not_within(gpaddr as int, len as int);
                }
                return Err(KvmError::OutOfRange);
            },
            Some(i) => i,
        };
        let region = self.regions[idx];
        if len > region.end_paddr - gpaddr {
            proof {
                self.lemma_not_within_long(gpaddr as int, len as int, idx as int);
            }
            return Err(KvmError::OutOfRange);
        }
        proof {
            assert(self.regions[idx as int].start_paddr <= gpaddr as int && gpaddr + len
                <= self.regions[idx as int].end_paddr);
        }
        if !region.attr.permits(&GuestMemoryAttr::new(false, true, false)) {
            return Err(KvmError::InvalidParam);
        }
        let ghost pre = *self;
        let off = gpaddr - region.start_paddr;
        let blen = self.backing[idx].len();
        let mut newb: Vec<u8> = Vec::new();
        let mut k: usize = 0;
        while k < off
            invariant
                self.wf(),
                *self == pre,
                idx < self.regions.len(),
                off + len <= blen,
                blen == self.backing[idx as int].len(),
                k <= off,
                newb.len() == k,
                forall|i: int|
                    0 <= i < k ==> #[trigger] newb[i] == self.backing[idx as int][i],
            decreases off - k,
        {
            newb.push(self.backing[idx][k]);
            k = k + 1;
        }
        let mut k2: usize = 0;
        while k2 < len
            invariant
                self.wf(),
                *self == pre,
                idx < self.regions.len(),
                off + len <= blen,
                blen == self.backing[idx as int].len(),
                k2 <= len,
                len == buf.len(),
                newb.len() == off + k2,
                forall|i: int|
                    0 <= i < off ==> #[trigger] newb[i] == self.backing[idx as int][i],
                forall|i: int| 0 <= i < k2 ==> #[trigger] newb[off + i] == buf[i],
            decreases len - k2,
        {
            newb.push(buf[k2]);
            k2 = k2 + 1;
        }
        let mut k3: usize = off + len;
        while k3 < blen
            invariant
                self.wf(),
                *self == pre,
                idx < self.regions.len(),
                off + len <= blen,
                blen == self.backing[idx as int].len(),
                off + len <= k3 <= blen,
                len == buf.len(),
                newb.len() == k3,
                forall|i: int|
                    0 <= i < off ==> #[trigger] newb[i] == self.backing[idx as int][i],
                forall|i: int| 0 <= i < len ==> #[trigger] newb[off + i] == buf[i],
                forall|i: int|
                    off + len <= i < k3 ==> #[trigger] newb[i] == self.backing[idx as int][i],
            decreases blen - k3,
        {
            newb.push(self.backing[idx][k3]);
            k3 = k3 + 1;
        }
        self.backing[idx] = newb;
        proof {
            self.lemma_after_write(pre, idx as int, gpaddr as int, buf@);
        }
        Ok(len)
    }

    /// Effect of replacing one region's backing by a copy updated on the
    /// written span: written addresses carry the new bytes, all others keep
    /// their old bytes.
    proof fn lemma_after_write(self, pre: Self, idx: int, gpaddr: int, data: Seq<u8>)
        requires
            pre.wf(),
            0 <= idx < pre.regions.len(),
            pre.regions[idx].spec_contains(gpaddr),
            gpaddr + data.len() <= pre.regions[idx].end_paddr,
            data.len() >= 1,
            self.regions@ == pre.regions@,
            self.backing@ == pre.backing@.update(idx, self.backing[idx]),
            self.backing[idx].len() == pre.backing[idx].len(),
            forall|i: int|
                0 <= i < gpaddr - pre.regions[idx].start_paddr ==> #[trigger] self.backing[idx][i]
                    == pre.backing[idx][i],
            forall|i: int|
                0 <= i < data.len() ==> #[trigger] self.backing[idx][gpaddr
                    - pre.regions[idx].start_paddr + i] == data[i],
            forall|i: int|
                gpaddr - pre.regions[idx].start_paddr + data.len() <= i < pre.backing[idx].len()
                    ==> #[trigger] self.backing[idx][i] == pre.backing[idx][i],
        ensures
            self.wf(),
            forall|i: int|
                0 <= i < data.len() ==> #[trigger] self.spec_byte_at(gpaddr + i) == data[i],
            forall|a: int|
                pre.spec_has_region(a) && !(gpaddr <= a < gpaddr + data.len())
                    ==> #[trigger] self.spec_byte_at(a) == pre.spec_byte_at(a),
    {
        let start = pre.regions[idx].start_paddr as int;
        assert forall|j: int| 0 <= j < self.regions.len() implies (#[trigger] self.backing[j]).len()
            == self.regions[j].end_paddr - self.regions[j].start_paddr by {
            if j != idx {
                assert(self.backing[j] == pre.backing[j]);
            }
        }
        assert(self.wf());
        assert forall|i: int| 0 <= i < data.len() implies #[trigger] self.spec_byte_at(gpaddr + i)
            == data[i] by {
            assert(self.regions[idx].spec_contains(gpaddr + i));
            let j = self.spec_region_index(gpaddr + i);
            self.lemma_region_index_unique(gpaddr + i, j, idx);
            assert(self.backing[idx][gpaddr + i - start] == self.backing[idx][gpaddr - start + i]);
        }
        assert forall|a: int| pre.spec_has_region(a) && !(gpaddr <= a < gpaddr
            + data.len()) implies #[trigger] self.spec_byte_at(a) == pre.spec_byte_at(a) by {
            let i = pre.spec_region_index(a);
            assert(0 <= i < pre.regions.len() && pre.regions[i].spec_contains(a));
            assert(self.regions[i].spec_contains(a));
            let j = self.spec_region_index(a);
            self.lemma_region_index_unique(a, j, i);
            let i2 = pre.spec_region_index(a);
            pre.lemma_region_index_unique(a, i2, i);
            if i == idx {
                if a < gpaddr {
                    assert(0 <= a - start < gpaddr - start);
                } else {
                    assert(gpaddr - start + data.len() <= a - start < pre.backing[idx].len());
                }
                assert(self.backing[idx][a - start] == pre.backing[idx][a - start]);
            } else {
                assert(self.backing[i] == pre.backing[i]);
            }
        }
    }
}

/// Permission bits demanded by a plain read access.
pub open spec fn spec_read_access() -> GuestMemoryAttr {
    GuestMemoryAttr { read: true, write: false, execute: false }
}

/// Permission bits demanded by a plain write access.
pub open spec fn spec_write_access() -> GuestMemoryAttr {
    GuestMemoryAttr { read: false, write: true, execute: false }
}

/// A guest physical address space as the rest of the core consumes it: an
/// advertised size and bulk access to guest memory.
pub trait GuestPhysMemorySetTrait: Sized {
    /// Whether the representation is consistent.
    spec fn inv(&self) -> bool;

    /// Advertised address-space size.
    spec fn spec_space_size(&self) -> u64;

    /// Whether the space holds the address `a`.
    spec fn spec_holds(&self, a: int) -> bool;

    /// The byte at address `a`; meaningful only when `spec_holds(a)`.
    spec fn spec_byte(&self, a: int) -> u8;

    /// Why a read of `len` bytes at `gpaddr` would fail, if it would.
    spec fn spec_read_err(&self, gpaddr: usize, len: usize) -> Option<KvmError>;

    /// Why a write of `len` bytes at `gpaddr` would fail, if it would.
    spec fn spec_write_err(&self, gpaddr: usize, len: usize) -> Option<KvmError>;

    /// Physical address space size.
    fn size(&self) -> (r: u64)
        requires
            self.inv(),
        ensures
            r == self.spec_space_size(),
    ;

    /// Read from the guest address space.
    fn read_memory(&self, gpaddr: GuestPhysAddr, buf: &mut Vec<u8>) -> (r: KvmResult<usize>)
        requires
            self.inv(),
        ensures
            final(buf).len() == old(buf).len(),
            match self.spec_read_err(gpaddr, old(buf).len()) {
                None => r == Ok::<usize, KvmError>(old(buf).len()) && forall|i: int|
                    0 <= i < old(buf).len() ==> final(buf)[i] == self.spec_byte(gpaddr + i),
                Some(e) => r == Err::<usize, KvmError>(e) && final(buf)@ == old(buf)@,
            },
    ;

    /// Write to the guest address space.
    fn write_memory(&mut self, gpaddr: GuestPhysAddr, buf: &Vec<u8>) -> (r: KvmResult<usize>)
        requires
            old(self).inv(),
        ensures
            final(self).inv(),
            final(self).spec_space_size() == old(self).spec_space_size(),
            forall|a: int| final(self).spec_holds(a) == old(self).spec_holds(a),
            match old(self).spec_write_err(gpaddr, buf.len()) {
                None => {
                    &&& r == Ok::<usize, KvmError>(buf.len())
                    &&& forall|i: int|
                        0 <= i < buf.len() ==> final(self).spec_byte(gpaddr + i) == buf[i]
                    &&& forall|a: int|
                        old(self).spec_holds(a) && !(gpaddr <= a < gpaddr + buf.len())
                            ==> final(self).spec_byte(a) == old(self).spec_byte(a)
                },
                Some(e) => r == Err::<usize, KvmError>(e) && forall|a: int|
                    old(self).spec_holds(a) ==> final(self).spec_byte(a) == old(self).spec_byte(a),
            },
    ;
}

impl GuestPhysMemorySetTrait for DefaultGuestPhysMemorySet {
    open spec fn inv(&self) -> bool {
        self.wf()
    }

    open spec fn spec_space_size(&self) -> u64 {
        GUEST_PHYS_SPACE_SIZE
    }

    open spec fn spec_holds(&self, a: int) -> bool {
        self.spec_has_region(a)
    }

    open spec fn spec_byte(&self, a: int) -> u8 {
        self.spec_byte_at(a)
    }

    open spec fn spec_read_err(&self, gpaddr: usize, len: usize) -> Option<KvmError> {
        match self.spec_translate(gpaddr, len, spec_read_access()) {
            Ok(_) => None,
            Err(e) => Some(e),
        }
    }

    open spec fn spec_write_err(&self, gpaddr: usize, len: usize) -> Option<KvmError> {
        match self.spec_translate(gpaddr, len, spec_write_access()) {
            Ok(_) => None,
            Err(e) => Some(e),
        }
    }

    fn size(&self) -> (r: u64) {
        DefaultGuestPhysMemorySet::size(self)
    }

    fn read_memory(&self, gpaddr: GuestPhysAddr, buf: &mut Vec<u8>) -> (r: KvmResult<usize>) {
        DefaultGuestPhysMemorySet::read_memory(self, gpaddr, buf)
    }

    fn write_memory(&mut self, gpaddr: GuestPhysAddr, buf: &Vec<u8>) -> (r: KvmResult<usize>) {
        DefaultGuestPhysMemorySet::write_memory(self, gpaddr, buf)
    }
}

/// Adding regions is order-free for disjoint spans and refuses conflicts:
/// from a space where the valid spans `[s1, e1)` and `[s2, e2)` are both
/// free and disjoint from each other, `add_region` of the first succeeds,
/// and on the resulting space `add_region` of the second succeeds as well;
/// while any span overlapping the added region is refused with the conflict
/// error.
pub proof fn lemma_add_region_pairwise(
    pre: DefaultGuestPhysMemorySet,
    post: DefaultGuestPhysMemorySet,
    s1: usize,
    e1: usize,
    s2: usize,
    e2: usize,
)
    requires
        pre.wf(),
        s1 < e1,
        e1 as u64 <= GUEST_PHYS_SPACE_SIZE,
        s2 < e2,
        e2 as u64 <= GUEST_PHYS_SPACE_SIZE,
        pre.spec_range_free(s1 as int, e1 as int),
        pre.spec_range_free(s2 as int, e2 as int),
        // What add_region's contract gives for the space after the first call.
        forall|a: int, b: int|
            post.spec_range_free(a, b) <==> (#[trigger] pre.spec_range_free(a, b) && (e1 <= a || s1
                >= b)),
    ensures
        pre.spec_add_region_err(s1, e1) is None,
        e1 <= s2 || e2 <= s1 ==> post.spec_add_region_err(s2, e2) is None,
        !(e1 <= s2 || e2 <= s1) ==> post.spec_add_region_err(s2, e2) == Some(
            KvmError::InvalidParam,
        ),
{
    assert(pre.spec_range_free(s1 as int, e1 as int));
    if e1 <= s2 || e2 <= s1 {
        assert(post.spec_range_free(s2 as int, e2 as int));
    } else {
        assert(!(e1 <= s2 as int || s1 >= e2 as int));
        assert(!post.spec_range_free(s2 as int, e2 as int));
    }
}

} // verus!
