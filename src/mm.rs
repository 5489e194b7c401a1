//! Paged memory: a task's page table, the physical frames behind it, and the
//! translator that moves records between kernel values and user addresses.
use vstd::prelude::*;
use std::collections::HashMap;
use crate::config::PAGE_SIZE;

verus! {

broadcast use vstd::std_specs::hash::group_hash_axioms;

/// A virtual address in the calling task's address space.
#[derive(Clone, Copy, Debug, PartialEq, Eq, Structural)]
pub struct VirtAddr(pub usize);

impl VirtAddr {
    /// Whether the address is the first byte of a page.
    pub open spec fn is_aligned(self) -> bool {
        self.0 as int % PAGE_SIZE as int == 0
    }

    pub fn aligned(&self) -> (r: bool)
        ensures
            r == self.is_aligned(),
    {
        self.0 % PAGE_SIZE == 0
    }

    /// Number of the page that holds the address.
    pub fn floor(&self) -> (r: usize)
        ensures
            r == self.0 / PAGE_SIZE,
    {
        self.0 / PAGE_SIZE
    }
}

/// What the page table records for one mapped virtual page.
#[derive(Clone, Copy, Debug, PartialEq, Eq, Structural)]
pub struct PageTableEntry {
    /// Physical frame that backs the page.
    pub ppn: usize,
    /// Permission bits: read, write and execute in bits 0, 1 and 2.
    pub perm: u8,
}

/// Address where the byte `va` lives when its page is backed by `pte`.
pub open spec fn frame_addr(pte: PageTableEntry, va: int) -> int {
    pte.ppn * PAGE_SIZE as int + va % PAGE_SIZE as int
}

/// Page number of the byte `va`.
pub open spec fn vpn_of(va: int) -> usize {
    (va / PAGE_SIZE as int) as usize
}

/// Why a user address could not be reached.
#[derive(Clone, Copy, Debug, PartialEq, Eq, Structural)]
pub enum AddressFault {
    /// A page of the range is not mapped, or lacks the permission the access needs.
    Unmapped,
    /// The range runs past the top of the address space.
    Overflow,
    /// A page is backed by a frame beyond physical memory.
    NoFrame,
}

/// Physical memory: a run of frames, byte-addressed from zero.
pub struct PhysMemory {
    bytes: Vec<u8>,
}

impl View for PhysMemory {
    type V = Seq<u8>;

    closed spec fn view(&self) -> Seq<u8> {
        self.bytes@
    }
}

impl PhysMemory {
    /// Zero-filled memory of `frames` frames.
    pub fn new(frames: usize) -> (r: PhysMemory)
        requires
            frames * PAGE_SIZE <= usize::MAX,
        ensures
            r@ == Seq::new((frames * PAGE_SIZE) as nat, |i: int| 0u8),
    {
        let n: usize = frames * PAGE_SIZE;
        let mut bytes: Vec<u8> = Vec::new();
        while bytes.len() < n
            invariant
                bytes.len() <= n,
                forall|i: int| 0 <= i < bytes.len() ==> bytes@[i] == 0u8,
            decreases n - bytes.len(),
        {
            bytes.push(0u8);
        }
        let r = PhysMemory { bytes };
        assert(r@ =~= Seq::new((frames * PAGE_SIZE) as nat, |i: int| 0u8));
        r
    }

    pub fn len(&self) -> (r: usize)
        ensures
            r == self@.len(),
    {
        self.bytes.len()
    }

    /// The byte at physical address `pa`.
    pub fn read(&self, pa: usize) -> (r: u8)
        requires
            pa < self@.len(),
        ensures
            r == self@[pa as int],
    {
        self.bytes[pa]
    }
}

/// The page table of one task together with the frames it may still claim.
/// Free frames form a stack: a map takes them from the top, an unmap puts
/// them back on top.
pub struct MemorySet {
    page_table: HashMap<usize, PageTableEntry>,
    free_frames: Vec<usize>,
    frame_end: usize,
}

impl MemorySet {
    /// The mapped pages: page number to entry.
    pub closed spec fn mapping(&self) -> Map<usize, PageTableEntry> {
        self.page_table@
    }

    /// Frames not backing any page; the last is handed out first.
    pub closed spec fn free_frames(&self) -> Seq<usize> {
        self.free_frames@
    }

    /// End of the frames this address space may claim.
    pub closed spec fn frame_end(&self) -> nat {
        self.frame_end as nat
    }

    /// Every frame, mapped or free, lies below `frame_end`, whose addresses
    /// fit in a `usize`; no frame is used twice, by two pages, twice in the
    /// free stack, or by a page and the free stack.
    pub closed spec fn wf(&self) -> bool {
        &&& self.frame_end <= usize::MAX / PAGE_SIZE
        &&& forall|v: usize| #[trigger]
            self.page_table@.contains_key(v) ==> self.page_table@[v].ppn < self.frame_end
        &&& forall|i: int| 0 <= i < self.free_frames@.len() ==> #[trigger] self.free_frames@[i] < self.frame_end
        &&& forall|i: int, j: int|
            0 <= i < self.free_frames@.len() && 0 <= j < self.free_frames@.len() && i != j
                ==> #[trigger] self.free_frames@[i] != #[trigger] self.free_frames@[j]
        &&& forall|i: int, v: usize|
            0 <= i < self.free_frames@.len() && self.page_table@.contains_key(v)
                ==> #[trigger] self.free_frames@[i] != #[trigger] self.page_table@[v].ppn
        &&& forall|v1: usize, v2: usize|
            #![trigger self.page_table@[v1], self.page_table@[v2]]
            self.page_table@.contains_key(v1) && self.page_table@.contains_key(v2) && v1 != v2
                ==> self.page_table@[v1].ppn != self.page_table@[v2].ppn
    }

    /// Whether the byte `va` is mapped with every bit of `perm`.
    pub open spec fn permits(&self, va: int, perm: u8) -> bool {
        &&& 0 <= va <= usize::MAX
        &&& self.mapping().contains_key(vpn_of(va))
        &&& self.mapping()[vpn_of(va)].perm & perm == perm
    }

    /// Physical address of the byte `va`.
    pub open spec fn phys(&self, va: int) -> int {
        frame_addr(self.mapping()[vpn_of(va)], va)
    }

    /// Whether every byte of `[va, va + len)` is mapped with `perm` onto
    /// physical memory of `mem_len` bytes, and the range ends below the top of
    /// the address space.
    pub open spec fn reaches(&self, va: int, len: int, perm: u8, mem_len: int) -> bool {
        &&& va + len <= usize::MAX
        &&& forall|i: int|
            0 <= i < len ==> #[trigger] self.permits(va + i, perm) && self.phys(va + i) < mem_len
    }

    /// The bytes a user task sees at `[va, va + len)` when memory holds `m`.
    pub open spec fn user_bytes(&self, m: Seq<u8>, va: int, len: nat) -> Seq<u8> {
        Seq::new(len, |i: int| m[self.phys(va + i)])
    }

    /// Memory `m` after the first `n` bytes of `d` are stored at `va` onward.
    pub open spec fn written(&self, m: Seq<u8>, va: int, d: Seq<u8>, n: nat) -> Seq<u8>
        decreases n,
    {
        if n == 0 {
            m
        } else {
            self.written(m, va, d, (n - 1) as nat).update(self.phys(va + n - 1), d[n - 1])
        }
    }

    /// An empty address space that may claim frames `[first_frame, frame_end)`,
    /// lowest first.
    pub fn new(first_frame: usize, frame_end: usize) -> (r: MemorySet)
        requires
            first_frame <= frame_end,
            frame_end <= usize::MAX / PAGE_SIZE,
        ensures
            r.wf(),
            r.mapping() == Map::<usize, PageTableEntry>::empty(),
            r.free_frames() == Seq::new(
                (frame_end - first_frame) as nat,
                |i: int| (frame_end - 1 - i) as usize,
            ),
            r.frame_end() == frame_end,
    {
        let mut free: Vec<usize> = Vec::new();
        let mut f: usize = frame_end;
        while f > first_frame
            invariant
                first_frame <= f <= frame_end,
                free@ == Seq::new((frame_end - f) as nat, |i: int| (frame_end - 1 - i) as usize),
            decreases f,
        {
            f = f - 1;
            free.push(f);
            assert(free@ =~= Seq::new((frame_end - f) as nat, |i: int| (frame_end - 1 - i) as usize));
        }
        MemorySet { page_table: HashMap::new(), free_frames: free, frame_end }
    }

    /// Physical address of the byte `va`, if its page is mapped with every
    /// bit of `perm`.
    pub fn translate(&self, va: usize, perm: u8) -> (r: Option<usize>)
        requires
            self.wf(),
        ensures
            r.is_some() <==> self.permits(va as int, perm),
            r.is_some() ==> r.unwrap() == self.phys(va as int),
    {
        let vpn: usize = va / PAGE_SIZE;
        match self.page_table.get(&vpn) {
            Some(pte) => {
                if pte.perm & perm == perm {
                    let off: usize = va % PAGE_SIZE;
                    proof {
                        lemma_frame_addr_fits(pte.ppn as int, off as int, self.frame_end as int);
                    }
                    Some(pte.ppn * PAGE_SIZE + off)
                } else {
                    None
                }
            },
            None => None,
        }
    }
}

impl MemorySet {
    /// Two distinct mapped bytes live at distinct physical addresses.
    pub proof fn lemma_phys_injective(&self, a: int, b: int, perm: u8)
        requires
            self.wf(),
            self.permits(a, perm),
            self.permits(b, perm),
            a != b,
        ensures
            self.phys(a) != self.phys(b),
    {
        let pa = self.mapping()[vpn_of(a)];
        let pb = self.mapping()[vpn_of(b)];
        let oa = a % 4096;
        let ob = b % 4096;
        if vpn_of(a) == vpn_of(b) {
            vstd::arithmetic::div_mod::lemma_fundamental_div_mod(a, 4096);
            vstd::arithmetic::div_mod::lemma_fundamental_div_mod(b, 4096);
            assert(a / 4096 == b / 4096);
        } else {
            assert(pa.ppn != pb.ppn);
            assert(pa.ppn * 4096 + oa != pb.ppn * 4096 + ob) by (nonlinear_arith)
                requires
                    pa.ppn != pb.ppn,
                    0 <= oa < 4096,
                    0 <= ob < 4096,
            ;
        }
    }

    /// After `written`, each byte of the range reads back as stored.
    pub proof fn lemma_written_reads_back(&self, m: Seq<u8>, va: int, d: Seq<u8>, n: nat, perm: u8)
        requires
            self.wf(),
            n <= d.len(),
            self.reaches(va, n as int, perm, m.len() as int),
        ensures
            self.written(m, va, d, n).len() == m.len(),
            forall|j: int| 0 <= j < n ==> #[trigger] self.written(m, va, d, n)[self.phys(va + j)] == d[j],
        decreases n,
    {
        if n > 0 {
            let k = (n - 1) as nat;
            assert(self.reaches(va, k as int, perm, m.len() as int)) by {
                assert forall|i: int| 0 <= i < k implies #[trigger] self.permits(va + i, perm)
                    && self.phys(va + i) < m.len() by {
                    assert(self.permits(va + i, perm));
                }
            }
            self.lemma_written_reads_back(m, va, d, k, perm);
            assert(self.permits(va + k, perm));
            assert forall|j: int| 0 <= j < n implies #[trigger] self.written(m, va, d, n)[self.phys(va + j)] == d[j] by {
                if j < k {
                    assert(self.permits(va + j, perm));
                    self.lemma_phys_injective(va + j, va + k, perm);
                }
            }
        }
    }

    /// Stores `data` at user address `va`, one byte at a time through the
    /// page table, so a record that spans pages reaches every frame behind it.
    /// Either every byte is stored or, on a fault, memory is left as it was.
    pub fn copy_out(&self, mem: &mut PhysMemory, va: usize, data: &Vec<u8>) -> (r: Result<(), AddressFault>)
        requires
            self.wf(),
        ensures
            r.is_ok() <==> self.reaches(va as int, data@.len() as int, crate::config::PERM_W, old(mem)@.len() as int),
            r.is_ok() ==> final(mem)@ == self.written(old(mem)@, va as int, data@, data@.len()),
            r.is_ok() ==> self.user_bytes(final(mem)@, va as int, data@.len()) == data@,
            r.is_err() ==> final(mem)@ == old(mem)@,
    {
        let pas = match self.translate_range(mem, va, data.len(), crate::config::PERM_W) {
            Ok(p) => p,
            Err(e) => return Err(e),
        };
        let ghost m0 = mem@;
        let mut i: usize = 0;
        while i < data.len()
            invariant
                self.wf(),
                i <= data@.len(),
                pas@.len() == data@.len(),
                forall|k: int| 0 <= k < pas@.len() ==> pas@[k] == self.phys(va + k) && pas@[k] < m0.len(),
                mem@ == self.written(m0, va as int, data@, i as nat),
                mem@.len() == m0.len(),
                self.reaches(va as int, data@.len() as int, crate::config::PERM_W, m0.len() as int),
            decreases data@.len() - i,
        {
            let pa = pas[i];
            mem.bytes[pa] = data[i];
            i = i + 1;
        }
        proof {
            self.lemma_written_reads_back(m0, va as int, data@, data@.len(), crate::config::PERM_W);
            assert(self.user_bytes(mem@, va as int, data@.len()) =~= data@);
        }
        Ok(())
    }

    /// Reads `len` bytes at user address `va` through the page table.
    pub fn copy_in(&self, mem: &PhysMemory, va: usize, len: usize) -> (r: Result<Vec<u8>, AddressFault>)
        requires
            self.wf(),
        ensures
            r.is_ok() <==> self.reaches(va as int, len as int, crate::config::PERM_R, mem@.len() as int),
            r.is_ok() ==> r.unwrap()@ == self.user_bytes(mem@, va as int, len as nat),
    {
        let pas = match self.translate_range(mem, va, len, crate::config::PERM_R) {
            Ok(p) => p,
            Err(e) => return Err(e),
        };
        let mut out: Vec<u8> = Vec::new();
        let mut i: usize = 0;
        while i < len
            invariant
                i <= len,
                pas@.len() == len,
                forall|k: int| 0 <= k < pas@.len() ==> pas@[k] == self.phys(va + k) && pas@[k] < mem@.len(),
                out@ == self.user_bytes(mem@, va as int, i as nat),
            decreases len - i,
        {
            out.push(mem.bytes[pas[i]]);
            i = i + 1;
            assert(out@ =~= self.user_bytes(mem@, va as int, i as nat));
        }
        Ok(out)
    }

    /// Physical address of each byte of `[va, va + len)`, translated page by
    /// page; fails if any byte lacks `perm` or lies beyond physical memory.
    fn translate_range(&self, mem: &PhysMemory, va: usize, len: usize, perm: u8) -> (r: Result<Vec<usize>, AddressFault>)
        requires
            self.wf(),
        ensures
            r.is_ok() <==> self.reaches(va as int, len as int, perm, mem@.len() as int),
            r.is_ok() ==> r.unwrap()@.len() == len,
            r.is_ok() ==> forall|k: int| 0 <= k < len ==>
                r.unwrap()@[k] == self.phys(va + k) && r.unwrap()@[k] < mem@.len(),
    {
        if len > usize::MAX - va {
            return Err(AddressFault::Overflow);
        }
        let mut pas: Vec<usize> = Vec::new();
        let mut i: usize = 0;
        while i < len
            invariant
                self.wf(),
                i <= len,
                va + len <= usize::MAX,
                pas@.len() == i,
                forall|k: int| 0 <= k < i ==> #[trigger] self.permits(va + k, perm) && self.phys(va + k) < mem@.len(),
                forall|k: int| 0 <= k < i ==> #[trigger] pas@[k] == self.phys(va + k) && pas@[k] < mem@.len(),
            decreases len - i,
        {
            match self.translate(va + i, perm) {
                Some(pa) => {
                    if pa >= mem.len() {
                        assert(!(self.phys(va + i) < mem@.len()));
                        return Err(AddressFault::NoFrame);
                    }
                    pas.push(pa);
                },
                None => {
                    assert(!self.permits(va + i, perm));
                    return Err(AddressFault::Unmapped);
                },
            }
            i = i + 1;
        }
        Ok(pas)
    }
}

/// Number of pages that `len` bytes cover, a partial page counting as whole.
pub open spec fn pages_of(len: int) -> int {
    if len <= 0 {
        0
    } else {
        (len - 1) / PAGE_SIZE as int + 1
    }
}

/// Whether `port` requests some permission and only read, write or execute.
pub open spec fn port_ok(port: usize) -> bool {
    1 <= port <= 7
}

/// The pages `[svpn, svpn + n)`.
pub open spec fn page_range(svpn: int, n: int) -> Set<usize> {
    Set::new(|v: usize| svpn <= v < svpn + n)
}

/// Entries for pages `[svpn, svpn + n)`, backed by frames taken one by one
/// from the top of the stack `free`.
pub open spec fn fresh_entries(svpn: int, n: int, free: Seq<usize>, perm: u8) -> Map<usize, PageTableEntry> {
    Map::new(
        |v: usize| svpn <= v < svpn + n,
        |v: usize| PageTableEntry { ppn: free[free.len() - 1 - (v - svpn)], perm },
    )
}

/// Frames of pages `[svpn, svpn + n)` of `m` in the order an unmap gives
/// them back: last page first.
pub open spec fn returned_frames(m: Map<usize, PageTableEntry>, svpn: int, n: int) -> Seq<usize> {
    Seq::new(n as nat, |k: int| m[(svpn + n - 1 - k) as usize].ppn)
}

impl MemorySet {
    /// Whether some page of `[svpn, svpn + n)` is mapped.
    pub open spec fn overlaps(&self, svpn: int, n: int) -> bool {
        exists|v: usize| svpn <= v < svpn + n && #[trigger] self.mapping().contains_key(v)
    }

    /// Whether every page of `[svpn, svpn + n)` is mapped.
    pub open spec fn covers(&self, svpn: int, n: int) -> bool {
        forall|v: usize| svpn <= v < svpn + n ==> #[trigger] self.mapping().contains_key(v)
    }

    /// What mapping `len` bytes at `start` with permissions `port` does:
    /// `after` is the address space afterwards and `r` the status returned.
    /// Checks come in order: permissions, alignment, empty length, then the
    /// range's end, overlap with mapped pages and the frames left.
    pub open spec fn mmap_outcome(&self, start: usize, len: usize, port: usize, after: MemorySet, r: isize) -> bool {
        let svpn = start as int / PAGE_SIZE as int;
        let n = pages_of(len as int);
        if !port_ok(port) || start as int % PAGE_SIZE as int != 0 {
            r == -1 && after == *self
        } else if len == 0 {
            r == 0 && after == *self
        } else if start + len > usize::MAX || self.overlaps(svpn, n)
            || n > self.free_frames().len() {
            r == -1 && after == *self
        } else {
            &&& r == 0
            &&& after.wf()
            &&& after.mapping() == self.mapping().union_prefer_right(
                fresh_entries(svpn, n, self.free_frames(), port as u8),
            )
            &&& after.free_frames() == self.free_frames().take(self.free_frames().len() - n)
            &&& after.frame_end() == self.frame_end()
        }
    }

    /// What unmapping `len` bytes at `start` does: all pages of the range go,
    /// or, if one of them is not mapped, none does.
    pub open spec fn munmap_outcome(&self, start: usize, len: usize, after: MemorySet, r: isize) -> bool {
        let svpn = start as int / PAGE_SIZE as int;
        let n = pages_of(len as int);
        if start as int % PAGE_SIZE as int != 0 {
            r == -1 && after == *self
        } else if len == 0 {
            r == 0 && after == *self
        } else if start + len > usize::MAX || !self.covers(svpn, n) {
            r == -1 && after == *self
        } else {
            &&& r == 0
            &&& after.wf()
            &&& after.mapping() == self.mapping().remove_keys(page_range(svpn, n))
            &&& after.free_frames() == self.free_frames() + returned_frames(self.mapping(), svpn, n)
            &&& after.frame_end() == self.frame_end()
        }
    }

    /// Maps `len` bytes at `start`, rounded up to whole pages, onto fresh
    /// frames with permission bits `port`. Returns 0, or -1 with nothing
    /// changed.
    #[verifier::loop_isolation(false)]
    pub fn mmap(&mut self, start: usize, len: usize, port: usize) -> (r: isize)
        requires
            old(self).wf(),
        ensures
            final(self).wf(),
            old(self).mmap_outcome(start, len, port, *final(self), r),
    {
        if !port_valid(port) {
            return -1;
        }
        if start % PAGE_SIZE != 0 {
            return -1;
        }
        if len == 0 {
            return 0;
        }
        if len > usize::MAX - start {
            return -1;
        }
        let svpn: usize = start / PAGE_SIZE;
        let n: usize = (len - 1) / PAGE_SIZE + 1;
        let mut i: usize = 0;
        while i < n
            invariant
                i <= n,
                svpn + n <= usize::MAX,
                forall|v: usize| svpn <= v < svpn + i ==> !#[trigger] self.page_table@.contains_key(v),
            decreases n - i,
        {
            if self.page_table.contains_key(&(svpn + i)) {
                assert(self.mapping().contains_key((svpn + i) as usize));
                return -1;
            }
            i = i + 1;
        }
        if n > self.free_frames.len() {
            return -1;
        }
        let perm: u8 = port as u8;
        let ghost before = *self;
        let ghost f0 = self.free_frames@;
        let ghost l0 = f0.len();
        let mut i: usize = 0;
        while i < n
            invariant
                i <= n,
                n <= l0,
                svpn + n <= usize::MAX,
                self.frame_end == before.frame_end,
                self.free_frames@ == f0.take(l0 - i),
                self.page_table@ == before.page_table@.union_prefer_right(
                    fresh_entries(svpn as int, i as int, f0, perm),
                ),
            decreases n - i,
        {
            let f = self.free_frames.pop().unwrap();
            self.page_table.insert(svpn + i, PageTableEntry { ppn: f, perm });
            i = i + 1;
            assert(self.free_frames@ =~= f0.take(l0 - i));
            assert(self.page_table@ =~= before.page_table@.union_prefer_right(
                fresh_entries(svpn as int, i as int, f0, perm),
            ));
        }
        proof {
            let m = self.page_table@;
            let m0 = before.page_table@;
            assert forall|v: usize| #[trigger] m.contains_key(v) implies m[v].ppn < self.frame_end by {
                if svpn <= v < svpn + n {
                    let k = l0 - 1 - (v - svpn);
                    assert(before.free_frames@[k] < before.frame_end);
                } else {
                    assert(m0.contains_key(v));
                }
            }
            assert forall|v1: usize, v2: usize|
                m.contains_key(v1) && m.contains_key(v2) && v1 != v2 implies #[trigger] m[v1].ppn != #[trigger] m[v2].ppn by {
                let f1 = svpn <= v1 < svpn + n;
                let f2 = svpn <= v2 < svpn + n;
                let k1 = l0 - 1 - (v1 - svpn);
                let k2 = l0 - 1 - (v2 - svpn);
                if f1 && f2 {
                    assert(before.free_frames@[k1] != before.free_frames@[k2]);
                } else if f1 {
                    assert(m0.contains_key(v2));
                    assert(before.free_frames@[k1] != before.page_table@[v2].ppn);
                } else if f2 {
                    assert(m0.contains_key(v1));
                    assert(before.free_frames@[k2] != before.page_table@[v1].ppn);
                } else {
                    assert(m0.contains_key(v1));
                    assert(m0.contains_key(v2));
                    assert(before.page_table@[v1].ppn != before.page_table@[v2].ppn);
                }
            }
            let fs = self.free_frames@;
            assert forall|i: int| 0 <= i < fs.len() implies #[trigger] fs[i] < self.frame_end by {
                assert(fs[i] == before.free_frames@[i]);
            }
            assert forall|i: int, j: int|
                0 <= i < fs.len() && 0 <= j < fs.len() && i != j implies #[trigger] fs[i] != #[trigger] fs[j] by {
                assert(fs[i] == before.free_frames@[i]);
                assert(fs[j] == before.free_frames@[j]);
            }
            assert forall|i: int, v: usize|
                0 <= i < fs.len() && m.contains_key(v) implies #[trigger] fs[i] != #[trigger] m[v].ppn by {
                assert(fs[i] == before.free_frames@[i]);
                if svpn <= v < svpn + n {
                    let k = l0 - 1 - (v - svpn);
                    assert(before.free_frames@[i] != before.free_frames@[k]);
                } else {
                    assert(m0.contains_key(v));
                    assert(before.free_frames@[i] != before.page_table@[v].ppn);
                }
            }
        }
        0
    }

    /// Unmaps `len` bytes at `start`, rounded up to whole pages. Returns 0,
    /// or -1 with nothing changed.
    #[verifier::loop_isolation(false)]
    pub fn munmap(&mut self, start: usize, len: usize) -> (r: isize)
        requires
            old(self).wf(),
        ensures
            final(self).wf(),
            old(self).munmap_outcome(start, len, *final(self), r),
    {
        if start % PAGE_SIZE != 0 {
            return -1;
        }
        if len == 0 {
            return 0;
        }
        if len > usize::MAX - start {
            return -1;
        }
        let svpn: usize = start / PAGE_SIZE;
        let n: usize = (len - 1) / PAGE_SIZE + 1;
        let mut i: usize = 0;
        while i < n
            invariant
                i <= n,
                svpn + n <= usize::MAX,
                forall|v: usize| svpn <= v < svpn + i ==> #[trigger] self.page_table@.contains_key(v),
            decreases n - i,
        {
            if !self.page_table.contains_key(&(svpn + i)) {
                assert(!self.mapping().contains_key((svpn + i) as usize));
                return -1;
            }
            i = i + 1;
        }
        let ghost before = *self;
        let ghost m0 = self.page_table@;
        let ghost f0 = self.free_frames@;
        let mut i: usize = n;
        while i > 0
            invariant
                i <= n,
                svpn + n <= usize::MAX,
                self.frame_end == before.frame_end,
                forall|v: usize| svpn <= v < svpn + n ==> #[trigger] m0.contains_key(v),
                self.page_table@ == m0.remove_keys(page_range((svpn + i) as int, (n - i) as int)),
                self.free_frames@ == f0 + returned_frames(m0, (svpn + i) as int, (n - i) as int),
            decreases i,
        {
            i = i - 1;
            assert(m0.contains_key((svpn + i) as usize));
            let ppn: usize = self.page_table.get(&(svpn + i)).unwrap().ppn;
            self.free_frames.push(ppn);
            self.page_table.remove(&(svpn + i));
            assert(self.page_table@ =~= m0.remove_keys(page_range((svpn + i) as int, (n - i) as int)));
            assert(self.free_frames@ =~= f0 + returned_frames(m0, (svpn + i) as int, (n - i) as int));
        }
        proof {
            let m = self.page_table@;
            let fs = self.free_frames@;
            let l0 = f0.len();
            assert forall|v: usize| #[trigger] m.contains_key(v) implies m[v].ppn < self.frame_end by {
                assert(m0.contains_key(v));
            }
            assert forall|v1: usize, v2: usize|
                m.contains_key(v1) && m.contains_key(v2) && v1 != v2 implies #[trigger] m[v1].ppn != #[trigger] m[v2].ppn by {
                assert(m0.contains_key(v1));
                assert(m0.contains_key(v2));
                assert(before.page_table@[v1].ppn != before.page_table@[v2].ppn);
            }
            assert forall|i: int| 0 <= i < fs.len() implies #[trigger] fs[i] < self.frame_end by {
                if i < l0 {
                    assert(fs[i] == before.free_frames@[i]);
                } else {
                    let v = (svpn + n - 1 - (i - l0)) as usize;
                    assert(m0.contains_key(v));
                    assert(fs[i] == before.page_table@[v].ppn);
                }
            }
            assert forall|i: int, j: int|
                0 <= i < fs.len() && 0 <= j < fs.len() && i != j implies #[trigger] fs[i] != #[trigger] fs[j] by {
                let vi = (svpn + n - 1 - (i - l0)) as usize;
                let vj = (svpn + n - 1 - (j - l0)) as usize;
                if i < l0 && j < l0 {
                    assert(before.free_frames@[i] != before.free_frames@[j]);
                } else if i < l0 {
                    assert(m0.contains_key(vj));
                    assert(before.free_frames@[i] != before.page_table@[vj].ppn);
                } else if j < l0 {
                    assert(m0.contains_key(vi));
                    assert(before.free_frames@[j] != before.page_table@[vi].ppn);
                } else {
                    assert(m0.contains_key(vi));
                    assert(m0.contains_key(vj));
                    assert(before.page_table@[vi].ppn != before.page_table@[vj].ppn);
                }
            }
            assert forall|i: int, v: usize|
                0 <= i < fs.len() && m.contains_key(v) implies #[trigger] fs[i] != #[trigger] m[v].ppn by {
                assert(m0.contains_key(v));
                if i < l0 {
                    assert(before.free_frames@[i] != before.page_table@[v].ppn);
                } else {
                    let vi = (svpn + n - 1 - (i - l0)) as usize;
                    assert(m0.contains_key(vi));
                    assert(before.page_table@[vi].ppn != before.page_table@[v].ppn);
                }
            }
        }
        0
    }
}

/// Mapping a range and then unmapping the same range leaves the address
/// space as it was before, its mapped pages and its free frames alike,
/// whenever the mapping succeeded.
pub proof fn lemma_map_then_unmap_restores(
    s0: MemorySet,
    s1: MemorySet,
    s2: MemorySet,
    start: usize,
    len: usize,
    port: usize,
    r2: isize,
)
    requires
        s0.wf(),
        s0.mmap_outcome(start, len, port, s1, 0),
        s1.munmap_outcome(start, len, s2, r2),
    ensures
        r2 == 0,
        s2.mapping() == s0.mapping(),
        s2.free_frames() == s0.free_frames(),
        s2.frame_end() == s0.frame_end(),
{
    let svpn = start as int / PAGE_SIZE as int;
    let n = pages_of(len as int);
    if len > 0 {
        assert(s1.covers(svpn, n)) by {
            assert forall|v: usize| svpn <= v < svpn + n implies #[trigger] s1.mapping().contains_key(v) by {
                assert(fresh_entries(svpn, n, s0.free_frames(), port as u8).contains_key(v));
            }
        }
        let f0 = s0.free_frames();
        let l0 = f0.len();
        assert(s2.free_frames() =~= f0) by {
            assert forall|i: int| l0 - n <= i < l0 implies s2.free_frames()[i] == f0[i] by {
                let k = i - (l0 - n);
                let v = (svpn + n - 1 - k) as usize;
                assert(fresh_entries(svpn, n, f0, port as u8).contains_key(v));
            }
        }
        assert(s2.mapping() =~= s0.mapping()) by {
            assert forall|v: usize| #[trigger] s0.mapping().contains_key(v) implies !page_range(svpn, n).contains(v) by {
                if svpn <= v < svpn + n {
                    assert(s0.overlaps(svpn, n));
                }
            }
        }
    }
}

/// A zero-length request changes nothing: mapping returns 0 when the
/// permissions are well formed and the start is aligned, and unmapping
/// returns 0 when the start is aligned; the alignment check comes first, so
/// an unaligned start gives -1 from both.
pub proof fn lemma_zero_length(s: MemorySet, start: usize, port: usize, a: MemorySet, ra: isize, b: MemorySet, rb: isize)
    requires
        s.mmap_outcome(start, 0, port, a, ra),
        s.munmap_outcome(start, 0, b, rb),
    ensures
        a == s,
        b == s,
        ra == (if port_ok(port) && VirtAddr(start).is_aligned() { 0isize } else { -1isize }),
        rb == (if VirtAddr(start).is_aligned() { 0isize } else { -1isize }),
{
}

/// Permission bits outside the low three, or none of them, make mapping
/// fail with -1 and change nothing.
pub proof fn lemma_bad_port_refused(s: MemorySet, start: usize, len: usize, port: usize, after: MemorySet, r: isize)
    requires
        s.mmap_outcome(start, len, port, after, r),
        port & !0x7usize != 0 || port & 0x7usize == 0,
    ensures
        r == -1,
        after == s,
{
    assert(!(1 <= port <= 7)) by (bit_vector)
        requires
            port & !0x7usize != 0 || port & 0x7usize == 0,
    ;
}

/// Mapping a range that meets a mapped page fails with -1 and leaves the
/// address space as it was.
pub proof fn lemma_overlap_refused(s: MemorySet, start: usize, len: usize, port: usize, after: MemorySet, r: isize)
    requires
        s.mmap_outcome(start, len, port, after, r),
        s.overlaps(start as int / PAGE_SIZE as int, pages_of(len as int)),
    ensures
        r == -1,
        after == s,
{
}

/// Unmapping a range with a page that is not mapped fails with -1 and leaves
/// every page as it was.
pub proof fn lemma_unmap_hole_refused(s: MemorySet, start: usize, len: usize, after: MemorySet, r: isize)
    requires
        s.munmap_outcome(start, len, after, r),
        !s.covers(start as int / PAGE_SIZE as int, pages_of(len as int)),
    ensures
        r == -1,
        after == s,
{
}

/// A record stored at `va` reads back byte for byte, whichever frames, and
/// in whichever order, back the pages it spans.
pub proof fn lemma_record_reads_back(s: MemorySet, m: Seq<u8>, va: int, d: Seq<u8>)
    requires
        s.wf(),
        s.reaches(va, d.len() as int, crate::config::PERM_W, m.len() as int),
    ensures
        s.user_bytes(s.written(m, va, d, d.len()), va, d.len()) == d,
{
    s.lemma_written_reads_back(m, va, d, d.len(), crate::config::PERM_W);
    assert(s.user_bytes(s.written(m, va, d, d.len()), va, d.len()) =~= d);
}

/// Whether `port` sets some of its three low bits and no other bit.
pub fn port_valid(port: usize) -> (r: bool)
    ensures
        r == port_ok(port),
{
    let r = port & !0x7usize == 0 && port & 0x7usize != 0;
    assert(r == (1 <= port <= 7)) by (bit_vector)
        requires
            r == (port & !0x7usize == 0 && port & 0x7usize != 0),
    ;
    r
}

proof fn lemma_frame_addr_fits(ppn: int, off: int, end: int)
    requires
        0 <= ppn < end,
        end <= (usize::MAX / PAGE_SIZE) as int,
        0 <= off < PAGE_SIZE,
    ensures
        ppn * PAGE_SIZE as int + off <= usize::MAX,
{
    assert(ppn * 4096 + off <= (end - 1) * 4096 + 4095) by (nonlinear_arith)
        requires
            0 <= ppn < end,
            0 <= off < 4096,
    ;
    assert((end - 1) * 4096 + 4095 < end * 4096) by (nonlinear_arith);
    assert(end * 4096 <= usize::MAX) by (nonlinear_arith)
        requires
            end <= usize::MAX / 4096,
            0 <= end,
    ;
}

} // verus!
