//! The current task's address space: a page table mapping virtual page
//! numbers to physical frames, a bump allocator for frames, and the bytes
//! of physical memory.  The syscall layer resolves every user virtual
//! address against this table before it touches memory.

use vstd::prelude::*;

verus! {

/// Bytes per page; a virtual address splits into `va / PAGE_SIZE` (the
/// virtual page number) and `va % PAGE_SIZE` (the offset inside the page).
pub const PAGE_SIZE: usize = 4096;

/// Upper bound on how many physical frames an address space may own; keeps
/// every physical byte address comfortably inside `usize` on any target.
pub const MAX_FRAMES: usize = 16384;

/// One page-table entry: a virtual page backed by a physical frame with
/// permission bits (readable/writable/executable) as requested at mmap time.
#[derive(Clone, Copy)]
pub struct PtEntry {
    pub vpn: usize,
    pub ppn: usize,
    pub perm: usize,
}

/// Mathematical image of one mapped page.
pub struct PageModel {
    pub ppn: nat,
    pub perm: nat,
}

/// Mathematical image of a whole address space: the page table as a map,
/// physical memory as a byte sequence, and the frame allocator's state.
#[verifier::ext_equal]
pub struct SpaceModel {
    pub pages: Map<nat, PageModel>,
    pub mem: Seq<u8>,
    pub next: nat,
    pub cap: nat,
}

/// Some entry of `s` carries virtual page number `v`.
pub open spec fn has_vpn(s: Seq<PtEntry>, v: nat) -> bool {
    exists|i: int| 0 <= i < s.len() && (#[trigger] s[i]).vpn as nat == v
}

/// Index of the entry carrying `v` (meaningful only when `has_vpn` holds
/// and entries are distinct).
pub open spec fn idx_of(s: Seq<PtEntry>, v: nat) -> int {
    choose|i: int| 0 <= i < s.len() && (#[trigger] s[i]).vpn as nat == v
}

pub open spec fn entry_of(s: Seq<PtEntry>, v: nat) -> PtEntry {
    s[idx_of(s, v)]
}

/// No two entries share a virtual page or a physical frame.
pub open spec fn distinct_entries(s: Seq<PtEntry>) -> bool {
    forall|i: int, j: int| #![trigger s[i], s[j]]
        0 <= i < j < s.len() ==> s[i].vpn != s[j].vpn && s[i].ppn != s[j].ppn
}

/// The page table of the running task together with its physical memory.
pub struct AddressSpace {
    maps: Vec<PtEntry>,
    mem: Vec<u8>,
    next_ppn: usize,
    frame_count: usize,
}

/// Well-formedness of the abstract image alone: frames in bounds, the
/// page table injective on frames, and every still-free frame zeroed.
pub open spec fn model_wf(m: SpaceModel) -> bool {
    &&& m.next <= m.cap
    &&& m.cap <= MAX_FRAMES as nat
    &&& m.mem.len() == m.cap * (PAGE_SIZE as nat)
    &&& forall|v: nat| m.pages.contains_key(v)
            ==> (#[trigger] m.pages[v]).ppn < m.next && m.pages[v].perm <= 7
    &&& forall|v1: nat, v2: nat|
            m.pages.contains_key(v1) && m.pages.contains_key(v2) && v1 != v2
                ==> (#[trigger] m.pages[v1]).ppn != (#[trigger] m.pages[v2]).ppn
    &&& forall|pa: int|
            m.next * (PAGE_SIZE as nat) <= pa < m.mem.len() ==> m.mem[pa] == 0
}

impl View for AddressSpace {
    type V = SpaceModel;

    closed spec fn view(&self) -> SpaceModel {
        SpaceModel {
            pages: Map::new(
                |v: nat| has_vpn(self.maps@, v),
                |v: nat| PageModel {
                    ppn: entry_of(self.maps@, v).ppn as nat,
                    perm: entry_of(self.maps@, v).perm as nat,
                },
            ),
            mem: self.mem@,
            next: self.next_ppn as nat,
            cap: self.frame_count as nat,
        }
    }
}

/// The page holding byte `va` is mapped.
pub open spec fn byte_mapped(m: SpaceModel, va: nat) -> bool {
    m.pages.contains_key(va / (PAGE_SIZE as nat))
}

/// Physical address backing byte `va` (meaningful only when mapped).
pub open spec fn byte_pa(m: SpaceModel, va: nat) -> nat {
    m.pages[va / (PAGE_SIZE as nat)].ppn * (PAGE_SIZE as nat) + va % (PAGE_SIZE as nat)
}

/// Every byte of `[va, va + len)` lies on a mapped page.
pub open spec fn range_mapped(m: SpaceModel, va: nat, len: nat) -> bool {
    forall|a: nat| va <= a < va + len ==> #[trigger] byte_mapped(m, a)
}

impl AddressSpace {
    /// Entries are distinct, frames in bounds, memory sized to the frame
    /// count, and all not-yet-allocated frames still zeroed.
    pub closed spec fn wf(&self) -> bool {
        &&& distinct_entries(self.maps@)
        &&& forall|i: int| 0 <= i < self.maps@.len()
                ==> (#[trigger] self.maps@[i]).ppn < self.next_ppn
        &&& forall|i: int| 0 <= i < self.maps@.len()
                ==> (#[trigger] self.maps@[i]).perm <= 7
        &&& self.next_ppn <= self.frame_count
        &&& self.frame_count <= MAX_FRAMES
        &&& self.mem@.len() == self.frame_count * (PAGE_SIZE as nat)
        &&& forall|pa: int|
                self.next_ppn * (PAGE_SIZE as nat) <= pa < self.mem@.len()
                    ==> self.mem@[pa] == 0
    }

    /// The concrete invariant carries over to the abstract image.
    pub proof fn lemma_wf_model(&self)
        requires
            self.wf(),
        ensures
            model_wf(self@),
    {
        assert forall|v: nat| self@.pages.contains_key(v)
            implies (#[trigger] self@.pages[v]).ppn < self@.next && self@.pages[v].perm <= 7
        by {
            lemma_entry_unique(self.maps@, v);
        }
        assert forall|v1: nat, v2: nat|
            self@.pages.contains_key(v1) && self@.pages.contains_key(v2) && v1 != v2
            implies (#[trigger] self@.pages[v1]).ppn != (#[trigger] self@.pages[v2]).ppn
        by {
            lemma_entry_unique(self.maps@, v1);
            lemma_entry_unique(self.maps@, v2);
            let i1 = idx_of(self.maps@, v1);
            let i2 = idx_of(self.maps@, v2);
            assert(self.maps@[i1].vpn != self.maps@[i2].vpn);
        }
    }

    /// A fresh address space owning `frames` zeroed physical frames and an
    /// empty page table.
    pub fn new(frames: usize) -> (s: AddressSpace)
        requires
            frames <= MAX_FRAMES,
        ensures
            s.wf(),
            s@.pages == Map::<nat, PageModel>::empty(),
            s@.next == 0,
            s@.cap == frames as nat,
            s@.mem.len() == frames as nat * (PAGE_SIZE as nat),
    {
        proof {
            assert(frames * PAGE_SIZE <= MAX_FRAMES * PAGE_SIZE) by (nonlinear_arith)
                requires frames <= MAX_FRAMES;
        }
        let total: usize = frames * PAGE_SIZE;
        let mut mem: Vec<u8> = Vec::new();
        let mut i: usize = 0;
        while i < total
            invariant
                i <= total,
                mem@.len() == i as nat,
                forall|pa: int| 0 <= pa < i ==> mem@[pa] == 0,
            decreases total - i,
        {
            mem.push(0u8);
            i = i + 1;
        }
        let s = AddressSpace { maps: Vec::new(), mem, next_ppn: 0, frame_count: frames };
        proof {
            assert(s@.pages =~= Map::<nat, PageModel>::empty());
        }
        s
    }

    /// Linear page-table walk: index of the entry mapping `vpn`, if any.
    fn find_idx(&self, vpn: usize) -> (r: Option<usize>)
        requires
            self.wf(),
        ensures
            match r {
                Some(i) => {
                    &&& i < self.maps@.len()
                    &&& self.maps@[i as int].vpn == vpn
                    &&& has_vpn(self.maps@, vpn as nat)
                    &&& entry_of(self.maps@, vpn as nat) == self.maps@[i as int]
                },
                None => !has_vpn(self.maps@, vpn as nat),
            },
    {
        let mut i: usize = 0;
        while i < self.maps.len()
            invariant
                i <= self.maps@.len(),
                forall|j: int| 0 <= j < i ==> (#[trigger] self.maps@[j]).vpn != vpn,
                self.wf(),
            decreases self.maps@.len() - i,
        {
            if self.maps[i].vpn == vpn {
                proof {
                    assert(has_vpn(self.maps@, vpn as nat));
                    lemma_entry_unique(self.maps@, vpn as nat);
                }
                return Some(i);
            }
            i = i + 1;
        }
        None
    }

    /// Resolve the physical address backing byte `va`, walking the page
    /// table for the page that contains it.
    pub fn translate_byte(&self, va: usize) -> (r: Option<usize>)
        requires
            self.wf(),
        ensures
            match r {
                Some(pa) => {
                    &&& byte_mapped(self@, va as nat)
                    &&& pa as nat == byte_pa(self@, va as nat)
                    &&& (pa as nat) < self@.mem.len()
                },
                None => !byte_mapped(self@, va as nat),
            },
    {
        let vpn: usize = va / PAGE_SIZE;
        match self.find_idx(vpn) {
            Some(i) => {
                let e = self.maps[i];
                proof {
                    assert(e.ppn * PAGE_SIZE + PAGE_SIZE <= self.frame_count * PAGE_SIZE)
                        by (nonlinear_arith)
                        requires e.ppn < self.frame_count, PAGE_SIZE == 4096;
                }
                Some(e.ppn * PAGE_SIZE + va % PAGE_SIZE)
            },
            None => None,
        }
    }

    /// Read the byte at user virtual address `va`, or `None` when the page
    /// is unmapped.
    pub fn read_byte(&self, va: usize) -> (r: Option<u8>)
        requires
            self.wf(),
        ensures
            match r {
                Some(b) => {
                    &&& byte_mapped(self@, va as nat)
                    &&& b == self@.mem[byte_pa(self@, va as nat) as int]
                },
                None => !byte_mapped(self@, va as nat),
            },
    {
        match self.translate_byte(va) {
            Some(pa) => Some(self.mem[pa]),
            None => None,
        }
    }
}

/// Whole pages covering a request of `len` bytes, rounded up.
pub open spec fn pages_needed(len: nat) -> nat {
    if len == 0 {
        0
    } else {
        ((len - 1) / (PAGE_SIZE as int) + 1) as nat
    }
}

/// What `mmap` returns and what it leaves behind: the request is rejected
/// with `-1` and the space untouched when the start is not page-aligned,
/// when `port` carries a bit outside the three permission bits, when the
/// byte range overflows the address width, when it overlaps a mapped page,
/// or when too few free frames remain; a zero-length request is a no-op
/// success; otherwise every page of the rounded-up range is mapped to a
/// fresh frame with permission `port` and `0` is returned.
pub open spec fn mmap_spec(m: SpaceModel, start: nat, len: nat, port: nat) -> (int, SpaceModel) {
    if start % (PAGE_SIZE as nat) != 0 {
        (-1, m)
    } else if port > 7 {
        (-1, m)
    } else if len == 0 {
        (0, m)
    } else if start + len > usize::MAX as nat {
        (-1, m)
    } else {
        let svpn = start / (PAGE_SIZE as nat);
        let n = pages_needed(len);
        if exists|v: nat| svpn <= v < svpn + n && #[trigger] m.pages.contains_key(v) {
            (-1, m)
        } else if n > m.cap - m.next {
            (-1, m)
        } else {
            (0, SpaceModel {
                pages: Map::new(
                    |v: nat| m.pages.contains_key(v) || (svpn <= v < svpn + n),
                    |v: nat| if svpn <= v < svpn + n {
                        PageModel { ppn: (m.next + v - svpn) as nat, perm: port }
                    } else {
                        m.pages[v]
                    },
                ),
                mem: m.mem,
                next: m.next + n,
                cap: m.cap,
            })
        }
    }
}

impl AddressSpace {
    /// Map the page-aligned range starting at `start` covering `len` bytes
    /// with permission bits `port`, allocating one fresh frame per page.
    /// Validation and effect are exactly `mmap_spec`; on any rejection the
    /// space is left untouched.
    pub fn mmap(&mut self, start: usize, len: usize, port: usize) -> (r: isize)
        requires
            old(self).wf(),
        ensures
            final(self).wf(),
            r as int == mmap_spec(old(self)@, start as nat, len as nat, port as nat).0,
            final(self)@ == mmap_spec(old(self)@, start as nat, len as nat, port as nat).1,
    {
        if start % PAGE_SIZE != 0 {
            return -1;
        }
        if port > 7 {
            return -1;
        }
        if len == 0 {
            return 0;
        }
        if start.checked_add(len).is_none() {
            return -1;
        }
        let svpn: usize = start / PAGE_SIZE;
        proof {
            let ps: int = PAGE_SIZE as int;
            let d: int = (len - 1) as int / ps;
            assert(d <= d * ps) by (nonlinear_arith)
                requires d >= 0, ps >= 1;
            let q: int = start as int / ps;
            assert(q <= q * ps) by (nonlinear_arith)
                requires q >= 0, ps >= 1;
            assert(q * ps + start as int % ps == start as int);
            assert(d * ps + (len - 1) as int % ps == (len - 1) as int);
        }
        let n: usize = (len - 1) / PAGE_SIZE + 1;
        // svpn + n <= start + len <= usize::MAX, so the sums below stay in range.
        assert(svpn + n <= start + len);
        let mut i: usize = 0;
        while i < n
            invariant
                self == old(self),
                self.wf(),
                i <= n,
                svpn == start / PAGE_SIZE,
                n as nat == pages_needed(len as nat),
                svpn + n <= usize::MAX,
                start % PAGE_SIZE == 0,
                port <= 7,
                0 < len,
                (start as nat) + (len as nat) <= usize::MAX as nat,
                forall|v: nat| svpn <= v < svpn + i ==> !(#[trigger] self@.pages.contains_key(v)),
            decreases n - i,
        {
            if self.find_idx(svpn + i).is_some() {
                proof {
                    assert(self@.pages.contains_key((svpn + i) as nat));
                    assert(old(self)@.pages.contains_key((svpn + i) as nat));
                    assert((svpn as nat) <= ((svpn + i) as nat));
                    assert(((svpn + i) as nat) < (svpn as nat) + pages_needed(len as nat));
                    assert(mmap_spec(old(self)@, start as nat, len as nat, port as nat).0 == -1);
                }
                return -1;
            }
            i = i + 1;
        }
        if n > self.frame_count - self.next_ppn {
            return -1;
        }
        let ghost m0 = self@;
        let ghost old_maps = self.maps@;
        let ghost next0 = self.next_ppn as nat;
        proof {
            assert forall|v: nat| svpn <= v < svpn as nat + n as nat
                implies !has_vpn(old_maps, v)
            by {
                assert(!self@.pages.contains_key(v));
            }
        }
        let mut i: usize = 0;
        while i < n
            invariant
                i <= n,
                svpn + n <= usize::MAX,
                self.next_ppn == old(self).next_ppn,
                self.frame_count == old(self).frame_count,
                self.mem == old(self).mem,
                self.next_ppn as nat == next0,
                next0 + n <= self.frame_count,
                old_maps == old(self).maps@,
                distinct_entries(old_maps),
                forall|k: int| 0 <= k < old_maps.len()
                    ==> (#[trigger] old_maps[k]).ppn < next0 && old_maps[k].perm <= 7,
                forall|v: nat| svpn <= v < svpn + n ==> !has_vpn(old_maps, v),
                port <= 7,
                self.maps@.len() == old_maps.len() + i,
                forall|k: int| 0 <= k < old_maps.len() ==> self.maps@[k] == old_maps[k],
                forall|k: int| old_maps.len() <= k < old_maps.len() + i
                    ==> (#[trigger] self.maps@[k])
                        == (PtEntry {
                            vpn: (svpn + (k - old_maps.len())) as usize,
                            ppn: (next0 + (k - old_maps.len())) as usize,
                            perm: port,
                        }),
            decreases n - i,
        {
            let e = PtEntry { vpn: svpn + i, ppn: self.next_ppn + i, perm: port };
            self.maps.push(e);
            i = i + 1;
        }
        let ghost final_maps = self.maps@;
        proof {
            // Distinctness of the extended table.
            assert forall|a: int, b: int| #![trigger final_maps[a], final_maps[b]]
                0 <= a < b < final_maps.len()
                implies final_maps[a].vpn != final_maps[b].vpn
                    && final_maps[a].ppn != final_maps[b].ppn
            by {
                let ol = old_maps.len() as int;
                if b < ol {
                    assert(final_maps[a] == old_maps[a]);
                    assert(final_maps[b] == old_maps[b]);
                    assert(old_maps[a].vpn != old_maps[b].vpn && old_maps[a].ppn != old_maps[b].ppn);
                } else if a < ol {
                    assert(final_maps[a] == old_maps[a]);
                    assert(final_maps[b].vpn as nat == svpn as nat + (b - ol));
                    assert((svpn as nat) <= (final_maps[b].vpn as nat));
                    assert((final_maps[b].vpn as nat) < (svpn as nat) + (n as nat));
                    assert(!has_vpn(old_maps, final_maps[b].vpn as nat));
                    assert(old_maps[a].vpn as nat != final_maps[b].vpn as nat);
                    assert(final_maps[a].ppn < next0);
                    assert(final_maps[b].ppn as nat == next0 + (b - ol));
                } else {
                    assert(final_maps[a].vpn as nat == svpn as nat + (a - ol));
                    assert(final_maps[b].vpn as nat == svpn as nat + (b - ol));
                    assert(final_maps[a].ppn as nat == next0 + (a - ol));
                    assert(final_maps[b].ppn as nat == next0 + (b - ol));
                }
            }
        }
        self.next_ppn = self.next_ppn + n;
        proof {
            assert forall|v: nat| svpn <= v < (svpn as nat) + (n as nat)
                implies !m0.pages.contains_key(v)
            by {
                assert(!has_vpn(old_maps, v));
            }
            assert(mmap_spec(m0, start as nat, len as nat, port as nat).0 == 0);
            // Well-formedness of the grown table.
            assert forall|k: int| 0 <= k < self.maps@.len()
                implies (#[trigger] self.maps@[k]).ppn < self.next_ppn
                    && self.maps@[k].perm <= 7
            by {
                let ol = old_maps.len() as int;
                if k < ol {
                    assert(self.maps@[k] == old_maps[k]);
                    assert(old_maps[k].ppn < next0);
                } else {
                    assert(self.maps@[k].ppn as nat == next0 + (k - ol));
                }
            }
            let mnew = mmap_spec(m0, start as nat, len as nat, port as nat).1;
            let nn = n as nat;
            let sv = svpn as nat;
            // Domains agree.
            assert forall|v: nat| has_vpn(final_maps, v)
                implies (has_vpn(old_maps, v) || (sv <= v < sv + nn))
            by {
                let k = choose|k: int| 0 <= k < final_maps.len() && (#[trigger] final_maps[k]).vpn as nat == v;
                if k < old_maps.len() {
                    assert(old_maps[k].vpn as nat == v);
                } else {
                    let j = k - old_maps.len();
                    assert(final_maps[k].vpn as nat == sv + j);
                }
            }
            assert forall|v: nat| sv <= v < sv + nn implies has_vpn(final_maps, v)
            by {
                let j = (v - sv) as int;
                assert(final_maps[old_maps.len() + j].vpn as nat == v);
            }
            assert forall|v: nat| has_vpn(old_maps, v) implies has_vpn(final_maps, v)
            by {
                let k = choose|k: int| 0 <= k < old_maps.len() && (#[trigger] old_maps[k]).vpn as nat == v;
                assert(final_maps[k].vpn as nat == v);
            }
            // Values agree.
            assert forall|v: nat| has_vpn(final_maps, v)
                implies self@.pages[v] == mnew.pages[v]
            by {
                lemma_entry_unique(final_maps, v);
                if sv <= v < sv + nn {
                    let j = (v - sv) as int;
                    assert(final_maps[old_maps.len() + j].vpn as nat == v);
                    assert(entry_of(final_maps, v) == final_maps[old_maps.len() + j]);
                } else {
                    lemma_entry_unique(old_maps, v);
                    let k = idx_of(old_maps, v);
                    assert(final_maps[k].vpn as nat == v);
                    assert(entry_of(final_maps, v) == final_maps[k]);
                    assert(entry_of(old_maps, v) == old_maps[k]);
                }
            }
            assert(self@.pages =~= mnew.pages);
            assert(self@ =~= mnew);
        }
        0
    }
}

/// Virtual page `v` lies in the window of `nn` pages starting at `sv`.
pub open spec fn vpn_in(v: nat, sv: nat, nn: nat) -> bool {
    sv <= v && v < sv + nn
}

/// What `munmap` returns and what it leaves behind: the request is
/// rejected with `-1` and the space untouched when the start is not
/// page-aligned, when the byte range overflows the address width, or when
/// any page of the rounded-up range is unmapped (no partial unmap); a
/// zero-length request is a no-op success; otherwise exactly the pages of
/// the range are removed and `0` is returned.
pub open spec fn munmap_spec(m: SpaceModel, start: nat, len: nat) -> (int, SpaceModel) {
    if start % (PAGE_SIZE as nat) != 0 {
        (-1, m)
    } else if len == 0 {
        (0, m)
    } else if start + len > usize::MAX as nat {
        (-1, m)
    } else {
        let svpn = start / (PAGE_SIZE as nat);
        let n = pages_needed(len);
        if exists|v: nat| svpn <= v < svpn + n && !(#[trigger] m.pages.contains_key(v)) {
            (-1, m)
        } else {
            (0, SpaceModel {
                pages: Map::new(
                    |v: nat| m.pages.contains_key(v) && !(svpn <= v < svpn + n),
                    |v: nat| m.pages[v],
                ),
                mem: m.mem,
                next: m.next,
                cap: m.cap,
            })
        }
    }
}

impl AddressSpace {
    /// Remove the mappings of the page-aligned range starting at `start`
    /// covering `len` bytes.  If any page of the range is unmapped the
    /// whole request is rejected and nothing is removed; validation and
    /// effect are exactly `munmap_spec`.
    #[verifier::rlimit(100)]
    pub fn munmap(&mut self, start: usize, len: usize) -> (r: isize)
        requires
            old(self).wf(),
        ensures
            final(self).wf(),
            r as int == munmap_spec(old(self)@, start as nat, len as nat).0,
            final(self)@ == munmap_spec(old(self)@, start as nat, len as nat).1,
    {
        if start % PAGE_SIZE != 0 {
            return -1;
        }
        if len == 0 {
            return 0;
        }
        if start.checked_add(len).is_none() {
            return -1;
        }
        let svpn: usize = start / PAGE_SIZE;
        proof {
            let ps: int = PAGE_SIZE as int;
            let d: int = (len - 1) as int / ps;
            assert(d <= d * ps) by (nonlinear_arith)
                requires d >= 0, ps >= 1;
            let q: int = start as int / ps;
            assert(q <= q * ps) by (nonlinear_arith)
                requires q >= 0, ps >= 1;
            assert(q * ps + start as int % ps == start as int);
            assert(d * ps + (len - 1) as int % ps == (len - 1) as int);
        }
        let n: usize = (len - 1) / PAGE_SIZE + 1;
        assert(svpn + n <= start + len);
        let mut i: usize = 0;
        while i < n
            invariant
                self == old(self),
                self.wf(),
                i <= n,
                svpn == start / PAGE_SIZE,
                n as nat == pages_needed(len as nat),
                svpn + n <= usize::MAX,
                start % PAGE_SIZE == 0,
                0 < len,
                (start as nat) + (len as nat) <= usize::MAX as nat,
                forall|v: nat| svpn <= v < svpn + i ==> #[trigger] self@.pages.contains_key(v),
            decreases n - i,
        {
            if self.find_idx(svpn + i).is_none() {
                proof {
                    assert(!self@.pages.contains_key((svpn + i) as nat));
                    assert(!old(self)@.pages.contains_key((svpn + i) as nat));
                    assert((svpn as nat) <= ((svpn + i) as nat));
                    assert(((svpn + i) as nat) < (svpn as nat) + pages_needed(len as nat));
                    assert(munmap_spec(old(self)@, start as nat, len as nat).0 == -1);
                }
                return -1;
            }
            i = i + 1;
        }
        let ghost m0 = self@;
        let ghost old_maps = self.maps@;
        let mut kept: Vec<PtEntry> = Vec::new();
        let mut i: usize = 0;
        while i < self.maps.len()
            invariant
                self == old(self),
                self.wf(),
                i <= self.maps@.len(),
                old_maps == self.maps@,
                svpn + n <= usize::MAX,
                forall|a: int| 0 <= a < kept@.len()
                    ==> exists|k: int| 0 <= k < i && #[trigger] kept@[a] == old_maps[k],
                forall|a: int| 0 <= a < kept@.len()
                    ==> !vpn_in((#[trigger] kept@[a]).vpn as nat, svpn as nat, n as nat),
                forall|k: int| 0 <= k < i
                    && !vpn_in((#[trigger] old_maps[k]).vpn as nat, svpn as nat, n as nat)
                    ==> exists|a: int| 0 <= a < kept@.len() && kept@[a] == old_maps[k],
                distinct_entries(kept@),
            decreases self.maps@.len() - i,
        {
            let e = self.maps[i];
            let ghost kept0 = kept@;
            let in_range = svpn <= e.vpn && e.vpn < svpn + n;
            if !in_range {
                proof {
                    assert forall|a: int| 0 <= a < kept@.len()
                        implies (#[trigger] kept@[a]).vpn != e.vpn && kept@[a].ppn != e.ppn
                    by {
                        let k = choose|k: int| 0 <= k < i && kept@[a] == old_maps[k];
                        assert(old_maps[k].vpn != old_maps[i as int].vpn
                            && old_maps[k].ppn != old_maps[i as int].ppn);
                    }
                }
                kept.push(e);
                proof {
                    assert forall|k: int| 0 <= k < i + 1
                        && !vpn_in((#[trigger] old_maps[k]).vpn as nat, svpn as nat, n as nat)
                        implies exists|a: int| 0 <= a < kept@.len() && kept@[a] == old_maps[k]
                    by {
                        if k == i {
                            assert(kept@[kept@.len() - 1] == old_maps[k]);
                        } else {
                            let a = choose|a: int| 0 <= a < kept0.len() && kept0[a] == old_maps[k];
                            assert(kept@[a] == old_maps[k]);
                        }
                    }
                }
            } else {
                proof {
                    assert(vpn_in(e.vpn as nat, svpn as nat, n as nat));
                    assert forall|k: int| 0 <= k < i + 1
                        && !vpn_in((#[trigger] old_maps[k]).vpn as nat, svpn as nat, n as nat)
                        implies exists|a: int| 0 <= a < kept@.len() && kept@[a] == old_maps[k]
                    by {
                        if k < i {
                            let a = choose|a: int| 0 <= a < kept0.len() && kept0[a] == old_maps[k];
                            assert(kept@[a] == old_maps[k]);
                        }
                    }
                }
            }
            i = i + 1;
        }
        let ghost kept_view = kept@;
        self.maps = kept;
        proof {
            let mnew = munmap_spec(m0, start as nat, len as nat).1;
            let sv = svpn as nat;
            let nn = n as nat;
            assert forall|v: nat| has_vpn(kept_view, v)
                implies has_vpn(old_maps, v) && !(sv <= v < sv + nn)
                    && self@.pages[v] == mnew.pages[v]
            by {
                let a = choose|a: int| 0 <= a < kept_view.len()
                    && (#[trigger] kept_view[a]).vpn as nat == v;
                let k = choose|k: int| 0 <= k < old_maps.len() && kept_view[a] == old_maps[k];
                assert(old_maps[k].vpn as nat == v);
                lemma_entry_unique(kept_view, v);
                assert(entry_of(kept_view, v) == kept_view[a]);
                lemma_entry_unique(old_maps, v);
                assert(entry_of(old_maps, v) == old_maps[k]);
            }
            assert forall|v: nat| has_vpn(old_maps, v) && !(sv <= v < sv + nn)
                implies has_vpn(kept_view, v)
            by {
                let k = choose|k: int| 0 <= k < old_maps.len()
                    && (#[trigger] old_maps[k]).vpn as nat == v;
                let a = choose|a: int| 0 <= a < kept_view.len() && kept_view[a] == old_maps[k];
                assert(kept_view[a].vpn as nat == v);
            }
            assert(self@.pages =~= mnew.pages);
            assert(self@ =~= mnew);
            assert(munmap_spec(m0, start as nat, len as nat).0 == 0);
        }
        0
    }
}

/// `m1` differs from `m0` exactly by the bytes of `data` placed at the
/// physical addresses backing `[va, va + data.len())`; the page table and
/// the allocator are untouched.
pub open spec fn wrote_bytes(m0: SpaceModel, m1: SpaceModel, va: nat, data: Seq<u8>) -> bool {
    &&& m1.pages == m0.pages
    &&& m1.next == m0.next
    &&& m1.cap == m0.cap
    &&& m1.mem.len() == m0.mem.len()
    &&& forall|a: nat| va <= a < va + data.len()
            ==> m1.mem[(#[trigger] byte_pa(m0, a)) as int] == data[(a - va) as int]
    &&& forall|pa: int| 0 <= pa < m0.mem.len()
            && !(exists|a: nat| va <= a < va + data.len() && pa == (#[trigger] byte_pa(m0, a)) as int)
            ==> (#[trigger] m1.mem[pa]) == m0.mem[pa]
}

/// Distinct virtual addresses resolve to distinct physical addresses:
/// inside one page the offsets differ, across pages the frames differ.
pub proof fn lemma_byte_pa_injective(m: SpaceModel, a1: nat, a2: nat)
    requires
        model_wf(m),
        byte_mapped(m, a1),
        byte_mapped(m, a2),
        a1 != a2,
    ensures
        byte_pa(m, a1) != byte_pa(m, a2),
{
    let ps = PAGE_SIZE as nat;
    let v1 = a1 / ps;
    let v2 = a2 / ps;
    if v1 == v2 {
        assert(a1 == ps * (a1 / ps) + a1 % ps);
        assert(a2 == ps * (a2 / ps) + a2 % ps);
        assert(a1 % ps != a2 % ps);
    } else {
        let p1 = m.pages[v1].ppn;
        let p2 = m.pages[v2].ppn;
        assert(p1 != p2);
        assert(p1 * ps + a1 % ps != p2 * ps + a2 % ps) by (nonlinear_arith)
            requires p1 != p2, a1 % ps < ps, a2 % ps < ps, ps == 4096;
    }
}

/// A mapped byte's physical address lies inside the allocated frames.
pub proof fn lemma_byte_pa_bound(m: SpaceModel, a: nat)
    requires
        model_wf(m),
        byte_mapped(m, a),
    ensures
        byte_pa(m, a) < m.next * (PAGE_SIZE as nat),
        byte_pa(m, a) < m.mem.len(),
{
    let ps = PAGE_SIZE as nat;
    let p = m.pages[a / ps].ppn;
    assert(p * ps + a % ps < m.next * ps) by (nonlinear_arith)
        requires p < m.next, a % ps < ps, ps == 4096;
    assert(m.next * ps <= m.cap * ps) by (nonlinear_arith)
        requires m.next <= m.cap, ps == 4096;
}

impl AddressSpace {
    /// Copy `data` to user virtual address `va`, translating every byte's
    /// page separately, so a value straddling a page boundary lands on the
    /// right frames.  The copy is all-or-nothing: if any page of the range
    /// is unmapped, `false` comes back and memory is untouched.
    pub fn write_bytes(&mut self, va: usize, data: &Vec<u8>) -> (r: bool)
        requires
            old(self).wf(),
            va as nat + data@.len() <= usize::MAX as nat,
        ensures
            final(self).wf(),
            final(self)@.pages == old(self)@.pages,
            r == range_mapped(old(self)@, va as nat, data@.len()),
            r ==> wrote_bytes(old(self)@, final(self)@, va as nat, data@),
            !r ==> final(self)@ == old(self)@,
    {
        let len = data.len();
        let mut i: usize = 0;
        while i < len
            invariant
                self == old(self),
                self.wf(),
                i <= len,
                len == data@.len(),
                va as nat + len as nat <= usize::MAX as nat,
                forall|a: nat| va <= a < va as nat + i as nat ==> #[trigger] byte_mapped(self@, a),
            decreases len - i,
        {
            if self.translate_byte(va + i).is_none() {
                proof {
                    assert(!byte_mapped(old(self)@, (va + i) as nat));
                }
                return false;
            }
            i = i + 1;
        }
        let ghost m0 = self@;
        proof {
            self.lemma_wf_model();
            assert(range_mapped(m0, va as nat, len as nat));
        }
        let mut i: usize = 0;
        while i < len
            invariant
                i <= len,
                len == data@.len(),
                va as nat + len as nat <= usize::MAX as nat,
                self.wf(),
                self.maps@ == old(self).maps@,
                self.next_ppn == old(self).next_ppn,
                self.frame_count == old(self).frame_count,
                m0 == old(self)@,
                model_wf(m0),
                range_mapped(m0, va as nat, len as nat),
                self@.pages == m0.pages,
                self@.mem.len() == m0.mem.len(),
                forall|a: nat| va <= a < va as nat + i as nat
                    ==> self@.mem[(#[trigger] byte_pa(m0, a)) as int] == data@[(a - va) as int],
                forall|pa: int| 0 <= pa < m0.mem.len()
                    && !(exists|a: nat| va <= a < va as nat + i as nat
                        && pa == (#[trigger] byte_pa(m0, a)) as int)
                    ==> (#[trigger] self@.mem[pa]) == m0.mem[pa],
            decreases len - i,
        {
            proof {
                assert(byte_mapped(m0, (va + i) as nat));
                assert(byte_mapped(self@, (va + i) as nat));
                assert(byte_pa(self@, (va + i) as nat) == byte_pa(m0, (va + i) as nat));
                lemma_byte_pa_bound(m0, (va + i) as nat);
            }
            let pa = self.translate_byte(va + i).unwrap();
            let ghost mem_before = self.mem@;
            self.mem.set(pa, data[i]);
            proof {
                // The page table is untouched, so the view's pages are too.
                assert forall|v: nat|
                    #[trigger] self@.pages.contains_key(v) == m0.pages.contains_key(v)
                    && (self@.pages.contains_key(v) ==> self@.pages[v] == m0.pages[v])
                by {
                }
                assert(self@.pages =~= m0.pages);
                // Earlier bytes keep their values: their physical addresses differ.
                assert forall|a: nat| va <= a < va as nat + (i + 1) as nat
                    implies self@.mem[(#[trigger] byte_pa(m0, a)) as int] == data@[(a - va) as int]
                by {
                    if a < va as nat + i as nat {
                        lemma_byte_pa_injective(m0, a, (va + i) as nat);
                        lemma_byte_pa_bound(m0, a);
                        assert(mem_before[byte_pa(m0, a) as int] == data@[(a - va) as int]);
                    } else {
                        assert(a == (va + i) as nat);
                        assert(byte_pa(m0, a) == pa as nat);
                        assert(self.mem@ == mem_before.update(pa as int, data@[i as int]));
                        assert(self.mem@[pa as int] == data@[i as int]);
                    }
                }
            }
            i = i + 1;
        }
        true
    }
}

/// Each byte of `[start, start + len)` lies on a page of the window of
/// `pages_needed(len)` pages starting at `start`'s page.
pub proof fn lemma_vpn_window(start: nat, len: nat, a: nat)
    requires
        start % (PAGE_SIZE as nat) == 0,
        start <= a,
        a < start + len,
        0 < len,
    ensures
        vpn_in(a / (PAGE_SIZE as nat), start / (PAGE_SIZE as nat), pages_needed(len)),
{
    let ps = PAGE_SIZE as nat;
    let sv = start / ps;
    let n = pages_needed(len);
    let q = a / ps;
    let r = a % ps;
    assert(a == ps * q + r);
    assert(start == ps * sv);
    if q < sv {
        assert(ps * q + ps <= ps * sv) by (nonlinear_arith)
            requires q + 1 <= sv, ps == 4096;
        assert(false);
    }
    let d = (len - 1) as nat / ps;
    let lm: int = (len - 1) as int;
    let rr: int = lm % (ps as int);
    assert(lm == (ps as int) * (d as int) + rr);
    assert(len <= n * ps) by (nonlinear_arith)
        requires
            n == d + 1,
            lm == (ps as int) * (d as int) + rr,
            0 <= rr,
            rr < ps,
            lm == len - 1,
            1 <= len,
            ps == 4096;
    if q >= sv + n {
        assert(ps * (sv + n) <= ps * q) by (nonlinear_arith)
            requires sv + n <= q, ps == 4096;
        assert(ps * (sv + n) == ps * sv + ps * n) by (nonlinear_arith);
        assert(ps * n == n * ps) by (nonlinear_arith);
        assert(false);
    }
}

/// The round trip the mapping syscalls owe a caller: a page-aligned
/// request with only permission bits set, no overlap with a mapped page
/// and enough free frames succeeds; every byte of the range is then
/// translatable (a write inside it cannot fault); unmapping the identical
/// range succeeds, leaves every byte of the range untranslatable, and
/// restores the page table to exactly what it was.
pub proof fn lemma_mmap_write_munmap_round_trip(m: SpaceModel, start: nat, len: nat, port: nat)
    requires
        start % (PAGE_SIZE as nat) == 0,
        port <= 7,
        0 < len,
        start + len <= usize::MAX as nat,
        forall|v: nat|
            vpn_in(v, start / (PAGE_SIZE as nat), pages_needed(len))
                ==> !(#[trigger] m.pages.contains_key(v)),
        pages_needed(len) <= m.cap - m.next,
    ensures
        mmap_spec(m, start, len, port).0 == 0,
        range_mapped(mmap_spec(m, start, len, port).1, start, len),
        munmap_spec(mmap_spec(m, start, len, port).1, start, len).0 == 0,
        forall|a: nat| start <= a < start + len
            ==> !(#[trigger] byte_mapped(munmap_spec(mmap_spec(m, start, len, port).1, start, len).1, a)),
        munmap_spec(mmap_spec(m, start, len, port).1, start, len).1.pages == m.pages,
{
    let ps = PAGE_SIZE as nat;
    let sv = start / ps;
    let n = pages_needed(len);
    assert(!(exists|v: nat| sv <= v < sv + n && #[trigger] m.pages.contains_key(v))) by {
        assert forall|v: nat| sv <= v < sv + n
            implies !(#[trigger] m.pages.contains_key(v))
        by {
            assert(vpn_in(v, sv, n));
        }
    }
    let m1 = mmap_spec(m, start, len, port).1;
    assert(mmap_spec(m, start, len, port).0 == 0);
    assert forall|a: nat| start <= a < start + len
        implies #[trigger] byte_mapped(m1, a)
    by {
        lemma_vpn_window(start, len, a);
    }
    assert(!(exists|v: nat| sv <= v < sv + n && !(#[trigger] m1.pages.contains_key(v))));
    let m2 = munmap_spec(m1, start, len).1;
    assert(munmap_spec(m1, start, len).0 == 0);
    assert forall|a: nat| start <= a < start + len
        implies !(#[trigger] byte_mapped(m2, a))
    by {
        lemma_vpn_window(start, len, a);
    }
    assert forall|v: nat| #[trigger] m2.pages.contains_key(v) == m.pages.contains_key(v)
        && (m2.pages.contains_key(v) ==> m2.pages[v] == m.pages[v])
    by {
        if vpn_in(v, sv, n) {
            assert(!m.pages.contains_key(v));
        }
    }
    assert(m2.pages =~= m.pages);
}

/// A mapping request carrying any bit outside the three permission bits is
/// rejected and the address space is left exactly as it was, so repeating
/// the identical call rejects it identically.
pub proof fn lemma_mmap_invalid_port_rejected(m: SpaceModel, start: nat, len: nat, port: nat)
    requires
        port > 7,
    ensures
        mmap_spec(m, start, len, port).0 == -1,
        mmap_spec(m, start, len, port).1 == m,
        mmap_spec(mmap_spec(m, start, len, port).1, start, len, port)
            == mmap_spec(m, start, len, port),
{
}

/// A mapping request whose page window touches an already mapped page is
/// rejected and every existing mapping is left intact.
pub proof fn lemma_mmap_overlap_rejected(m: SpaceModel, start: nat, len: nat, port: nat)
    requires
        start % (PAGE_SIZE as nat) == 0,
        port <= 7,
        0 < len,
        start + len <= usize::MAX as nat,
        exists|v: nat|
            vpn_in(v, start / (PAGE_SIZE as nat), pages_needed(len))
                && #[trigger] m.pages.contains_key(v),
    ensures
        mmap_spec(m, start, len, port).0 == -1,
        mmap_spec(m, start, len, port).1 == m,
{
    let sv = start / (PAGE_SIZE as nat);
    let n = pages_needed(len);
    let v = choose|v: nat| vpn_in(v, sv, n) && #[trigger] m.pages.contains_key(v);
    assert(sv <= v < sv + n && m.pages.contains_key(v));
}

/// An unmap request with any unmapped page in its window is rejected whole:
/// no partial unmap, every existing mapping stays.
pub proof fn lemma_munmap_unmapped_page_rejected(m: SpaceModel, start: nat, len: nat)
    requires
        start % (PAGE_SIZE as nat) == 0,
        0 < len,
        start + len <= usize::MAX as nat,
        exists|v: nat|
            vpn_in(v, start / (PAGE_SIZE as nat), pages_needed(len))
                && !(#[trigger] m.pages.contains_key(v)),
    ensures
        munmap_spec(m, start, len).0 == -1,
        munmap_spec(m, start, len).1 == m,
{
    let sv = start / (PAGE_SIZE as nat);
    let n = pages_needed(len);
    let v = choose|v: nat| vpn_in(v, sv, n) && !(#[trigger] m.pages.contains_key(v));
    assert(sv <= v < sv + n && !m.pages.contains_key(v));
}

/// With distinct entries the index found for `v` is the only one, so
/// `entry_of` is pinned down.
pub proof fn lemma_entry_unique(s: Seq<PtEntry>, v: nat)
    requires
        distinct_entries(s),
        has_vpn(s, v),
    ensures
        0 <= idx_of(s, v) < s.len(),
        entry_of(s, v).vpn as nat == v,
        forall|i: int| 0 <= i < s.len() && (#[trigger] s[i]).vpn as nat == v ==> i == idx_of(s, v),
{
    let i0 = choose|i: int| 0 <= i < s.len() && (#[trigger] s[i]).vpn as nat == v;
    assert(0 <= idx_of(s, v) < s.len() && entry_of(s, v).vpn as nat == v);
    assert forall|i: int| 0 <= i < s.len() && (#[trigger] s[i]).vpn as nat == v
        implies i == idx_of(s, v)
    by {
        let j = idx_of(s, v);
        if i != j {
            assert(s[i].vpn != s[j].vpn);
        }
    }
}

} // verus!
