//! Segments built from program headers.

use vstd::prelude::*;
use crate::elf::{ElfPhdr, PF_R, PF_W, PF_X, PT_LOAD};
use crate::layout::{
    lemma_page_size_pow2, rounddown, roundup, spec_rounddown, spec_roundup, PAGE_SIZE,
};
use crate::mmap::{MapFlags, ProtFlags, MAP_FIXED, MAP_PRIVATE};
use super::{Address, ElfSegment, FileMapInfo};

verus! {

/// Protection bits for segment permissions `p_flag`: execute, write and read
/// map to `PROT_EXEC`, `PROT_WRITE` and `PROT_READ`.
pub open spec fn spec_segment_prot(p_flag: u32) -> int {
    (if p_flag & PF_X != 0 { 4int } else { 0int }) + (if p_flag & PF_W != 0 { 2int } else { 0int })
        + (if p_flag & PF_R != 0 { 1int } else { 0int })
}

/// Convert program header flags to memory protection flags.
pub fn segment_prot(p_flag: u32) -> (r: ProtFlags)
    ensures
        r.bits == spec_segment_prot(p_flag),
{
    let v = (p_flag & PF_X) << 2 | p_flag & PF_W | (p_flag & PF_R) >> 2;
    assert(v == (if p_flag & 1 != 0 { 4u32 } else { 0u32 }) + (if p_flag & 2 != 0 { 2u32 } else { 0u32 })
        + (if p_flag & 4 != 0 { 1u32 } else { 0u32 })) by (bit_vector)
        requires
            v == (p_flag & 1) << 2 | p_flag & 2 | (p_flag & 4) >> 2,
    ;
    ProtFlags::from_bits_retain(v as i32)
}

/// A loadable segment whose address arithmetic stays within `usize`.
pub open spec fn load_ok(p: ElfPhdr) -> bool {
    &&& p.p_filesz <= p.p_memsz
    &&& p.p_vaddr + p.p_memsz + PAGE_SIZE <= usize::MAX
    &&& p.p_filesz + PAGE_SIZE <= usize::MAX
}

/// The pages a loadable segment spans stay within `usize`.
pub open spec fn load_fits(p: ElfPhdr) -> bool {
    p.p_vaddr + p.p_memsz + PAGE_SIZE <= usize::MAX
}

/// Every `PT_LOAD` header of `phdrs` spans pages within `usize`.
pub open spec fn loads_fit(phdrs: Seq<ElfPhdr>) -> bool {
    forall|i: int| 0 <= i < phdrs.len() && #[trigger] phdrs[i].p_type == PT_LOAD ==> load_fits(phdrs[i])
}

/// Every `PT_LOAD` header of `phdrs` is well formed.
pub open spec fn loads_ok(phdrs: Seq<ElfPhdr>) -> bool {
    forall|i: int| 0 <= i < phdrs.len() && #[trigger] phdrs[i].p_type == PT_LOAD ==> load_ok(phdrs[i])
}

/// `phdrs` has at least one `PT_LOAD` header.
pub open spec fn has_load(phdrs: Seq<ElfPhdr>) -> bool {
    exists|i: int| 0 <= i < phdrs.len() && #[trigger] phdrs[i].p_type == PT_LOAD
}

/// The lowest start address among the `PT_LOAD` headers of the first `k`
/// headers (`usize::MAX` if there is none).
pub open spec fn min_load_vaddr(phdrs: Seq<ElfPhdr>, k: int) -> int
    decreases k,
{
    if k <= 0 {
        usize::MAX as int
    } else {
        let m = min_load_vaddr(phdrs, k - 1);
        let p = phdrs[k - 1];
        if p.p_type == PT_LOAD && p.p_vaddr < m { p.p_vaddr as int } else { m }
    }
}

/// The highest end address among the `PT_LOAD` headers of the first `k`
/// headers (zero if there is none).
pub open spec fn max_load_end(phdrs: Seq<ElfPhdr>, k: int) -> int
    decreases k,
{
    if k <= 0 {
        0
    } else {
        let m = max_load_end(phdrs, k - 1);
        let p = phdrs[k - 1];
        if p.p_type == PT_LOAD && p.p_vaddr + p.p_memsz > m { p.p_vaddr + p.p_memsz } else { m }
    }
}

proof fn lemma_min_max_bounds(phdrs: Seq<ElfPhdr>, k: int)
    requires
        0 <= k <= phdrs.len(),
        loads_fit(phdrs),
    ensures
        forall|i: int| 0 <= i < k && #[trigger] phdrs[i].p_type == PT_LOAD ==>
            min_load_vaddr(phdrs, k) <= phdrs[i].p_vaddr
            && phdrs[i].p_vaddr + phdrs[i].p_memsz <= max_load_end(phdrs, k),
        min_load_vaddr(phdrs, k) <= usize::MAX,
        max_load_end(phdrs, k) + PAGE_SIZE <= usize::MAX,
        (exists|i: int| 0 <= i < k && #[trigger] phdrs[i].p_type == PT_LOAD) ==>
            min_load_vaddr(phdrs, k) <= max_load_end(phdrs, k),
    decreases k,
{
    if k > 0 {
        lemma_min_max_bounds(phdrs, k - 1);
        if exists|i: int| 0 <= i < k && #[trigger] phdrs[i].p_type == PT_LOAD {
            if phdrs[k - 1].p_type != PT_LOAD {
                let i = choose|i: int| 0 <= i < k && #[trigger] phdrs[i].p_type == PT_LOAD;
                assert(0 <= i < k - 1);
            }
        }
    }
}

/// The address-space reservation needed by the `PT_LOAD` headers of
/// `phdrs`: the preferred address (`None` for a shared library, which may be
/// placed anywhere), the length, and the lowest page-aligned virtual address.
pub fn parse_segments(phdrs: &[ElfPhdr], is_dylib: bool) -> (r: (Option<usize>, usize, usize))
    requires
        has_load(phdrs@),
        loads_fit(phdrs@),
    ensures
        r.2 == spec_rounddown(min_load_vaddr(phdrs@, phdrs@.len() as int), PAGE_SIZE as int),
        r.2 + r.1 == spec_roundup(max_load_end(phdrs@, phdrs@.len() as int), PAGE_SIZE as int),
        r.0 == (if is_dylib { None } else { Some(r.2) }),
        r.1 % PAGE_SIZE == 0,
        r.2 % PAGE_SIZE == 0,
        forall|i: int| 0 <= i < phdrs@.len() && #[trigger] phdrs@[i].p_type == PT_LOAD ==>
            r.2 <= phdrs@[i].p_vaddr && phdrs@[i].p_vaddr + phdrs@[i].p_memsz <= r.2 + r.1,
{
    proof {
        lemma_page_size_pow2();
        lemma_min_max_bounds(phdrs@, phdrs@.len() as int);
    }
    let mut min_vaddr = usize::MAX;
    let mut max_vaddr: usize = 0;
    let n = phdrs.len();
    let mut i: usize = 0;
    while i < n
        invariant
            n == phdrs@.len(),
            i <= n,
            loads_fit(phdrs@),
            min_vaddr == min_load_vaddr(phdrs@, i as int),
            max_vaddr == max_load_end(phdrs@, i as int),
        decreases n - i,
    {
        let phdr = &phdrs[i];
        if phdr.p_type == PT_LOAD {
            let vaddr_start = phdr.p_vaddr;
            let vaddr_end = phdr.p_vaddr + phdr.p_memsz;
            if vaddr_start < min_vaddr {
                min_vaddr = vaddr_start;
            }
            if vaddr_end > max_vaddr {
                max_vaddr = vaddr_end;
            }
        }
        i = i + 1;
    }
    let max_vaddr = roundup(max_vaddr, PAGE_SIZE);
    let min_vaddr = rounddown(min_vaddr, PAGE_SIZE);
    let total_size = max_vaddr - min_vaddr;
    proof {
        vstd::arithmetic::div_mod::lemma_sub_mod_noop(max_vaddr as int, min_vaddr as int, PAGE_SIZE as int);
    }
    (if is_dylib { None } else { Some(min_vaddr) }, total_size, min_vaddr)
}

/// The segment a `PT_LOAD` header describes, before it is placed.
pub open spec fn spec_phdr_segment_fields(p: ElfPhdr) -> (int, int, int, int, int, int)
{
    let min_vaddr = spec_rounddown(p.p_vaddr as int, PAGE_SIZE as int);
    let max_vaddr = spec_roundup(p.p_vaddr + p.p_memsz, PAGE_SIZE as int);
    let offset = spec_rounddown(p.p_offset as int, PAGE_SIZE as int);
    let filesz = p.p_filesz + (p.p_offset - offset);
    // (relative address, length, content size, zero size, file offset, file size)
    (min_vaddr, max_vaddr - min_vaddr, filesz, p.p_memsz - p.p_filesz, offset, filesz)
}

/// The unplaced segment for `p` agrees with `spec_phdr_segment_fields`.
pub open spec fn phdr_segment_matches(p: ElfPhdr, s: &ElfSegment) -> bool {
    let f = spec_phdr_segment_fields(p);
    &&& s.addr == Address::Relative(f.0 as usize)
    &&& s.len == f.1
    &&& s.content_size == f.2
    &&& s.zero_size == f.3
    &&& s.map_info@ == seq![FileMapInfo { start: 0, filesz: f.5 as usize, offset: f.4 as usize }]
    &&& s.prot.bits == spec_segment_prot(p.p_flags)
    &&& s.flags.bits == MAP_PRIVATE | MAP_FIXED
    &&& !s.need_copy
    &&& !s.from_relocatable
}

/// The segment for `p`, placed for the load base `base`.
pub open spec fn phdr_segment_placed(p: ElfPhdr, s: ElfSegment, base: int) -> bool {
    let f = spec_phdr_segment_fields(p);
    &&& s.addr == Address::Absolute((base + f.0) as usize)
    &&& s.len == f.1
    &&& s.content_size == f.2
    &&& s.zero_size == f.3
    &&& s.map_info@ == seq![FileMapInfo { start: 0, filesz: f.5 as usize, offset: f.4 as usize }]
    &&& s.prot.bits == spec_segment_prot(p.p_flags)
    &&& s.flags.bits == MAP_PRIVATE | MAP_FIXED
    &&& !s.need_copy
    &&& !s.from_relocatable
}

impl ElfPhdr {
    /// Create the (unplaced) segment described by this `PT_LOAD` header.
    pub fn create_segment(&self) -> (r: ElfSegment)
        requires
            load_ok(*self),
        ensures
            phdr_segment_matches(*self, &r),
            r.len % PAGE_SIZE == 0,
    {
        proof { lemma_page_size_pow2(); }
        let min_vaddr = rounddown(self.p_vaddr, PAGE_SIZE);
        let max_vaddr = roundup(self.p_vaddr + self.p_memsz, PAGE_SIZE);
        let memsz = max_vaddr - min_vaddr;
        let prot = segment_prot(self.p_flags);
        let offset = rounddown(self.p_offset, PAGE_SIZE);
        let align_len = self.p_offset - offset;
        let filesz = self.p_filesz + align_len;
        proof {
            vstd::arithmetic::div_mod::lemma_sub_mod_noop(max_vaddr as int, min_vaddr as int, PAGE_SIZE as int);
        }
        let mut map_info = Vec::new();
        map_info.push(FileMapInfo { start: 0, filesz, offset });
        ElfSegment {
            addr: Address::Relative(min_vaddr),
            prot,
            flags: MapFlags::from_bits_retain(MAP_PRIVATE | MAP_FIXED),
            len: memsz,
            content_size: filesz,
            zero_size: self.p_memsz - self.p_filesz,
            map_info,
            need_copy: false,
            from_relocatable: false,
        }
    }
}

/// Segments built from the program headers of an executable or shared library.
pub struct ProgramSegments {
    pub phdrs: Vec<ElfPhdr>,
    pub segments: Vec<ElfSegment>,
    pub is_dylib: bool,
    pub use_file: bool,
}

impl ProgramSegments {
    /// Prepare to build the segments of `phdrs`.
    pub fn new(phdrs: Vec<ElfPhdr>, is_dylib: bool, use_file: bool) -> (r: ProgramSegments)
        ensures
            r.phdrs@ == phdrs@,
            r.segments@.len() == 0,
            r.is_dylib == is_dylib,
            r.use_file == use_file,
    {
        ProgramSegments { phdrs, segments: Vec::new(), is_dylib, use_file }
    }

    /// The reservation the segments need: preferred address, length and
    /// lowest virtual address.
    pub fn create_space(&self) -> (r: (Option<usize>, usize, usize))
        requires
            has_load(self.phdrs@),
            loads_fit(self.phdrs@),
        ensures
            r.2 == spec_rounddown(min_load_vaddr(self.phdrs@, self.phdrs@.len() as int), PAGE_SIZE as int),
            r.2 + r.1 == spec_roundup(max_load_end(self.phdrs@, self.phdrs@.len() as int), PAGE_SIZE as int),
            r.0 == (if self.is_dylib { None } else { Some(r.2) }),
    {
        parse_segments(self.phdrs.as_slice(), self.is_dylib)
    }

    /// Create one segment for each `PT_LOAD` header, in order.
    pub fn create_segments(&mut self)
        requires
            loads_ok(old(self).phdrs@),
            old(self).segments@.len() == 0,
        ensures
            final(self).phdrs@ == old(self).phdrs@,
            final(self).is_dylib == old(self).is_dylib,
            final(self).use_file == old(self).use_file,
            final(self).segments@.len() == load_count(old(self).phdrs@, old(self).phdrs@.len() as int),
            forall|i: int| 0 <= i < old(self).phdrs@.len() && #[trigger] old(self).phdrs@[i].p_type == PT_LOAD
                ==> phdr_segment_matches(
                    old(self).phdrs@[i],
                    &final(self).segments@[load_count(old(self).phdrs@, i)],
                ),
            forall|j: int| 0 <= j < final(self).segments@.len() ==> (#[trigger] final(self).segments@[j]).len % PAGE_SIZE == 0,
    {
        let n = self.phdrs.len();
        let mut i: usize = 0;
        while i < n
            invariant
                n == self.phdrs@.len(),
                i <= n,
                self.phdrs@ == old(self).phdrs@,
                self.is_dylib == old(self).is_dylib,
                self.use_file == old(self).use_file,
                loads_ok(self.phdrs@),
                self.segments@.len() == load_count(self.phdrs@, i as int),
                forall|j: int| 0 <= j < i && #[trigger] self.phdrs@[j].p_type == PT_LOAD
                    ==> phdr_segment_matches(self.phdrs@[j], &self.segments@[load_count(self.phdrs@, j)]),
                forall|j: int| 0 <= j < self.segments@.len() ==> (#[trigger] self.segments@[j]).len % PAGE_SIZE == 0,
            decreases n - i,
        {
            proof { lemma_load_count_mono(self.phdrs@, i as int); }
            let ghost prev = self.segments@;
            if self.phdrs[i].p_type == PT_LOAD {
                let seg = self.phdrs[i].create_segment();
                self.segments.push(seg);
            }
            proof {
                assert forall|j: int| 0 <= j < i + 1 && #[trigger] self.phdrs@[j].p_type == PT_LOAD
                    implies phdr_segment_matches(self.phdrs@[j], &self.segments@[load_count(self.phdrs@, j)]) by {
                    if j < i {
                        lemma_load_count_mono(self.phdrs@, j);
                        assert(load_count(self.phdrs@, j) < load_count(self.phdrs@, i as int));
                        assert(self.segments@[load_count(self.phdrs@, j)] == prev[load_count(self.phdrs@, j)]);
                    }
                }
            }
            i = i + 1;
        }
    }
}

/// The number of `PT_LOAD` headers among the first `k` headers.
pub open spec fn load_count(phdrs: Seq<ElfPhdr>, k: int) -> int
    decreases k,
{
    if k <= 0 {
        0
    } else {
        load_count(phdrs, k - 1) + if phdrs[k - 1].p_type == PT_LOAD { 1int } else { 0int }
    }
}

pub(crate) proof fn lemma_load_count_mono(phdrs: Seq<ElfPhdr>, k: int)
    requires
        0 <= k,
    ensures
        forall|j: int| 0 <= j < k ==> #[trigger] load_count(phdrs, j) < load_count(phdrs, k)
            || phdrs[j].p_type != PT_LOAD,
        load_count(phdrs, k) >= 0,
    decreases k,
{
    if k > 0 {
        lemma_load_count_mono(phdrs, k - 1);
    }
}

} // verus!
