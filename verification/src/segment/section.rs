//! Segments built from the sections of a relocatable object.
//!
//! Sections with the same protection are grouped in a [`SectionUnit`]; each
//! unit becomes one segment in which its sections are placed one after
//! another, each at its own alignment.

use vstd::prelude::*;
use crate::elf::{ElfShdr, SHF_EXECINSTR, SHF_WRITE, SHT_INIT_ARRAY, SHT_NOBITS};
use crate::layout::{
    is_pow2, lemma_page_size_pow2, rounddown, roundup, spec_rounddown, spec_roundup, PAGE_SIZE,
};
use crate::mmap::{MapFlags, ProtFlags, MAP_FIXED, MAP_PRIVATE, PROT_EXEC, PROT_READ, PROT_WRITE};
use super::{Address, ElfSegment, FileMapInfo};
use crate::error::Error;

verus! {

/// Protection bits for section flags: always readable, writable for
/// `SHF_WRITE`, executable for `SHF_EXECINSTR`.
pub open spec fn spec_section_prot(sh_flags: usize) -> int {
    1 + (if sh_flags & (SHF_WRITE as usize) != 0 { 2int } else { 0int })
        + (if sh_flags & (SHF_EXECINSTR as usize) != 0 { 4int } else { 0int })
}

/// Convert section flags to memory protection flags.
pub fn section_prot(sh_flags: usize) -> (r: ProtFlags)
    ensures
        r.bits == spec_section_prot(sh_flags),
{
    let mut prot = ProtFlags::from_bits_retain(PROT_READ);
    if sh_flags & (SHF_WRITE as usize) != 0 {
        prot = prot.union(ProtFlags::from_bits_retain(PROT_WRITE));
        assert(1i32 | 2i32 == 3i32) by (bit_vector);
    }
    if sh_flags & (SHF_EXECINSTR as usize) != 0 {
        let ghost b = prot.bits;
        prot = prot.union(ProtFlags::from_bits_retain(PROT_EXEC));
        assert(1i32 | 4i32 == 5i32 && 3i32 | 4i32 == 7i32) by (bit_vector);
    }
    prot
}

/// The unit a protection belongs to: bit 0 for writable, bit 1 for executable.
pub open spec fn spec_prot_idx(bits: i32) -> int {
    (if bits & PROT_WRITE == PROT_WRITE { 1int } else { 0int })
        + (if bits & PROT_EXEC == PROT_EXEC { 2int } else { 0int })
}

/// Convert protection flags to the index of their section unit.
pub fn prot_to_idx(prot: ProtFlags) -> (r: usize)
    ensures
        r == spec_prot_idx(prot.bits),
        r < 4,
{
    let mut idx: usize = 0;
    if prot.contains(ProtFlags::from_bits_retain(PROT_WRITE)) {
        idx = idx | 1;
        assert(0usize | 1usize == 1usize) by (bit_vector);
    }
    if prot.contains(ProtFlags::from_bits_retain(PROT_EXEC)) {
        let ghost before = idx;
        idx = idx | 2;
        assert(0usize | 2usize == 2usize && 1usize | 2usize == 3usize) by (bit_vector);
    }
    idx
}

/// The index of the section unit for sections with flags `sh_flags`.
pub open spec fn spec_flags_idx(sh_flags: usize) -> int {
    (if sh_flags & (SHF_WRITE as usize) != 0 { 1int } else { 0int })
        + (if sh_flags & (SHF_EXECINSTR as usize) != 0 { 2int } else { 0int })
}

/// Convert section flags to the index of their section unit.
pub fn flags_to_idx(flags: usize) -> (r: usize)
    ensures
        r == spec_flags_idx(flags),
        r < 4,
{
    let prot = section_prot(flags);
    assert(1i32 & 2i32 != 2i32 && 3i32 & 2i32 == 2i32 && 5i32 & 2i32 != 2i32 && 7i32 & 2i32 == 2i32
        && 1i32 & 4i32 != 4i32 && 3i32 & 4i32 != 4i32 && 5i32 & 4i32 == 4i32 && 7i32 & 4i32 == 4i32)
        by (bit_vector);
    prot_to_idx(prot)
}

} // verus!

verus! {

/// Sections laid out with no file content: `.bss`-like and `.init_array`.
pub open spec fn is_zero_kind(sh: ElfShdr) -> bool {
    sh.sh_type == SHT_NOBITS || sh.sh_type == SHT_INIT_ARRAY
}

/// The cursor after placing the first `k` sections of `idxs` from `start`;
/// with `skip_empty`, sections of size zero are not placed.
pub open spec fn place_cursor(s: Seq<ElfShdr>, idxs: Seq<usize>, k: int, start: int, skip_empty: bool) -> int
    decreases k,
{
    if k <= 0 {
        start
    } else {
        let c = place_cursor(s, idxs, k - 1, start, skip_empty);
        let sh = s[idxs[k - 1] as int];
        if skip_empty && sh.sh_size == 0 {
            c
        } else {
            spec_roundup(c, sh.sh_addralign as int) + sh.sh_size
        }
    }
}

/// The address given to section `idxs[k]`: the cursor after the sections
/// before it, aligned up to the section's alignment.
pub open spec fn place_addr(s: Seq<ElfShdr>, idxs: Seq<usize>, k: int, start: int, skip_empty: bool) -> int {
    spec_roundup(place_cursor(s, idxs, k, start, skip_empty), s[idxs[k] as int].sh_addralign as int)
}

/// The file ranges of the first `k` non-empty content sections of `idxs`.
pub open spec fn content_infos(s: Seq<ElfShdr>, idxs: Seq<usize>, k: int, start: int) -> Seq<FileMapInfo>
    decreases k,
{
    if k <= 0 {
        Seq::empty()
    } else {
        let prev = content_infos(s, idxs, k - 1, start);
        let sh = s[idxs[k - 1] as int];
        if sh.sh_size == 0 {
            prev
        } else {
            prev.push(FileMapInfo {
                filesz: sh.sh_size,
                offset: sh.sh_offset,
                start: (place_addr(s, idxs, k - 1, start, true) - start) as usize,
            })
        }
    }
}

/// The padding set aside for a section with alignment `a`: a page, or the
/// alignment when that is larger.
pub open spec fn align_pad(a: usize) -> int {
    if a <= PAGE_SIZE { PAGE_SIZE as int } else { a as int }
}

/// The padding set aside for a section with alignment `a`.
pub fn pad_of(a: usize) -> (r: usize)
    ensures
        r == align_pad(a),
{
    if a <= PAGE_SIZE { PAGE_SIZE } else { a }
}

/// Space the sections of `idxs` need at most: their sizes plus their
/// alignment padding.
pub open spec fn size_budget(s: Seq<ElfShdr>, idxs: Seq<usize>, k: int) -> int
    decreases k,
{
    if k <= 0 {
        0
    } else {
        size_budget(s, idxs, k - 1) + s[idxs[k - 1] as int].sh_size + align_pad(s[idxs[k - 1] as int].sh_addralign)
    }
}

/// The alignment of every section of `idxs` is zero or a power of two.
pub open spec fn aligns_ok(s: Seq<ElfShdr>, idxs: Seq<usize>) -> bool {
    forall|k: int| 0 <= k < idxs.len() ==> {
        let a = #[trigger] s[idxs[k] as int].sh_addralign;
        a == 0 || is_pow2(a)
    }
}

/// Every index of `idxs` names a section of `s`.
pub open spec fn idxs_in(s: Seq<ElfShdr>, idxs: Seq<usize>) -> bool {
    forall|k: int| 0 <= k < idxs.len() ==> #[trigger] idxs[k] < s.len()
}

/// No index occurs twice among `a` and `b` together.
pub open spec fn disjoint_idxs(a: Seq<usize>, b: Seq<usize>) -> bool {
    &&& forall|i: int, j: int| 0 <= i < j < a.len() ==> a[i] != a[j]
    &&& forall|i: int, j: int| 0 <= i < j < b.len() ==> b[i] != b[j]
    &&& forall|i: int, j: int| 0 <= i < a.len() && 0 <= j < b.len() ==> a[i] != b[j]
}

/// `s2` differs from `s1` at most in the addresses of the sections.
pub open spec fn same_but_addrs(s1: Seq<ElfShdr>, s2: Seq<ElfShdr>) -> bool {
    &&& s1.len() == s2.len()
    &&& forall|i: int| 0 <= i < s1.len() ==> #[trigger] s2[i] == (ElfShdr { sh_addr: s2[i].sh_addr, ..s1[i] })
}

proof fn lemma_place_cursor_bounds(s: Seq<ElfShdr>, idxs: Seq<usize>, k: int, start: int, skip: bool)
    requires
        0 <= k <= idxs.len(),
        idxs_in(s, idxs),
        aligns_ok(s, idxs),
        start >= 0,
    ensures
        start <= place_cursor(s, idxs, k, start, skip) <= start + size_budget(s, idxs, k),
        k < idxs.len() ==> place_cursor(s, idxs, k, start, skip) <= place_addr(s, idxs, k, start, skip)
            < place_cursor(s, idxs, k, start, skip) + align_pad(s[idxs[k] as int].sh_addralign),
    decreases k,
{
    if k > 0 {
        lemma_place_cursor_bounds(s, idxs, k - 1, start, skip);
        lemma_roundup_facts(place_cursor(s, idxs, k - 1, start, skip), s[idxs[k - 1] as int].sh_addralign);
    }
    if k < idxs.len() {
        lemma_roundup_facts(place_cursor(s, idxs, k, start, skip), s[idxs[k] as int].sh_addralign);
    }
}

/// Rounding up to a power-of-two alignment moves a value by less than its
/// padding.
pub proof fn lemma_roundup_facts(c: int, a: usize)
    requires
        c >= 0,
        a == 0 || is_pow2(a),
    ensures
        c <= spec_roundup(c, a as int) < c + align_pad(a),
        a > 0 ==> spec_roundup(c, a as int) % (a as int) == 0,
        a > 0 ==> spec_roundup(c, a as int) < c + a,
{
    if a > 0 {
        vstd::arithmetic::div_mod::lemma_fundamental_div_mod(c + a - 1, a as int);
        vstd::arithmetic::div_mod::lemma_mod_bound(c + a - 1, a as int);
        vstd::arithmetic::div_mod::lemma_mod_multiples_basic((c + a - 1) / (a as int), a as int);
        vstd::arithmetic::mul::lemma_mul_is_commutative((c + a - 1) / (a as int), a as int);
    }
}

/// Sections grouped for one segment: those with file content and those
/// that are zero-filled.
pub struct SectionUnit {
    pub content_sections: Vec<usize>,
    pub zero_sections: Vec<usize>,
}

/// The largest alignment among the sections `idxs[..k]`.
pub open spec fn max_align(s: Seq<ElfShdr>, idxs: Seq<usize>, k: int) -> int
    decreases k,
{
    if k <= 0 {
        0
    } else {
        let m = max_align(s, idxs, k - 1);
        let a = s[idxs[k - 1] as int].sh_addralign as int;
        if a > m { a } else { m }
    }
}

impl SectionUnit {
    /// An empty unit.
    pub fn new() -> (r: SectionUnit)
        ensures
            r.content_sections@.len() == 0,
            r.zero_sections@.len() == 0,
    {
        SectionUnit { content_sections: Vec::new(), zero_sections: Vec::new() }
    }

    /// Add section `idx` of `shdrs`: zero-filled kinds go to the zero list,
    /// the others to the content list.
    pub fn add_section(&mut self, shdrs: &[ElfShdr], idx: usize)
        requires
            idx < shdrs@.len(),
        ensures
            is_zero_kind(shdrs@[idx as int]) ==> final(self).zero_sections@ == old(self).zero_sections@.push(idx)
                && final(self).content_sections@ == old(self).content_sections@,
            !is_zero_kind(shdrs@[idx as int]) ==> final(self).content_sections@ == old(self).content_sections@.push(idx)
                && final(self).zero_sections@ == old(self).zero_sections@,
    {
        let sh_type = shdrs[idx].sh_type;
        if sh_type == SHT_NOBITS || sh_type == SHT_INIT_ARRAY {
            self.zero_sections.push(idx);
        } else {
            self.content_sections.push(idx);
        }
    }

    /// The largest alignment required by the sections of this unit.
    pub fn align(&self, shdrs: &[ElfShdr]) -> (r: usize)
        requires
            idxs_in(shdrs@, self.content_sections@ + self.zero_sections@),
        ensures
            r == max_align(shdrs@, self.content_sections@ + self.zero_sections@,
                (self.content_sections@ + self.zero_sections@).len() as int),
    {
        let ghost all = self.content_sections@ + self.zero_sections@;
        let mut res: usize = 0;
        let n = self.content_sections.len();
        let mut i: usize = 0;
        while i < n
            invariant
                n == self.content_sections@.len(),
                all == self.content_sections@ + self.zero_sections@,
                idxs_in(shdrs@, all),
                i <= n,
                res == max_align(shdrs@, all, i as int),
            decreases n - i,
        {
            assert(all[i as int] == self.content_sections@[i as int]);
            assert(all[i as int] < shdrs@.len());
            let a = shdrs[self.content_sections[i]].sh_addralign;
            if a > res {
                res = a;
            }
            i = i + 1;
        }
        let m = self.zero_sections.len();
        let mut j: usize = 0;
        while j < m
            invariant
                n == self.content_sections@.len(),
                m == self.zero_sections@.len(),
                all == self.content_sections@ + self.zero_sections@,
                idxs_in(shdrs@, all),
                j <= m,
                res == max_align(shdrs@, all, n + j),
            decreases m - j,
        {
            assert(all[n + j] == self.zero_sections@[j as int]);
            assert(all[n + j] < shdrs@.len());
            let a = shdrs[self.zero_sections[j]].sh_addralign;
            if a > res {
                res = a;
            }
            j = j + 1;
        }
        res
    }
}

} // verus!

verus! {

/// Section `i` is given an address when the sections `idxs` are placed.
pub open spec fn placed_in(s: Seq<ElfShdr>, idxs: Seq<usize>, i: int, skip_empty: bool) -> bool {
    exists|k: int| 0 <= k < idxs.len() && idxs[k] == i && !(skip_empty && s[i].sh_size == 0)
}

/// The sections of `idxs` are distinct.
pub open spec fn distinct(idxs: Seq<usize>) -> bool {
    forall|i: int, j: int| 0 <= i < j < idxs.len() ==> idxs[i] != idxs[j]
}

/// Place the sections `idxs` one after another from `start`, each at its
/// alignment, writing their addresses into `shdrs`.  For content sections
/// (`content`), empty sections are skipped and the file range of each placed
/// section is appended to `map_info`.  Returns the cursor after the last one.
fn place_sections(
    shdrs: &mut Vec<ElfShdr>,
    idxs: &Vec<usize>,
    start: usize,
    content: bool,
    map_info: &mut Vec<FileMapInfo>,
) -> (cur: usize)
    requires
        idxs_in(old(shdrs)@, idxs@),
        aligns_ok(old(shdrs)@, idxs@),
        distinct(idxs@),
        start + size_budget(old(shdrs)@, idxs@, idxs@.len() as int) <= usize::MAX,
        old(map_info)@.len() == 0,
    ensures
        same_but_addrs(old(shdrs)@, final(shdrs)@),
        forall|k: int| 0 <= k < idxs@.len() && !(content && old(shdrs)@[idxs@[k] as int].sh_size == 0)
            ==> #[trigger] final(shdrs)@[idxs@[k] as int].sh_addr == place_addr(old(shdrs)@, idxs@, k, start as int, content),
        forall|i: int| 0 <= i < old(shdrs)@.len() && !placed_in(old(shdrs)@, idxs@, i, content)
            ==> #[trigger] final(shdrs)@[i].sh_addr == old(shdrs)@[i].sh_addr,
        cur == place_cursor(old(shdrs)@, idxs@, idxs@.len() as int, start as int, content),
        content ==> final(map_info)@ == content_infos(old(shdrs)@, idxs@, idxs@.len() as int, start as int),
        !content ==> final(map_info)@.len() == 0,
{
    let ghost s0 = shdrs@;
    let n = idxs.len();
    let mut cur = start;
    let mut k: usize = 0;
    proof { lemma_place_cursor_bounds(s0, idxs@, n as int, start as int, content); }
    while k < n
        invariant
            n == idxs@.len(),
            k <= n,
            idxs_in(s0, idxs@),
            aligns_ok(s0, idxs@),
            distinct(idxs@),
            start + size_budget(s0, idxs@, n as int) <= usize::MAX,
            same_but_addrs(s0, shdrs@),
            cur == place_cursor(s0, idxs@, k as int, start as int, content),
            forall|j: int| 0 <= j < k && !(content && s0[idxs@[j] as int].sh_size == 0)
                ==> #[trigger] shdrs@[idxs@[j] as int].sh_addr == place_addr(s0, idxs@, j, start as int, content),
            forall|i: int| 0 <= i < s0.len() && !(exists|j: int| 0 <= j < k && idxs@[j] == i && !(content && s0[i].sh_size == 0))
                ==> #[trigger] shdrs@[i].sh_addr == s0[i].sh_addr,
            content ==> map_info@ == content_infos(s0, idxs@, k as int, start as int),
            !content ==> map_info@.len() == 0,
        decreases n - k,
    {
        proof {
            lemma_place_cursor_bounds(s0, idxs@, k as int, start as int, content);
            lemma_budget_mono(s0, idxs@, (k + 1) as int, n as int);
            assert(idxs@[k as int] < s0.len());
        }
        let idx = idxs[k];
        let sh = shdrs[idx];
        assert(sh == (ElfShdr { sh_addr: sh.sh_addr, ..s0[idx as int] }));
        if content && sh.sh_size == 0 {
            k = k + 1;
            proof {
                assert forall|i: int| 0 <= i < s0.len() && !(exists|j: int| 0 <= j < k && idxs@[j] == i && !(content && s0[i].sh_size == 0))
                    implies #[trigger] shdrs@[i].sh_addr == s0[i].sh_addr by {
                    assert(!(exists|j: int| 0 <= j < k - 1 && idxs@[j] == i && !(content && s0[i].sh_size == 0)));
                }
            }
            continue;
        }
        proof {
            lemma_roundup_facts(cur as int, sh.sh_addralign);
        }
        cur = roundup(cur, sh.sh_addralign);
        let mut updated = sh;
        updated.sh_addr = cur;
        shdrs.set(idx, updated);
        if content {
            map_info.push(FileMapInfo { filesz: sh.sh_size, offset: sh.sh_offset, start: cur - start });
        }
        cur = cur + sh.sh_size;
        k = k + 1;
        proof {
            assert forall|j: int| 0 <= j < k && !(content && s0[idxs@[j] as int].sh_size == 0)
                implies #[trigger] shdrs@[idxs@[j] as int].sh_addr == place_addr(s0, idxs@, j, start as int, content) by {
                if j < k - 1 {
                    assert(idxs@[j] != idxs@[k - 1]);
                }
            }
            assert forall|i: int| 0 <= i < s0.len() && !(exists|j: int| 0 <= j < k && idxs@[j] == i && !(content && s0[i].sh_size == 0))
                implies #[trigger] shdrs@[i].sh_addr == s0[i].sh_addr by {
                assert(!(exists|j: int| 0 <= j < k - 1 && idxs@[j] == i && !(content && s0[i].sh_size == 0)));
                if i == idx {
                    assert(idxs@[k - 1] == i);
                }
            }
        }
    }
    proof {
        assert forall|i: int| 0 <= i < s0.len() && !placed_in(s0, idxs@, i, content)
            implies #[trigger] shdrs@[i].sh_addr == s0[i].sh_addr by {
            assert(!(exists|j: int| 0 <= j < n && idxs@[j] == i && !(content && s0[i].sh_size == 0)));
        }
    }
    cur
}

proof fn lemma_budget_mono(s: Seq<ElfShdr>, idxs: Seq<usize>, j: int, k: int)
    requires
        0 <= j <= k <= idxs.len(),
    ensures
        size_budget(s, idxs, j) <= size_budget(s, idxs, k),
    decreases k - j,
{
    if j < k {
        lemma_budget_mono(s, idxs, j, k - 1);
    }
}

} // verus!

verus! {

/// The first position from `k` on whose section has file offset `off`
/// (`idxs.len()` when there is none).
pub open spec fn first_offset_idx(s: Seq<ElfShdr>, idxs: Seq<usize>, off: usize, k: int) -> int
    decreases idxs.len() - k,
{
    if k >= idxs.len() || k < 0 {
        idxs.len() as int
    } else if s[idxs[k] as int].sh_offset == off {
        k
    } else {
        first_offset_idx(s, idxs, off, k + 1)
    }
}

/// The address of content section `idxs[k]` after placement: its placed
/// address, or its old address when it is empty and was skipped.
pub open spec fn content_addr(s: Seq<ElfShdr>, idxs: Seq<usize>, k: int, start: int) -> int {
    if s[idxs[k] as int].sh_size == 0 {
        s[idxs[k] as int].sh_addr as int
    } else {
        place_addr(s, idxs, k, start, true)
    }
}

/// The result of laying out the content sections `c` from `start`:
/// file ranges, cursor after them, and the alignment padding added in front
/// when exactly one section has content (zero otherwise).  A single content
/// section is mapped from the page-aligned file offset below it, so the
/// padding is the distance to that offset.
pub open spec fn content_layout(s: Seq<ElfShdr>, c: Seq<usize>, start: int) -> (Seq<FileMapInfo>, int, int) {
    let infos = content_infos(s, c, c.len() as int, start);
    let cur = place_cursor(s, c, c.len() as int, start, true);
    if infos.len() == 1 {
        let off = infos[0].offset;
        let fo = spec_rounddown(off as int, PAGE_SIZE as int);
        let al = off - fo;
        (
            seq![FileMapInfo { start: infos[0].start, filesz: (infos[0].filesz + al) as usize, offset: fo as usize }],
            cur + al,
            al,
        )
    } else {
        (infos, cur, 0)
    }
}

/// The contents of a unit fit in the address space from `start`, with room
/// for alignment padding.
pub open spec fn unit_fits(s: Seq<ElfShdr>, c: Seq<usize>, z: Seq<usize>, start: int) -> bool {
    start + size_budget(s, c, c.len() as int) + size_budget(s, z, z.len() as int) + 2 * PAGE_SIZE <= usize::MAX
}

proof fn lemma_infos_offsets(s: Seq<ElfShdr>, idxs: Seq<usize>, k: int, start: int)
    requires
        0 <= k <= idxs.len(),
    ensures
        forall|m: int| 0 <= m < content_infos(s, idxs, k, start).len() ==>
            exists|j: int| 0 <= j < k && s[idxs[j] as int].sh_offset == #[trigger] content_infos(s, idxs, k, start)[m].offset,
        content_infos(s, idxs, k, start).len() <= k,
    decreases k,
{
    if k > 0 {
        lemma_infos_offsets(s, idxs, k - 1, start);
        let prev = content_infos(s, idxs, k - 1, start);
        let cur = content_infos(s, idxs, k, start);
        assert forall|m: int| 0 <= m < cur.len() implies
            exists|j: int| 0 <= j < k && s[idxs[j] as int].sh_offset == #[trigger] cur[m].offset by {
            if m < prev.len() {
                assert(cur[m] == prev[m]);
                let j = choose|j: int| 0 <= j < k - 1 && s[idxs[j] as int].sh_offset == prev[m].offset;
                assert(s[idxs[j] as int].sh_offset == cur[m].offset);
            } else {
                assert(s[idxs[k - 1] as int].sh_offset == cur[m].offset);
            }
        }
    }
}

proof fn lemma_first_offset_idx(s: Seq<ElfShdr>, idxs: Seq<usize>, off: usize, k: int, j: int)
    requires
        0 <= k <= j < idxs.len(),
        s[idxs[j] as int].sh_offset == off,
    ensures
        k <= first_offset_idx(s, idxs, off, k) <= j,
        s[idxs[first_offset_idx(s, idxs, off, k)] as int].sh_offset == off,
        forall|m: int| k <= m < first_offset_idx(s, idxs, off, k) ==> s[idxs[m] as int].sh_offset != off,
    decreases j - k,
{
    if s[idxs[k] as int].sh_offset != off {
        lemma_first_offset_idx(s, idxs, off, k + 1, j);
    }
}

/// The position in `c` of the section whose address is moved when exactly one
/// content section is non-empty: the first with that section's file offset.
pub open spec fn lone_pos(s: Seq<ElfShdr>, c: Seq<usize>, start: int) -> int {
    first_offset_idx(s, c, content_infos(s, c, c.len() as int, start)[0].offset, 0)
}

/// The number of bytes a unit segment occupies, before page rounding.
pub open spec fn unit_extent(s: Seq<ElfShdr>, c: Seq<usize>, z: Seq<usize>, start: int) -> int {
    let cl = content_layout(s, c, start);
    place_cursor(s, z, z.len() as int, cl.1, false) - start
}


proof fn lemma_cursor_mono(s: Seq<ElfShdr>, idxs: Seq<usize>, j: int, k: int, start: int, skip: bool)
    requires
        0 <= j <= k <= idxs.len(),
        idxs_in(s, idxs),
        aligns_ok(s, idxs),
        start >= 0,
    ensures
        place_cursor(s, idxs, j, start, skip) <= place_cursor(s, idxs, k, start, skip),
    decreases k - j,
{
    if j < k {
        lemma_cursor_mono(s, idxs, j, k - 1, start, skip);
        lemma_place_cursor_bounds(s, idxs, k - 1, start, skip);
    }
}

/// Every section the unit gives an address lies between `start` and `end`.
#[verifier::opaque]
pub open spec fn unit_contains_post(s: Seq<ElfShdr>, s2: Seq<ElfShdr>, c: Seq<usize>, z: Seq<usize>, start: int, end: int) -> bool {
    &&& forall|k: int| 0 <= k < z.len() ==>
        start <= #[trigger] s2[z[k] as int].sh_addr && s2[z[k] as int].sh_addr + s[z[k] as int].sh_size <= end
    &&& forall|k: int| 0 <= k < c.len() && s[c[k] as int].sh_size != 0 ==>
        start <= #[trigger] s2[c[k] as int].sh_addr && s2[c[k] as int].sh_addr + s[c[k] as int].sh_size <= end
}

/// The layout `create_segment` produces for the unit with content sections
/// `c` and zero-filled sections `z` placed from `start`, turning the
/// sections `s` into `s2`, returning `r` and moving the offset to `end`:
/// content sections come first, each at its alignment (empty ones are
/// skipped), then the zero-filled ones; a lone content section is mapped
/// from the page boundary below its file offset and its address moves up by
/// the same amount; the segment covers the sections rounded up to a page.
#[verifier::opaque]
pub open spec fn unit_layout_post(
    s: Seq<ElfShdr>,
    s2: Seq<ElfShdr>,
    c: Seq<usize>,
    z: Seq<usize>,
    start: int,
    r: Option<ElfSegment>,
    end: int,
) -> bool {
    let cl = content_layout(s, c, start);
    let ext = unit_extent(s, c, z, start);
    let len = spec_roundup(ext, PAGE_SIZE as int);
    !(c.len() == 0 && z.len() == 0) ==> {
        &&& forall|k: int| 0 <= k < c.len() && s[c[k] as int].sh_size != 0
            && !(cl.0.len() == 1 && k == lone_pos(s, c, start))
            ==> #[trigger] s2[c[k] as int].sh_addr == place_addr(s, c, k, start, true)
        &&& cl.0.len() == 1 ==> {
            let j = lone_pos(s, c, start);
            &&& 0 <= j < c.len()
            &&& s2[c[j] as int].sh_addr == vstd::wrapping::usize_specs::wrapping_add(
                content_addr(s, c, j, start) as usize, cl.2 as usize)
        }
        &&& forall|k: int| 0 <= k < z.len()
            ==> #[trigger] s2[z[k] as int].sh_addr == place_addr(s, z, k, cl.1, false)
        &&& forall|i: int| 0 <= i < s.len() && !placed_in(s, c, i, true) && !placed_in(s, z, i, false)
            && !(cl.0.len() == 1 && i == c[lone_pos(s, c, start)] as int)
            ==> #[trigger] s2[i].sh_addr == s[i].sh_addr
        &&& (r is None <==> len == 0)
        &&& r matches Some(seg) ==> {
            &&& seg.prot.bits == spec_section_prot(if c.len() > 0 { s[c[0] as int].sh_flags } else { s[z[0] as int].sh_flags })
            &&& seg.flags.bits == MAP_PRIVATE | MAP_FIXED
            &&& seg.len == len
            &&& seg.content_size == cl.1 - start
            &&& seg.zero_size == ext - (cl.1 - start)
            &&& seg.map_info@ == cl.0
            &&& !seg.need_copy
            &&& end == start + len
        }
    }
}

impl SectionUnit {
    /// The unit has no sections.
    pub open spec fn is_empty(&self) -> bool {
        self.content_sections@.len() == 0 && self.zero_sections@.len() == 0
    }

    /// The sections of the unit can be laid out from `start`.
    pub open spec fn layout_ok(&self, s: Seq<ElfShdr>, start: int) -> bool {
        &&& idxs_in(s, self.content_sections@)
        &&& idxs_in(s, self.zero_sections@)
        &&& aligns_ok(s, self.content_sections@)
        &&& aligns_ok(s, self.zero_sections@)
        &&& disjoint_idxs(self.content_sections@, self.zero_sections@)
        &&& unit_fits(s, self.content_sections@, self.zero_sections@, start)
    }

    /// Lay out the unit's sections in one segment starting at `*offset`,
    /// write their addresses (relative to the image) into `shdrs`, and
    /// advance `*offset` past the segment.  Content sections come first,
    /// each at its alignment (empty ones are skipped), then the zero-filled
    /// sections.  A lone content section is mapped from the page boundary
    /// below its file offset, and its address is moved up by the same
    /// amount.  Returns `None` for an empty unit or a segment of length zero.
    #[verifier::spinoff_prover]
    #[verifier::rlimit(40)]
    pub fn create_segment(&mut self, shdrs: &mut Vec<ElfShdr>, offset: &mut usize) -> (r: Option<ElfSegment>)
        requires
            old(self).layout_ok(old(shdrs)@, *old(offset) as int),
        ensures
            final(self).content_sections@ == old(self).content_sections@,
            final(self).zero_sections@ == old(self).zero_sections@,
            old(self).is_empty() ==> r is None && *final(offset) == *old(offset) && final(shdrs)@ == old(shdrs)@,
            same_but_addrs(old(shdrs)@, final(shdrs)@),
            *final(offset) <= *old(offset) + size_budget(old(shdrs)@, old(self).content_sections@, old(self).content_sections@.len() as int)
                + size_budget(old(shdrs)@, old(self).zero_sections@, old(self).zero_sections@.len() as int) + 2 * PAGE_SIZE,
            *old(offset) % PAGE_SIZE == 0 ==> *final(offset) % PAGE_SIZE == 0,
            r is None ==> *final(offset) == *old(offset),
            r matches Some(seg) ==> {
                &&& seg.len % PAGE_SIZE == 0
                &&& seg.len > 0
                &&& seg.addr == Address::Relative(*old(offset))
                &&& seg.from_relocatable
                &&& *final(offset) == *old(offset) + seg.len
            },
            unit_layout_post(old(shdrs)@, final(shdrs)@, old(self).content_sections@, old(self).zero_sections@,
                *old(offset) as int, r, *final(offset) as int),
            unit_contains_post(old(shdrs)@, final(shdrs)@, old(self).content_sections@, old(self).zero_sections@,
                *old(offset) as int, *final(offset) as int),
    {
        let ghost s0 = shdrs@;
        let ghost start0 = *offset as int;
        let sh_flags = if self.content_sections.len() > 0 {
            assert(self.content_sections@[0] < s0.len());
            shdrs[self.content_sections[0]].sh_flags
        } else if self.zero_sections.len() > 0 {
            assert(self.zero_sections@[0] < s0.len());
            shdrs[self.zero_sections[0]].sh_flags
        } else {
            proof { reveal(unit_layout_post); reveal(unit_contains_post); }
            return None;
        };
        proof {
            lemma_page_size_pow2();
            let c = self.content_sections@;
            let z = self.zero_sections@;
            lemma_place_cursor_bounds(s0, c, c.len() as int, start0, true);
            lemma_infos_offsets(s0, c, c.len() as int, start0);
            lemma_budget_mono(s0, c, 0, c.len() as int);
            lemma_budget_mono(s0, z, 0, z.len() as int);
            lemma_infos_within(s0, c, c.len() as int, start0);
        }
        let prot = section_prot(sh_flags);
        let addr = Address::Relative(*offset);
        let start = *offset;
        let mut map_info: Vec<FileMapInfo> = Vec::new();
        let mut cur = place_sections(shdrs, &self.content_sections, start, true, &mut map_info);
        let ghost s1 = shdrs@;

        // A lone content section is mapped from the page boundary below its
        // file offset.
        if map_info.len() == 1 {
            let target = map_info[0].offset;
            let ghost c = self.content_sections@;
            proof {
                let j = choose|j: int| 0 <= j < c.len() && s0[c[j] as int].sh_offset == content_infos(s0, c, c.len() as int, start0)[0].offset;
                lemma_first_offset_idx(s0, c, target, 0, j);
            }
            let n = self.content_sections.len();
            let mut j: usize = 0;
            while j < n && shdrs[self.content_sections[j]].sh_offset != target
                invariant
                    n == c.len(),
                    c == self.content_sections@,
                    idxs_in(s0, c),
                    same_but_addrs(s0, shdrs@),
                    j <= first_offset_idx(s0, c, target, 0),
                    first_offset_idx(s0, c, target, 0) < n,
                    forall|m: int| 0 <= m < first_offset_idx(s0, c, target, 0) ==> s0[c[m] as int].sh_offset != target,
                    s0[c[first_offset_idx(s0, c, target, 0)] as int].sh_offset == target,
                decreases n - j,
            {
                assert(c[j as int] < s0.len());
                j = j + 1;
            }
            assert(c[j as int] < s0.len());
            let idx = self.content_sections[j];
            let file_offset = rounddown(target, PAGE_SIZE);
            let align_len = target - file_offset;
            let mut sh = shdrs[idx];
            sh.sh_addr = sh.sh_addr.wrapping_add(align_len);
            shdrs.set(idx, sh);
            let mut info = map_info[0];
            info.filesz = info.filesz + align_len;
            info.offset = file_offset;
            map_info.set(0, info);
            cur = cur + align_len;
            proof {
                let jj = first_offset_idx(s0, c, target, 0);
                assert(s1[c[j as int] as int] == (ElfShdr { sh_addr: s1[c[j as int] as int].sh_addr, ..s0[c[j as int] as int] }));
                assert(j == jj);
                if s0[c[j as int] as int].sh_size == 0 {
                    assert(!placed_in(s0, c, c[j as int] as int, true));
                }
                assert(s1[c[jj] as int].sh_addr == content_addr(s0, c, jj, start0));
            }
        }
        proof {
            let c = self.content_sections@;
            let cl = content_layout(s0, c, start0);
            assert(cur == cl.1);
            assert(map_info@ =~= cl.0);
            assert(same_but_addrs(s0, shdrs@));
            assert forall|i: int| 0 <= i < s0.len() && !placed_in(s0, c, i, true)
                && !(cl.0.len() == 1 && i == c[lone_pos(s0, c, start0)] as int)
                implies #[trigger] shdrs@[i].sh_addr == s0[i].sh_addr by {
                assert(s1[i].sh_addr == s0[i].sh_addr);
            }
            assert forall|k: int| 0 <= k < c.len() && s0[c[k] as int].sh_size != 0
                && !(cl.0.len() == 1 && k == lone_pos(s0, c, start0))
                implies #[trigger] shdrs@[c[k] as int].sh_addr == place_addr(s0, c, k, start0, true) by {
                assert(s1[c[k] as int].sh_addr == place_addr(s0, c, k, start0, true));
                if cl.0.len() == 1 {
                    let jj = lone_pos(s0, c, start0);
                    assert(c[k] != c[jj]);
                }
            }
        }
        let content_size = cur - start;
        let ghost s2 = shdrs@;
        let mut unused: Vec<FileMapInfo> = Vec::new();
        proof {
            let z = self.zero_sections@;
            lemma_place_cursor_bounds(s0, z, z.len() as int, cur as int, false);
            assert forall|k: int| 0 <= k < z.len() implies #[trigger] s2[z[k] as int].sh_size == s0[z[k] as int].sh_size
                && s2[z[k] as int].sh_addralign == s0[z[k] as int].sh_addralign by {
                assert(z[k] < s0.len());
            }
            assert(size_budget(s2, z, z.len() as int) == size_budget(s0, z, z.len() as int)) by {
                lemma_budget_same(s0, s2, z, z.len() as int);
            }
        }
        proof {
            let z = self.zero_sections@;
            lemma_place_same(s0, s2, z, z.len() as int, cur as int);
        }
        let zero_end = place_sections(shdrs, &self.zero_sections, cur, false, &mut unused);
        let zero_size = zero_end - start - content_size;
        let len = roundup(content_size + zero_size, PAGE_SIZE);
        proof {
            if *offset % PAGE_SIZE == 0 {
                vstd::arithmetic::div_mod::lemma_add_mod_noop(*offset as int, len as int, PAGE_SIZE as int);
            }
        }
        proof {
            let c = self.content_sections@;
            let z = self.zero_sections@;
            let cl = content_layout(s0, c, start0);
            let s3 = shdrs@;
            assert forall|i: int| 0 <= i < s0.len() && (exists|k: int| 0 <= k < c.len() && c[k] == i)
                implies #[trigger] s3[i].sh_addr == s2[i].sh_addr by {
                let k = choose|k: int| 0 <= k < c.len() && c[k] == i;
                assert(!placed_in(s2, z, i, false));
            }
            assert forall|k: int| 0 <= k < z.len()
                implies #[trigger] s3[z[k] as int].sh_addr == place_addr(s0, z, k, cl.1, false) by {
                assert(s2[z[k] as int].sh_addralign == s0[z[k] as int].sh_addralign);
            }
            assert forall|k: int| 0 <= k < c.len() && s0[c[k] as int].sh_size != 0
                && !(cl.0.len() == 1 && k == lone_pos(s0, c, start0))
                implies #[trigger] s3[c[k] as int].sh_addr == place_addr(s0, c, k, start0, true) by {
                assert(s3[c[k] as int].sh_addr == s2[c[k] as int].sh_addr);
            }
            if cl.0.len() == 1 {
                let jj = lone_pos(s0, c, start0);
                assert(s3[c[jj] as int].sh_addr == s2[c[jj] as int].sh_addr);
            }
            assert forall|i: int| 0 <= i < s0.len() && !placed_in(s0, c, i, true) && !placed_in(s0, z, i, false)
                && !(cl.0.len() == 1 && i == c[lone_pos(s0, c, start0)] as int)
                implies #[trigger] s3[i].sh_addr == s0[i].sh_addr by {
                assert(!placed_in(s2, z, i, false));
            }
        }
        proof {
            reveal(unit_layout_post);
            reveal(unit_contains_post);
            let c = self.content_sections@;
            let z = self.zero_sections@;
            let cl = content_layout(s0, c, start0);
            let s3 = shdrs@;
            let ext = zero_end - start;
            assert forall|k: int| 0 <= k < z.len() implies
                start0 <= #[trigger] s3[z[k] as int].sh_addr && s3[z[k] as int].sh_addr + s0[z[k] as int].sh_size <= start0 + ext by {
                lemma_place_cursor_bounds(s0, z, k, cl.1, false);
                lemma_place_cursor_bounds(s0, c, c.len() as int, start0, true);
                lemma_cursor_mono(s0, z, k + 1, z.len() as int, cl.1, false);
            }
            assert forall|k: int| 0 <= k < c.len() && s0[c[k] as int].sh_size != 0 implies
                start0 <= #[trigger] s3[c[k] as int].sh_addr && s3[c[k] as int].sh_addr + s0[c[k] as int].sh_size <= start0 + ext by {
                lemma_place_cursor_bounds(s0, c, k, start0, true);
                lemma_cursor_mono(s0, c, k + 1, c.len() as int, start0, true);
                lemma_place_cursor_bounds(s0, z, z.len() as int, cl.1, false);
                if cl.0.len() == 1 && k == lone_pos(s0, c, start0) {
                    assert(content_addr(s0, c, k, start0) == place_addr(s0, c, k, start0, true));
                }
            }
        }
        if len == 0 {
            return None;
        }
        *offset = *offset + len;
        Some(ElfSegment {
            addr,
            prot,
            len,
            content_size,
            zero_size,
            need_copy: false,
            flags: MapFlags::from_bits_retain(MAP_PRIVATE | MAP_FIXED),
            map_info,
            from_relocatable: true,
        })
    }
}

proof fn lemma_infos_within(s: Seq<ElfShdr>, idxs: Seq<usize>, k: int, start: int)
    requires
        0 <= k <= idxs.len(),
        idxs_in(s, idxs),
        aligns_ok(s, idxs),
        start >= 0,
        start + size_budget(s, idxs, k) <= usize::MAX,
    ensures
        forall|m: int| 0 <= m < content_infos(s, idxs, k, start).len() ==>
            (#[trigger] content_infos(s, idxs, k, start)[m]).start + content_infos(s, idxs, k, start)[m].filesz
                <= place_cursor(s, idxs, k, start, true) - start,
    decreases k,
{
    if k > 0 {
        lemma_infos_within(s, idxs, k - 1, start);
        lemma_place_cursor_bounds(s, idxs, k - 1, start, true);
        lemma_budget_mono(s, idxs, k - 1, k);
        let prev = content_infos(s, idxs, k - 1, start);
        let cur = content_infos(s, idxs, k, start);
        assert forall|m: int| 0 <= m < cur.len() implies
            (#[trigger] cur[m]).start + cur[m].filesz <= place_cursor(s, idxs, k, start, true) - start by {
            if m < prev.len() {
                assert(cur[m] == prev[m]);
            }
        }
    }
}

pub(crate) proof fn lemma_budget_same(s1: Seq<ElfShdr>, s2: Seq<ElfShdr>, idxs: Seq<usize>, k: int)
    requires
        0 <= k <= idxs.len(),
        forall|m: int| 0 <= m < idxs.len() ==> #[trigger] s2[idxs[m] as int].sh_size == s1[idxs[m] as int].sh_size
            && s2[idxs[m] as int].sh_addralign == s1[idxs[m] as int].sh_addralign,
    ensures
        size_budget(s2, idxs, k) == size_budget(s1, idxs, k),
    decreases k,
{
    if k > 0 {
        lemma_budget_same(s1, s2, idxs, k - 1);
        assert(s2[idxs[k - 1] as int].sh_size == s1[idxs[k - 1] as int].sh_size);
    }
}

proof fn lemma_place_same(s1: Seq<ElfShdr>, s2: Seq<ElfShdr>, idxs: Seq<usize>, k: int, start: int)
    requires
        0 <= k <= idxs.len(),
        forall|m: int| 0 <= m < idxs.len() ==> #[trigger] s2[idxs[m] as int].sh_size == s1[idxs[m] as int].sh_size
            && s2[idxs[m] as int].sh_addralign == s1[idxs[m] as int].sh_addralign,
    ensures
        place_cursor(s2, idxs, k, start, false) == place_cursor(s1, idxs, k, start, false),
        forall|m: int| 0 <= m < k ==> #[trigger] place_cursor(s2, idxs, m, start, false) == place_cursor(s1, idxs, m, start, false),
    decreases k,
{
    if k > 0 {
        lemma_place_same(s1, s2, idxs, k - 1, start);
        assert(s2[idxs[k - 1] as int].sh_size == s1[idxs[k - 1] as int].sh_size);
    }
}

} // verus!

verus! {

/// Size of a PLT entry.
pub const PLT_ENTRY_SIZE: usize = 16;
/// Size of the PLT header.
pub const PLT_HEADER_SIZE: usize = 16;
/// Size of a PLT entry with lazy binding.
pub const LAZY_PLT_ENTRY_SIZE: usize = 16;
/// Size of the PLT header with lazy binding.
pub const LAZY_PLT_HEADER_SIZE: usize = 16;
/// Offset in a PLT entry of the 32-bit displacement to its GOT slot,
/// measured from the end of the jump instruction at `PLT_JUMP_END`.
pub const PLT_DISP_OFFSET: usize = 6;
/// Offset in a PLT entry of the end of the jump instruction.
pub const PLT_JUMP_END: usize = 10;

/// The PLT entry template: `endbr64; jmp *disp32(%rip); nopw`.
pub fn plt_entry_template() -> (r: Vec<u8>)
    ensures
        r@ == plt_entry_template_spec(),
        r@.len() == PLT_ENTRY_SIZE,
{
    let mut v: Vec<u8> = Vec::new();
    v.push(0xf3); v.push(0x0f); v.push(0x1e); v.push(0xfa);
    v.push(0xff); v.push(0x25); v.push(0x00); v.push(0x00); v.push(0x00); v.push(0x00);
    v.push(0x66); v.push(0x0f); v.push(0x1f); v.push(0x44); v.push(0x00); v.push(0x00);
    assert(v@ =~= plt_entry_template_spec());
    v
}

/// The slot in a table: taken before (with the address of the entry), or
/// newly taken and still to be filled.
#[derive(Clone, Copy, Debug, PartialEq, Eq)]
pub enum GotEntry {
    /// The symbol already has a slot; its address.
    Occupied(usize),
    /// A fresh slot at this address, to be filled by the caller.
    Vacant(usize),
}

/// A PLT entry: taken before (its address), or fresh.
#[derive(Clone, Copy, Debug, PartialEq, Eq)]
pub enum PltEntry {
    /// The symbol already has an entry; its address.
    Occupied(usize),
    /// A fresh entry at `plt`, whose GOT slot at `pltgot` is to be filled.
    Vacant { plt: usize, pltgot: usize },
}

/// The PLT and GOT built for a relocatable object.
pub struct PltGotSection {
    pub got_base: usize,
    pub plt_base: usize,
    pub pltgot_base: usize,
    pub cur_got_idx: usize,
    pub cur_plt_idx: usize,
    pub got_map: crate::slot_map::SlotMap,
    pub plt_map: crate::slot_map::SlotMap,
    pub got_size: usize,
    pub plt_size: usize,
    pub pltgot_size: usize,
    pub plt_header_size: usize,
    pub plt_entry_size: usize,
    pub lazy_bind: bool,
}

/// Asking for the slot of `sym` when `m` holds the slots handed out so far
/// and `cur` is the next free one: a symbol that has a slot keeps it, a new
/// one gets `cur`.
pub open spec fn spec_slot_step(m: Map<usize, usize>, cur: usize, sym: usize) -> (Map<usize, usize>, int) {
    if m.dom().contains(sym) { (m, cur as int) } else { (m.insert(sym, cur), cur + 1) }
}

/// The slots handed out so far are `0 .. cur`, one per symbol.
pub open spec fn slots_wf(m: Map<usize, usize>, cur: int) -> bool {
    &&& forall|k: usize| #[trigger] m.dom().contains(k) ==> m[k] < cur
    &&& forall|k1: usize, k2: usize| m.dom().contains(k1) && m.dom().contains(k2) && k1 != k2
        ==> #[trigger] m[k1] != #[trigger] m[k2]
}

impl PltGotSection {
    /// The symbol-to-GOT-slot map.
    pub open spec fn got_slots(&self) -> Map<usize, usize> {
        crate::slot_map::slot_map_contents(self.got_map)
    }

    /// The symbol-to-PLT-entry map.
    pub open spec fn plt_slots(&self) -> Map<usize, usize> {
        crate::slot_map::slot_map_contents(self.plt_map)
    }

    /// The tables are consistent and their addresses stay within `usize`.
    pub open spec fn wf(&self) -> bool {
        &&& self.got_base + self.got_size <= usize::MAX
        &&& self.plt_base + self.plt_size <= usize::MAX
        &&& self.pltgot_base + self.pltgot_size <= usize::MAX
        &&& self.plt_entry_size == PLT_ENTRY_SIZE
        &&& self.plt_header_size <= self.plt_base
        &&& self.cur_got_idx * 8 <= self.got_size
        &&& self.cur_plt_idx * 8 <= self.pltgot_size
        &&& self.cur_plt_idx * PLT_ENTRY_SIZE <= self.plt_size
        &&& slots_wf(self.got_slots(), self.cur_got_idx as int)
        &&& slots_wf(self.plt_slots(), self.cur_plt_idx as int)
    }

    /// Move the tables by `base`.
    pub fn rebase(&mut self, base: usize)
        requires
            old(self).wf(),
            base + old(self).got_base + old(self).got_size <= usize::MAX,
            base + old(self).plt_base + old(self).plt_size <= usize::MAX,
            base + old(self).pltgot_base + old(self).pltgot_size <= usize::MAX,
        ensures
            final(self).wf(),
            final(self).got_base == old(self).got_base + base,
            final(self).plt_base == old(self).plt_base + base,
            final(self).pltgot_base == old(self).pltgot_base + base,
            final(self).got_slots() == old(self).got_slots(),
            final(self).plt_slots() == old(self).plt_slots(),
            final(self).cur_got_idx == old(self).cur_got_idx,
            final(self).cur_plt_idx == old(self).cur_plt_idx,
            final(self).got_size == old(self).got_size,
            final(self).plt_size == old(self).plt_size,
            final(self).pltgot_size == old(self).pltgot_size,
            final(self).lazy_bind == old(self).lazy_bind,
            final(self).plt_header_size == old(self).plt_header_size,
    {
        self.got_base = self.got_base + base;
        self.plt_base = self.plt_base + base;
        self.pltgot_base = self.pltgot_base + base;
    }

    /// The base address of the PLT entries.
    pub fn plt_base(&self) -> (r: usize)
        ensures
            r == self.plt_base,
    {
        self.plt_base
    }

    /// The base address of the PLT's GOT slots.
    pub fn pltgot_base(&self) -> (r: usize)
        ensures
            r == self.pltgot_base,
    {
        self.pltgot_base
    }

    /// Whether lazy binding is enabled.
    pub fn is_lazy(&self) -> (r: bool)
        ensures
            r == self.lazy_bind,
    {
        self.lazy_bind
    }

    /// The address and length of the PLT header.
    pub fn get_plt_header(&self) -> (r: (usize, usize))
        requires
            self.wf(),
        ensures
            r.0 == self.plt_base - self.plt_header_size,
            r.1 == self.plt_header_size,
    {
        (self.plt_base - self.plt_header_size, self.plt_header_size)
    }

    /// The GOT slot of symbol `r_sym`, taking the next free slot when the
    /// symbol has none yet.  Fails when the GOT is full.
    pub fn add_got_entry(&mut self, r_sym: usize) -> (r: Result<GotEntry, Error>)
        requires
            old(self).wf(),
        ensures
            final(self).wf(),
            final(self).got_base == old(self).got_base,
            final(self).plt_base == old(self).plt_base,
            final(self).pltgot_base == old(self).pltgot_base,
            final(self).plt_slots() == old(self).plt_slots(),
            final(self).cur_plt_idx == old(self).cur_plt_idx,
            old(self).got_slots().dom().contains(r_sym) ==> r == Ok::<GotEntry, Error>(
                GotEntry::Occupied((old(self).got_slots()[r_sym] * 8 + old(self).got_base) as usize))
                && final(self).got_slots() == old(self).got_slots()
                && final(self).cur_got_idx == old(self).cur_got_idx,
            !old(self).got_slots().dom().contains(r_sym) && (old(self).cur_got_idx + 1) * 8 <= old(self).got_size
                ==> r == Ok::<GotEntry, Error>(GotEntry::Vacant((old(self).cur_got_idx * 8 + old(self).got_base) as usize))
                && final(self).got_slots() == old(self).got_slots().insert(r_sym, old(self).cur_got_idx)
                && final(self).cur_got_idx == old(self).cur_got_idx + 1,
            !old(self).got_slots().dom().contains(r_sym) && (old(self).cur_got_idx + 1) * 8 > old(self).got_size
                ==> r is Err && final(self).got_slots() == old(self).got_slots()
                && final(self).cur_got_idx == old(self).cur_got_idx,
            final(self).got_size == old(self).got_size,
            final(self).plt_size == old(self).plt_size,
            final(self).pltgot_size == old(self).pltgot_size,
            final(self).lazy_bind == old(self).lazy_bind,
            final(self).plt_header_size == old(self).plt_header_size,
            r is Ok ==> (final(self).got_slots(), final(self).cur_got_idx as int)
                == spec_slot_step(old(self).got_slots(), old(self).cur_got_idx, r_sym),
    {
        let base = self.got_base;
        match self.got_map.get(r_sym) {
            Some(idx) => Ok(GotEntry::Occupied(idx * 8 + base)),
            None => {
                if self.cur_got_idx >= self.got_size / 8 {
                    return Err(Error::Relocate { msg: "GOT is full", r_type: 0, r_sym, file: None });
                }
                let idx = self.cur_got_idx;
                self.got_map.insert(r_sym, idx);
                self.cur_got_idx = self.cur_got_idx + 1;
                proof {
                    let m = crate::slot_map::slot_map_contents(self.got_map);
                    assert forall|k1: usize, k2: usize| m.dom().contains(k1) && m.dom().contains(k2) && k1 != k2
                        implies #[trigger] m[k1] != #[trigger] m[k2] by {
                        if k1 != r_sym && k2 != r_sym {
                            assert(old(self).got_slots().dom().contains(k1));
                            assert(old(self).got_slots().dom().contains(k2));
                        } else if k1 == r_sym {
                            assert(old(self).got_slots().dom().contains(k2));
                        } else {
                            assert(old(self).got_slots().dom().contains(k1));
                        }
                    }
                }
                Ok(GotEntry::Vacant(idx * 8 + base))
            },
        }
    }

    /// The PLT entry of symbol `r_sym`, taking the next free entry (and
    /// writing the entry template into `segments`) when the symbol has none
    /// yet.  Fails when the PLT is full or lies outside the image.
    pub fn add_plt_entry(&mut self, r_sym: usize, segments: &mut super::ElfSegments) -> (r: Result<PltEntry, Error>)
        requires
            old(self).wf(),
        ensures
            final(self).wf(),
            final(self).got_base == old(self).got_base,
            final(self).plt_base == old(self).plt_base,
            final(self).pltgot_base == old(self).pltgot_base,
            final(self).got_slots() == old(self).got_slots(),
            final(self).cur_got_idx == old(self).cur_got_idx,
            final(segments).addr == old(segments).addr,
            final(segments).offset == old(segments).offset,
            old(self).plt_slots().dom().contains(r_sym) ==> r == Ok::<PltEntry, Error>(
                PltEntry::Occupied((old(self).plt_slots()[r_sym] * PLT_ENTRY_SIZE + old(self).plt_base) as usize))
                && final(self).plt_slots() == old(self).plt_slots()
                && final(self).cur_plt_idx == old(self).cur_plt_idx
                && final(segments).memory@ == old(segments).memory@,
            r matches Ok(PltEntry::Vacant { plt, pltgot }) ==> {
                &&& !old(self).plt_slots().dom().contains(r_sym)
                &&& plt == old(self).cur_plt_idx * PLT_ENTRY_SIZE + old(self).plt_base
                &&& pltgot == old(self).cur_plt_idx * 8 + old(self).pltgot_base
                &&& final(self).plt_slots() == old(self).plt_slots().insert(r_sym, old(self).cur_plt_idx)
                &&& final(self).cur_plt_idx == old(self).cur_plt_idx + 1
                &&& final(segments).memory@ == super::spec_write_bytes(
                    old(segments).memory@, plt - old(segments).addr, plt_entry_template_spec())
            },
            r is Err ==> final(self).plt_slots() == old(self).plt_slots()
                && final(self).cur_plt_idx == old(self).cur_plt_idx
                && final(segments).memory@ == old(segments).memory@,
            !old(self).plt_slots().dom().contains(r_sym) ==> r is Err || r matches Ok(PltEntry::Vacant { .. }),
            !old(self).plt_slots().dom().contains(r_sym) ==> (r is Err <==> (
                old(self).cur_plt_idx >= old(self).pltgot_size / 8 || old(self).cur_plt_idx >= old(self).plt_size / PLT_ENTRY_SIZE
                || !old(segments).in_bounds_abs(old(self).cur_plt_idx * PLT_ENTRY_SIZE + old(self).plt_base, PLT_ENTRY_SIZE as int))),
            final(self).got_size == old(self).got_size,
            final(self).plt_size == old(self).plt_size,
            final(self).pltgot_size == old(self).pltgot_size,
            final(self).lazy_bind == old(self).lazy_bind,
            final(self).plt_header_size == old(self).plt_header_size,
            r is Ok ==> (final(self).plt_slots(), final(self).cur_plt_idx as int)
                == spec_slot_step(old(self).plt_slots(), old(self).cur_plt_idx, r_sym),
    {
        let plt_base = self.plt_base;
        let pltgot_base = self.pltgot_base;
        let plt_ent_size = self.plt_entry_size;
        match self.plt_map.get(r_sym) {
            Some(idx) => Ok(PltEntry::Occupied(idx * plt_ent_size + plt_base)),
            None => {
                let idx = self.cur_plt_idx;
                if idx >= self.pltgot_size / 8 || idx >= self.plt_size / PLT_ENTRY_SIZE {
                    return Err(Error::Relocate { msg: "PLT is full", r_type: 0, r_sym, file: None });
                }
                let plt = idx * plt_ent_size + plt_base;
                let template = plt_entry_template();
                match segments.write_bytes_abs(plt, template.as_slice()) {
                    Ok(()) => {},
                    Err(e) => { return Err(e); },
                }
                self.plt_map.insert(r_sym, idx);
                self.cur_plt_idx = self.cur_plt_idx + 1;
                proof {
                    let m = crate::slot_map::slot_map_contents(self.plt_map);
                    assert forall|k1: usize, k2: usize| m.dom().contains(k1) && m.dom().contains(k2) && k1 != k2
                        implies #[trigger] m[k1] != #[trigger] m[k2] by {
                        if k1 != r_sym && k2 != r_sym {
                            assert(old(self).plt_slots().dom().contains(k1));
                            assert(old(self).plt_slots().dom().contains(k2));
                        } else if k1 == r_sym {
                            assert(old(self).plt_slots().dom().contains(k2));
                        } else {
                            assert(old(self).plt_slots().dom().contains(k1));
                        }
                    }
                }
                Ok(PltEntry::Vacant { plt, pltgot: idx * 8 + pltgot_base })
            },
        }
    }
}

/// The bytes of the PLT entry template.
pub open spec fn plt_entry_template_spec() -> Seq<u8> {
    seq![0xf3u8, 0x0f, 0x1e, 0xfa, 0xff, 0x25, 0x00, 0x00, 0x00, 0x00, 0x66, 0x0f, 0x1f, 0x44, 0x00, 0x00]
}

} // verus!

verus! {

/// A section of relocation entries.
pub open spec fn is_rel_section(sh: ElfShdr) -> bool {
    sh.sh_type == crate::elf::SHT_REL || sh.sh_type == crate::elf::SHT_RELA
}

/// The number of relocation entries in the first `k` sections.
pub open spec fn rel_count(s: Seq<ElfShdr>, k: int) -> int
    decreases k,
{
    if k <= 0 {
        0
    } else {
        rel_count(s, k - 1) + if is_rel_section(s[k - 1]) && s[k - 1].sh_entsize != 0 {
            (s[k - 1].sh_size / s[k - 1].sh_entsize) as int
        } else {
            0int
        }
    }
}

/// Relocation sections have a non-zero entry size.
pub open spec fn entsizes_ok(s: Seq<ElfShdr>) -> bool {
    forall|i: int| 0 <= i < s.len() && is_rel_section(#[trigger] s[i]) ==> s[i].sh_entsize != 0
}

/// An alignment the section layout accepts: zero or a power of two up to a page.
pub open spec fn align_ok(a: usize) -> bool {
    a == 0 || is_pow2(a)
}

pub(crate) proof fn lemma_align_ok(a: usize)
    requires
        align_ok(a),
    ensures
        a == 0 || is_pow2(a),
{
}

/// Whether `a` is an alignment the section layout accepts: zero or a power
/// of two.
pub fn is_align_ok(a: usize) -> (r: bool)
    ensures
        r == align_ok(a),
{
    if a == 0 {
        return true;
    }
    let mut p: usize = 1;
    let mut n: u32 = 0;
    proof { vstd::arithmetic::power2::lemma2_to64(); }
    while n < usize::BITS
        invariant
            a != 0,
            n <= usize::BITS,
            p == vstd::arithmetic::power2::pow2(n as nat),
            forall|m: nat| m < n ==> vstd::arithmetic::power2::pow2(m) != a,
        decreases usize::BITS - n,
    {
        if p == a {
            return true;
        }
        match p.checked_mul(2) {
            Some(q) => {
                proof { vstd::arithmetic::power2::lemma_pow2_unfold((n + 1) as nat); }
                p = q;
            },
            None => {
                proof {
                    vstd::arithmetic::power2::lemma_pow2_unfold((n + 1) as nat);
                    assert forall|m: nat| m < usize::BITS implies vstd::arithmetic::power2::pow2(m) != a by {
                        if m > n {
                            if m > n + 1 {
                                vstd::arithmetic::power2::lemma_pow2_strictly_increases((n + 1) as nat, m);
                            }
                        }
                    }
                    if is_pow2(a) {
                        let w = choose|w: nat| w < usize::BITS && a == vstd::arithmetic::power2::pow2(w);
                        assert(vstd::arithmetic::power2::pow2(w) != a);
                    }
                }
                return false;
            },
        }
        n = n + 1;
    }
    proof {
        if is_pow2(a) {
            let w = choose|w: nat| w < usize::BITS && a == vstd::arithmetic::power2::pow2(w);
            assert(vstd::arithmetic::power2::pow2(w) != a);
        }
    }
    false
}

/// The number of relocation entries in `shdrs`, if it fits in a `usize`.
pub fn count_rels(shdrs: &[ElfShdr]) -> (r: Option<usize>)
    requires
        entsizes_ok(shdrs@),
    ensures
        r matches Some(c) ==> c == rel_count(shdrs@, shdrs@.len() as int),
        r is None ==> rel_count(shdrs@, shdrs@.len() as int) > usize::MAX,
{
    let n = shdrs.len();
    let mut cnt: usize = 0;
    let mut i: usize = 0;
    while i < n
        invariant
            n == shdrs@.len(),
            i <= n,
            entsizes_ok(shdrs@),
            cnt == rel_count(shdrs@, i as int),
        decreases n - i,
    {
        let sh = shdrs[i];
        if sh.sh_type == crate::elf::SHT_REL || sh.sh_type == crate::elf::SHT_RELA {
            let q = sh.sh_size / sh.sh_entsize;
            if cnt > usize::MAX - q {
                proof { lemma_rel_count_mono(shdrs@, (i + 1) as int, n as int); }
                return None;
            }
            cnt = cnt + q;
        }
        i = i + 1;
    }
    Some(cnt)
}

proof fn lemma_rel_count_mono(s: Seq<ElfShdr>, j: int, k: int)
    requires
        0 <= j <= k <= s.len(),
    ensures
        rel_count(s, j) <= rel_count(s, k),
    decreases k - j,
{
    if j < k {
        lemma_rel_count_mono(s, j, k - 1);
        let sh = s[k - 1];
        if is_rel_section(sh) && sh.sh_entsize != 0 {
            vstd::arithmetic::div_mod::lemma_div_pos_is_pos(sh.sh_size as int, sh.sh_entsize as int);
        }
    }
}

/// The section reserved for the GOT of `cnt` relocation entries.
pub open spec fn spec_got_shdr(cnt: int) -> ElfShdr {
    ElfShdr {
        sh_name: 0, sh_type: SHT_NOBITS, sh_flags: (crate::elf::SHF_ALLOC | SHF_WRITE) as usize,
        sh_addr: 0, sh_offset: 0, sh_size: (cnt * 8) as usize, sh_link: 0, sh_info: 0,
        sh_addralign: 16, sh_entsize: 8,
    }
}

/// The sections reserved for the PLT's GOT slots and the PLT entries.
pub open spec fn spec_plt_shdrs(cnt: int, lazy: bool) -> (ElfShdr, ElfShdr) {
    let header = if lazy { LAZY_PLT_HEADER_SIZE } else { PLT_HEADER_SIZE };
    let entry = if lazy { LAZY_PLT_ENTRY_SIZE } else { PLT_ENTRY_SIZE };
    (
        ElfShdr {
            sh_name: 0, sh_type: SHT_NOBITS, sh_flags: (crate::elf::SHF_ALLOC | SHF_WRITE) as usize,
            sh_addr: 0, sh_offset: 0, sh_size: (cnt * 8) as usize, sh_link: 0, sh_info: 0,
            sh_addralign: 8, sh_entsize: 8,
        },
        ElfShdr {
            sh_name: 0, sh_type: SHT_NOBITS, sh_flags: (crate::elf::SHF_ALLOC | SHF_EXECINSTR) as usize,
            sh_addr: 0, sh_offset: 0, sh_size: (cnt * entry + header) as usize, sh_link: 0, sh_info: 0,
            sh_addralign: 8, sh_entsize: entry,
        },
    )
}

/// Create the GOT section for `cnt` relocation entries: one slot each.
pub fn create_got_shdr(cnt: usize) -> (r: ElfShdr)
    requires
        cnt * 8 <= usize::MAX,
    ensures
        r == spec_got_shdr(cnt as int),
{
    ElfShdr::new(0, SHT_NOBITS, (crate::elf::SHF_ALLOC | SHF_WRITE) as usize, 0, 0, cnt * 8, 0, 0, 16, 8)
}

/// Create the PLT GOT-slot and PLT sections for `cnt` relocation entries.
pub fn create_plt_shdr(cnt: usize, lazy: bool) -> (r: (ElfShdr, ElfShdr))
    requires
        cnt * 16 + 16 <= usize::MAX,
    ensures
        r == spec_plt_shdrs(cnt as int, lazy),
{
    let header_size = if lazy { LAZY_PLT_HEADER_SIZE } else { PLT_HEADER_SIZE };
    let entry_size = if lazy { LAZY_PLT_ENTRY_SIZE } else { PLT_ENTRY_SIZE };
    let got_section = ElfShdr::new(
        0, SHT_NOBITS, (crate::elf::SHF_ALLOC | SHF_WRITE) as usize, 0, 0, cnt * 8, 0, 0, 8, 8);
    let plt_section = ElfShdr::new(
        0, SHT_NOBITS, (crate::elf::SHF_ALLOC | SHF_EXECINSTR) as usize, 0, 0,
        cnt * entry_size + header_size, 0, 0, 8, entry_size);
    (got_section, plt_section)
}

impl PltGotSection {
    /// Tables for the GOT, PLT and PLT GOT-slot sections placed at the given
    /// (image-relative) addresses, with no entries taken.
    pub fn new(got: &ElfShdr, plt: &ElfShdr, pltgot: &ElfShdr, lazy: bool) -> (r: PltGotSection)
        requires
            got.sh_addr + got.sh_size <= usize::MAX,
            plt.sh_addr + plt.sh_size <= usize::MAX,
            pltgot.sh_addr + pltgot.sh_size <= usize::MAX,
            plt.sh_size >= LAZY_PLT_HEADER_SIZE,
            plt.sh_entsize == PLT_ENTRY_SIZE,
        ensures
            r.wf(),
            r.got_base == got.sh_addr,
            r.plt_base == plt.sh_addr + LAZY_PLT_HEADER_SIZE,
            r.pltgot_base == pltgot.sh_addr,
            r.got_size == got.sh_size,
            r.plt_size == plt.sh_size - LAZY_PLT_HEADER_SIZE,
            r.pltgot_size == pltgot.sh_size,
            r.cur_got_idx == 0,
            r.cur_plt_idx == 0,
            r.got_slots() == Map::<usize, usize>::empty(),
            r.plt_slots() == Map::<usize, usize>::empty(),
            r.lazy_bind == lazy,
    {
        PltGotSection {
            cur_got_idx: 0,
            cur_plt_idx: 0,
            got_map: crate::slot_map::SlotMap::new(),
            plt_map: crate::slot_map::SlotMap::new(),
            got_base: got.sh_addr,
            plt_base: plt.sh_addr + LAZY_PLT_HEADER_SIZE,
            pltgot_base: pltgot.sh_addr,
            got_size: got.sh_size,
            plt_size: plt.sh_size - LAZY_PLT_HEADER_SIZE,
            pltgot_size: pltgot.sh_size,
            plt_entry_size: plt.sh_entsize,
            plt_header_size: if lazy { LAZY_PLT_HEADER_SIZE } else { PLT_HEADER_SIZE },
            lazy_bind: lazy,
        }
    }
}

} // verus!

verus! {

/// The space all sections of `s` need at most: their sizes plus their
/// alignment padding.
pub open spec fn all_budget(s: Seq<ElfShdr>, k: int) -> int
    decreases k,
{
    if k <= 0 { 0 } else { all_budget(s, k - 1) + s[k - 1].sh_size + align_pad(s[k - 1].sh_addralign) }
}

/// The segments follow one another from relative address zero, and `end`
/// is where the last one ends.
#[verifier::opaque]
pub open spec fn consecutive(segs: Seq<ElfSegment>, end: int) -> bool {
    &&& forall|k: int| 0 <= k < segs.len() ==> {
        &&& (#[trigger] segs[k]).addr is Relative
        &&& segs[k].len % PAGE_SIZE == 0
        &&& segs[k].len > 0
        &&& segs[k].from_relocatable
        &&& segs[k].addr->Relative_0 == if k == 0 { 0 } else { segs[k - 1].addr->Relative_0 + segs[k - 1].len }
    }
    &&& end == if segs.len() == 0 { 0 } else { segs.last().addr->Relative_0 + segs.last().len }
}

proof fn lemma_aligned_roundup_id(x: int, r: int, a: int)
    requires
        a > 0,
        x % a == 0,
        r % a == 0,
        x <= r < x + a,
    ensures
        r == x,
{
    vstd::arithmetic::div_mod::lemma_sub_mod_noop(r, x, a);
    vstd::arithmetic::div_mod::lemma_small_mod(0nat, a as nat);
    assert((r - x) % a == 0);
    vstd::arithmetic::div_mod::lemma_small_mod((r - x) as nat, a as nat);
}

/// Lay out `unit` at `*offset` and append its segment, if any, to `segments`.
#[verifier::rlimit(50)]
#[verifier::spinoff_prover]
pub(crate) fn place_unit(unit: &mut SectionUnit, shdrs: &mut Vec<ElfShdr>, offset: &mut usize, segments: &mut Vec<ElfSegment>)
    requires
        old(unit).layout_ok(old(shdrs)@, *old(offset) as int),
        *old(offset) % PAGE_SIZE == 0,
        consecutive(old(segments)@, *old(offset) as int),
    ensures
        same_but_addrs(old(shdrs)@, final(shdrs)@),
        final(unit).content_sections@ == old(unit).content_sections@,
        final(unit).zero_sections@ == old(unit).zero_sections@,
        *final(offset) <= *old(offset) + size_budget(old(shdrs)@, old(unit).content_sections@, old(unit).content_sections@.len() as int)
            + size_budget(old(shdrs)@, old(unit).zero_sections@, old(unit).zero_sections@.len() as int) + 2 * PAGE_SIZE,
        *final(offset) % PAGE_SIZE == 0,
        *old(offset) <= *final(offset),
        consecutive(final(segments)@, *final(offset) as int),
        unit_contains_post(old(shdrs)@, final(shdrs)@, old(unit).content_sections@, old(unit).zero_sections@,
            *old(offset) as int, *final(offset) as int),
        forall|i: int| 0 <= i < old(shdrs)@.len() && !old(unit).content_sections@.contains(i as usize)
            && !old(unit).zero_sections@.contains(i as usize) ==> #[trigger] final(shdrs)@[i].sh_addr == old(shdrs)@[i].sh_addr,
        final(segments)@.len() >= old(segments)@.len(),
        forall|k: int| 0 <= k < old(segments)@.len() ==> #[trigger] final(segments)@[k] == old(segments)@[k],
{
    let ghost start = *offset;
    let ghost old_segs = segments@;
    proof { reveal(consecutive); }
    let ghost s0 = shdrs@;
    let res = unit.create_segment(shdrs, offset);
    proof {
        reveal(unit_layout_post);
        let c = unit.content_sections@;
        let z = unit.zero_sections@;
        assert forall|i: int| 0 <= i < s0.len() && !c.contains(i as usize) && !z.contains(i as usize)
            implies #[trigger] shdrs@[i].sh_addr == s0[i].sh_addr by {
            if c.len() > 0 || z.len() > 0 {
                if placed_in(s0, c, i, true) {
                    let k = choose|k: int| 0 <= k < c.len() && c[k] == i && !(true && s0[i].sh_size == 0);
                    assert(c.contains(c[k]));
                }
                if placed_in(s0, z, i, false) {
                    let k = choose|k: int| 0 <= k < z.len() && z[k] == i && !(false && s0[i].sh_size == 0);
                    assert(z.contains(z[k]));
                }
                let cl = content_layout(s0, c, *old(offset) as int);
                if cl.0.len() == 1 {
                    let j = lone_pos(s0, c, *old(offset) as int);
                    assert(c.contains(c[j]));
                }
            }
        }
    }
    if let Some(segment) = res {
        proof { lemma_page_size_pow2(); }
        let ghost before = *offset;
        *offset = roundup(*offset, PAGE_SIZE);
        proof {
            lemma_aligned_roundup_id(before as int, *offset as int, PAGE_SIZE as int);
        }
        segments.push(segment);
        proof {
            let segs = segments@;
            assert(segs == old_segs.push(segment));
            assert forall|k: int| 0 <= k < segs.len() implies {
                &&& (#[trigger] segs[k]).addr is Relative
                &&& segs[k].len % PAGE_SIZE == 0
                &&& segs[k].len > 0
                &&& segs[k].from_relocatable
                &&& segs[k].addr->Relative_0 == if k == 0 { 0 } else { segs[k - 1].addr->Relative_0 + segs[k - 1].len }
            } by {
                if k < segs.len() - 1 {
                    assert(segs[k] == old_segs[k]);
                    if k > 0 {
                        assert(segs[k - 1] == old_segs[k - 1]);
                    }
                } else if k > 0 {
                    assert(segs[k - 1] == old_segs[k - 1]);
                }
            }
        }
    }
}

} // verus!
