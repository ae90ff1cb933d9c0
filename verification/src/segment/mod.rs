//! The memory image of an ELF object.
//!
//! Segments are described by [`ElfSegment`] and laid out inside one
//! reserved region, modelled by [`ElfSegments`]: a byte buffer that stands
//! for the mapping, together with the address it occupies.

pub mod grouping;
pub mod load;
pub mod program;
pub mod section;

use vstd::prelude::*;
use crate::elf::{le_at, pow256, read_le, ElfPhdr};
use crate::error::Error;
use crate::layout::{lemma_page_size_pow2, roundup, spec_roundup, MASK, PAGE_SIZE};
use crate::mmap::{MapFlags, ProtFlags};

verus! {

/// Address of a segment: relative to the load base until the image is
/// placed, absolute afterwards.
#[derive(Clone, Copy, Debug, PartialEq, Eq)]
pub enum Address {
    /// Offset from the base address.
    Relative(usize),
    /// Fully resolved virtual address.
    Absolute(usize),
}

impl Address {
    /// The absolute address.
    pub fn absolute_addr(&self) -> (r: usize)
        requires
            self is Absolute,
        ensures
            r == self->Absolute_0,
    {
        match self {
            Address::Absolute(addr) => *addr,
            Address::Relative(addr) => *addr,
        }
    }

    /// The relative address.
    pub fn relative_addr(&self) -> (r: usize)
        requires
            self is Relative,
        ensures
            r == self->Relative_0,
    {
        match self {
            Address::Relative(addr) => *addr,
            Address::Absolute(addr) => *addr,
        }
    }
}

/// A portion of the file copied into a segment.
#[derive(Clone, Copy, Debug, PartialEq, Eq)]
pub struct FileMapInfo {
    /// Start offset within the segment.
    pub start: usize,
    /// Number of bytes taken from the file.
    pub filesz: usize,
    /// Offset of those bytes within the file.
    pub offset: usize,
}

/// A segment of the image, with its protection and contents.
#[derive(Debug)]
pub struct ElfSegment {
    /// Address of the segment.
    pub addr: Address,
    /// Protection the segment ends up with.
    pub prot: ProtFlags,
    /// Mapping flags requested for the segment.
    pub flags: MapFlags,
    /// Total length, a multiple of the page size.
    pub len: usize,
    /// Size of the zero-filled tail.
    pub zero_size: usize,
    /// Size of the part filled from the file.
    pub content_size: usize,
    /// The file ranges that make up the content.
    pub map_info: Vec<FileMapInfo>,
    /// Data must be copied in rather than mapped from the file.
    pub need_copy: bool,
    /// The segment was built from the sections of a relocatable object.
    pub from_relocatable: bool,
}

impl ElfSegment {
    /// Turn the relative address into an absolute one by adding `base`.
    pub fn rebase(&mut self, base: usize)
        requires
            old(self).addr is Relative,
            base + old(self).addr->Relative_0 <= usize::MAX,
        ensures
            final(self).addr == Address::Absolute((base + old(self).addr->Relative_0) as usize),
            final(self).prot == old(self).prot,
            final(self).flags == old(self).flags,
            final(self).len == old(self).len,
            final(self).zero_size == old(self).zero_size,
            final(self).content_size == old(self).content_size,
            final(self).map_info@ == old(self).map_info@,
            final(self).need_copy == old(self).need_copy,
            final(self).from_relocatable == old(self).from_relocatable,
    {
        self.addr = Address::Absolute(base + self.addr.relative_addr());
    }
}

/// `t` is segment `s` placed in an image at `addr`: a relative address is
/// made absolute, and nothing else changes.
pub open spec fn placed(s: ElfSegment, t: ElfSegment, addr: usize) -> bool {
    &&& t.addr == match s.addr {
        Address::Relative(r) => Address::Absolute((addr + r) as usize),
        Address::Absolute(a) => Address::Absolute(a),
    }
    &&& t.prot == s.prot
    &&& t.flags == s.flags
    &&& t.len == s.len
    &&& t.zero_size == s.zero_size
    &&& t.content_size == s.content_size
    &&& t.map_info@ == s.map_info@
    &&& t.need_copy == s.need_copy
    &&& t.from_relocatable == s.from_relocatable
}

/// Byte `k` (least significant first) of `v`.
pub open spec fn byte_of(v: nat, k: nat) -> u8 {
    ((v / pow256(k)) % 256) as u8
}

/// `mem` with the `n` bytes at `idx` replaced by the little-endian encoding of `v`.
pub open spec fn spec_write_le(mem: Seq<u8>, idx: int, v: nat, n: nat) -> Seq<u8> {
    Seq::new(mem.len(), |i: int| if idx <= i < idx + n { byte_of(v, (i - idx) as nat) } else { mem[i] })
}

proof fn lemma_pow256_pos(k: nat)
    ensures
        pow256(k) > 0,
    decreases k,
{
    if k > 0 {
        lemma_pow256_pos((k - 1) as nat);
    }
}

/// Reading back `n` bytes that were just written yields the value written,
/// reduced to `n` bytes.
pub proof fn lemma_read_after_write(mem: Seq<u8>, idx: int, v: nat, n: nat)
    requires
        0 <= idx,
        idx + n <= mem.len(),
    ensures
        le_at(spec_write_le(mem, idx, v, n), idx, n as int) == v % pow256(n),
    decreases n,
{
    let w = spec_write_le(mem, idx, v, n);
    lemma_pow256_pos(n);
    if n == 0 {
        assert(w.subrange(idx, idx) =~= Seq::<u8>::empty());
    } else {
        let s = w.subrange(idx, idx + n);
        let w2 = spec_write_le(mem, idx + 1, v / 256, (n - 1) as nat);
        assert forall|i: int| idx + 1 <= i < idx + n implies #[trigger] w[i] == w2[i] by {
            lemma_byte_of_shift(v, (i - idx - 1) as nat);
        }
        assert(s.drop_first() =~= w2.subrange(idx + 1, idx + 1 + (n - 1)));
        lemma_read_after_write(mem, idx + 1, v / 256, (n - 1) as nat);
        lemma_pow256_pos((n - 1) as nat);
        assert(byte_of(v, 0) == v % 256) by {
            assert(pow256(0) == 1);
        }
        lemma_mod_split(v, pow256((n - 1) as nat));
    }
}

proof fn lemma_byte_of_shift(v: nat, k: nat)
    ensures
        byte_of(v / 256, k) == byte_of(v, k + 1),
{
    lemma_pow256_pos(k);
    assert(pow256(k + 1) == 256 * pow256(k));
    vstd::arithmetic::div_mod::lemma_div_denominator(v as int, 256, pow256(k) as int);
}

proof fn lemma_mod_split(v: nat, p: nat)
    requires
        p > 0,
    ensures
        v % 256 + 256 * ((v / 256) % p) == v % (256 * p),
{
    vstd::arithmetic::div_mod::lemma_breakdown(v as int, 256, p as int);
}

/// The mapped memory of an ELF object.
///
/// `memory` holds the bytes of the mapping, which starts at address `addr`
/// and covers the virtual addresses `offset .. offset + memory.len()` of the
/// object; the load base is therefore `addr - offset`.
#[derive(Debug)]
pub struct ElfSegments {
    pub memory: Vec<u8>,
    pub addr: usize,
    pub offset: usize,
}

impl ElfSegments {
    /// The mapping is placed in the address space above its lowest virtual address.
    pub open spec fn wf(&self) -> bool {
        &&& self.offset <= self.addr
        &&& self.addr + self.memory@.len() <= usize::MAX
    }

    /// The load base.
    pub open spec fn spec_base(&self) -> int {
        self.addr - self.offset
    }

    /// The index in `memory` of virtual address `vaddr`.
    pub open spec fn index_of(&self, vaddr: int) -> int {
        vaddr - self.offset
    }

    /// `n` bytes at virtual address `vaddr` lie in the mapping.
    pub open spec fn in_bounds(&self, vaddr: int, n: int) -> bool {
        self.offset <= vaddr && vaddr - self.offset + n <= self.memory@.len()
    }

    /// The bytes of the mapping.
    pub open spec fn bytes(&self) -> Seq<u8> {
        self.memory@
    }

    /// A mapping of the given bytes placed at `addr`, with no offset.
    pub fn new(memory: Vec<u8>, addr: usize) -> (r: ElfSegments)
        requires
            addr + memory@.len() <= usize::MAX,
        ensures
            r.memory@ == memory@,
            r.addr == addr,
            r.offset == 0,
            r.wf(),
    {
        ElfSegments { memory, addr, offset: 0 }
    }

    /// A mapping of the given bytes placed at `addr`, covering the virtual
    /// addresses from `offset` on.
    pub fn with_offset(memory: Vec<u8>, addr: usize, offset: usize) -> (r: ElfSegments)
        requires
            offset <= addr,
            addr + memory@.len() <= usize::MAX,
        ensures
            r.memory@ == memory@,
            r.addr == addr,
            r.offset == offset,
            r.wf(),
    {
        ElfSegments { memory, addr, offset }
    }

    /// The length of the mapping.
    pub fn len(&self) -> (r: usize)
        ensures
            r == self.memory@.len(),
    {
        self.memory.len()
    }

    /// The lowest virtual address covered by the mapping.
    pub fn offset(&self) -> (r: usize)
        ensures
            r == self.offset,
    {
        self.offset
    }

    /// The address the mapping starts at.
    pub fn addr(&self) -> (r: usize)
        ensures
            r == self.addr,
    {
        self.addr
    }

    /// The load base: the address of virtual address zero.
    pub fn base(&self) -> (r: usize)
        requires
            self.wf(),
        ensures
            r == self.spec_base(),
    {
        self.addr - self.offset
    }

    /// The bytes of the mapping.
    pub fn as_slice(&self) -> (r: &[u8])
        ensures
            r@ == self.memory@,
    {
        self.memory.as_slice()
    }

    /// Check that `n` bytes at `vaddr` lie in the mapping; return their index.
    pub fn index_checked(&self, vaddr: usize, n: usize) -> (r: Option<usize>)
        ensures
            r is Some <==> self.in_bounds(vaddr as int, n as int),
            r matches Some(i) ==> i == self.index_of(vaddr as int),
    {
        if vaddr < self.offset {
            return None;
        }
        let idx = vaddr - self.offset;
        if idx > self.memory.len() || n > self.memory.len() - idx {
            return None;
        }
        Some(idx)
    }

    /// Read the `n`-byte little-endian value at virtual address `vaddr`.
    pub fn read_le(&self, vaddr: usize, n: usize) -> (r: Result<u64, Error>)
        requires
            n <= 8,
        ensures
            r is Ok <==> self.in_bounds(vaddr as int, n as int),
            r matches Ok(v) ==> v == le_at(self.memory@, self.index_of(vaddr as int), n as int),
    {
        match self.index_checked(vaddr, n) {
            Some(idx) => Ok(read_le(self.memory.as_slice(), idx, n)),
            None => Err(Error::Mmap { msg: "read outside the mapped image" }),
        }
    }

    /// Write the `n`-byte little-endian encoding of `v` at index `idx` of the mapping.
    fn write_le_idx(&mut self, idx: usize, v: u64, n: usize)
        requires
            n <= 8,
            idx + n <= old(self).memory@.len(),
        ensures
            final(self).memory@ == spec_write_le(old(self).memory@, idx as int, v as nat, n as nat),
            final(self).addr == old(self).addr,
            final(self).offset == old(self).offset,
    {
        let ghost old_mem = self.memory@;
        let mlen = self.memory.len();
        proof { assert(pow256(0) == 1); }
        let mut x = v;
        let mut k: usize = 0;
        while k < n
            invariant
                n <= 8,
                idx + n <= old_mem.len(),
                mlen == old_mem.len(),
                self.memory@.len() == old_mem.len(),
                k <= n,
                x as nat == v as nat / pow256(k as nat),
                forall|i: int| 0 <= i < old_mem.len() ==> #[trigger] self.memory@[i] == (
                    if idx <= i < idx + k { byte_of(v as nat, (i - idx) as nat) } else { old_mem[i] }),
                self.addr == old(self).addr,
                self.offset == old(self).offset,
            decreases n - k,
        {
            proof { lemma_pow256_pos(k as nat); }
            self.memory.set(idx + k, (x % 256) as u8);
            proof {
                assert(pow256((k + 1) as nat) == 256 * pow256(k as nat));
                vstd::arithmetic::div_mod::lemma_div_denominator(v as int, pow256(k as nat) as int, 256);
                vstd::arithmetic::mul::lemma_mul_is_commutative(pow256(k as nat) as int, 256);
            }
            x = x / 256;
            k = k + 1;
        }
        proof {
            assert(self.memory@ =~= spec_write_le(old_mem, idx as int, v as nat, n as nat));
        }
    }

    /// Write the `n`-byte little-endian encoding of `v` at virtual address `vaddr`.
    pub fn write_le(&mut self, vaddr: usize, v: u64, n: usize) -> (r: Result<(), Error>)
        requires
            n <= 8,
        ensures
            r is Ok <==> old(self).in_bounds(vaddr as int, n as int),
            r is Ok ==> final(self).memory@ == spec_write_le(
                old(self).memory@,
                old(self).index_of(vaddr as int),
                v as nat,
                n as nat,
            ),
            r is Err ==> final(self).memory@ == old(self).memory@,
            final(self).addr == old(self).addr,
            final(self).offset == old(self).offset,
    {
        match self.index_checked(vaddr, n) {
            Some(idx) => {
                self.write_le_idx(idx, v, n);
                Ok(())
            },
            None => Err(Error::Mmap { msg: "write outside the mapped image" }),
        }
    }

    /// Copy of the `n` bytes at virtual address `vaddr`.
    pub fn read_bytes(&self, vaddr: usize, n: usize) -> (r: Option<Vec<u8>>)
        ensures
            r is Some <==> self.in_bounds(vaddr as int, n as int),
            r matches Some(v) ==> v@ == self.memory@.subrange(self.index_of(vaddr as int), self.index_of(vaddr as int) + n),
    {
        match self.index_checked(vaddr, n) {
            None => None,
            Some(idx) => {
                let mlen = self.memory.len();
                let mut out: Vec<u8> = Vec::new();
                let mut k: usize = 0;
                while k < n
                    invariant
                        mlen == self.memory@.len(),
                        idx + n <= self.memory@.len(),
                        k <= n,
                        out@ == self.memory@.subrange(idx as int, idx + k),
                    decreases n - k,
                {
                    out.push(self.memory[idx + k]);
                    k = k + 1;
                    proof {
                        assert(out@ =~= self.memory@.subrange(idx as int, idx + k));
                    }
                }
                Some(out)
            },
        }
    }

    /// Copy `bytes` to virtual address `vaddr`.
    pub fn write_bytes(&mut self, vaddr: usize, bytes: &[u8]) -> (r: Result<(), Error>)
        ensures
            r is Ok <==> old(self).in_bounds(vaddr as int, bytes@.len() as int),
            r is Ok ==> final(self).memory@ == spec_write_bytes(old(self).memory@, old(self).index_of(vaddr as int), bytes@),
            r is Err ==> final(self).memory@ == old(self).memory@,
            final(self).addr == old(self).addr,
            final(self).offset == old(self).offset,
    {
        match self.index_checked(vaddr, bytes.len()) {
            Some(idx) => {
                self.write_bytes_idx(idx, bytes);
                Ok(())
            },
            None => Err(Error::Mmap { msg: "write outside the mapped image" }),
        }
    }

    /// `n` bytes at absolute address `addr` lie in the mapping.
    pub open spec fn in_bounds_abs(&self, addr: int, n: int) -> bool {
        self.addr <= addr && addr - self.addr + n <= self.memory@.len()
    }

    /// Write the `n`-byte little-endian encoding of `v` at absolute address `addr`.
    pub fn write_le_abs(&mut self, addr: usize, v: u64, n: usize) -> (r: Result<(), Error>)
        requires
            n <= 8,
        ensures
            r is Ok <==> old(self).in_bounds_abs(addr as int, n as int),
            r is Ok ==> final(self).memory@ == spec_write_le(
                old(self).memory@,
                addr - old(self).addr,
                v as nat,
                n as nat,
            ),
            r is Err ==> final(self).memory@ == old(self).memory@,
            final(self).addr == old(self).addr,
            final(self).offset == old(self).offset,
    {
        if addr < self.addr {
            return Err(Error::Mmap { msg: "write outside the mapped image" });
        }
        let idx = addr - self.addr;
        if idx > self.memory.len() || n > self.memory.len() - idx {
            return Err(Error::Mmap { msg: "write outside the mapped image" });
        }
        self.write_le_idx(idx, v, n);
        Ok(())
    }

    /// Copy `bytes` to absolute address `addr`.
    pub fn write_bytes_abs(&mut self, addr: usize, bytes: &[u8]) -> (r: Result<(), Error>)
        ensures
            r is Ok <==> old(self).in_bounds_abs(addr as int, bytes@.len() as int),
            r is Ok ==> final(self).memory@ == spec_write_bytes(old(self).memory@, addr - old(self).addr, bytes@),
            r is Err ==> final(self).memory@ == old(self).memory@,
            final(self).addr == old(self).addr,
            final(self).offset == old(self).offset,
    {
        let n = bytes.len();
        if addr < self.addr {
            return Err(Error::Mmap { msg: "write outside the mapped image" });
        }
        let idx = addr - self.addr;
        if idx > self.memory.len() || n > self.memory.len() - idx {
            return Err(Error::Mmap { msg: "write outside the mapped image" });
        }
        self.write_bytes_idx(idx, bytes);
        Ok(())
    }

    /// Copy `bytes` to index `idx` of the mapping.
    pub fn write_bytes_idx(&mut self, idx: usize, bytes: &[u8])
        requires
            idx + bytes@.len() <= old(self).memory@.len(),
        ensures
            final(self).memory@ == spec_write_bytes(old(self).memory@, idx as int, bytes@),
            final(self).addr == old(self).addr,
            final(self).offset == old(self).offset,
    {
        let ghost old_mem = self.memory@;
        let n = bytes.len();
        let mlen = self.memory.len();
        let mut k: usize = 0;
        while k < n
            invariant
                mlen == old_mem.len(),
                n == bytes@.len(),
                idx + n <= old_mem.len(),
                self.memory@.len() == old_mem.len(),
                k <= n,
                forall|i: int| 0 <= i < old_mem.len() ==> #[trigger] self.memory@[i] == (
                    if idx <= i < idx + k { bytes@[i - idx] } else { old_mem[i] }),
                self.addr == old(self).addr,
                self.offset == old(self).offset,
            decreases n - k,
        {
            self.memory.set(idx + k, bytes[k]);
            k = k + 1;
        }
        proof {
            assert(self.memory@ =~= spec_write_bytes(old_mem, idx as int, bytes@));
        }
    }

    /// Fill `n` bytes from index `idx` of the mapping with zeros.
    pub fn zero_idx(&mut self, idx: usize, n: usize)
        requires
            idx + n <= old(self).memory@.len(),
        ensures
            final(self).memory@ == spec_fill_zero(old(self).memory@, idx as int, n as int),
            final(self).addr == old(self).addr,
            final(self).offset == old(self).offset,
    {
        let ghost old_mem = self.memory@;
        let mlen = self.memory.len();
        let mut k: usize = 0;
        while k < n
            invariant
                mlen == old_mem.len(),
                idx + n <= old_mem.len(),
                self.memory@.len() == old_mem.len(),
                k <= n,
                forall|i: int| 0 <= i < old_mem.len() ==> #[trigger] self.memory@[i] == (
                    if idx <= i < idx + k { 0u8 } else { old_mem[i] }),
                self.addr == old(self).addr,
                self.offset == old(self).offset,
            decreases n - k,
        {
            self.memory.set(idx + k, 0u8);
            k = k + 1;
        }
        proof {
            assert(self.memory@ =~= spec_fill_zero(old_mem, idx as int, n as int));
        }
    }
}

/// `mem` with the bytes at `idx` replaced by `bytes`.
pub open spec fn spec_write_bytes(mem: Seq<u8>, idx: int, bytes: Seq<u8>) -> Seq<u8> {
    Seq::new(mem.len(), |i: int| if idx <= i < idx + bytes.len() { bytes[i - idx] } else { mem[i] })
}

/// `mem` with `n` bytes from `idx` set to zero.
pub open spec fn spec_fill_zero(mem: Seq<u8>, idx: int, n: int) -> Seq<u8> {
    Seq::new(mem.len(), |i: int| if idx <= i < idx + n { 0u8 } else { mem[i] })
}

/// The range a GNU_RELRO segment protects, and how to protect it.
#[derive(Clone, Copy, Debug, PartialEq, Eq)]
pub struct ELFRelro {
    /// Virtual address of the RELRO segment.
    pub addr: usize,
    /// Size of the RELRO segment.
    pub len: usize,
}

impl ELFRelro {
    /// The RELRO region of `phdr` for an image loaded at `base`.
    pub fn new(phdr: &ElfPhdr, base: usize) -> (r: ELFRelro)
        requires
            base + phdr.p_vaddr <= usize::MAX,
        ensures
            r.addr == base + phdr.p_vaddr,
            r.len == phdr.p_memsz,
    {
        ELFRelro { addr: base + phdr.p_vaddr, len: phdr.p_memsz }
    }

    /// The protection change to make after relocation: the page-aligned
    /// range (start, length) covering the segment becomes read-only.
    pub fn relro(&self) -> (r: (usize, usize, ProtFlags))
        requires
            self.addr + self.len + PAGE_SIZE <= usize::MAX,
        ensures
            r.0 == crate::layout::spec_rounddown(self.addr as int, PAGE_SIZE as int),
            r.0 + r.1 == spec_roundup(self.addr + self.len, PAGE_SIZE as int),
            r.2 == (ProtFlags { bits: crate::mmap::PROT_READ }),
    {
        proof { lemma_page_size_pow2(); }
        let end = roundup(self.addr + self.len, PAGE_SIZE);
        let start = crate::layout::rounddown(self.addr, PAGE_SIZE);
        (start, end - start, ProtFlags::from_bits_retain(crate::mmap::PROT_READ))
    }
}

} // verus!
