//! The ELF64 (little-endian) structures the loader reads, and their decoding
//! from raw bytes.

use vstd::prelude::*;
use crate::error::Error;

verus! {

// Segment types.
pub const PT_NULL: u32 = 0;
pub const PT_LOAD: u32 = 1;
pub const PT_DYNAMIC: u32 = 2;
pub const PT_INTERP: u32 = 3;
pub const PT_PHDR: u32 = 6;
pub const PT_GNU_RELRO: u32 = 0x6474e552;

// Segment permission bits.
pub const PF_X: u32 = 1;
pub const PF_W: u32 = 2;
pub const PF_R: u32 = 4;

// Object file types.
pub const ET_REL: u16 = 1;
pub const ET_EXEC: u16 = 2;
pub const ET_DYN: u16 = 3;

// Section types.
pub const SHT_NULL: u32 = 0;
pub const SHT_PROGBITS: u32 = 1;
pub const SHT_SYMTAB: u32 = 2;
pub const SHT_STRTAB: u32 = 3;
pub const SHT_RELA: u32 = 4;
pub const SHT_NOBITS: u32 = 8;
pub const SHT_REL: u32 = 9;
pub const SHT_INIT_ARRAY: u32 = 14;

// Section flags.
pub const SHF_WRITE: u64 = 1;
pub const SHF_ALLOC: u64 = 2;
pub const SHF_EXECINSTR: u64 = 4;

// Symbol types, bindings and the undefined section index.
pub const STT_NOTYPE: u8 = 0;
pub const STT_OBJECT: u8 = 1;
pub const STT_FUNC: u8 = 2;
pub const STT_SECTION: u8 = 3;
pub const STT_FILE: u8 = 4;
pub const STT_COMMON: u8 = 5;
pub const STT_TLS: u8 = 6;
pub const STT_GNU_IFUNC: u8 = 10;
pub const STB_LOCAL: u8 = 0;
pub const STB_GLOBAL: u8 = 1;
pub const STB_WEAK: u8 = 2;
pub const STB_GNU_UNIQUE: u8 = 10;
pub const SHN_UNDEF: u16 = 0;

// x86-64 relocation types.
pub const REL_NONE: u32 = 0;
pub const REL_SYMBOLIC: u32 = 1;
pub const R_X86_64_PC32: u32 = 2;
pub const R_X86_64_PLT32: u32 = 4;
pub const REL_COPY: u32 = 5;
pub const REL_GOT: u32 = 6;
pub const REL_JUMP_SLOT: u32 = 7;
pub const REL_RELATIVE: u32 = 8;
pub const R_X86_64_GOTPCREL: u32 = 9;
pub const R_X86_64_32: u32 = 10;
pub const R_X86_64_32S: u32 = 11;
pub const REL_DTPOFF: u32 = 17;
pub const REL_IRELATIVE: u32 = 37;
pub const R_X86_64_GOTPCRELX: u32 = 41;
pub const R_X86_64_REX_GOTPCRELX: u32 = 42;

/// Offset subtracted from TLS offsets written by `REL_DTPOFF`.
pub const TLS_DTV_OFFSET: usize = 0;

/// Sizes of the on-disk records.
pub const EHDR_SIZE: usize = 64;
pub const PHDR_SIZE: usize = 56;
pub const SHDR_SIZE: usize = 64;
pub const SYM_SIZE: usize = 24;
pub const RELA_SIZE: usize = 24;
pub const DYN_SIZE: usize = 16;

/// Little-endian value of the bytes `s` (least significant first).
pub open spec fn le_value(s: Seq<u8>) -> nat
    decreases s.len(),
{
    if s.len() == 0 {
        0
    } else {
        s[0] as nat + 256 * le_value(s.drop_first())
    }
}

/// `256` raised to `k`.
pub open spec fn pow256(k: nat) -> nat
    decreases k,
{
    if k == 0 { 1 } else { 256 * pow256((k - 1) as nat) }
}

proof fn lemma_le_value_bound(s: Seq<u8>)
    ensures
        le_value(s) < pow256(s.len()),
    decreases s.len(),
{
    if s.len() > 0 {
        lemma_le_value_bound(s.drop_first());
    }
}

/// A value of `n` bytes is below `256^n`; four bytes are below `2^32`.
pub proof fn lemma_le_at_bound(b: Seq<u8>, off: int, n: int)
    requires
        0 <= off,
        0 <= n,
        off + n <= b.len(),
    ensures
        le_at(b, off, n) < pow256(n as nat),
        n == 4 ==> le_at(b, off, n) < 0x1_0000_0000,
{
    lemma_le_value_bound(b.subrange(off, off + n));
    reveal_with_fuel(pow256, 5);
}

/// Little-endian value of `n` bytes of `b` starting at `off`.
pub open spec fn le_at(b: Seq<u8>, off: int, n: int) -> nat {
    le_value(b.subrange(off, off + n))
}

/// Decode the `n`-byte little-endian unsigned integer at `off`.
pub fn read_le(b: &[u8], off: usize, n: usize) -> (v: u64)
    requires
        n <= 8,
        off + n <= b@.len(),
    ensures
        v == le_at(b@, off as int, n as int),
{
    let len = b.len();
    let mut v: u64 = 0;
    let mut i: usize = n;
    proof {
        assert(b@.subrange(off + n, off + n) =~= Seq::<u8>::empty());
    }
    while i > 0
        invariant
            n <= 8,
            len == b@.len(),
            off + n <= len,
            i <= n,
            v == le_value(b@.subrange(off + i, off + n)),
            v < pow256((n - i) as nat),
        decreases i,
    {
        let ghost old_v = v;
        proof {
            lemma_pow256_bound((n - i) as nat);
        }
        i = i - 1;
        let byte = b[off + i];
        v = v * 256 + byte as u64;
        proof {
            let s = b@.subrange(off + i, off + n);
            assert(s.drop_first() =~= b@.subrange(off + i + 1, off + n));
            assert(s[0] == byte);
        }
    }
    v
}

proof fn lemma_pow256_bound(k: nat)
    requires
        k < 8,
    ensures
        pow256(k) * 256 <= 0x1_0000_0000_0000_0000,
{
    reveal_with_fuel(pow256, 9);
    if k == 0 {} else if k == 1 {} else if k == 2 {} else if k == 3 {}
    else if k == 4 {} else if k == 5 {} else if k == 6 {} else {}
}

} // verus!

verus! {

proof fn lemma_le_bounds(b: Seq<u8>, off: int)
    requires
        0 <= off,
    ensures
        off + 2 <= b.len() ==> le_at(b, off, 2) < 0x1_0000,
        off + 4 <= b.len() ==> le_at(b, off, 4) < 0x1_0000_0000,
        off + 8 <= b.len() ==> le_at(b, off, 8) < 0x1_0000_0000_0000_0000,
        off + 1 <= b.len() ==> le_at(b, off, 1) == b[off],
{
    reveal_with_fuel(pow256, 9);
    if off + 2 <= b.len() {
        lemma_le_value_bound(b.subrange(off, off + 2));
    }
    if off + 4 <= b.len() {
        lemma_le_value_bound(b.subrange(off, off + 4));
    }
    if off + 8 <= b.len() {
        lemma_le_value_bound(b.subrange(off, off + 8));
    }
    if off + 1 <= b.len() {
        let s = b.subrange(off, off + 1);
        assert(s.drop_first() =~= Seq::<u8>::empty());
        reveal_with_fuel(le_value, 2);
    }
}

/// Decode the byte at `off`.
pub fn read_u8(b: &[u8], off: usize) -> (v: u8)
    requires
        off + 1 <= b@.len(),
    ensures
        v == le_at(b@, off as int, 1),
        v == b@[off as int],
{
    proof { lemma_le_bounds(b@, off as int); }
    b[off]
}

/// Decode the little-endian `u16` at `off`.
pub fn read_u16(b: &[u8], off: usize) -> (v: u16)
    requires
        off + 2 <= b@.len(),
    ensures
        v == le_at(b@, off as int, 2),
{
    proof { lemma_le_bounds(b@, off as int); }
    read_le(b, off, 2) as u16
}

/// Decode the little-endian `u32` at `off`.
pub fn read_u32(b: &[u8], off: usize) -> (v: u32)
    requires
        off + 4 <= b@.len(),
    ensures
        v == le_at(b@, off as int, 4),
{
    proof { lemma_le_bounds(b@, off as int); }
    read_le(b, off, 4) as u32
}

/// Decode the little-endian `u64` at `off`.
pub fn read_u64(b: &[u8], off: usize) -> (v: u64)
    requires
        off + 8 <= b@.len(),
    ensures
        v == le_at(b@, off as int, 8),
{
    read_le(b, off, 8)
}

/// The 8-byte field at `off` as an address-sized value, when it fits.
pub open spec fn spec_usize_at(b: Seq<u8>, off: int) -> Option<usize> {
    if le_at(b, off, 8) <= usize::MAX {
        Some(le_at(b, off, 8) as usize)
    } else {
        None
    }
}

/// Decode the 8-byte field at `off` as a `usize`; `None` when it does not fit.
pub fn read_usize(b: &[u8], off: usize) -> (v: Option<usize>)
    requires
        off + 8 <= b@.len(),
    ensures
        v == spec_usize_at(b@, off as int),
{
    let x = read_u64(b, off);
    if x <= usize::MAX as u64 {
        Some(x as usize)
    } else {
        None
    }
}

/// Two's-complement reading of a 64-bit pattern.
pub open spec fn spec_i64_of(v: nat) -> int {
    if v < 0x8000_0000_0000_0000 { v as int } else { v - 0x1_0000_0000_0000_0000 }
}

/// Decode the little-endian `i64` at `off`.
pub fn read_i64(b: &[u8], off: usize) -> (v: i64)
    requires
        off + 8 <= b@.len(),
    ensures
        v == spec_i64_of(le_at(b@, off as int, 8)),
{
    proof { lemma_le_bounds(b@, off as int); }
    let x = read_u64(b, off);
    if x < 0x8000_0000_0000_0000 {
        x as i64
    } else {
        let y = (0xffff_ffff_ffff_ffffu64 - x) as i64;
        -y - 1
    }
}

} // verus!

verus! {

/// A program header (`Elf64_Phdr`).
#[derive(Debug, Clone, Copy, PartialEq, Eq)]
pub struct ElfPhdr {
    pub p_type: u32,
    pub p_flags: u32,
    pub p_offset: usize,
    pub p_vaddr: usize,
    pub p_paddr: usize,
    pub p_filesz: usize,
    pub p_memsz: usize,
    pub p_align: usize,
}

/// The program header encoded at `off`, when its address fields fit a `usize`.
pub open spec fn spec_phdr_at(b: Seq<u8>, off: int) -> Option<ElfPhdr> {
    if spec_usize_at(b, off + 8) is Some && spec_usize_at(b, off + 16) is Some
        && spec_usize_at(b, off + 24) is Some && spec_usize_at(b, off + 32) is Some
        && spec_usize_at(b, off + 40) is Some && spec_usize_at(b, off + 48) is Some {
        Some(ElfPhdr {
            p_type: le_at(b, off, 4) as u32,
            p_flags: le_at(b, off + 4, 4) as u32,
            p_offset: spec_usize_at(b, off + 8)->0,
            p_vaddr: spec_usize_at(b, off + 16)->0,
            p_paddr: spec_usize_at(b, off + 24)->0,
            p_filesz: spec_usize_at(b, off + 32)->0,
            p_memsz: spec_usize_at(b, off + 40)->0,
            p_align: spec_usize_at(b, off + 48)->0,
        })
    } else {
        None
    }
}

impl ElfPhdr {
    /// Decode the program header stored at `off`.
    pub fn parse(b: &[u8], off: usize) -> (r: Result<ElfPhdr, Error>)
        requires
            off + PHDR_SIZE <= b@.len(),
        ensures
            r matches Ok(p) ==> spec_phdr_at(b@, off as int) == Some(p),
            r is Err <==> spec_phdr_at(b@, off as int) is None,
    {
        let _blen = b.len();
        let p_type = read_u32(b, off);
        let p_flags = read_u32(b, off + 4);
        let p_offset = read_usize(b, off + 8);
        let p_vaddr = read_usize(b, off + 16);
        let p_paddr = read_usize(b, off + 24);
        let p_filesz = read_usize(b, off + 32);
        let p_memsz = read_usize(b, off + 40);
        let p_align = read_usize(b, off + 48);
        match (p_offset, p_vaddr, p_paddr, p_filesz, p_memsz, p_align) {
            (Some(p_offset), Some(p_vaddr), Some(p_paddr), Some(p_filesz), Some(p_memsz), Some(p_align)) => {
                Ok(ElfPhdr { p_type, p_flags, p_offset, p_vaddr, p_paddr, p_filesz, p_memsz, p_align })
            },
            _ => Err(Error::ParsePhdr { msg: "program header field out of range" }),
        }
    }
}

/// A section header (`Elf64_Shdr`).
#[derive(Debug, Clone, Copy, PartialEq, Eq)]
pub struct ElfShdr {
    pub sh_name: u32,
    pub sh_type: u32,
    pub sh_flags: usize,
    pub sh_addr: usize,
    pub sh_offset: usize,
    pub sh_size: usize,
    pub sh_link: u32,
    pub sh_info: u32,
    pub sh_addralign: usize,
    pub sh_entsize: usize,
}

/// The section header encoded at `off`, when its fields fit a `usize`.
pub open spec fn spec_shdr_at(b: Seq<u8>, off: int) -> Option<ElfShdr> {
    if spec_usize_at(b, off + 8) is Some && spec_usize_at(b, off + 16) is Some
        && spec_usize_at(b, off + 24) is Some && spec_usize_at(b, off + 32) is Some
        && spec_usize_at(b, off + 48) is Some && spec_usize_at(b, off + 56) is Some {
        Some(ElfShdr {
            sh_name: le_at(b, off, 4) as u32,
            sh_type: le_at(b, off + 4, 4) as u32,
            sh_flags: spec_usize_at(b, off + 8)->0,
            sh_addr: spec_usize_at(b, off + 16)->0,
            sh_offset: spec_usize_at(b, off + 24)->0,
            sh_size: spec_usize_at(b, off + 32)->0,
            sh_link: le_at(b, off + 40, 4) as u32,
            sh_info: le_at(b, off + 44, 4) as u32,
            sh_addralign: spec_usize_at(b, off + 48)->0,
            sh_entsize: spec_usize_at(b, off + 56)->0,
        })
    } else {
        None
    }
}

impl ElfShdr {
    /// Build a section header from its fields.
    pub fn new(
        sh_name: u32,
        sh_type: u32,
        sh_flags: usize,
        sh_addr: usize,
        sh_offset: usize,
        sh_size: usize,
        sh_link: u32,
        sh_info: u32,
        sh_addralign: usize,
        sh_entsize: usize,
    ) -> (r: ElfShdr)
        ensures
            r == (ElfShdr {
                sh_name, sh_type, sh_flags, sh_addr, sh_offset, sh_size, sh_link, sh_info,
                sh_addralign, sh_entsize,
            }),
    {
        ElfShdr {
            sh_name, sh_type, sh_flags, sh_addr, sh_offset, sh_size, sh_link, sh_info,
            sh_addralign, sh_entsize,
        }
    }

    /// Decode the section header stored at `off`.
    pub fn parse(b: &[u8], off: usize) -> (r: Result<ElfShdr, Error>)
        requires
            off + SHDR_SIZE <= b@.len(),
        ensures
            r matches Ok(s) ==> spec_shdr_at(b@, off as int) == Some(s),
            r is Err <==> spec_shdr_at(b@, off as int) is None,
    {
        let _blen = b.len();
        let sh_name = read_u32(b, off);
        let sh_type = read_u32(b, off + 4);
        let sh_flags = read_usize(b, off + 8);
        let sh_addr = read_usize(b, off + 16);
        let sh_offset = read_usize(b, off + 24);
        let sh_size = read_usize(b, off + 32);
        let sh_link = read_u32(b, off + 40);
        let sh_info = read_u32(b, off + 44);
        let sh_addralign = read_usize(b, off + 48);
        let sh_entsize = read_usize(b, off + 56);
        match (sh_flags, sh_addr, sh_offset, sh_size, sh_addralign, sh_entsize) {
            (Some(sh_flags), Some(sh_addr), Some(sh_offset), Some(sh_size), Some(sh_addralign), Some(sh_entsize)) => {
                Ok(ElfShdr {
                    sh_name, sh_type, sh_flags, sh_addr, sh_offset, sh_size, sh_link, sh_info,
                    sh_addralign, sh_entsize,
                })
            },
            _ => Err(Error::ParseShdr { msg: "section header field out of range" }),
        }
    }
}

/// A symbol table entry (`Elf64_Sym`).
#[derive(Debug, Clone, Copy, PartialEq, Eq)]
pub struct ElfSymbol {
    pub st_name: u32,
    pub st_info: u8,
    pub st_other: u8,
    pub st_shndx: u16,
    pub st_value: usize,
    pub st_size: usize,
}

/// The symbol encoded at `off`, when its fields fit a `usize`.
pub open spec fn spec_sym_at(b: Seq<u8>, off: int) -> Option<ElfSymbol> {
    if spec_usize_at(b, off + 8) is Some && spec_usize_at(b, off + 16) is Some {
        Some(ElfSymbol {
            st_name: le_at(b, off, 4) as u32,
            st_info: b[off + 4],
            st_other: b[off + 5],
            st_shndx: le_at(b, off + 6, 2) as u16,
            st_value: spec_usize_at(b, off + 8)->0,
            st_size: spec_usize_at(b, off + 16)->0,
        })
    } else {
        None
    }
}

/// A symbol read from part of a byte sequence is the symbol read from the
/// whole at the corresponding offset.
pub proof fn lemma_sym_sub(c: Seq<u8>, start: int, len: int, off: int)
    requires
        0 <= start,
        start + len <= c.len(),
        0 <= off,
        off + SYM_SIZE <= len,
    ensures
        spec_sym_at(c.subrange(start, start + len), off) == spec_sym_at(c, start + off),
{
    let b = c.subrange(start, start + len);
    assert(b.subrange(off, off + 4) =~= c.subrange(start + off, start + off + 4));
    assert(b[off + 4] == c[start + off + 4]);
    assert(b[off + 5] == c[start + off + 5]);
    assert(b.subrange(off + 6, off + 8) =~= c.subrange(start + off + 6, start + off + 8));
    assert(b.subrange(off + 8, off + 16) =~= c.subrange(start + off + 8, start + off + 16));
    assert(b.subrange(off + 16, off + 24) =~= c.subrange(start + off + 16, start + off + 24));
}

impl ElfSymbol {
    /// Decode the symbol stored at `off`.
    pub fn parse(b: &[u8], off: usize) -> (r: Result<ElfSymbol, Error>)
        requires
            off + SYM_SIZE <= b@.len(),
        ensures
            r matches Ok(s) ==> spec_sym_at(b@, off as int) == Some(s),
            r is Err <==> spec_sym_at(b@, off as int) is None,
    {
        let _blen = b.len();
        let st_name = read_u32(b, off);
        let st_info = read_u8(b, off + 4);
        let st_other = read_u8(b, off + 5);
        let st_shndx = read_u16(b, off + 6);
        let st_value = read_usize(b, off + 8);
        let st_size = read_usize(b, off + 16);
        match (st_value, st_size) {
            (Some(st_value), Some(st_size)) => {
                Ok(ElfSymbol { st_name, st_info, st_other, st_shndx, st_value, st_size })
            },
            _ => Err(Error::ParseShdr { msg: "symbol field out of range" }),
        }
    }

    pub open spec fn spec_type(&self) -> u8 {
        self.st_info % 16
    }

    pub open spec fn spec_bind(&self) -> u8 {
        self.st_info / 16
    }

    /// The symbol's type (`STT_*`).
    pub fn st_type(&self) -> (r: u8)
        ensures
            r == self.spec_type(),
    {
        self.st_info % 16
    }

    /// The symbol's binding (`STB_*`).
    pub fn st_bind(&self) -> (r: u8)
        ensures
            r == self.spec_bind(),
    {
        self.st_info / 16
    }

    /// The symbol's name offset in the string table.
    pub fn st_name(&self) -> (r: usize)
        ensures
            r == self.st_name,
    {
        self.st_name as usize
    }

    /// The symbol's value.
    pub fn st_value(&self) -> (r: usize)
        ensures
            r == self.st_value,
    {
        self.st_value
    }

    /// The symbol's size.
    pub fn st_size(&self) -> (r: usize)
        ensures
            r == self.st_size,
    {
        self.st_size
    }

    /// The index of the section the symbol is defined in.
    pub fn st_shndx(&self) -> (r: usize)
        ensures
            r == self.st_shndx,
    {
        self.st_shndx as usize
    }

    /// Replace the symbol's value.
    pub fn set_value(&mut self, value: usize)
        ensures
            *final(self) == (ElfSymbol { st_value: value, ..*old(self) }),
    {
        self.st_value = value;
    }

    pub open spec fn spec_is_undef(&self) -> bool {
        self.st_shndx == SHN_UNDEF
    }

    pub open spec fn spec_is_local(&self) -> bool {
        self.spec_bind() == STB_LOCAL
    }

    pub open spec fn spec_is_weak(&self) -> bool {
        self.spec_bind() == STB_WEAK
    }

    /// Bindings that may satisfy a reference from another object.
    pub open spec fn spec_is_ok_bind(&self) -> bool {
        self.spec_bind() == STB_GLOBAL || self.spec_bind() == STB_WEAK
            || self.spec_bind() == STB_GNU_UNIQUE
    }

    /// Types that may satisfy a reference from another object.
    pub open spec fn spec_is_ok_type(&self) -> bool {
        let t = self.spec_type();
        t == STT_NOTYPE || t == STT_OBJECT || t == STT_FUNC || t == STT_COMMON || t == STT_TLS
            || t == STT_GNU_IFUNC
    }

    /// The symbol is not defined in this object.
    pub fn is_undef(&self) -> (r: bool)
        ensures
            r == self.spec_is_undef(),
    {
        self.st_shndx == SHN_UNDEF
    }

    /// The symbol has local binding.
    pub fn is_local(&self) -> (r: bool)
        ensures
            r == self.spec_is_local(),
    {
        self.st_bind() == STB_LOCAL
    }

    /// The symbol has weak binding.
    pub fn is_weak(&self) -> (r: bool)
        ensures
            r == self.spec_is_weak(),
    {
        self.st_bind() == STB_WEAK
    }

    /// The binding allows the symbol to resolve references from other objects.
    pub fn is_ok_bind(&self) -> (r: bool)
        ensures
            r == self.spec_is_ok_bind(),
    {
        let b = self.st_bind();
        b == STB_GLOBAL || b == STB_WEAK || b == STB_GNU_UNIQUE
    }

    /// The type allows the symbol to resolve references from other objects.
    pub fn is_ok_type(&self) -> (r: bool)
        ensures
            r == self.spec_is_ok_type(),
    {
        let t = self.st_type();
        t == STT_NOTYPE || t == STT_OBJECT || t == STT_FUNC || t == STT_COMMON || t == STT_TLS
            || t == STT_GNU_IFUNC
    }
}

/// A relocation entry with addend (`Elf64_Rela`).
#[derive(Debug, Clone, Copy, PartialEq, Eq)]
pub struct ElfRelType {
    pub r_offset: usize,
    pub r_info: u64,
    pub r_addend: i64,
}

/// The relocation entry encoded at `off`, when its offset fits a `usize`.
pub open spec fn spec_rela_at(b: Seq<u8>, off: int) -> Option<ElfRelType> {
    if spec_usize_at(b, off) is Some {
        Some(ElfRelType {
            r_offset: spec_usize_at(b, off)->0,
            r_info: le_at(b, off + 8, 8) as u64,
            r_addend: spec_i64_of(le_at(b, off + 16, 8)) as i64,
        })
    } else {
        None
    }
}

impl ElfRelType {
    /// Decode the relocation entry stored at `off`.
    pub fn parse(b: &[u8], off: usize) -> (r: Result<ElfRelType, Error>)
        requires
            off + RELA_SIZE <= b@.len(),
        ensures
            r matches Ok(e) ==> spec_rela_at(b@, off as int) == Some(e),
            r is Err <==> spec_rela_at(b@, off as int) is None,
    {
        let _blen = b.len();
        let r_offset = read_usize(b, off);
        let r_info = read_u64(b, off + 8);
        let r_addend = read_i64(b, off + 16);
        match r_offset {
            Some(r_offset) => Ok(ElfRelType { r_offset, r_info, r_addend }),
            None => Err(Error::ParseDynamic { msg: "relocation offset out of range" }),
        }
    }

    pub open spec fn spec_r_type(&self) -> u32 {
        (self.r_info % 0x1_0000_0000) as u32
    }

    pub open spec fn spec_r_sym(&self) -> usize {
        (self.r_info / 0x1_0000_0000) as usize
    }

    /// The relocation type.
    pub fn r_type(&self) -> (r: u32)
        ensures
            r == self.spec_r_type(),
    {
        (self.r_info % 0x1_0000_0000) as u32
    }

    /// The index of the symbol the relocation refers to.
    pub fn r_symbol(&self) -> (r: usize)
        ensures
            r == self.spec_r_sym(),
    {
        (self.r_info / 0x1_0000_0000) as usize
    }

    /// The place the relocation patches, relative to the load base.
    pub fn r_offset(&self) -> (r: usize)
        ensures
            r == self.r_offset,
    {
        self.r_offset
    }

    /// The relocation addend.
    pub fn r_addend(&self) -> (r: i64)
        ensures
            r == self.r_addend,
    {
        self.r_addend
    }

    /// Replace the place the relocation patches.
    pub fn set_offset(&mut self, offset: usize)
        ensures
            *final(self) == (ElfRelType { r_offset: offset, ..*old(self) }),
    {
        self.r_offset = offset;
    }
}

} // verus!

verus! {

/// `e_machine` value of the architecture the loader relocates for (x86-64).
pub const EM_ARCH: u16 = 62;

/// The ELF file header (`Elf64_Ehdr`).
#[derive(Debug, Clone, Copy, PartialEq, Eq)]
pub struct ElfHeader {
    pub e_type: u16,
    pub e_machine: u16,
    pub e_version: u32,
    pub e_entry: usize,
    pub e_phoff: usize,
    pub e_shoff: usize,
    pub e_flags: u32,
    pub e_ehsize: u16,
    pub e_phentsize: u16,
    pub e_phnum: u16,
    pub e_shentsize: u16,
    pub e_shnum: u16,
    pub e_shstrndx: u16,
}

/// The identification bytes announce a 64-bit little-endian ELF file.
pub open spec fn spec_ident_ok(b: Seq<u8>) -> bool {
    &&& b[0] == 0x7f && b[1] == 0x45 && b[2] == 0x4c && b[3] == 0x46
    &&& b[4] == 2
    &&& b[5] == 1
}

/// The header encoded at the start of `b`, without its validity checks.
pub open spec fn spec_ehdr_fields(b: Seq<u8>) -> ElfHeader {
    ElfHeader {
        e_type: le_at(b, 16, 2) as u16,
        e_machine: le_at(b, 18, 2) as u16,
        e_version: le_at(b, 20, 4) as u32,
        e_entry: spec_usize_at(b, 24)->0,
        e_phoff: spec_usize_at(b, 32)->0,
        e_shoff: spec_usize_at(b, 40)->0,
        e_flags: le_at(b, 48, 4) as u32,
        e_ehsize: le_at(b, 52, 2) as u16,
        e_phentsize: le_at(b, 54, 2) as u16,
        e_phnum: le_at(b, 56, 2) as u16,
        e_shentsize: le_at(b, 58, 2) as u16,
        e_shnum: le_at(b, 60, 2) as u16,
        e_shstrndx: le_at(b, 62, 2) as u16,
    }
}

/// The header of `b` is one the loader accepts.
pub open spec fn spec_ehdr_valid(b: Seq<u8>) -> bool {
    &&& spec_ident_ok(b)
    &&& le_at(b, 18, 2) == EM_ARCH
    &&& spec_usize_at(b, 24) is Some
    &&& spec_usize_at(b, 32) is Some
    &&& spec_usize_at(b, 40) is Some
    &&& spec_ehdr_fields(b).wf()
}

impl ElfHeader {
    /// The program and section header tables lie within the address range.
    pub open spec fn wf(&self) -> bool {
        &&& self.e_phoff + self.e_phnum * PHDR_SIZE <= usize::MAX
        &&& self.e_shoff + self.e_shnum * SHDR_SIZE <= usize::MAX
    }

    /// Decode and validate the header at the start of `b`.
    pub fn parse(b: &[u8]) -> (r: Result<ElfHeader, Error>)
        requires
            EHDR_SIZE <= b@.len(),
        ensures
            r matches Ok(h) ==> h == spec_ehdr_fields(b@) && h.wf(),
            r is Ok <==> spec_ehdr_valid(b@),
    {
        let _blen = b.len();
        if !(b[0] == 0x7f && b[1] == 0x45 && b[2] == 0x4c && b[3] == 0x46) {
            return Err(Error::ParseEhdr { msg: "invalid ELF magic" });
        }
        if b[4] != 2 {
            return Err(Error::ParseEhdr { msg: "file class mismatch" });
        }
        if b[5] != 1 {
            return Err(Error::ParseEhdr { msg: "file endianness mismatch" });
        }
        let e_machine = read_u16(b, 18);
        if e_machine != EM_ARCH {
            return Err(Error::ParseEhdr { msg: "file arch mismatch" });
        }
        let e_type = read_u16(b, 16);
        let e_version = read_u32(b, 20);
        let e_entry = read_usize(b, 24);
        let e_phoff = read_usize(b, 32);
        let e_shoff = read_usize(b, 40);
        let e_flags = read_u32(b, 48);
        let e_ehsize = read_u16(b, 52);
        let e_phentsize = read_u16(b, 54);
        let e_phnum = read_u16(b, 56);
        let e_shentsize = read_u16(b, 58);
        let e_shnum = read_u16(b, 60);
        let e_shstrndx = read_u16(b, 62);
        let (e_entry, e_phoff, e_shoff) = match (e_entry, e_phoff, e_shoff) {
            (Some(a), Some(c), Some(d)) => (a, c, d),
            _ => { return Err(Error::ParseEhdr { msg: "header field out of range" }); },
        };
        let phsize = e_phnum as usize * PHDR_SIZE;
        let shsize = e_shnum as usize * SHDR_SIZE;
        if e_phoff > usize::MAX - phsize || e_shoff > usize::MAX - shsize {
            return Err(Error::ParseEhdr { msg: "header table out of range" });
        }
        Ok(ElfHeader {
            e_type, e_machine, e_version, e_entry, e_phoff, e_shoff, e_flags, e_ehsize,
            e_phentsize, e_phnum, e_shentsize, e_shnum, e_shstrndx,
        })
    }

    /// The object is a shared library (`ET_DYN`).
    pub fn is_dylib(&self) -> (r: bool)
        ensures
            r == (self.e_type == ET_DYN),
    {
        self.e_type == ET_DYN
    }

    /// The object is an executable (`ET_EXEC` or a position-independent `ET_DYN`).
    pub fn is_executable(&self) -> (r: bool)
        ensures
            r == (self.e_type == ET_EXEC || self.e_type == ET_DYN),
    {
        self.e_type == ET_EXEC || self.e_type == ET_DYN
    }

    /// The number of program headers.
    pub fn e_phnum(&self) -> (r: usize)
        ensures
            r == self.e_phnum,
    {
        self.e_phnum as usize
    }

    /// The number of section headers.
    pub fn e_shnum(&self) -> (r: usize)
        ensures
            r == self.e_shnum,
    {
        self.e_shnum as usize
    }

    /// The byte range of the program header table in the file.
    pub fn phdr_range(&self) -> (r: (usize, usize))
        requires
            self.wf(),
        ensures
            r.0 == self.e_phoff,
            r.1 == self.e_phoff + self.e_phnum * PHDR_SIZE,
    {
        (self.e_phoff, self.e_phoff + self.e_phnum as usize * PHDR_SIZE)
    }

    /// The byte range of the section header table in the file.
    pub fn shdr_range(&self) -> (r: (usize, usize))
        requires
            self.wf(),
        ensures
            r.0 == self.e_shoff,
            r.1 == self.e_shoff + self.e_shnum * SHDR_SIZE,
    {
        (self.e_shoff, self.e_shoff + self.e_shnum as usize * SHDR_SIZE)
    }
}

} // verus!
