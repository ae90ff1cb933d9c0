//! Preparing a loaded relocatable object for relocation.
//!
//! Once the sections of an object are laid out and their contents are in
//! its image, the section addresses are made absolute, the symbols get the
//! addresses of their sections added to their values, and the relocation
//! entries get the addresses of the sections they patch added to their
//! offsets.

use vstd::prelude::*;
use crate::elf::{
    spec_rela_at, spec_sym_at, ElfRelType, ElfShdr, ElfSymbol, RELA_SIZE, SHN_UNDEF,
    SHT_INIT_ARRAY, SHT_REL, SHT_RELA, SHT_SYMTAB, STT_FILE, SYM_SIZE,
};
use crate::error::Error;
use crate::relocation::dynamic::spec_read_bytes;
use crate::segment::ElfSegments;
use crate::segment::section::{is_rel_section, PltGotSection};
use crate::symbol::{ElfStringTable, SymbolTable};

verus! {

/// The bytes of section `sh` in an image from virtual address `off`.
pub open spec fn section_bytes(mem: Seq<u8>, off: usize, sh: ElfShdr) -> Option<Seq<u8>> {
    spec_read_bytes(mem, off, sh.sh_addr, sh.sh_size)
}

/// The relocation entry `rel` of a section that patches the section at
/// `sec_addr`: its offset becomes an address in the image.
pub open spec fn adjust_rel(sec_addr: usize, rel: ElfRelType) -> ElfRelType {
    ElfRelType { r_offset: vstd::wrapping::usize_specs::wrapping_add(sec_addr, rel.r_offset), ..rel }
}

/// The entries of relocation section `i` of `s`, with their offsets made
/// image addresses; none when the section it patches does not exist or
/// its entries cannot be read.
pub open spec fn spec_rel_list(s: Seq<ElfShdr>, mem: Seq<u8>, off: usize, i: int) -> Option<Seq<ElfRelType>> {
    match section_bytes(mem, off, s[i]) {
        Some(b) => {
            let n = b.len() as int / (RELA_SIZE as int);
            if s[i].sh_info < s.len() && forall|e: int| 0 <= e < n ==> #[trigger] spec_rela_at(b, e * RELA_SIZE) is Some {
                Some(Seq::new(n as nat, |e: int| adjust_rel(s[s[i].sh_info as int].sh_addr, spec_rela_at(b, e * RELA_SIZE)->0)))
            } else {
                None
            }
        },
        None => None,
    }
}

/// The entry lists of the relocation sections among the first `k` sections.
pub open spec fn spec_rel_lists(s: Seq<ElfShdr>, mem: Seq<u8>, off: usize, k: int) -> Option<Seq<Seq<ElfRelType>>>
    decreases k,
{
    if k <= 0 {
        Some(Seq::empty())
    } else {
        match spec_rel_lists(s, mem, off, k - 1) {
            Some(ls) => if is_rel_section(s[k - 1]) {
                match spec_rel_list(s, mem, off, k - 1) {
                    Some(l) => Some(ls.push(l)),
                    None => None,
                }
            } else {
                Some(ls)
            },
            None => None,
        }
    }
}

/// The symbol `sym` of an object whose sections are `s`: a defined symbol
/// that is not a file name gets its section's address added to its value;
/// none when that section does not exist.
pub open spec fn adjust_sym(s: Seq<ElfShdr>, sym: ElfSymbol) -> Option<ElfSymbol> {
    if sym.spec_type() == STT_FILE || sym.st_shndx == SHN_UNDEF {
        Some(sym)
    } else if (sym.st_shndx as int) < s.len() {
        Some(ElfSymbol {
            st_value: vstd::wrapping::usize_specs::wrapping_add(s[sym.st_shndx as int].sh_addr, sym.st_value),
            ..sym
        })
    } else {
        None
    }
}

/// The last section among the first `k` of type `ty`.
pub open spec fn last_of_type(s: Seq<ElfShdr>, ty: u32, k: int) -> Option<int>
    decreases k,
{
    if k <= 0 {
        None
    } else if s[k - 1].sh_type == ty {
        Some(k - 1)
    } else {
        last_of_type(s, ty, k - 1)
    }
}

/// The symbols and string table of symbol table section `i` of `s`, with
/// adjusted values; none when they cannot be read.
pub open spec fn spec_symtab(s: Seq<ElfShdr>, mem: Seq<u8>, off: usize, i: int) -> Option<(Seq<ElfSymbol>, Seq<u8>)> {
    match section_bytes(mem, off, s[i]) {
        Some(b) => {
            let n = b.len() as int / (SYM_SIZE as int);
            if s[i].sh_link < s.len() && section_bytes(mem, off, s[s[i].sh_link as int]) is Some
                && forall|e: int| 0 <= e < n ==> #[trigger] spec_sym_at(b, e * SYM_SIZE) is Some
                    && adjust_sym(s, spec_sym_at(b, e * SYM_SIZE)->0) is Some {
                Some((
                    Seq::new(n as nat, |e: int| adjust_sym(s, spec_sym_at(b, e * SYM_SIZE)->0)->0),
                    section_bytes(mem, off, s[s[i].sh_link as int])->0,
                ))
            } else {
                None
            }
        },
        None => None,
    }
}

/// A relocatable object ready for relocation: its symbols, its relocation
/// entry lists, and the address and length of its initialiser array.
pub struct ObjectBuilder {
    pub symtab: SymbolTable,
    pub relocation: Vec<Vec<ElfRelType>>,
    pub init_array: Option<(usize, usize)>,
}

/// `b` holds what the sections `s` of the image `mem` placed at `base` give:
/// the entry lists of the relocation sections, the symbols and strings of
/// the last symbol table, and the address and number of the initialisers
/// of the last initialiser array.
pub open spec fn built_from(s: Seq<ElfShdr>, mem: Seq<u8>, base: usize, b: ObjectBuilder) -> bool {
    &&& spec_rel_lists(s, mem, 0, s.len() as int) matches Some(ls)
        && b.relocation@.len() == ls.len()
        && forall|j: int| 0 <= j < ls.len() ==> #[trigger] b.relocation@[j]@ == ls[j]
    &&& last_of_type(s, SHT_SYMTAB, s.len() as int) matches Some(i)
        && spec_symtab(s, mem, 0, i) == Some((b.symtab.symbols@, b.symtab.strtab.data@))
    &&& b.init_array == match last_of_type(s, SHT_INIT_ARRAY, s.len() as int) {
        Some(i) => Some(((s[i].sh_addr + base) as usize, s[i].sh_size / 8)),
        None => None,
    }
}

/// The PLT and GOT `g` moved by the load base `base` into `h`: its tables
/// start `base` further on, and their slots and sizes stay.
pub open spec fn pltgot_moved(g: PltGotSection, h: PltGotSection, base: usize) -> bool {
    &&& h.wf()
    &&& h.got_base == g.got_base + base
    &&& h.plt_base == g.plt_base + base
    &&& h.pltgot_base == g.pltgot_base + base
    &&& h.got_slots() == g.got_slots()
    &&& h.plt_slots() == g.plt_slots()
    &&& h.cur_got_idx == g.cur_got_idx
    &&& h.cur_plt_idx == g.cur_plt_idx
    &&& h.got_size == g.got_size
    &&& h.plt_size == g.plt_size
    &&& h.pltgot_size == g.pltgot_size
    &&& h.lazy_bind == g.lazy_bind
}

/// The entries of a relocation section with bytes `b` that patches the
/// section at `sec_addr`.
pub(crate) fn parse_rels(b: &[u8], sec_addr: usize) -> (r: Result<Vec<ElfRelType>, Error>)
    ensures
        r is Ok <==> forall|e: int| 0 <= e < b@.len() as int / (RELA_SIZE as int)
            ==> #[trigger] spec_rela_at(b@, e * RELA_SIZE) is Some,
        r matches Ok(v) ==> v@ == Seq::new((b@.len() as int / (RELA_SIZE as int)) as nat,
            |e: int| adjust_rel(sec_addr, spec_rela_at(b@, e * RELA_SIZE)->0)),
{
    let blen = b.len();
    let count = blen / RELA_SIZE;
    let mut out: Vec<ElfRelType> = Vec::new();
    let mut i: usize = 0;
    while i < count
        invariant
            blen == b@.len(),
            count == blen as int / (RELA_SIZE as int),
            i <= count,
            out@.len() == i,
            forall|e: int| 0 <= e < i ==> #[trigger] spec_rela_at(b@, e * RELA_SIZE) is Some,
            forall|e: int| 0 <= e < i ==> #[trigger] out@[e] == adjust_rel(sec_addr, spec_rela_at(b@, e * RELA_SIZE)->0),
        decreases count - i,
    {
        assert(i * RELA_SIZE + RELA_SIZE <= blen) by (nonlinear_arith)
            requires i < count, count == blen as int / (RELA_SIZE as int), RELA_SIZE == 24;
        match ElfRelType::parse(b, i * RELA_SIZE) {
            Ok(rel) => {
                let mut rel = rel;
                rel.set_offset(sec_addr.wrapping_add(rel.r_offset()));
                out.push(rel);
                assert(out@[i as int] == adjust_rel(sec_addr, spec_rela_at(b@, i * RELA_SIZE)->0));
            },
            Err(e) => {
                return Err(e);
            },
        }
        i = i + 1;
    }
    proof {
        assert(out@ =~= Seq::new((b@.len() as int / (RELA_SIZE as int)) as nat,
            |e: int| adjust_rel(sec_addr, spec_rela_at(b@, e * RELA_SIZE)->0)));
    }
    Ok(out)
}

/// Adjust the symbols read from an object whose sections are `s`, as
/// [`adjust_sym`] says.
fn adjust_symbols(symbols: &mut Vec<ElfSymbol>, s: &[ElfShdr]) -> (r: Result<(), Error>)
    ensures
        r is Ok <==> forall|k: int| 0 <= k < old(symbols)@.len() ==> #[trigger] adjust_sym(s@, old(symbols)@[k]) is Some,
        r is Ok ==> final(symbols)@.len() == old(symbols)@.len()
            && forall|k: int| 0 <= k < old(symbols)@.len() ==> #[trigger] final(symbols)@[k] == adjust_sym(s@, old(symbols)@[k])->0,
{
    let n = symbols.len();
    let mut i: usize = 0;
    while i < n
        invariant
            n == symbols@.len(),
            n == old(symbols)@.len(),
            i <= n,
            forall|k: int| 0 <= k < i ==> #[trigger] adjust_sym(s@, old(symbols)@[k]) is Some,
            forall|k: int| 0 <= k < i ==> #[trigger] symbols@[k] == adjust_sym(s@, old(symbols)@[k])->0,
            forall|k: int| i <= k < n ==> #[trigger] symbols@[k] == old(symbols)@[k],
        decreases n - i,
    {
        let sym = symbols[i];
        if sym.st_type() == STT_FILE || sym.st_shndx() == SHN_UNDEF as usize {
        } else if sym.st_shndx() < s.len() {
            let mut sym2 = sym;
            sym2.set_value(s[sym.st_shndx()].sh_addr.wrapping_add(sym.st_value()));
            symbols.set(i, sym2);
        } else {
            assert(adjust_sym(s@, old(symbols)@[i as int]) is None);
            return Err(Error::ParseShdr { msg: "symbol refers to a missing section" });
        }
        assert(adjust_sym(s@, old(symbols)@[i as int]) is Some);
        i = i + 1;
    }
    Ok(())
}

/// The sections of an object with image-relative addresses `s` can be
/// made absolute for the load base `base`.
pub open spec fn addrs_fit(s: Seq<ElfShdr>, base: usize) -> bool {
    forall|i: int| 0 <= i < s.len() ==> #[trigger] s[i].sh_addr + base <= usize::MAX
}

/// `s2` is `s1` with every section address moved by `base`.
pub open spec fn rebased(s1: Seq<ElfShdr>, s2: Seq<ElfShdr>, base: usize) -> bool {
    &&& s2.len() == s1.len()
    &&& forall|i: int| 0 <= i < s1.len() ==> #[trigger] s2[i] == (ElfShdr { sh_addr: (s1[i].sh_addr + base) as usize, ..s1[i] })
}

/// The object with sections `s` and image bytes `mem` (from virtual
/// address `off`) can be prepared: its relocation sections and its last
/// symbol table can be read, and its section addresses moved by `base`.
pub open spec fn object_ok(s: Seq<ElfShdr>, mem: Seq<u8>, off: usize, base: usize) -> bool {
    &&& spec_rel_lists(s, mem, off, s.len() as int) is Some
    &&& last_of_type(s, SHT_SYMTAB, s.len() as int) matches Some(i) && spec_symtab(s, mem, off, i) is Some
    &&& addrs_fit(s, base)
}

proof fn lemma_rel_lists_none(s: Seq<ElfShdr>, mem: Seq<u8>, off: usize, k: int, m: int)
    requires
        0 <= k <= m,
        spec_rel_lists(s, mem, off, k) is None,
    ensures
        spec_rel_lists(s, mem, off, m) is None,
    decreases m - k,
{
    if k < m {
        lemma_rel_lists_none(s, mem, off, k, m - 1);
    }
}

proof fn lemma_last_of_type_bound(s: Seq<ElfShdr>, ty: u32, k: int)
    ensures
        last_of_type(s, ty, k) matches Some(i) ==> 0 <= i < k && s[i].sh_type == ty,
    decreases k,
{
    if k > 0 && s[k - 1].sh_type != ty {
        lemma_last_of_type_bound(s, ty, k - 1);
    }
}

/// The last section of type `ty`.
/// Whether the sections `shdrs` include a symbol table.
pub fn has_symtab(shdrs: &[ElfShdr]) -> (r: bool)
    ensures
        r == last_of_type(shdrs@, SHT_SYMTAB, shdrs@.len() as int) is Some,
{
    find_last(shdrs, SHT_SYMTAB).is_some()
}

fn find_last(shdrs: &[ElfShdr], ty: u32) -> (r: Option<usize>)
    ensures
        r matches Some(i) ==> last_of_type(shdrs@, ty, shdrs@.len() as int) == Some(i as int) && i < shdrs@.len(),
        r is None <==> last_of_type(shdrs@, ty, shdrs@.len() as int) is None,
{
    let n = shdrs.len();
    let mut k = n;
    while k > 0
        invariant
            k <= n,
            n == shdrs@.len(),
            last_of_type(shdrs@, ty, n as int) == last_of_type(shdrs@, ty, k as int),
        decreases k,
    {
        if shdrs[k - 1].sh_type == ty {
            return Some(k - 1);
        }
        k = k - 1;
    }
    None
}

/// The entry lists of all relocation sections, in section order.
fn collect_rel_lists(shdrs: &[ElfShdr], image: &ElfSegments) -> (r: Result<Vec<Vec<ElfRelType>>, Error>)
    ensures
        r is Ok <==> spec_rel_lists(shdrs@, image.memory@, image.offset, shdrs@.len() as int) is Some,
        r matches Ok(v) ==> spec_rel_lists(shdrs@, image.memory@, image.offset, shdrs@.len() as int) matches Some(ls)
            && v@.len() == ls.len() && forall|j: int| 0 <= j < ls.len() ==> #[trigger] v@[j]@ == ls[j],
{
    let ghost mem = image.memory@;
    let ghost off = image.offset;
    let n = shdrs.len();
    let mut out: Vec<Vec<ElfRelType>> = Vec::new();
    let mut k: usize = 0;
    while k < n
        invariant
            n == shdrs@.len(),
            k <= n,
            mem == image.memory@,
            off == image.offset,
            spec_rel_lists(shdrs@, mem, off, k as int) matches Some(ls)
                && out@.len() == ls.len() && forall|j: int| 0 <= j < ls.len() ==> #[trigger] out@[j]@ == ls[j],
        decreases n - k,
    {
        let sh = shdrs[k];
        if sh.sh_type == SHT_REL || sh.sh_type == SHT_RELA {
            let bytes = match image.read_bytes(sh.sh_addr, sh.sh_size) {
                Some(b) => b,
                None => {
                    proof { lemma_rel_lists_none(shdrs@, mem, off, k + 1, n as int); }
                    return Err(Error::ParseShdr { msg: "relocation section outside the image" });
                },
            };
            if sh.sh_info as usize >= n {
                proof { lemma_rel_lists_none(shdrs@, mem, off, k + 1, n as int); }
                return Err(Error::ParseShdr { msg: "relocation section patches a missing section" });
            }
            let sec_addr = shdrs[sh.sh_info as usize].sh_addr;
            match parse_rels(bytes.as_slice(), sec_addr) {
                Ok(list) => {
                    let ghost ls = spec_rel_lists(shdrs@, mem, off, k as int)->0;
                    out.push(list);
                    proof {
                        let ls2 = spec_rel_lists(shdrs@, mem, off, (k + 1) as int)->0;
                        assert(ls2 == ls.push(list@));
                        assert forall|j: int| 0 <= j < ls2.len() implies #[trigger] out@[j]@ == ls2[j] by {}
                    }
                },
                Err(e) => {
                    proof { lemma_rel_lists_none(shdrs@, mem, off, k + 1, n as int); }
                    return Err(e);
                },
            }
        }
        k = k + 1;
    }
    Ok(out)
}

/// Read the symbol table of section `i`, with adjusted values.
fn read_symtab(shdrs: &[ElfShdr], image: &ElfSegments, i: usize) -> (r: Result<SymbolTable, Error>)
    requires
        i < shdrs@.len(),
    ensures
        r is Ok <==> spec_symtab(shdrs@, image.memory@, image.offset, i as int) is Some,
        r matches Ok(t) ==> spec_symtab(shdrs@, image.memory@, image.offset, i as int) == Some((t.symbols@, t.strtab.data@)),
{
    let sh = shdrs[i];
    let bytes = match image.read_bytes(sh.sh_addr, sh.sh_size) {
        Some(b) => b,
        None => {
            return Err(Error::ParseShdr { msg: "symbol table outside the image" });
        },
    };
    if sh.sh_link as usize >= shdrs.len() {
        return Err(Error::ParseShdr { msg: "symbol table links to a missing section" });
    }
    let strsh = shdrs[sh.sh_link as usize];
    let strtab = match image.read_bytes(strsh.sh_addr, strsh.sh_size) {
        Some(b) => b,
        None => {
            return Err(Error::ParseShdr { msg: "string table outside the image" });
        },
    };
    let mut table = match SymbolTable::parse(bytes.as_slice(), strtab) {
        Ok(t) => t,
        Err(e) => {
            return Err(e);
        },
    };
    let ghost parsed = table.symbols@;
    match adjust_symbols(&mut table.symbols, shdrs) {
        Ok(()) => {
            proof {
                let b = bytes@;
                let n = b.len() as int / (SYM_SIZE as int);
                assert forall|e: int| 0 <= e < n implies #[trigger] spec_sym_at(b, e * SYM_SIZE) is Some
                    && adjust_sym(shdrs@, spec_sym_at(b, e * SYM_SIZE)->0) is Some by {
                    assert(spec_sym_at(b, e * SYM_SIZE) == Some(parsed[e]));
                }
                assert(table.symbols@ =~= Seq::new(n as nat, |e: int| adjust_sym(shdrs@, spec_sym_at(b, e * SYM_SIZE)->0)->0));
            }
            Ok(table)
        },
        Err(e) => {
            proof {
                let b = bytes@;
                let k = choose|k: int| 0 <= k < parsed.len() && !(#[trigger] adjust_sym(shdrs@, parsed[k]) is Some);
                assert(spec_sym_at(b, k * SYM_SIZE) == Some(parsed[k]));
            }
            Err(e)
        },
    }
}

impl ObjectBuilder {
    /// Prepare a loaded relocatable object for relocation.  `shdrs` are its
    /// sections with image-relative addresses and `image` its memory; the
    /// section addresses and the PLT and GOT are moved by the load base.
    /// The relocation entries of each relocation section get the address of
    /// the section they patch added to their offsets; the symbols of the
    /// last symbol table get the addresses of their sections added to their
    /// values; the last initialiser array section gives the address and
    /// number of the initialisers.  Fails when a relocation section or the
    /// symbol table cannot be read, or an address would not fit.  The object
    /// must have a symbol table.
    pub fn new(shdrs: &mut Vec<ElfShdr>, image: &ElfSegments, pltgot: &mut PltGotSection) -> (r: Result<ObjectBuilder, Error>)
        requires
            last_of_type(old(shdrs)@, SHT_SYMTAB, old(shdrs)@.len() as int) is Some,
            image.wf(),
            image.offset == 0,
            old(pltgot).wf(),
            old(pltgot).got_base + old(pltgot).got_size <= image.memory@.len(),
            old(pltgot).plt_base + old(pltgot).plt_size <= image.memory@.len(),
            old(pltgot).pltgot_base + old(pltgot).pltgot_size <= image.memory@.len(),
        ensures
            r is Ok <==> object_ok(old(shdrs)@, image.memory@, image.offset, image.addr),
            r is Err ==> final(shdrs)@ == old(shdrs)@ && *final(pltgot) == *old(pltgot),
            r matches Ok(b) ==> rebased(old(shdrs)@, final(shdrs)@, image.addr)
                && built_from(old(shdrs)@, image.memory@, image.addr, b)
                && pltgot_moved(*old(pltgot), *final(pltgot), image.addr),
    {
        let base = image.base();
        let n = shdrs.len();
        let relocation = collect_rel_lists(shdrs.as_slice(), image)?;
        let symtab = match find_last(shdrs.as_slice(), SHT_SYMTAB) {
            Some(i) => read_symtab(shdrs.as_slice(), image, i)?,
            None => {
                proof {
                    assert(false);
                }
                return Err(Error::ParseShdr { msg: "the object has no symbol table" });
            },
        };
        let mut k: usize = 0;
        while k < n
            invariant
                n == shdrs@.len(),
                k <= n,
                shdrs@ == old(shdrs)@,
                base == image.addr,
                forall|i: int| 0 <= i < k ==> #[trigger] shdrs@[i].sh_addr + base <= usize::MAX,
            decreases n - k,
        {
            if shdrs[k].sh_addr > usize::MAX - base {
                assert(!(shdrs@[k as int].sh_addr + base <= usize::MAX));
                assert(!addrs_fit(shdrs@, base));
                return Err(Error::ParseShdr { msg: "section address does not fit" });
            }
            k = k + 1;
        }
        let init_array = match find_last(shdrs.as_slice(), SHT_INIT_ARRAY) {
            Some(i) => Some((shdrs[i].sh_addr + base, shdrs[i].sh_size / 8)),
            None => None,
        };
        let ghost s0 = shdrs@;
        let mut j: usize = 0;
        while j < n
            invariant
                n == shdrs@.len(),
                n == s0.len(),
                j <= n,
                addrs_fit(s0, base),
                forall|i: int| 0 <= i < j ==> #[trigger] shdrs@[i] == (ElfShdr { sh_addr: (s0[i].sh_addr + base) as usize, ..s0[i] }),
                forall|i: int| j <= i < n ==> #[trigger] shdrs@[i] == s0[i],
            decreases n - j,
        {
            let mut sh = shdrs[j];
            sh.sh_addr = sh.sh_addr + base;
            shdrs.set(j, sh);
            j = j + 1;
        }
        pltgot.rebase(base);
        Ok(ObjectBuilder { symtab, relocation, init_array })
    }
}

} // verus!
