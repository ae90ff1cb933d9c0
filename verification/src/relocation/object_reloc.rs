//! Relocation of relocatable objects on x86-64.
//!
//! With `S` the address of the symbol, `A` the addend and `P` the place
//! patched, the entries compute:
//! - `R_X86_64_64`: `S + A` (eight bytes);
//! - `R_X86_64_PC32`: `S + A - P` (four bytes, signed);
//! - `R_X86_64_PLT32`: `S + A - P`, or, when that does not fit, the same
//!   through a PLT entry whose GOT slot holds `S`;
//! - `R_X86_64_GOTPCREL` and its relaxable forms: `G + A - P`, with `G` the
//!   address of the symbol's GOT slot, which holds `S`;
//! - `R_X86_64_32` and `R_X86_64_32S`: `S + A` (four bytes, unsigned or
//!   signed).
//! A value that does not fit its field is an error.

use vstd::prelude::*;
use crate::elf::{
    ElfRelType, REL_SYMBOLIC, R_X86_64_32, R_X86_64_32S, R_X86_64_GOTPCREL, R_X86_64_GOTPCRELX,
    R_X86_64_PC32, R_X86_64_PLT32, R_X86_64_REX_GOTPCRELX,
};
use crate::error::Error;
use crate::segment::{spec_write_bytes, spec_write_le, ElfSegments};
use crate::segment::section::{
    plt_entry_template_spec, GotEntry, PltEntry, PltGotSection, PLT_DISP_OFFSET, PLT_ENTRY_SIZE,
    PLT_JUMP_END,
};
use super::dynamic::{target_matches, Target};
use super::lookup::{find_symbol_addr, scope_wf, spec_find_symbol_addr, Resolved, ScopeLib, SymbolLookup};
use super::value::{spec_signed64, wrap64, RelocValue};

verus! {

/// The slot tables of a PLT and GOT: GOT slots by symbol, next free GOT
/// slot, PLT entries by symbol, next free PLT entry.
pub type SlotsView = (Map<usize, usize>, usize, Map<usize, usize>, usize);

/// The slot tables of `p`.
pub open spec fn slots_of(p: PltGotSection) -> SlotsView {
    (p.got_slots(), p.cur_got_idx, p.plt_slots(), p.cur_plt_idx)
}

/// Mapping `mem` at `addr` with the word `v` (`n` bytes) written at
/// absolute address `a`; none when it falls outside.
pub open spec fn spec_write_abs(mem: Seq<u8>, addr: usize, a: int, v: nat, n: nat) -> Option<Seq<u8>> {
    if addr <= a && a - addr + n <= mem.len() {
        Some(spec_write_le(mem, a - addr, v, n))
    } else {
        None
    }
}

/// The value of the symbol an object relocation refers to: only plain
/// addresses are accepted.
pub open spec fn spec_static_sym<P: SymbolLookup, Q: SymbolLookup>(
    pre: P,
    post: Q,
    t: Target,
    scope: Seq<ScopeLib>,
    r_sym: int,
) -> Option<usize> {
    match spec_find_symbol_addr(pre, post, t.base, t.id, t.symtab, scope, r_sym) {
        Some((Resolved::Addr(s), _)) => Some(s),
        _ => None,
    }
}

/// The `value` written as a signed 32-bit field at `vaddr`, when it fits.
pub open spec fn spec_put_i32(mem: Seq<u8>, off: usize, vaddr: usize, value: u64) -> Option<Seq<u8>> {
    if i32::MIN <= spec_signed64(value) <= i32::MAX && off <= vaddr && vaddr - off + 4 <= mem.len() {
        Some(spec_write_le(mem, vaddr - off, value as nat, 4))
    } else {
        None
    }
}

/// Apply the object relocation entry `rel` to the image `mem` (mapped at
/// `addr`) with PLT and GOT `p0` whose slot tables are `v`; gives the new
/// memory and slot tables.
#[verifier::opaque]
pub open spec fn spec_static_step<P: SymbolLookup, Q: SymbolLookup>(
    pre: P,
    post: Q,
    t: Target,
    scope: Seq<ScopeLib>,
    p0: PltGotSection,
    addr: usize,
    rel: ElfRelType,
    st: (Seq<u8>, SlotsView),
) -> Option<(Seq<u8>, SlotsView)> {
    let (mem, v) = st;
    let ty = rel.spec_r_type();
    let r_sym = rel.spec_r_sym();
    let a = rel.r_addend;
    let place = wrap64(t.base + rel.r_offset);
    match spec_static_sym(pre, post, t, scope, r_sym as int) {
        None => None,
        Some(s) => {
            let sa = wrap64(s + a);
            if ty == REL_SYMBOLIC {
                match spec_write_word_at(mem, t.offset, rel.r_offset, sa, 8) {
                    Some(m) => Some((m, v)),
                    None => None,
                }
            } else if ty == R_X86_64_PC32 {
                match spec_put_i32(mem, t.offset, rel.r_offset, wrap64(sa - place)) {
                    Some(m) => Some((m, v)),
                    None => None,
                }
            } else if ty == R_X86_64_PLT32 {
                let direct = wrap64(sa - place);
                if i32::MIN <= spec_signed64(direct) <= i32::MAX {
                    match spec_put_i32(mem, t.offset, rel.r_offset, direct) {
                        Some(m) => Some((m, v)),
                        None => None,
                    }
                } else if v.2.dom().contains(r_sym) {
                    let entry = (v.2[r_sym] * PLT_ENTRY_SIZE + p0.plt_base) as usize;
                    match spec_put_i32(mem, t.offset, rel.r_offset, wrap64(wrap64(entry + a) - place)) {
                        Some(m) => Some((m, v)),
                        None => None,
                    }
                } else if v.3 >= p0.pltgot_size / 8 || v.3 >= p0.plt_size / PLT_ENTRY_SIZE {
                    None
                } else {
                    let entry = v.3 * PLT_ENTRY_SIZE + p0.plt_base;
                    let slot = v.3 * 8 + p0.pltgot_base;
                    let disp = wrap64(slot - (entry + PLT_JUMP_END));
                    let v2 = (v.0, v.1, v.2.insert(r_sym, v.3), (v.3 + 1) as usize);
                    if addr <= entry && entry - addr + PLT_ENTRY_SIZE <= mem.len()
                        && i32::MIN <= spec_signed64(disp) <= i32::MAX {
                        let m1 = spec_write_bytes(mem, entry - addr, plt_entry_template_spec());
                        match spec_write_abs(m1, addr, entry + PLT_DISP_OFFSET, disp as nat, 4) {
                            Some(m2) => match spec_write_abs(m2, addr, slot, s as nat, 8) {
                                Some(m3) => match spec_put_i32(m3, t.offset, rel.r_offset,
                                    wrap64(wrap64(entry + a) - place)) {
                                    Some(m4) => Some((m4, v2)),
                                    None => None,
                                },
                                None => None,
                            },
                            None => None,
                        }
                    } else {
                        None
                    }
                }
            } else if ty == R_X86_64_GOTPCREL || ty == R_X86_64_GOTPCRELX || ty == R_X86_64_REX_GOTPCRELX {
                if v.0.dom().contains(r_sym) {
                    let g = (v.0[r_sym] * 8 + p0.got_base) as usize;
                    match spec_put_i32(mem, t.offset, rel.r_offset, wrap64(wrap64(g + a) - place)) {
                        Some(m) => Some((m, v)),
                        None => None,
                    }
                } else if (v.1 + 1) * 8 > p0.got_size {
                    None
                } else {
                    let g = (v.1 * 8 + p0.got_base) as usize;
                    let v2 = (v.0.insert(r_sym, v.1), (v.1 + 1) as usize, v.2, v.3);
                    match spec_write_abs(mem, addr, g as int, s as nat, 8) {
                        Some(m1) => match spec_put_i32(m1, t.offset, rel.r_offset, wrap64(wrap64(g + a) - place)) {
                            Some(m2) => Some((m2, v2)),
                            None => None,
                        },
                        None => None,
                    }
                }
            } else if ty == R_X86_64_32 {
                if sa <= u32::MAX {
                    match spec_write_word_at(mem, t.offset, rel.r_offset, sa, 4) {
                        Some(m) => Some((m, v)),
                        None => None,
                    }
                } else {
                    None
                }
            } else if ty == R_X86_64_32S {
                match spec_put_i32(mem, t.offset, rel.r_offset, sa) {
                    Some(m) => Some((m, v)),
                    None => None,
                }
            } else {
                None
            }
        },
    }
}

/// `mem` with the `n`-byte field at virtual address `vaddr` set to `v`.
pub open spec fn spec_write_word_at(mem: Seq<u8>, off: usize, vaddr: usize, v: u64, n: nat) -> Option<Seq<u8>> {
    if off <= vaddr && vaddr - off + n <= mem.len() {
        Some(spec_write_le(mem, vaddr - off, v as nat, n))
    } else {
        None
    }
}

/// The PLT and GOT fit inside the image.
pub open spec fn tables_in_image(p: PltGotSection, seg: ElfSegments) -> bool {
    &&& p.wf()
    &&& seg.addr <= p.got_base
    &&& p.got_base + p.got_size <= seg.addr + seg.memory@.len()
    &&& seg.addr <= p.pltgot_base
    &&& p.pltgot_base + p.pltgot_size <= seg.addr + seg.memory@.len()
}

fn reloc_err(rel: &ElfRelType, t: &Target, msg: &'static str) -> (r: Error)
    ensures
        r == (Error::Relocate { msg, r_type: rel.spec_r_type(), r_sym: rel.spec_r_sym(), file: Some(t.name) }),
{
    super::dynamic::entry_err(t, msg, rel.r_type(), rel.r_symbol())
}

/// Write `value` as a signed 32-bit field at virtual address `vaddr`.
fn put_i32(seg: &mut ElfSegments, vaddr: usize, value: u64, rel: &ElfRelType, t: &Target) -> (r: Result<(), Error>)
    ensures
        r is Ok <==> spec_put_i32(old(seg).memory@, old(seg).offset, vaddr, value) is Some,
        r is Ok ==> spec_put_i32(old(seg).memory@, old(seg).offset, vaddr, value) == Some(final(seg).memory@),
        final(seg).addr == old(seg).addr,
        final(seg).offset == old(seg).offset,
        final(seg).memory@.len() == old(seg).memory@.len(),
{
    match RelocValue::new(value).to_i32() {
        Ok(_) => match seg.write_le(vaddr, value, 4) {
            Ok(()) => Ok(()),
            Err(_) => Err(reloc_err(rel, t, "relocation outside the mapped image")),
        },
        Err(_) => Err(reloc_err(rel, t, "relocation value does not fit in 32 bits")),
    }
}

/// The word `(x + a) mod 2^64`.
fn add_signed(x: u64, a: i64) -> (r: u64)
    ensures
        r == wrap64(x + a),
{
    RelocValue::new(x).add_i64(a).0
}

/// The word `(x - y) mod 2^64`.
fn sub_word(x: u64, y: u64) -> (r: u64)
    ensures
        r == wrap64(x - y),
{
    RelocValue::new(x).sub_u64(y).0
}

/// `p` has the bases and sizes of `p0`.
pub open spec fn same_tables(p0: PltGotSection, p: PltGotSection) -> bool {
    &&& p.got_base == p0.got_base
    &&& p.plt_base == p0.plt_base
    &&& p.pltgot_base == p0.pltgot_base
    &&& p.got_size == p0.got_size
    &&& p.plt_size == p0.plt_size
    &&& p.pltgot_size == p0.pltgot_size
    &&& p.lazy_bind == p0.lazy_bind
    &&& p.plt_header_size == p0.plt_header_size
}

/// Apply one object relocation entry, as [`spec_static_step`] says.
#[verifier::rlimit(60)]
#[verifier::spinoff_prover]
fn static_step<P: SymbolLookup, Q: SymbolLookup>(
    pre: &P,
    post: &Q,
    t: &Target,
    seg: &mut ElfSegments,
    scope: &[ScopeLib],
    pltgot: &mut PltGotSection,
    rel: &ElfRelType,
    Ghost(p0): Ghost<PltGotSection>,
) -> (r: Result<(), Error>)
    requires
        target_matches(*t, *old(seg)),
        scope_wf(scope@),
        tables_in_image(*old(pltgot), *old(seg)),
        same_tables(p0, *old(pltgot)),
    ensures
        r is Ok <==> spec_static_step(*pre, *post, *t, scope@, p0, old(seg).addr, *rel,
            (old(seg).memory@, slots_of(*old(pltgot)))) is Some,
        r is Ok ==> spec_static_step(*pre, *post, *t, scope@, p0, old(seg).addr, *rel,
            (old(seg).memory@, slots_of(*old(pltgot)))) == Some((final(seg).memory@, slots_of(*final(pltgot)))),
        same_tables(p0, *final(pltgot)),
        final(pltgot).wf(),
        final(seg).addr == old(seg).addr,
        final(seg).offset == old(seg).offset,
        final(seg).memory@.len() == old(seg).memory@.len(),
{
    proof { reveal(spec_static_step); }
    let ty = rel.r_type();
    let r_sym = rel.r_symbol();
    let a = rel.r_addend();
    let place = RelocValue::new(t.base as u64).add_u64(rel.r_offset() as u64).0;
    let s = match find_symbol_addr(pre, post, t.base, t.id, &t.symtab, scope, r_sym) {
        Some((Resolved::Addr(s), _)) => s,
        _ => {
            return Err(reloc_err(rel, t, "symbol not found"));
        },
    };
    let sa = add_signed(s as u64, a);
    if ty == REL_SYMBOLIC {
        match seg.write_le(rel.r_offset(), sa, 8) {
            Ok(()) => Ok(()),
            Err(_) => Err(reloc_err(rel, t, "relocation outside the mapped image")),
        }
    } else if ty == R_X86_64_PC32 {
        put_i32(seg, rel.r_offset(), sub_word(sa, place), rel, t)
    } else if ty == R_X86_64_PLT32 {
        let direct = sub_word(sa, place);
        if RelocValue::new(direct).to_i32().is_ok() {
            return put_i32(seg, rel.r_offset(), direct, rel, t);
        }
        match pltgot.add_plt_entry(r_sym, seg) {
            Ok(PltEntry::Occupied(entry)) => {
                put_i32(seg, rel.r_offset(), sub_word(add_signed(entry as u64, a), place), rel, t)
            },
            Ok(PltEntry::Vacant { plt, pltgot: slot }) => {
                let disp = sub_word(slot as u64, (plt + PLT_JUMP_END) as u64);
                if RelocValue::new(disp).to_i32().is_err() {
                    return Err(reloc_err(rel, t, "PLT slot out of reach"));
                }
                match seg.write_le_abs(plt + PLT_DISP_OFFSET, disp, 4) {
                    Ok(()) => {},
                    Err(_) => {
                        return Err(reloc_err(rel, t, "relocation outside the mapped image"));
                    },
                }
                match seg.write_le_abs(slot, s as u64, 8) {
                    Ok(()) => {},
                    Err(_) => {
                        return Err(reloc_err(rel, t, "relocation outside the mapped image"));
                    },
                }
                put_i32(seg, rel.r_offset(), sub_word(add_signed(plt as u64, a), place), rel, t)
            },
            Err(e) => Err(e),
        }
    } else if ty == R_X86_64_GOTPCREL || ty == R_X86_64_GOTPCRELX || ty == R_X86_64_REX_GOTPCRELX {
        match pltgot.add_got_entry(r_sym) {
            Ok(GotEntry::Occupied(g)) => {
                put_i32(seg, rel.r_offset(), sub_word(add_signed(g as u64, a), place), rel, t)
            },
            Ok(GotEntry::Vacant(g)) => {
                match seg.write_le_abs(g, s as u64, 8) {
                    Ok(()) => {},
                    Err(_) => {
                        return Err(reloc_err(rel, t, "relocation outside the mapped image"));
                    },
                }
                put_i32(seg, rel.r_offset(), sub_word(add_signed(g as u64, a), place), rel, t)
            },
            Err(e) => Err(e),
        }
    } else if ty == R_X86_64_32 {
        if sa > 0xffff_ffff {
            return Err(reloc_err(rel, t, "relocation value does not fit in 32 bits"));
        }
        match seg.write_le(rel.r_offset(), sa, 4) {
            Ok(()) => Ok(()),
            Err(_) => Err(reloc_err(rel, t, "relocation outside the mapped image")),
        }
    } else if ty == R_X86_64_32S {
        put_i32(seg, rel.r_offset(), sa, rel, t)
    } else {
        Err(reloc_err(rel, t, "unsupported relocation type"))
    }
}

/// The entries of `lists[..k]`, one list after another.
pub open spec fn spec_flatten(lists: Seq<Vec<ElfRelType>>, k: int) -> Seq<ElfRelType>
    decreases k,
{
    if k <= 0 {
        Seq::empty()
    } else {
        spec_flatten(lists, k - 1) + lists[k - 1]@
    }
}

/// All entries of `lists`, one list after another.
pub fn flatten_rels(lists: &Vec<Vec<ElfRelType>>) -> (r: Vec<ElfRelType>)
    ensures
        r@ == spec_flatten(lists@, lists@.len() as int),
{
    let mut out: Vec<ElfRelType> = Vec::new();
    let n = lists.len();
    let mut i: usize = 0;
    while i < n
        invariant
            n == lists@.len(),
            i <= n,
            out@ == spec_flatten(lists@, i as int),
        decreases n - i,
    {
        let list = &lists[i];
        let m = list.len();
        let mut j: usize = 0;
        while j < m
            invariant
                m == list@.len(),
                j <= m,
                out@ == spec_flatten(lists@, i as int) + list@.subrange(0, j as int),
            decreases m - j,
        {
            out.push(list[j]);
            j = j + 1;
            proof {
                assert(out@ =~= spec_flatten(lists@, i as int) + list@.subrange(0, j as int));
            }
        }
        proof {
            assert(list@.subrange(0, m as int) =~= list@);
        }
        i = i + 1;
    }
    out
}

/// The memory and slot tables after the first `k` entries of `rels`.
pub open spec fn spec_static_fold<P: SymbolLookup, Q: SymbolLookup>(
    pre: P,
    post: Q,
    t: Target,
    scope: Seq<ScopeLib>,
    p0: PltGotSection,
    addr: usize,
    rels: Seq<ElfRelType>,
    k: int,
    init: (Seq<u8>, SlotsView),
) -> Option<(Seq<u8>, SlotsView)>
    decreases k,
{
    if k <= 0 {
        Some(init)
    } else {
        match spec_static_fold(pre, post, t, scope, p0, addr, rels, k - 1, init) {
            Some(st) => spec_static_step(pre, post, t, scope, p0, addr, rels[k - 1], st),
            None => None,
        }
    }
}

proof fn lemma_static_fold_none<P: SymbolLookup, Q: SymbolLookup>(
    pre: P,
    post: Q,
    t: Target,
    scope: Seq<ScopeLib>,
    p0: PltGotSection,
    addr: usize,
    rels: Seq<ElfRelType>,
    k: int,
    m: int,
    init: (Seq<u8>, SlotsView),
)
    requires
        0 <= k <= m,
        spec_static_fold(pre, post, t, scope, p0, addr, rels, k, init) is None,
    ensures
        spec_static_fold(pre, post, t, scope, p0, addr, rels, m, init) is None,
    decreases m - k,
{
    if k < m {
        lemma_static_fold_none(pre, post, t, scope, p0, addr, rels, k, m - 1, init);
    }
}

/// Apply all relocation entries of an object, list after list, as
/// [`spec_static_fold`] says; stop with an error at the first entry that
/// cannot be applied.
pub fn relocate_object<P: SymbolLookup, Q: SymbolLookup>(
    pre: &P,
    post: &Q,
    t: &Target,
    seg: &mut ElfSegments,
    scope: &[ScopeLib],
    pltgot: &mut PltGotSection,
    relocation: &Vec<Vec<ElfRelType>>,
) -> (r: Result<(), Error>)
    requires
        target_matches(*t, *old(seg)),
        scope_wf(scope@),
        tables_in_image(*old(pltgot), *old(seg)),
    ensures
        ({
            let rels = spec_flatten(relocation@, relocation@.len() as int);
            let res = spec_static_fold(*pre, *post, *t, scope@, *old(pltgot), old(seg).addr, rels, rels.len() as int,
                (old(seg).memory@, slots_of(*old(pltgot))));
            &&& r is Ok <==> res is Some
            &&& r is Ok ==> res == Some((final(seg).memory@, slots_of(*final(pltgot))))
        }),
        same_tables(*old(pltgot), *final(pltgot)),
        final(pltgot).wf(),
        final(seg).addr == old(seg).addr,
        final(seg).offset == old(seg).offset,
        final(seg).memory@.len() == old(seg).memory@.len(),
{
    let rels = flatten_rels(relocation);
    let ghost p0 = *pltgot;
    let ghost init = (seg.memory@, slots_of(*pltgot));
    let n = rels.len();
    let mut i: usize = 0;
    while i < n
        invariant
            n == rels@.len(),
            rels@ == spec_flatten(relocation@, relocation@.len() as int),
            i <= n,
            target_matches(*t, *seg),
            scope_wf(scope@),
            tables_in_image(*pltgot, *seg),
            same_tables(p0, *pltgot),
            p0 == *old(pltgot),
            seg.addr == old(seg).addr,
            seg.offset == old(seg).offset,
            seg.memory@.len() == old(seg).memory@.len(),
            init == (old(seg).memory@, slots_of(*old(pltgot))),
            spec_static_fold(*pre, *post, *t, scope@, p0, old(seg).addr, rels@, i as int, init)
                == Some((seg.memory@, slots_of(*pltgot))),
        decreases n - i,
    {
        let ghost before = (seg.memory@, slots_of(*pltgot));
        let res = static_step(pre, post, t, seg, scope, pltgot, &rels[i], Ghost(p0));
        match res {
            Ok(()) => {},
            Err(e) => {
                proof {
                    assert(spec_static_fold(*pre, *post, *t, scope@, p0, old(seg).addr, rels@, i + 1, init)
                        == spec_static_step(*pre, *post, *t, scope@, p0, old(seg).addr, rels@[i as int], before));
                    lemma_static_fold_none(*pre, *post, *t, scope@, p0, old(seg).addr, rels@, i + 1, n as int, init);
                }
                return Err(e);
            },
        }
        i = i + 1;
    }
    Ok(())
}

} // verus!
