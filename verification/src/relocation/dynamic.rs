//! Relocation of dynamic objects and executables.
//!
//! Three lists are applied in turn: the relative relocations (as entries or
//! in the compact RELR form), the other dynamic relocations, and the PLT
//! relocations.  Every entry is applied to the image as its type says; an
//! entry that cannot be applied stops the relocation with an error.  Calls
//! of indirect-function resolvers are handed back to the host as
//! [`IfuncFixup`]s, since they run code of the loaded object.

use vstd::prelude::*;
use crate::elf::{
    ElfRelType, REL_COPY, REL_DTPOFF, REL_GOT, REL_IRELATIVE, REL_JUMP_SLOT, REL_NONE,
    REL_RELATIVE, REL_SYMBOLIC, TLS_DTV_OFFSET,
};
use crate::error::Error;
use crate::segment::{spec_write_bytes, spec_write_le, ElfSegments};
use crate::symbol::SymbolTable;
use super::lookup::{
    find_symbol_addr, find_symdef_idx, scope_wf, spec_find_symbol_addr, spec_find_symdef_idx,
    Resolved, ScopeLib, SymbolLookup,
};
use super::value::wrap64;
use super::handler::{mark_handled, spec_handled, RelocationHandler};

verus! {

/// A call of an indirect-function resolver left to the host: the
/// resolver's result plus `addend` is to be written as a word at virtual
/// address `place` of the object.
#[derive(Clone, Copy, Debug, PartialEq, Eq)]
pub struct IfuncFixup {
    pub place: usize,
    pub resolver: usize,
    pub addend: i64,
}

/// The state relocation works on: the object's memory, the resolver calls
/// left to the host, and which objects of the scope were used.
pub type RelocState = (Seq<u8>, Seq<IfuncFixup>, Seq<bool>);

/// `mem`, the bytes of a mapping whose lowest virtual address is `off`,
/// with the word at virtual address `vaddr` set to `v`; none when the word
/// is outside the mapping.
pub open spec fn spec_write_word(mem: Seq<u8>, off: usize, vaddr: usize, v: u64) -> Option<Seq<u8>> {
    if off <= vaddr && vaddr - off + 8 <= mem.len() {
        Some(spec_write_le(mem, vaddr - off, v as nat, 8))
    } else {
        None
    }
}

/// The `n` bytes at virtual address `vaddr` of a mapping from `off`.
pub open spec fn spec_read_bytes(mem: Seq<u8>, off: usize, vaddr: usize, n: usize) -> Option<Seq<u8>> {
    if off <= vaddr && vaddr - off + n <= mem.len() {
        Some(mem.subrange(vaddr - off, vaddr - off + n))
    } else {
        None
    }
}

/// Record that scope object `idx`, if any, was used.
pub open spec fn spec_set_dep(deps: Seq<bool>, idx: Option<usize>) -> Seq<bool> {
    match idx {
        Some(i) => deps.update(i as int, true),
        None => deps,
    }
}

/// The object being relocated: its identity, load base, lowest virtual
/// address and symbols.
pub struct Target {
    pub id: usize,
    pub name: String,
    pub base: usize,
    pub offset: usize,
    pub symtab: SymbolTable,
}

/// Apply one dynamic relocation entry, as its type says:
/// - symbolic and GOT: the symbol's address plus addend;
/// - TLS offset: the symbol's value plus addend, less the DTV offset;
/// - copy: the symbol's bytes, as many as the object's symbol is long;
/// - indirect: the resolver at base plus addend is left to the host;
/// - none: nothing.
/// Any other type (relative entries among them: they belong to the
/// relative list), or a symbol that cannot be found, gives none.
#[verifier::opaque]
pub open spec fn spec_dyn_step<P: SymbolLookup, Q: SymbolLookup>(
    pre: P,
    post: Q,
    t: Target,
    scope: Seq<ScopeLib>,
    rel: ElfRelType,
    st: RelocState,
) -> Option<RelocState> {
    let (mem, fx, deps) = st;
    let ty = rel.spec_r_type();
    let s = rel.spec_r_sym() as int;
    let a = rel.r_addend;
    if ty == REL_NONE {
        Some(st)
    } else if ty == REL_GOT || ty == REL_SYMBOLIC {
        match spec_find_symbol_addr(pre, post, t.base, t.id, t.symtab, scope, s) {
            Some((Resolved::Addr(v), idx)) => match spec_write_word(mem, t.offset, rel.r_offset, wrap64(v + a)) {
                Some(m) => Some((m, fx, spec_set_dep(deps, idx))),
                None => None,
            },
            Some((Resolved::Ifunc(r), idx)) => Some((
                mem,
                fx.push(IfuncFixup { place: rel.r_offset, resolver: r, addend: a }),
                spec_set_dep(deps, idx),
            )),
            None => None,
        }
    } else if ty == REL_DTPOFF {
        match spec_find_symdef_idx(t.id, t.symtab, scope, s) {
            Some((d, idx)) => match d.sym {
                Some(sym) => match spec_write_word(mem, t.offset, rel.r_offset,
                    wrap64(sym.st_value + a - TLS_DTV_OFFSET)) {
                    Some(m) => Some((m, fx, spec_set_dep(deps, idx))),
                    None => None,
                },
                None => None,
            },
            None => None,
        }
    } else if ty == REL_COPY {
        match spec_find_symdef_idx(t.id, t.symtab, scope, s) {
            Some((d, idx)) => match d.sym {
                Some(sym) => {
                    let len = t.symtab.symbols@[s].st_size;
                    let src = match d.lib {
                        None => spec_read_bytes(mem, t.offset, sym.st_value, len),
                        Some(i) => spec_read_bytes(scope[i as int].segments.memory@,
                            scope[i as int].segments.offset, sym.st_value, len),
                    };
                    match src {
                        Some(bytes) => if t.offset <= rel.r_offset && rel.r_offset - t.offset + len <= mem.len() {
                            Some((spec_write_bytes(mem, rel.r_offset - t.offset, bytes), fx, spec_set_dep(deps, idx)))
                        } else {
                            None
                        },
                        None => None,
                    }
                },
                None => None,
            },
            None => None,
        }
    } else if ty == REL_IRELATIVE {
        Some((
            mem,
            fx.push(IfuncFixup {
                place: rel.r_offset,
                resolver: wrap64(t.base + a) as usize,
                addend: 0,
            }),
            deps,
        ))
    } else {
        None
    }
}

/// The default treatment leaves entry `rel` unhandled: its type is not one
/// it knows, or the symbol it needs is not found.
pub open spec fn spec_dyn_unhandled<P: SymbolLookup, Q: SymbolLookup>(
    pre: P,
    post: Q,
    t: Target,
    scope: Seq<ScopeLib>,
    rel: ElfRelType,
) -> bool {
    let ty = rel.spec_r_type();
    let s = rel.spec_r_sym() as int;
    if ty == REL_NONE || ty == REL_IRELATIVE {
        false
    } else if ty == REL_GOT || ty == REL_SYMBOLIC {
        spec_find_symbol_addr(pre, post, t.base, t.id, t.symtab, scope, s) is None
    } else if ty == REL_DTPOFF || ty == REL_COPY {
        spec_find_symdef_idx(t.id, t.symtab, scope, s) is None
    } else {
        true
    }
}

/// Apply one dynamic relocation entry with handlers: the pre-handler
/// first; if it leaves the entry alone, the default treatment; if that
/// leaves it unhandled, the post-handler, which must then take it over.
pub open spec fn spec_dyn_hstep<P: SymbolLookup, Q: SymbolLookup, H1: RelocationHandler, H2: RelocationHandler>(
    pre: P,
    post: Q,
    pre_h: H1,
    post_h: H2,
    t: Target,
    scope: Seq<ScopeLib>,
    rel: ElfRelType,
    st: RelocState,
) -> Option<RelocState> {
    match pre_h.spec_handle(rel, t, scope) {
        Some(Ok(idx)) => match spec_handled(st.2, idx) {
            Some(d) => Some((st.0, st.1, d)),
            None => None,
        },
        Some(Err(_)) => None,
        None => if spec_dyn_unhandled(pre, post, t, scope, rel) {
            match post_h.spec_handle(rel, t, scope) {
                Some(Ok(idx)) => match spec_handled(st.2, idx) {
                    Some(d) => Some((st.0, st.1, d)),
                    None => None,
                },
                _ => None,
            }
        } else {
            spec_dyn_step(pre, post, t, scope, rel, st)
        },
    }
}

/// The state after applying the first `k` entries of `rels` from `init`.
pub open spec fn spec_dyn_fold<P: SymbolLookup, Q: SymbolLookup, H1: RelocationHandler, H2: RelocationHandler>(
    pre: P,
    post: Q,
    pre_h: H1,
    post_h: H2,
    t: Target,
    scope: Seq<ScopeLib>,
    rels: Seq<ElfRelType>,
    k: int,
    init: RelocState,
) -> Option<RelocState>
    decreases k,
{
    if k <= 0 {
        Some(init)
    } else {
        match spec_dyn_fold(pre, post, pre_h, post_h, t, scope, rels, k - 1, init) {
            Some(st) => spec_dyn_hstep(pre, post, pre_h, post_h, t, scope, rels[k - 1], st),
            None => None,
        }
    }
}

proof fn lemma_dyn_fold_none<P: SymbolLookup, Q: SymbolLookup, H1: RelocationHandler, H2: RelocationHandler>(
    pre: P,
    post: Q,
    pre_h: H1,
    post_h: H2,
    t: Target,
    scope: Seq<ScopeLib>,
    rels: Seq<ElfRelType>,
    k: int,
    m: int,
    init: RelocState,
)
    requires
        0 <= k <= m,
        spec_dyn_fold(pre, post, pre_h, post_h, t, scope, rels, k, init) is None,
    ensures
        spec_dyn_fold(pre, post, pre_h, post_h, t, scope, rels, m, init) is None,
    decreases m - k,
{
    if k < m {
        lemma_dyn_fold_none(pre, post, pre_h, post_h, t, scope, rels, k, m - 1, init);
    }
}

/// The target matches the mapping it is relocated in.
pub open spec fn target_matches(t: Target, seg: ElfSegments) -> bool {
    &&& seg.wf()
    &&& t.base == seg.spec_base()
    &&& t.offset == seg.offset
}

/// Write the word `v` at virtual address `vaddr`.
fn write_word(seg: &mut ElfSegments, vaddr: usize, v: u64, rel: &ElfRelType, t: &Target) -> (r: Result<(), Error>)
    ensures
        r is Ok <==> spec_write_word(old(seg).memory@, old(seg).offset, vaddr, v) is Some,
        r is Ok ==> Some(final(seg).memory@) == spec_write_word(old(seg).memory@, old(seg).offset, vaddr, v),
        r is Err ==> final(seg).memory@ == old(seg).memory@,
        final(seg).memory@.len() == old(seg).memory@.len(),
        final(seg).addr == old(seg).addr,
        final(seg).offset == old(seg).offset,
{
    match seg.write_le(vaddr, v, 8) {
        Ok(()) => Ok(()),
        Err(_) => Err(entry_err(t, "relocation outside the mapped image", rel.r_type(), rel.r_symbol())),
    }
}

/// The word `base + a` modulo `2^64`.
fn base_plus(base: usize, a: i64) -> (r: u64)
    ensures
        r == wrap64(base + a),
{
    super::value::RelocValue::new(base as u64).add_i64(a).0
}

/// The error `msg` for an entry of type `r_type` naming symbol `r_sym` in
/// the object `t`.
pub(crate) fn entry_err(t: &Target, msg: &'static str, r_type: u32, r_sym: usize) -> (r: Error)
    ensures
        r == (Error::Relocate { msg, r_type, r_sym, file: Some(t.name) }),
{
    Error::Relocate { msg, r_type, r_sym, file: Some(t.name.clone()) }
}

/// The error for an entry of `t` that cannot be applied.
fn unhandled(rel: &ElfRelType, t: &Target) -> (r: Error)
    ensures
        r == unhandled_error(*rel, t.name),
{
    entry_err(t, "Unhandled relocation", rel.r_type(), rel.r_symbol())
}

/// Record that scope object `idx`, if any, was used.
fn set_dep(deps: &mut Vec<bool>, idx: Option<usize>)
    requires
        idx matches Some(i) ==> i < old(deps)@.len(),
    ensures
        final(deps)@ == spec_set_dep(old(deps)@, idx),
{
    match idx {
        Some(i) => {
            deps.set(i, true);
        },
        None => {},
    }
}

/// Apply one dynamic relocation entry, as [`spec_dyn_step`] says: `true`
/// when it was applied, `false` when its treatment leaves it unhandled
/// (and nothing changed).
#[verifier::rlimit(30)]
fn dyn_step<P: SymbolLookup, Q: SymbolLookup>(
    pre: &P,
    post: &Q,
    t: &Target,
    seg: &mut ElfSegments,
    scope: &[ScopeLib],
    rel: &ElfRelType,
    fixups: &mut Vec<IfuncFixup>,
    deps: &mut Vec<bool>,
) -> (r: Result<bool, Error>)
    requires
        target_matches(*t, *old(seg)),
        scope_wf(scope@),
        old(deps)@.len() == scope@.len(),
    ensures
        r == Ok::<bool, Error>(true) <==> spec_dyn_step(*pre, *post, *t, scope@, *rel, (old(seg).memory@, old(fixups)@, old(deps)@)) is Some,
        r == Ok::<bool, Error>(true) ==> spec_dyn_step(*pre, *post, *t, scope@, *rel, (old(seg).memory@, old(fixups)@, old(deps)@))
            == Some((final(seg).memory@, final(fixups)@, final(deps)@)),
        r == Ok::<bool, Error>(false) <==> spec_dyn_unhandled(*pre, *post, *t, scope@, *rel),
        r == Ok::<bool, Error>(false) ==> final(seg).memory@ == old(seg).memory@ && final(fixups)@ == old(fixups)@
            && final(deps)@ == old(deps)@,
        r is Err ==> final(seg).memory@ == old(seg).memory@ && final(fixups)@ == old(fixups)@
            && final(deps)@ == old(deps)@,
        final(seg).addr == old(seg).addr,
        final(seg).offset == old(seg).offset,
        final(seg).memory@.len() == old(seg).memory@.len(),
        final(deps)@.len() == old(deps)@.len(),
{
    proof { reveal(spec_dyn_step); }
    let ty = rel.r_type();
    let s = rel.r_symbol();
    let a = rel.r_addend();
    if ty == REL_NONE {
        Ok(true)
    } else if ty == REL_GOT || ty == REL_SYMBOLIC {
        match find_symbol_addr(pre, post, t.base, t.id, &t.symtab, scope, s) {
            Some((Resolved::Addr(v), idx)) => {
                write_word(seg, rel.r_offset(), base_plus(v, a), rel, t)?;
                set_dep(deps, idx);
                Ok(true)
            },
            Some((Resolved::Ifunc(res), idx)) => {
                fixups.push(IfuncFixup { place: rel.r_offset(), resolver: res, addend: a });
                set_dep(deps, idx);
                Ok(true)
            },
            None => Ok(false),
        }
    } else if ty == REL_DTPOFF {
        match find_symdef_idx(t.id, &t.symtab, scope, s) {
            Some((d, idx)) => match d.sym {
                Some(sym) => {
                    write_word(seg, rel.r_offset(), base_plus(sym.st_value(), a), rel, t)?;
                    set_dep(deps, idx);
                    Ok(true)
                },
                None => Err(unhandled(rel, t)),
            },
            None => Ok(false),
        }
    } else if ty == REL_COPY {
        match find_symdef_idx(t.id, &t.symtab, scope, s) {
            Some((d, idx)) => match d.sym {
                Some(sym) => {
                    let len = t.symtab.symbols[s].st_size();
                    let src = match d.lib {
                        None => seg.read_bytes(sym.st_value(), len),
                        Some(i) => scope[i].segments.read_bytes(sym.st_value(), len),
                    };
                    match src {
                        Some(bytes) => {
                            match seg.write_bytes(rel.r_offset(), bytes.as_slice()) {
                                Ok(()) => {
                                    set_dep(deps, idx);
                                    Ok(true)
                                },
                                Err(_) => Err(entry_err(t, "relocation outside the mapped image", ty, s)),
                            }
                        },
                        None => Err(entry_err(t, "copy source outside its image", ty, s)),
                    }
                },
                None => Err(unhandled(rel, t)),
            },
            None => Ok(false),
        }
    } else if ty == REL_IRELATIVE {
        fixups.push(IfuncFixup { place: rel.r_offset(), resolver: base_plus(t.base, a) as usize, addend: 0 });
        Ok(true)
    } else {
        Ok(false)
    }
}

/// The error for an entry of the object named `name` that no handler and
/// no default treatment takes.
pub open spec fn unhandled_error(rel: ElfRelType, name: String) -> Error {
    Error::Relocate { msg: "Unhandled relocation", r_type: rel.spec_r_type(), r_sym: rel.spec_r_sym(), file: Some(name) }
}

/// The error an entry that cannot be applied is answered with, where the
/// handlers fix it: the pre-handler's error as it came; else, for an entry
/// the default treatment leaves (`unhandled`), the post-handler's error as
/// it came, or [`unhandled_error`] when no handler takes the entry.
pub open spec fn spec_handler_err<H1: RelocationHandler, H2: RelocationHandler>(
    pre_h: H1,
    post_h: H2,
    t: Target,
    scope: Seq<ScopeLib>,
    unhandled: bool,
    rel: ElfRelType,
) -> Option<Error> {
    match pre_h.spec_handle(rel, t, scope) {
        Some(Err(e)) => Some(e),
        Some(Ok(_)) => None,
        None => if unhandled {
            match post_h.spec_handle(rel, t, scope) {
                Some(Err(e)) => Some(e),
                Some(Ok(_)) => None,
                None => Some(unhandled_error(rel, t.name)),
            }
        } else {
            None
        },
    }
}

/// Applying the dynamic entries `rels` from `init` stops at entry `j`: the
/// first `j` apply, giving `fin`, which is left as it is, entry `j` does
/// not apply, and `e` is the error the handlers fix for it, if they fix one.
pub open spec fn dyn_fails_at<P: SymbolLookup, Q: SymbolLookup, H1: RelocationHandler, H2: RelocationHandler>(
    pre: P,
    post: Q,
    pre_h: H1,
    post_h: H2,
    t: Target,
    scope: Seq<ScopeLib>,
    rels: Seq<ElfRelType>,
    j: int,
    init: RelocState,
    fin: RelocState,
    e: Error,
) -> bool {
    &&& 0 <= j < rels.len()
    &&& spec_dyn_fold(pre, post, pre_h, post_h, t, scope, rels, j, init) == Some(fin)
    &&& spec_dyn_hstep(pre, post, pre_h, post_h, t, scope, rels[j],
        spec_dyn_fold(pre, post, pre_h, post_h, t, scope, rels, j, init)->0) is None
    &&& (spec_handler_err(pre_h, post_h, t, scope, spec_dyn_unhandled(pre, post, t, scope, rels[j]), rels[j]) matches Some(fe)
        ==> e == fe)
}

/// Apply one dynamic relocation entry with handlers, as [`spec_dyn_hstep`]
/// says.
fn dyn_hstep<P: SymbolLookup, Q: SymbolLookup, H1: RelocationHandler, H2: RelocationHandler>(
    pre: &P,
    post: &Q,
    pre_h: &mut H1,
    post_h: &mut H2,
    t: &Target,
    seg: &mut ElfSegments,
    scope: &[ScopeLib],
    rel: &ElfRelType,
    fixups: &mut Vec<IfuncFixup>,
    deps: &mut Vec<bool>,
) -> (r: Result<(), Error>)
    requires
        target_matches(*t, *old(seg)),
        scope_wf(scope@),
        old(deps)@.len() == scope@.len(),
    ensures
        r is Ok <==> spec_dyn_hstep(*pre, *post, *old(pre_h), *old(post_h), *t, scope@, *rel,
            (old(seg).memory@, old(fixups)@, old(deps)@)) is Some,
        r is Ok ==> spec_dyn_hstep(*pre, *post, *old(pre_h), *old(post_h), *t, scope@, *rel,
            (old(seg).memory@, old(fixups)@, old(deps)@)) == Some((final(seg).memory@, final(fixups)@, final(deps)@)),
        r matches Err(e) ==> (spec_handler_err(*old(pre_h), *old(post_h), *t, scope@, spec_dyn_unhandled(*pre, *post, *t, scope@, *rel),
            *rel) matches Some(fe) ==> e == fe),
        r is Err ==> final(seg).memory@ == old(seg).memory@ && final(fixups)@ == old(fixups)@
            && final(deps)@ == old(deps)@,
        forall|x: ElfRelType, lt: Target, ls: Seq<ScopeLib>| #[trigger] final(pre_h).spec_handle(x, lt, ls) == old(pre_h).spec_handle(x, lt, ls),
        forall|x: ElfRelType, lt: Target, ls: Seq<ScopeLib>| #[trigger] final(post_h).spec_handle(x, lt, ls) == old(post_h).spec_handle(x, lt, ls),
        final(seg).addr == old(seg).addr,
        final(seg).offset == old(seg).offset,
        final(seg).memory@.len() == old(seg).memory@.len(),
        final(deps)@.len() == old(deps)@.len(),
{
    match pre_h.handle(rel, t, scope) {
        Some(Ok(idx)) => {
            return mark_handled(deps, idx);
        },
        Some(Err(e)) => {
            return Err(e);
        },
        None => {},
    }
    match dyn_step(pre, post, t, seg, scope, rel, fixups, deps) {
        Ok(true) => Ok(()),
        Ok(false) => match post_h.handle(rel, t, scope) {
            Some(Ok(idx)) => mark_handled(deps, idx),
            Some(Err(e)) => Err(e),
            None => Err(unhandled(rel, t)),
        },
        Err(e) => Err(e),
    }
}

/// Apply the dynamic relocation entries `rels` in order, with handlers, as
/// [`spec_dyn_fold`] says; stop with an error at the first entry that
/// cannot be applied.
pub fn relocate_dynrel<P: SymbolLookup, Q: SymbolLookup, H1: RelocationHandler, H2: RelocationHandler>(
    pre: &P,
    post: &Q,
    pre_h: &mut H1,
    post_h: &mut H2,
    t: &Target,
    seg: &mut ElfSegments,
    scope: &[ScopeLib],
    rels: &[ElfRelType],
    fixups: &mut Vec<IfuncFixup>,
    deps: &mut Vec<bool>,
) -> (r: Result<(), Error>)
    requires
        target_matches(*t, *old(seg)),
        scope_wf(scope@),
        old(deps)@.len() == scope@.len(),
    ensures
        r is Ok <==> spec_dyn_fold(*pre, *post, *old(pre_h), *old(post_h), *t, scope@, rels@, rels@.len() as int,
            (old(seg).memory@, old(fixups)@, old(deps)@)) is Some,
        r is Ok ==> spec_dyn_fold(*pre, *post, *old(pre_h), *old(post_h), *t, scope@, rels@, rels@.len() as int,
            (old(seg).memory@, old(fixups)@, old(deps)@)) == Some((final(seg).memory@, final(fixups)@, final(deps)@)),
        r matches Err(e) ==> exists|j: int| dyn_fails_at(*pre, *post, *old(pre_h), *old(post_h), *t, scope@, rels@, j,
            (old(seg).memory@, old(fixups)@, old(deps)@), (final(seg).memory@, final(fixups)@, final(deps)@), e),
        forall|x: ElfRelType, lt: Target, ls: Seq<ScopeLib>| #[trigger] final(pre_h).spec_handle(x, lt, ls) == old(pre_h).spec_handle(x, lt, ls),
        forall|x: ElfRelType, lt: Target, ls: Seq<ScopeLib>| #[trigger] final(post_h).spec_handle(x, lt, ls) == old(post_h).spec_handle(x, lt, ls),
        final(seg).addr == old(seg).addr,
        final(seg).offset == old(seg).offset,
        final(seg).memory@.len() == old(seg).memory@.len(),
        final(deps)@.len() == old(deps)@.len(),
{
    let ghost init = (seg.memory@, fixups@, deps@);
    let ghost ph = *pre_h;
    let ghost qh = *post_h;
    let n = rels.len();
    let mut i: usize = 0;
    while i < n
        invariant
            n == rels@.len(),
            i <= n,
            target_matches(*t, *seg),
            scope_wf(scope@),
            deps@.len() == scope@.len(),
            seg.addr == old(seg).addr,
            seg.offset == old(seg).offset,
            seg.memory@.len() == old(seg).memory@.len(),
            deps@.len() == old(deps)@.len(),
            init == (old(seg).memory@, old(fixups)@, old(deps)@),
            ph == *old(pre_h),
            qh == *old(post_h),
            forall|x: ElfRelType, lt: Target, ls: Seq<ScopeLib>| #[trigger] pre_h.spec_handle(x, lt, ls) == ph.spec_handle(x, lt, ls),
            forall|x: ElfRelType, lt: Target, ls: Seq<ScopeLib>| #[trigger] post_h.spec_handle(x, lt, ls) == qh.spec_handle(x, lt, ls),
            spec_dyn_fold(*pre, *post, ph, qh, *t, scope@, rels@, i as int, init) == Some((seg.memory@, fixups@, deps@)),
        decreases n - i,
    {
        let ghost before = (seg.memory@, fixups@, deps@);
        let ghost ph_now = *pre_h;
        let ghost qh_now = *post_h;
        let res = dyn_hstep(pre, post, pre_h, post_h, t, seg, scope, &rels[i], fixups, deps);
        proof {
            assert(spec_dyn_hstep(*pre, *post, ph_now, qh_now, *t, scope@, rels@[i as int], before)
                == spec_dyn_hstep(*pre, *post, ph, qh, *t, scope@, rels@[i as int], before));
        }
        match res {
            Ok(()) => {},
            Err(e) => {
                proof {
                    assert(spec_dyn_fold(*pre, *post, ph, qh, *t, scope@, rels@, i + 1, init)
                        == spec_dyn_hstep(*pre, *post, ph, qh, *t, scope@, rels@[i as int], before));
                    lemma_dyn_fold_none(*pre, *post, ph, qh, *t, scope@, rels@, i + 1, n as int, init);
                    assert(ph_now.spec_handle(rels@[i as int], *t, scope@) == ph.spec_handle(rels@[i as int], *t, scope@));
                    assert(qh_now.spec_handle(rels@[i as int], *t, scope@) == qh.spec_handle(rels@[i as int], *t, scope@));
                    assert(dyn_fails_at(*pre, *post, ph, qh, *t, scope@, rels@, i as int, init, before, e));
                }
                return Err(e);
            },
        }
        i = i + 1;
    }
    Ok(())
}

/// The word at virtual address `vaddr` of a mapping from `off`.
pub open spec fn spec_read_word(mem: Seq<u8>, off: usize, vaddr: usize) -> Option<nat> {
    if off <= vaddr && vaddr - off + 8 <= mem.len() {
        Some(crate::elf::le_at(mem, vaddr - off, 8))
    } else {
        None
    }
}

/// Apply one PLT relocation entry:
/// - jump slot, eagerly: the symbol's address, or the resolver left to the
///   host; an entry whose symbol is not found is left as it is;
/// - jump slot, lazily: the base is added to the word, so that the slot
///   points into the object's PLT;
/// - indirect: the resolver at base plus addend is left to the host.
/// Any other type gives none.
#[verifier::opaque]
pub open spec fn spec_plt_step<P: SymbolLookup, Q: SymbolLookup>(
    pre: P,
    post: Q,
    t: Target,
    scope: Seq<ScopeLib>,
    lazy: bool,
    rel: ElfRelType,
    st: RelocState,
) -> Option<RelocState> {
    let (mem, fx, deps) = st;
    let ty = rel.spec_r_type();
    let s = rel.spec_r_sym() as int;
    if ty == REL_JUMP_SLOT {
        if lazy {
            match spec_read_word(mem, t.offset, rel.r_offset) {
                Some(w) => match spec_write_word(mem, t.offset, rel.r_offset, wrap64(w + t.base)) {
                    Some(m) => Some((m, fx, deps)),
                    None => None,
                },
                None => None,
            }
        } else {
            match spec_find_symbol_addr(pre, post, t.base, t.id, t.symtab, scope, s) {
                Some((Resolved::Addr(v), idx)) => match spec_write_word(mem, t.offset, rel.r_offset, v as u64) {
                    Some(m) => Some((m, fx, spec_set_dep(deps, idx))),
                    None => None,
                },
                Some((Resolved::Ifunc(r), idx)) => Some((
                    mem,
                    fx.push(IfuncFixup { place: rel.r_offset, resolver: r, addend: 0 }),
                    spec_set_dep(deps, idx),
                )),
                None => Some(st),
            }
        }
    } else if ty == REL_IRELATIVE {
        Some((
            mem,
            fx.push(IfuncFixup { place: rel.r_offset, resolver: wrap64(t.base + rel.r_addend) as usize, addend: 0 }),
            deps,
        ))
    } else {
        None
    }
}

/// Whether PLT entry `rel` is of a type the default treatment does not know.
pub open spec fn spec_plt_unhandled(rel: ElfRelType) -> bool {
    rel.spec_r_type() != REL_JUMP_SLOT && rel.spec_r_type() != REL_IRELATIVE
}

/// Apply one PLT relocation entry with handlers: the pre-handler first; if
/// it leaves the entry alone, the default treatment; for a type that
/// treatment does not know, the post-handler, which must then take it over.
pub open spec fn spec_plt_hstep<P: SymbolLookup, Q: SymbolLookup, H1: RelocationHandler, H2: RelocationHandler>(
    pre: P,
    post: Q,
    pre_h: H1,
    post_h: H2,
    t: Target,
    scope: Seq<ScopeLib>,
    lazy: bool,
    rel: ElfRelType,
    st: RelocState,
) -> Option<RelocState> {
    match pre_h.spec_handle(rel, t, scope) {
        Some(Ok(idx)) => match spec_handled(st.2, idx) {
            Some(d) => Some((st.0, st.1, d)),
            None => None,
        },
        Some(Err(_)) => None,
        None => if spec_plt_unhandled(rel) {
            match post_h.spec_handle(rel, t, scope) {
                Some(Ok(idx)) => match spec_handled(st.2, idx) {
                    Some(d) => Some((st.0, st.1, d)),
                    None => None,
                },
                _ => None,
            }
        } else {
            spec_plt_step(pre, post, t, scope, lazy, rel, st)
        },
    }
}

/// The state after applying the first `k` PLT entries of `rels` from `init`.
pub open spec fn spec_plt_fold<P: SymbolLookup, Q: SymbolLookup, H1: RelocationHandler, H2: RelocationHandler>(
    pre: P,
    post: Q,
    pre_h: H1,
    post_h: H2,
    t: Target,
    scope: Seq<ScopeLib>,
    lazy: bool,
    rels: Seq<ElfRelType>,
    k: int,
    init: RelocState,
) -> Option<RelocState>
    decreases k,
{
    if k <= 0 {
        Some(init)
    } else {
        match spec_plt_fold(pre, post, pre_h, post_h, t, scope, lazy, rels, k - 1, init) {
            Some(st) => spec_plt_hstep(pre, post, pre_h, post_h, t, scope, lazy, rels[k - 1], st),
            None => None,
        }
    }
}

proof fn lemma_plt_fold_none<P: SymbolLookup, Q: SymbolLookup, H1: RelocationHandler, H2: RelocationHandler>(
    pre: P,
    post: Q,
    pre_h: H1,
    post_h: H2,
    t: Target,
    scope: Seq<ScopeLib>,
    lazy: bool,
    rels: Seq<ElfRelType>,
    k: int,
    m: int,
    init: RelocState,
)
    requires
        0 <= k <= m,
        spec_plt_fold(pre, post, pre_h, post_h, t, scope, lazy, rels, k, init) is None,
    ensures
        spec_plt_fold(pre, post, pre_h, post_h, t, scope, lazy, rels, m, init) is None,
    decreases m - k,
{
    if k < m {
        lemma_plt_fold_none(pre, post, pre_h, post_h, t, scope, lazy, rels, k, m - 1, init);
    }
}

/// The PLT entries fold alike under handlers that answer alike.
proof fn lemma_plt_fold_same_answers<P: SymbolLookup, Q: SymbolLookup, H1: RelocationHandler, H2: RelocationHandler>(
    pre: P,
    post: Q,
    pre_h: H1,
    post_h: H2,
    pre_h2: H1,
    post_h2: H2,
    t: Target,
    scope: Seq<ScopeLib>,
    lazy: bool,
    rels: Seq<ElfRelType>,
    k: int,
    init: RelocState,
)
    requires
        forall|x: ElfRelType, lt: Target, ls: Seq<ScopeLib>| #[trigger] pre_h2.spec_handle(x, lt, ls) == pre_h.spec_handle(x, lt, ls),
        forall|x: ElfRelType, lt: Target, ls: Seq<ScopeLib>| #[trigger] post_h2.spec_handle(x, lt, ls) == post_h.spec_handle(x, lt, ls),
    ensures
        spec_plt_fold(pre, post, pre_h2, post_h2, t, scope, lazy, rels, k, init)
            == spec_plt_fold(pre, post, pre_h, post_h, t, scope, lazy, rels, k, init),
    decreases k,
{
    if k > 0 {
        lemma_plt_fold_same_answers(pre, post, pre_h, post_h, pre_h2, post_h2, t, scope, lazy, rels, k - 1, init);
        assert(pre_h2.spec_handle(rels[k - 1], t, scope) == pre_h.spec_handle(rels[k - 1], t, scope));
        assert(post_h2.spec_handle(rels[k - 1], t, scope) == post_h.spec_handle(rels[k - 1], t, scope));
    }
}

/// Where the handlers answer alike, PLT relocation stops alike.
proof fn lemma_plt_fails_same_answers<P: SymbolLookup, Q: SymbolLookup, H1: RelocationHandler, H2: RelocationHandler>(
    pre: P,
    post: Q,
    pre_h: H1,
    post_h: H2,
    pre_h2: H1,
    post_h2: H2,
    t: Target,
    scope: Seq<ScopeLib>,
    lazy: bool,
    rels: Seq<ElfRelType>,
    j: int,
    init: RelocState,
    fin: RelocState,
    e: Error,
)
    requires
        forall|x: ElfRelType, lt: Target, ls: Seq<ScopeLib>| #[trigger] pre_h2.spec_handle(x, lt, ls) == pre_h.spec_handle(x, lt, ls),
        forall|x: ElfRelType, lt: Target, ls: Seq<ScopeLib>| #[trigger] post_h2.spec_handle(x, lt, ls) == post_h.spec_handle(x, lt, ls),
        plt_fails_at(pre, post, pre_h2, post_h2, t, scope, lazy, rels, j, init, fin, e),
    ensures
        plt_fails_at(pre, post, pre_h, post_h, t, scope, lazy, rels, j, init, fin, e),
{
    lemma_plt_fold_same_answers(pre, post, pre_h, post_h, pre_h2, post_h2, t, scope, lazy, rels, j, init);
    assert(pre_h2.spec_handle(rels[j], t, scope) == pre_h.spec_handle(rels[j], t, scope));
    assert(post_h2.spec_handle(rels[j], t, scope) == post_h.spec_handle(rels[j], t, scope));
}

/// Apply one PLT relocation entry, as [`spec_plt_step`] says: `true` when
/// it was applied, `false` when its type is one the default treatment does
/// not know (and nothing changed).
#[verifier::rlimit(30)]
fn plt_step<P: SymbolLookup, Q: SymbolLookup>(
    pre: &P,
    post: &Q,
    t: &Target,
    seg: &mut ElfSegments,
    scope: &[ScopeLib],
    lazy: bool,
    rel: &ElfRelType,
    fixups: &mut Vec<IfuncFixup>,
    deps: &mut Vec<bool>,
) -> (r: Result<bool, Error>)
    requires
        target_matches(*t, *old(seg)),
        scope_wf(scope@),
        old(deps)@.len() == scope@.len(),
    ensures
        r == Ok::<bool, Error>(true) <==> !spec_plt_unhandled(*rel)
            && spec_plt_step(*pre, *post, *t, scope@, lazy, *rel, (old(seg).memory@, old(fixups)@, old(deps)@)) is Some,
        r == Ok::<bool, Error>(true) ==> spec_plt_step(*pre, *post, *t, scope@, lazy, *rel, (old(seg).memory@, old(fixups)@, old(deps)@))
            == Some((final(seg).memory@, final(fixups)@, final(deps)@)),
        r == Ok::<bool, Error>(false) <==> spec_plt_unhandled(*rel),
        r == Ok::<bool, Error>(false) ==> final(seg).memory@ == old(seg).memory@ && final(fixups)@ == old(fixups)@
            && final(deps)@ == old(deps)@,
        r is Err ==> final(seg).memory@ == old(seg).memory@ && final(fixups)@ == old(fixups)@
            && final(deps)@ == old(deps)@,
        final(seg).addr == old(seg).addr,
        final(seg).offset == old(seg).offset,
        final(seg).memory@.len() == old(seg).memory@.len(),
        final(deps)@.len() == old(deps)@.len(),
{
    proof { reveal(spec_plt_step); }
    let ty = rel.r_type();
    let s = rel.r_symbol();
    if ty == REL_JUMP_SLOT {
        if lazy {
            match seg.read_le(rel.r_offset(), 8) {
                Ok(w) => {
                    write_word(seg, rel.r_offset(), super::value::RelocValue::new(w).add_u64(t.base as u64).0, rel, t)?;
                    Ok(true)
                },
                Err(_) => Err(entry_err(t, "relocation outside the mapped image", ty, s)),
            }
        } else {
            match find_symbol_addr(pre, post, t.base, t.id, &t.symtab, scope, s) {
                Some((Resolved::Addr(v), idx)) => {
                    write_word(seg, rel.r_offset(), v as u64, rel, t)?;
                    set_dep(deps, idx);
                    Ok(true)
                },
                Some((Resolved::Ifunc(res), idx)) => {
                    fixups.push(IfuncFixup { place: rel.r_offset(), resolver: res, addend: 0 });
                    set_dep(deps, idx);
                    Ok(true)
                },
                None => Ok(true),
            }
        }
    } else if ty == REL_IRELATIVE {
        fixups.push(IfuncFixup { place: rel.r_offset(), resolver: base_plus(t.base, rel.r_addend()) as usize, addend: 0 });
        Ok(true)
    } else {
        Ok(false)
    }
}

/// Applying the PLT entries `rels` from `init` stops at entry `j`: the
/// first `j` apply, giving `fin`, which is left as it is, entry `j` does
/// not apply, and `e` is the error the handlers fix for it, if they fix one.
pub open spec fn plt_fails_at<P: SymbolLookup, Q: SymbolLookup, H1: RelocationHandler, H2: RelocationHandler>(
    pre: P,
    post: Q,
    pre_h: H1,
    post_h: H2,
    t: Target,
    scope: Seq<ScopeLib>,
    lazy: bool,
    rels: Seq<ElfRelType>,
    j: int,
    init: RelocState,
    fin: RelocState,
    e: Error,
) -> bool {
    &&& 0 <= j < rels.len()
    &&& spec_plt_fold(pre, post, pre_h, post_h, t, scope, lazy, rels, j, init) == Some(fin)
    &&& spec_plt_hstep(pre, post, pre_h, post_h, t, scope, lazy, rels[j],
        spec_plt_fold(pre, post, pre_h, post_h, t, scope, lazy, rels, j, init)->0) is None
    &&& (spec_handler_err(pre_h, post_h, t, scope, spec_plt_unhandled(rels[j]), rels[j]) matches Some(fe) ==> e == fe)
}

/// Apply one PLT relocation entry with handlers, as [`spec_plt_hstep`]
/// says.
fn plt_hstep<P: SymbolLookup, Q: SymbolLookup, H1: RelocationHandler, H2: RelocationHandler>(
    pre: &P,
    post: &Q,
    pre_h: &mut H1,
    post_h: &mut H2,
    t: &Target,
    seg: &mut ElfSegments,
    scope: &[ScopeLib],
    lazy: bool,
    rel: &ElfRelType,
    fixups: &mut Vec<IfuncFixup>,
    deps: &mut Vec<bool>,
) -> (r: Result<(), Error>)
    requires
        target_matches(*t, *old(seg)),
        scope_wf(scope@),
        old(deps)@.len() == scope@.len(),
    ensures
        r is Ok <==> spec_plt_hstep(*pre, *post, *old(pre_h), *old(post_h), *t, scope@, lazy, *rel,
            (old(seg).memory@, old(fixups)@, old(deps)@)) is Some,
        r is Ok ==> spec_plt_hstep(*pre, *post, *old(pre_h), *old(post_h), *t, scope@, lazy, *rel,
            (old(seg).memory@, old(fixups)@, old(deps)@)) == Some((final(seg).memory@, final(fixups)@, final(deps)@)),
        r matches Err(e) ==> (spec_handler_err(*old(pre_h), *old(post_h), *t, scope@, spec_plt_unhandled(*rel), *rel) matches Some(fe)
            ==> e == fe),
        r is Err ==> final(seg).memory@ == old(seg).memory@ && final(fixups)@ == old(fixups)@
            && final(deps)@ == old(deps)@,
        forall|x: ElfRelType, lt: Target, ls: Seq<ScopeLib>| #[trigger] final(pre_h).spec_handle(x, lt, ls) == old(pre_h).spec_handle(x, lt, ls),
        forall|x: ElfRelType, lt: Target, ls: Seq<ScopeLib>| #[trigger] final(post_h).spec_handle(x, lt, ls) == old(post_h).spec_handle(x, lt, ls),
        final(seg).addr == old(seg).addr,
        final(seg).offset == old(seg).offset,
        final(seg).memory@.len() == old(seg).memory@.len(),
        final(deps)@.len() == old(deps)@.len(),
{
    match pre_h.handle(rel, t, scope) {
        Some(Ok(idx)) => {
            return mark_handled(deps, idx);
        },
        Some(Err(e)) => {
            return Err(e);
        },
        None => {},
    }
    match plt_step(pre, post, t, seg, scope, lazy, rel, fixups, deps) {
        Ok(true) => Ok(()),
        Ok(false) => match post_h.handle(rel, t, scope) {
            Some(Ok(idx)) => mark_handled(deps, idx),
            Some(Err(e)) => Err(e),
            None => Err(unhandled(rel, t)),
        },
        Err(e) => Err(e),
    }
}

/// Apply the PLT relocation entries `rels` in order, eagerly or lazily,
/// with handlers, as [`spec_plt_fold`] says; stop with an error at the
/// first entry that cannot be applied.
pub fn relocate_pltrel<P: SymbolLookup, Q: SymbolLookup, H1: RelocationHandler, H2: RelocationHandler>(
    pre: &P,
    post: &Q,
    pre_h: &mut H1,
    post_h: &mut H2,
    t: &Target,
    seg: &mut ElfSegments,
    scope: &[ScopeLib],
    lazy: bool,
    rels: &[ElfRelType],
    fixups: &mut Vec<IfuncFixup>,
    deps: &mut Vec<bool>,
) -> (r: Result<(), Error>)
    requires
        target_matches(*t, *old(seg)),
        scope_wf(scope@),
        old(deps)@.len() == scope@.len(),
    ensures
        r is Ok <==> spec_plt_fold(*pre, *post, *old(pre_h), *old(post_h), *t, scope@, lazy, rels@, rels@.len() as int,
            (old(seg).memory@, old(fixups)@, old(deps)@)) is Some,
        r is Ok ==> spec_plt_fold(*pre, *post, *old(pre_h), *old(post_h), *t, scope@, lazy, rels@, rels@.len() as int,
            (old(seg).memory@, old(fixups)@, old(deps)@)) == Some((final(seg).memory@, final(fixups)@, final(deps)@)),
        r matches Err(e) ==> exists|j: int| plt_fails_at(*pre, *post, *old(pre_h), *old(post_h), *t, scope@, lazy, rels@, j,
            (old(seg).memory@, old(fixups)@, old(deps)@), (final(seg).memory@, final(fixups)@, final(deps)@), e),
        forall|x: ElfRelType, lt: Target, ls: Seq<ScopeLib>| #[trigger] final(pre_h).spec_handle(x, lt, ls) == old(pre_h).spec_handle(x, lt, ls),
        forall|x: ElfRelType, lt: Target, ls: Seq<ScopeLib>| #[trigger] final(post_h).spec_handle(x, lt, ls) == old(post_h).spec_handle(x, lt, ls),
        final(seg).addr == old(seg).addr,
        final(seg).offset == old(seg).offset,
        final(seg).memory@.len() == old(seg).memory@.len(),
        final(deps)@.len() == old(deps)@.len(),
{
    let ghost init = (seg.memory@, fixups@, deps@);
    let ghost ph = *pre_h;
    let ghost qh = *post_h;
    let n = rels.len();
    let mut i: usize = 0;
    while i < n
        invariant
            n == rels@.len(),
            i <= n,
            target_matches(*t, *seg),
            scope_wf(scope@),
            deps@.len() == scope@.len(),
            seg.addr == old(seg).addr,
            seg.offset == old(seg).offset,
            seg.memory@.len() == old(seg).memory@.len(),
            deps@.len() == old(deps)@.len(),
            init == (old(seg).memory@, old(fixups)@, old(deps)@),
            ph == *old(pre_h),
            qh == *old(post_h),
            forall|x: ElfRelType, lt: Target, ls: Seq<ScopeLib>| #[trigger] pre_h.spec_handle(x, lt, ls) == ph.spec_handle(x, lt, ls),
            forall|x: ElfRelType, lt: Target, ls: Seq<ScopeLib>| #[trigger] post_h.spec_handle(x, lt, ls) == qh.spec_handle(x, lt, ls),
            spec_plt_fold(*pre, *post, ph, qh, *t, scope@, lazy, rels@, i as int, init) == Some((seg.memory@, fixups@, deps@)),
        decreases n - i,
    {
        let ghost before = (seg.memory@, fixups@, deps@);
        let ghost ph_now = *pre_h;
        let ghost qh_now = *post_h;
        let res = plt_hstep(pre, post, pre_h, post_h, t, seg, scope, lazy, &rels[i], fixups, deps);
        proof {
            assert(spec_plt_hstep(*pre, *post, ph_now, qh_now, *t, scope@, lazy, rels@[i as int], before)
                == spec_plt_hstep(*pre, *post, ph, qh, *t, scope@, lazy, rels@[i as int], before));
        }
        match res {
            Ok(()) => {},
            Err(e) => {
                proof {
                    assert(spec_plt_fold(*pre, *post, ph, qh, *t, scope@, lazy, rels@, i + 1, init)
                        == spec_plt_hstep(*pre, *post, ph, qh, *t, scope@, lazy, rels@[i as int], before));
                    lemma_plt_fold_none(*pre, *post, ph, qh, *t, scope@, lazy, rels@, i + 1, n as int, init);
                    assert(ph_now.spec_handle(rels@[i as int], *t, scope@) == ph.spec_handle(rels@[i as int], *t, scope@));
                    assert(qh_now.spec_handle(rels@[i as int], *t, scope@) == qh.spec_handle(rels@[i as int], *t, scope@));
                    assert(plt_fails_at(*pre, *post, ph, qh, *t, scope@, lazy, rels@, i as int, init, before, e));
                }
                return Err(e);
            },
        }
        i = i + 1;
    }
    Ok(())
}

/// The relative relocations, as entries or in the compact RELR form.
pub enum RelativeRel {
    Rel(Vec<ElfRelType>),
    Relr(Vec<usize>),
}

impl RelativeRel {
    /// A list of entries is empty or starts with a relative entry.
    pub open spec fn spec_starts_ok(&self) -> bool {
        match self {
            RelativeRel::Rel(rels) => rels@.len() == 0 || rels@[0].spec_r_type() == REL_RELATIVE,
            RelativeRel::Relr(_) => true,
        }
    }

    /// Whether a list of entries is empty or starts with a relative entry.
    pub fn starts_ok(&self) -> (r: bool)
        ensures
            r == self.spec_starts_ok(),
    {
        match self {
            RelativeRel::Rel(rels) => rels.len() == 0 || rels[0].r_type() == REL_RELATIVE,
            RelativeRel::Relr(_) => true,
        }
    }
}

/// The memory after the first `k` relative entries of `rels`: each sets its
/// word to the base plus its addend.
pub open spec fn spec_rel_fold(t: Target, rels: Seq<ElfRelType>, k: int, mem: Seq<u8>) -> Option<Seq<u8>>
    decreases k,
{
    if k <= 0 {
        Some(mem)
    } else {
        match spec_rel_fold(t, rels, k - 1, mem) {
            Some(m) => spec_write_word(m, t.offset, rels[k - 1].r_offset, wrap64(t.base + rels[k - 1].r_addend)),
            None => None,
        }
    }
}

proof fn lemma_rel_fold_none(t: Target, rels: Seq<ElfRelType>, k: int, m: int, mem: Seq<u8>)
    requires
        0 <= k <= m,
        spec_rel_fold(t, rels, k, mem) is None,
    ensures
        spec_rel_fold(t, rels, m, mem) is None,
    decreases m - k,
{
    if k < m {
        lemma_rel_fold_none(t, rels, k, m - 1, mem);
    }
}

/// Apply the relative relocation entries `rels`: each sets its word to the
/// base plus its addend.  The list must start with a relative entry.
pub fn relocate_rel(t: &Target, seg: &mut ElfSegments, rels: &[ElfRelType]) -> (r: Result<(), Error>)
    requires
        target_matches(*t, *old(seg)),
        rels@.len() == 0 || rels@[0].spec_r_type() == REL_RELATIVE,
    ensures
        r is Ok <==> spec_rel_fold(*t, rels@, rels@.len() as int, old(seg).memory@) is Some,
        r is Ok ==> spec_rel_fold(*t, rels@, rels@.len() as int, old(seg).memory@) == Some(final(seg).memory@),
        final(seg).addr == old(seg).addr,
        final(seg).offset == old(seg).offset,
        final(seg).memory@.len() == old(seg).memory@.len(),
{
    let n = rels.len();
    let ghost init = seg.memory@;
    let mut i: usize = 0;
    while i < n
        invariant
            n == rels@.len(),
            i <= n,
            target_matches(*t, *seg),
            seg.addr == old(seg).addr,
            seg.offset == old(seg).offset,
            seg.memory@.len() == old(seg).memory@.len(),
            init == old(seg).memory@,
            spec_rel_fold(*t, rels@, i as int, init) == Some(seg.memory@),
        decreases n - i,
    {
        let rel = &rels[i];
        let res = write_word(seg, rel.r_offset(), base_plus(t.base, rel.r_addend()), rel, t);
        match res {
            Ok(()) => {},
            Err(e) => {
                proof { lemma_rel_fold_none(*t, rels@, i + 1, n as int, init); }
                return Err(e);
            },
        }
        i = i + 1;
    }
    Ok(())
}

/// `mem` with the base added to the word at absolute address `abs`; none
/// when the word is outside the mapping.
pub open spec fn spec_add_base(mem: Seq<u8>, t: Target, abs: int) -> Option<Seq<u8>> {
    let vaddr = abs - t.base;
    if t.offset <= vaddr && vaddr - t.offset + 8 <= mem.len() {
        let idx = vaddr - t.offset;
        Some(spec_write_le(mem, idx, wrap64(crate::elf::le_at(mem, idx, 8) + t.base) as nat, 8))
    } else {
        None
    }
}

/// Apply a RELR bitmap: for each set bit `k` of `bits`, the word `idx + k`
/// after absolute address `abs` gets the base added.
pub open spec fn spec_bitmap(mem: Seq<u8>, t: Target, abs: int, bits: u64, idx: int) -> Option<Seq<u8>>
    decreases bits,
{
    if bits == 0 {
        Some(mem)
    } else {
        let m1 = if bits % 2 == 1 { spec_add_base(mem, t, abs + 8 * idx) } else { Some(mem) };
        match m1 {
            Some(m) => spec_bitmap(m, t, abs, bits / 2, idx + 1),
            None => None,
        }
    }
}

/// Apply one RELR entry with the cursor at absolute address `abs`: an even
/// entry is the virtual address of a word to relocate, after which the
/// cursor stands; an odd entry is a bitmap over the 63 words from the
/// cursor, which then moves past them.
pub open spec fn spec_relr_step(mem: Seq<u8>, t: Target, value: usize, abs: int) -> Option<(Seq<u8>, int)> {
    if value % 2 == 0 {
        match spec_add_base(mem, t, t.base + value) {
            Some(m) => Some((m, t.base + value + 8)),
            None => None,
        }
    } else {
        match spec_bitmap(mem, t, abs, (value / 2) as u64, 0) {
            Some(m) => Some((m, abs + 63 * 8)),
            None => None,
        }
    }
}

/// The memory and cursor after the first `k` RELR entries; the cursor
/// starts at address zero.
pub open spec fn spec_relr_fold(mem: Seq<u8>, t: Target, relr: Seq<usize>, k: int) -> Option<(Seq<u8>, int)>
    decreases k,
{
    if k <= 0 {
        Some((mem, 0))
    } else {
        match spec_relr_fold(mem, t, relr, k - 1) {
            Some((m, abs)) => spec_relr_step(m, t, relr[k - 1], abs),
            None => None,
        }
    }
}

proof fn lemma_relr_fold_none(mem: Seq<u8>, t: Target, relr: Seq<usize>, k: int, m: int)
    requires
        0 <= k <= m,
        spec_relr_fold(mem, t, relr, k) is None,
    ensures
        spec_relr_fold(mem, t, relr, m) is None,
    decreases m - k,
{
    if k < m {
        lemma_relr_fold_none(mem, t, relr, k, m - 1);
    }
}

/// Add the base to the word at absolute address `abs`.
fn add_base(t: &Target, seg: &mut ElfSegments, abs: u128) -> (r: Result<(), Error>)
    requires
        target_matches(*t, *old(seg)),
    ensures
        r is Ok <==> spec_add_base(old(seg).memory@, *t, abs as int) is Some,
        r is Ok ==> spec_add_base(old(seg).memory@, *t, abs as int) == Some(final(seg).memory@),
        final(seg).addr == old(seg).addr,
        final(seg).offset == old(seg).offset,
        final(seg).memory@.len() == old(seg).memory@.len(),
{
    let err = entry_err(t, "relocation outside the mapped image", REL_RELATIVE, 0);
    if abs < t.base as u128 || abs - (t.base as u128) > usize::MAX as u128 {
        return Err(err);
    }
    let vaddr = (abs - t.base as u128) as usize;
    match seg.read_le(vaddr, 8) {
        Ok(w) => match seg.write_le(vaddr, super::value::RelocValue::new(w).add_u64(t.base as u64).0, 8) {
            Ok(()) => Ok(()),
            Err(_) => Err(err),
        },
        Err(_) => Err(err),
    }
}

/// Apply a RELR bitmap entry, as [`spec_bitmap`] says.
fn apply_bitmap(t: &Target, seg: &mut ElfSegments, abs: u128, bits: u64) -> (r: Result<(), Error>)
    requires
        target_matches(*t, *old(seg)),
        abs <= 0x1_0000_0000_0000_0000_0000_0000,
    ensures
        r is Ok <==> spec_bitmap(old(seg).memory@, *t, abs as int, bits, 0) is Some,
        r is Ok ==> spec_bitmap(old(seg).memory@, *t, abs as int, bits, 0) == Some(final(seg).memory@),
        final(seg).addr == old(seg).addr,
        final(seg).offset == old(seg).offset,
        final(seg).memory@.len() == old(seg).memory@.len(),
{
    let ghost init = seg.memory@;
    let mut b = bits;
    let mut idx: u128 = 0;
    proof {
        vstd::arithmetic::power2::lemma2_to64();
        assert(b as nat * vstd::arithmetic::power2::pow2(0) == b);
    }
    while b != 0
        invariant
            target_matches(*t, *seg),
            seg.addr == old(seg).addr,
            seg.offset == old(seg).offset,
            seg.memory@.len() == old(seg).memory@.len(),
            abs <= 0x1_0000_0000_0000_0000_0000_0000,
            idx <= 64,
            b as nat * vstd::arithmetic::power2::pow2(idx as nat) <= bits,
            init == old(seg).memory@,
            spec_bitmap(init, *t, abs as int, bits, 0) == spec_bitmap(seg.memory@, *t, abs as int, b, idx as int),
        decreases b,
    {
        let ghost p = vstd::arithmetic::power2::pow2(idx as nat);
        proof {
            assert(b >> 1 == b / 2 && b & 1 == b % 2) by (bit_vector);
            vstd::arithmetic::power2::lemma2_to64();
            vstd::arithmetic::power2::lemma_pow2_pos(idx as nat);
            assert(p <= b as nat * p) by (nonlinear_arith)
                requires b >= 1, p > 0;
            if idx >= 64 {
                if idx > 64 {
                    vstd::arithmetic::power2::lemma_pow2_strictly_increases(64, idx as nat);
                }
                assert(false);
            }
            vstd::arithmetic::power2::lemma_pow2_unfold((idx + 1) as nat);
            assert((b as nat / 2) * (2 * p) <= b as nat * p) by (nonlinear_arith)
                requires p > 0;
        }
        if b & 1 == 1 {
            add_base(t, seg, abs + 8 * idx)?;
        }
        b = b >> 1;
        idx = idx + 1;
    }
    Ok(())
}

/// Apply the RELR entries `relr` in order, as [`spec_relr_fold`] says.
pub fn relocate_relr(t: &Target, seg: &mut ElfSegments, relr: &[usize]) -> (r: Result<(), Error>)
    requires
        target_matches(*t, *old(seg)),
    ensures
        r is Ok <==> spec_relr_fold(old(seg).memory@, *t, relr@, relr@.len() as int) is Some,
        r is Ok ==> (spec_relr_fold(old(seg).memory@, *t, relr@, relr@.len() as int)->0).0 == final(seg).memory@,
        final(seg).addr == old(seg).addr,
        final(seg).offset == old(seg).offset,
        final(seg).memory@.len() == old(seg).memory@.len(),
{
    let ghost init = seg.memory@;
    let n = relr.len();
    let mut abs: u128 = 0;
    let mut i: usize = 0;
    while i < n
        invariant
            n == relr@.len(),
            i <= n,
            target_matches(*t, *seg),
            seg.addr == old(seg).addr,
            seg.offset == old(seg).offset,
            seg.memory@.len() == old(seg).memory@.len(),
            init == old(seg).memory@,
            abs <= 0x2_0000_0000_0000_0000 + 512 * i,
            spec_relr_fold(init, *t, relr@, i as int) == Some((seg.memory@, abs as int)),
        decreases n - i,
    {
        let value = relr[i];
        let ghost before = (seg.memory@, abs as int);
        proof {
            assert(512 * i <= 512 * 0x1_0000_0000_0000_0000) by (nonlinear_arith)
                requires i <= 0x1_0000_0000_0000_0000;
        }
        if value % 2 == 0 {
            let target = t.base as u128 + value as u128;
            match add_base(t, seg, target) {
                Ok(()) => {},
                Err(e) => {
                    proof { lemma_relr_fold_none(init, *t, relr@, i + 1, n as int); }
                    return Err(e);
                },
            }
            abs = target + 8;
        } else {
            match apply_bitmap(t, seg, abs, (value / 2) as u64) {
                Ok(()) => {},
                Err(e) => {
                    proof { lemma_relr_fold_none(init, *t, relr@, i + 1, n as int); }
                    return Err(e);
                },
            }
            abs = abs + 63 * 8;
        }
        i = i + 1;
    }
    Ok(())
}

/// Apply the relative relocations, in whichever form they come.
pub fn relocate_relative(t: &Target, seg: &mut ElfSegments, relative: &RelativeRel) -> (r: Result<(), Error>)
    requires
        target_matches(*t, *old(seg)),
        relative.spec_starts_ok(),
    ensures
        r is Ok <==> spec_relative_ok(*t, old(seg).memory@, *relative),
        r is Ok ==> spec_relative(*t, old(seg).memory@, *relative) == final(seg).memory@,
        final(seg).addr == old(seg).addr,
        final(seg).offset == old(seg).offset,
        final(seg).memory@.len() == old(seg).memory@.len(),
{
    match relative {
        RelativeRel::Rel(rels) => relocate_rel(t, seg, rels.as_slice()),
        RelativeRel::Relr(relr) => relocate_relr(t, seg, relr.as_slice()),
    }
}

/// The relative relocations can be applied.
pub open spec fn spec_relative_ok(t: Target, mem: Seq<u8>, relative: RelativeRel) -> bool {
    match relative {
        RelativeRel::Rel(rels) => spec_rel_fold(t, rels@, rels@.len() as int, mem) is Some,
        RelativeRel::Relr(relr) => spec_relr_fold(mem, t, relr@, relr@.len() as int) is Some,
    }
}

/// The memory after the relative relocations.
pub open spec fn spec_relative(t: Target, mem: Seq<u8>, relative: RelativeRel) -> Seq<u8> {
    match relative {
        RelativeRel::Rel(rels) => spec_rel_fold(t, rels@, rels@.len() as int, mem)->0,
        RelativeRel::Relr(relr) => (spec_relr_fold(mem, t, relr@, relr@.len() as int)->0).0,
    }
}

/// The relocation entries of a dynamic object, by list.
pub struct DynamicRelocation {
    pub relative: RelativeRel,
    pub pltrel: Vec<ElfRelType>,
    pub dynrel: Vec<ElfRelType>,
}

/// The entries of `v`, or none.
pub open spec fn entries_of<T>(v: Option<Vec<T>>) -> Seq<T> {
    match v {
        Some(v) => v@,
        None => Seq::empty(),
    }
}

fn unwrap_entries<T>(v: Option<Vec<T>>) -> (r: Vec<T>)
    ensures
        r@ == entries_of(v),
{
    match v {
        Some(v) => v,
        None => Vec::new(),
    }
}

/// Copy of `v[lo..hi]`.
fn slice_copy(v: &Vec<ElfRelType>, lo: usize, hi: usize) -> (r: Vec<ElfRelType>)
    requires
        lo <= hi <= v@.len(),
    ensures
        r@ == v@.subrange(lo as int, hi as int),
{
    let mut out: Vec<ElfRelType> = Vec::new();
    let mut k = lo;
    while k < hi
        invariant
            lo <= k <= hi,
            hi <= v@.len(),
            out@ == v@.subrange(lo as int, k as int),
        decreases hi - k,
    {
        out.push(v[k]);
        k = k + 1;
        proof {
            assert(out@ =~= v@.subrange(lo as int, k as int));
        }
    }
    out
}

impl DynamicRelocation {
    /// The lists can be split as [`DynamicRelocation::new`] splits them: with
    /// RELR entries always; otherwise the relative count does not exceed the
    /// dynamic entries and, when the PLT entries are their tail, those do
    /// not exceed what is left.
    pub open spec fn spec_can_split(
        pltrel: Option<Vec<ElfRelType>>,
        dynrel: Option<Vec<ElfRelType>>,
        relr: Option<Vec<usize>>,
        rela_count: Option<usize>,
        pltrel_is_tail: bool,
    ) -> bool {
        let p = entries_of(pltrel);
        let d = entries_of(dynrel);
        let nrel: int = match rela_count { Some(c) => c as int, None => 0 };
        relr is None ==> nrel <= d.len() && (pltrel_is_tail ==> p.len() <= d.len() - nrel)
    }

    /// Whether the lists can be split as [`DynamicRelocation::new`] splits
    /// them.
    pub fn can_split(
        pltrel: &Option<Vec<ElfRelType>>,
        dynrel: &Option<Vec<ElfRelType>>,
        relr: &Option<Vec<usize>>,
        rela_count: Option<usize>,
        pltrel_is_tail: bool,
    ) -> (r: bool)
        ensures
            r == Self::spec_can_split(*pltrel, *dynrel, *relr, rela_count, pltrel_is_tail),
    {
        if relr.is_some() {
            return true;
        }
        let nrel = match rela_count {
            Some(c) => c,
            None => 0,
        };
        let dl = match dynrel {
            Some(v) => v.len(),
            None => 0,
        };
        let pl = match pltrel {
            Some(v) => v.len(),
            None => 0,
        };
        nrel <= dl && (!pltrel_is_tail || pl <= dl - nrel)
    }

    /// Sort the relocation entries of a dynamic object into lists.  With
    /// RELR entries, those are the relative relocations and the entry lists
    /// are kept whole.  Otherwise the first `rela_count` dynamic entries are
    /// the relative ones; when the PLT entries are the tail of the dynamic
    /// entries (`pltrel_is_tail`), they are taken out of the dynamic list.
    pub fn new(
        pltrel: Option<Vec<ElfRelType>>,
        dynrel: Option<Vec<ElfRelType>>,
        relr: Option<Vec<usize>>,
        rela_count: Option<usize>,
        pltrel_is_tail: bool,
    ) -> (r: DynamicRelocation)
        requires
            Self::spec_can_split(pltrel, dynrel, relr, rela_count, pltrel_is_tail),
        ensures
            ({
                let p = entries_of(pltrel);
                let d = entries_of(dynrel);
                let nrel: int = match rela_count { Some(c) => c as int, None => 0 };
                match relr {
                    Some(rr) => r.relative == RelativeRel::Relr(rr) && r.pltrel@ == p && r.dynrel@ == d,
                    None => {
                        &&& r.relative matches RelativeRel::Rel(rel) && rel@ == d.subrange(0, nrel)
                        &&& r.pltrel@ == p
                        &&& r.dynrel@ == if pltrel_is_tail { d.subrange(nrel, d.len() - p.len()) } else { d.subrange(nrel, d.len() as int) }
                    },
                }
            }),
    {
        let p = unwrap_entries(pltrel);
        let d = unwrap_entries(dynrel);
        match relr {
            Some(rr) => DynamicRelocation { relative: RelativeRel::Relr(rr), pltrel: p, dynrel: d },
            None => {
                let nrel = match rela_count {
                    Some(c) => c,
                    None => 0,
                };
                let end = if pltrel_is_tail {
                    d.len() - p.len()
                } else {
                    d.len()
                };
                let relative = slice_copy(&d, 0, nrel);
                let dynrel = slice_copy(&d, nrel, end);
                DynamicRelocation { relative: RelativeRel::Rel(relative), pltrel: p, dynrel }
            },
        }
    }

    /// There are no entries at all.
    pub open spec fn spec_is_empty(&self) -> bool {
        &&& match self.relative {
            RelativeRel::Rel(v) => v@.len() == 0,
            RelativeRel::Relr(v) => v@.len() == 0,
        }
        &&& self.pltrel@.len() == 0
        &&& self.dynrel@.len() == 0
    }

    /// Whether there are no entries at all.
    pub fn is_empty(&self) -> (r: bool)
        ensures
            r == self.spec_is_empty(),
    {
        let rel_empty = match &self.relative {
            RelativeRel::Rel(v) => v.len() == 0,
            RelativeRel::Relr(v) => v.len() == 0,
        };
        rel_empty && self.pltrel.len() == 0 && self.dynrel.len() == 0
    }
}

/// What relocation leaves to the host: the resolver calls to make, the
/// scope objects that were used, whether the GOT must be prepared for lazy
/// binding, and whether the read-only-after-relocation range is to be
/// protected now.
pub struct RelocOutcome {
    pub fixups: Vec<IfuncFixup>,
    pub deps: Vec<bool>,
    pub lazy_setup: bool,
    pub protect_relro: bool,
}

/// No scope object used yet.
pub open spec fn no_deps(n: int) -> Seq<bool> {
    Seq::new(n as nat, |i: int| false)
}

/// The result of relocating an object: nothing to do for an object without
/// entries; otherwise the relative relocations, then the dynamic ones, then
/// the PLT ones, in the memory, resolver calls and used objects.
pub open spec fn spec_relocate<P: SymbolLookup, Q: SymbolLookup, H1: RelocationHandler, H2: RelocationHandler>(
    pre: P,
    post: Q,
    pre_h: H1,
    post_h: H2,
    t: Target,
    scope: Seq<ScopeLib>,
    lazy: bool,
    reloc: DynamicRelocation,
    mem: Seq<u8>,
) -> Option<RelocState> {
    if reloc.spec_is_empty() {
        Some((mem, Seq::empty(), no_deps(scope.len() as int)))
    } else if !spec_relative_ok(t, mem, reloc.relative) {
        None
    } else {
        let m1 = spec_relative(t, mem, reloc.relative);
        match spec_dyn_fold(pre, post, pre_h, post_h, t, scope, reloc.dynrel@, reloc.dynrel@.len() as int,
            (m1, Seq::empty(), no_deps(scope.len() as int))) {
            Some(st) => spec_plt_fold(pre, post, pre_h, post_h, t, scope, lazy, reloc.pltrel@,
                reloc.pltrel@.len() as int, st),
            None => None,
        }
    }
}

/// Relocating with `reloc` from `mem` fails with `e` and leaves `fin`:
/// the relative entries cannot all be applied; or the dynamic entries stop
/// at one entry, the ones before it applied and the rest untouched; or the
/// dynamic entries all apply and the PLT entries stop likewise.
pub open spec fn spec_relocate_fails<P: SymbolLookup, Q: SymbolLookup, H1: RelocationHandler, H2: RelocationHandler>(
    pre: P,
    post: Q,
    pre_h: H1,
    post_h: H2,
    t: Target,
    scope: Seq<ScopeLib>,
    lazy: bool,
    reloc: DynamicRelocation,
    mem: Seq<u8>,
    fin: Seq<u8>,
    e: Error,
) -> bool {
    let init = (spec_relative(t, mem, reloc.relative), Seq::<IfuncFixup>::empty(), no_deps(scope.len() as int));
    &&& !reloc.spec_is_empty()
    &&& {
        ||| !spec_relative_ok(t, mem, reloc.relative)
        ||| exists|j: int, fx: Seq<IfuncFixup>, dp: Seq<bool>|
            #[trigger] dyn_fails_at(pre, post, pre_h, post_h, t, scope, reloc.dynrel@, j, init, (fin, fx, dp), e)
        ||| (spec_dyn_fold(pre, post, pre_h, post_h, t, scope, reloc.dynrel@, reloc.dynrel@.len() as int, init)
            matches Some(st) && exists|j: int, fx: Seq<IfuncFixup>, dp: Seq<bool>|
            #[trigger] plt_fails_at(pre, post, pre_h, post_h, t, scope, lazy, reloc.pltrel@, j, st, (fin, fx, dp), e))
    }
}

/// Relocate an object in its mapping `seg`, as [`spec_relocate`] says.
/// After eager binding the read-only-after-relocation range is to be
/// protected; after lazy binding with PLT entries the GOT is to be prepared.
/// The handlers answer as they did before the call throughout.
pub fn relocate<P: SymbolLookup, Q: SymbolLookup, H1: RelocationHandler, H2: RelocationHandler>(
    pre: &P,
    post: &Q,
    pre_h: &mut H1,
    post_h: &mut H2,
    t: &Target,
    seg: &mut ElfSegments,
    scope: &[ScopeLib],
    lazy: bool,
    reloc: &DynamicRelocation,
) -> (r: Result<RelocOutcome, Error>)
    requires
        target_matches(*t, *old(seg)),
        scope_wf(scope@),
        reloc.relative.spec_starts_ok(),
    ensures
        r is Ok <==> spec_relocate(*pre, *post, *old(pre_h), *old(post_h), *t, scope@, lazy, *reloc,
            old(seg).memory@) is Some,
        r matches Ok(out) ==> {
            &&& spec_relocate(*pre, *post, *old(pre_h), *old(post_h), *t, scope@, lazy, *reloc, old(seg).memory@)
                == Some((final(seg).memory@, out.fixups@, out.deps@))
            &&& out.lazy_setup == (!reloc.spec_is_empty() && lazy && reloc.pltrel@.len() > 0)
            &&& out.protect_relro == (!reloc.spec_is_empty() && !lazy)
        },
        r matches Err(e) ==> spec_relocate_fails(*pre, *post, *old(pre_h), *old(post_h), *t, scope@, lazy, *reloc,
            old(seg).memory@, final(seg).memory@, e),
        final(seg).addr == old(seg).addr,
        final(seg).offset == old(seg).offset,
        final(seg).memory@.len() == old(seg).memory@.len(),
        forall|x: ElfRelType, lt: Target, ls: Seq<ScopeLib>| #[trigger] final(pre_h).spec_handle(x, lt, ls) == old(pre_h).spec_handle(x, lt, ls),
        forall|x: ElfRelType, lt: Target, ls: Seq<ScopeLib>| #[trigger] final(post_h).spec_handle(x, lt, ls) == old(post_h).spec_handle(x, lt, ls),
{
    let mut deps: Vec<bool> = Vec::new();
    let n = scope.len();
    let mut i: usize = 0;
    while i < n
        invariant
            n == scope@.len(),
            i <= n,
            deps@ == no_deps(i as int),
        decreases n - i,
    {
        deps.push(false);
        i = i + 1;
        proof {
            assert(deps@ =~= no_deps(i as int));
        }
    }
    let mut fixups: Vec<IfuncFixup> = Vec::new();
    if reloc.is_empty() {
        return Ok(RelocOutcome { fixups, deps, lazy_setup: false, protect_relro: false });
    }
    relocate_relative(t, seg, &reloc.relative)?;
    let ghost init = (seg.memory@, fixups@, deps@);
    match relocate_dynrel(pre, post, pre_h, post_h, t, seg, scope, reloc.dynrel.as_slice(), &mut fixups, &mut deps) {
        Ok(()) => {},
        Err(e) => {
            proof {
                let j = choose|j: int| dyn_fails_at(*pre, *post, *old(pre_h), *old(post_h), *t, scope@, reloc.dynrel@, j,
                    init, (seg.memory@, fixups@, deps@), e);
                assert(dyn_fails_at(*pre, *post, *old(pre_h), *old(post_h), *t, scope@, reloc.dynrel@, j,
                    init, (seg.memory@, fixups@, deps@), e));
            }
            return Err(e);
        },
    }
    let ghost mid = (seg.memory@, fixups@, deps@);
    let ghost mid_pre = *pre_h;
    let ghost mid_post = *post_h;
    proof {
        lemma_plt_fold_same_answers(*pre, *post, *old(pre_h), *old(post_h), mid_pre, mid_post, *t, scope@, lazy,
            reloc.pltrel@, reloc.pltrel@.len() as int, (seg.memory@, fixups@, deps@));
    }
    match relocate_pltrel(pre, post, pre_h, post_h, t, seg, scope, lazy, reloc.pltrel.as_slice(), &mut fixups, &mut deps) {
        Ok(()) => {},
        Err(e) => {
            proof {
                let j = choose|j: int| plt_fails_at(*pre, *post, mid_pre, mid_post, *t, scope@, lazy, reloc.pltrel@, j,
                    mid, (seg.memory@, fixups@, deps@), e);
                lemma_plt_fails_same_answers(*pre, *post, *old(pre_h), *old(post_h), mid_pre, mid_post, *t, scope@, lazy,
                    reloc.pltrel@, j, mid, (seg.memory@, fixups@, deps@), e);
                assert(plt_fails_at(*pre, *post, *old(pre_h), *old(post_h), *t, scope@, lazy, reloc.pltrel@, j,
                    mid, (seg.memory@, fixups@, deps@), e));
            }
            return Err(e);
        },
    }
    let lazy_setup = lazy && reloc.pltrel.len() > 0;
    Ok(RelocOutcome { fixups, deps, lazy_setup, protect_relro: !lazy })
}

} // verus!
