//! Lazy binding, the scope lookups of loaded objects, and the relocation
//! builder.
//!
//! With lazy binding, a PLT slot first points back into the object's PLT;
//! the first call of the function goes to a resolver that finds the symbol
//! the slot's relocation names, writes its address into the slot and jumps
//! there.  The GOT's second and third words tell the PLT header which
//! object is calling and where the resolver is.

use vstd::prelude::*;
use crate::elf::{ElfRelType, REL_JUMP_SLOT, STT_GNU_IFUNC};
use crate::error::Error;
use crate::segment::{spec_write_le, ElfSegments};
use crate::symbol::{spec_lookup_filter, SymbolInfo, SymbolTable};
use vstd::string::StringSliceAdditionalSpecFns;
use super::dynamic::{relocate, spec_relocate, spec_relocate_fails, target_matches, DynamicRelocation, RelocOutcome, Target};
use super::handler::RelocationHandler;
use super::lookup::{scope_wf, spec_sym_name, symbol_named, Resolved, ScopeLib, SymbolLookup};
use super::object_reloc::{relocate_object, slots_of, spec_flatten, spec_static_fold, tables_in_image};
use crate::segment::section::PltGotSection;

verus! {

/// Prepare the GOT at absolute address `got` for lazy binding: its second
/// word names the object (`handle`) and its third the resolver.
pub fn prepare_lazy_bind(seg: &mut ElfSegments, got: usize, handle: usize, resolver: usize) -> (r: Result<(), Error>)
    ensures
        r is Ok <==> got + 24 <= usize::MAX && old(seg).in_bounds_abs(got + 8, 16),
        r is Ok ==> final(seg).memory@ == spec_write_le(
            spec_write_le(old(seg).memory@, got + 8 - old(seg).addr, handle as nat, 8),
            got + 16 - old(seg).addr, resolver as nat, 8),
        final(seg).addr == old(seg).addr,
        final(seg).offset == old(seg).offset,
{
    if got > usize::MAX - 24 {
        return Err(Error::Mmap { msg: "GOT outside the mapped image" });
    }
    if got + 8 < seg.addr || got + 8 - seg.addr > seg.memory.len() || 16 > seg.memory.len() - (got + 8 - seg.addr) {
        return Err(Error::Mmap { msg: "GOT outside the mapped image" });
    }
    seg.write_le_abs(got + 8, handle as u64, 8)?;
    seg.write_le_abs(got + 16, resolver as u64, 8)?;
    Ok(())
}

/// The place and symbol name of the PLT relocation entry `idx` that a lazy
/// call resolves: it must be a jump slot naming a symbol.
pub fn lazy_binding_slot(pltrel: &[ElfRelType], idx: usize, symtab: &SymbolTable) -> (r: Result<(usize, SymbolInfo), Error>)
    ensures
        r is Ok <==> idx < pltrel@.len() && pltrel@[idx as int].spec_r_type() == REL_JUMP_SLOT
            && pltrel@[idx as int].spec_r_sym() != 0
            && spec_sym_name(*symtab, pltrel@[idx as int].spec_r_sym() as int) is Some,
        r matches Ok(p) ==> p.0 == pltrel@[idx as int].r_offset
            && spec_sym_name(*symtab, pltrel@[idx as int].spec_r_sym() as int) == Some(p.1.name@),
{
    if idx >= pltrel.len() {
        return Err(Error::Relocate { msg: "lazy binding of a missing entry", r_type: 0, r_sym: 0, file: None });
    }
    let rel = pltrel[idx];
    if rel.r_type() != REL_JUMP_SLOT || rel.r_symbol() == 0 {
        return Err(Error::Relocate { msg: "lazy binding of an entry that is not a jump slot", r_type: rel.r_type(), r_sym: rel.r_symbol(), file: None });
    }
    match symbol_named(symtab, rel.r_symbol()) {
        Some((_, info)) => Ok((rel.r_offset(), info)),
        None => Err(Error::Relocate { msg: "lazy binding of a symbol without a name", r_type: rel.r_type(), r_sym: rel.r_symbol(), file: None }),
    }
}

/// Complete a lazy call: write the resolved address into the slot at
/// virtual address `place`.
pub fn complete_lazy_binding(seg: &mut ElfSegments, place: usize, addr: usize) -> (r: Result<(), Error>)
    ensures
        r is Ok <==> old(seg).in_bounds(place as int, 8),
        r is Ok ==> final(seg).memory@ == spec_write_le(old(seg).memory@, old(seg).index_of(place as int), addr as nat, 8),
        final(seg).addr == old(seg).addr,
        final(seg).offset == old(seg).offset,
{
    seg.write_le(place, addr as u64, 8)
}

/// The load base of a mapping at `addr` whose lowest virtual address is
/// `offset`.
pub open spec fn base_of(seg: ElfSegments) -> usize {
    vstd::wrapping::usize_specs::wrapping_sub(seg.addr, seg.offset)
}

/// The address the first object of `libs` from `k` on that defines `name`
/// gives it: its base plus the symbol's value.
pub open spec fn libs_lookup(libs: Seq<ScopeLib>, name: Seq<u8>, k: int) -> Option<usize>
    decreases libs.len() - k,
{
    if k < 0 || k >= libs.len() {
        None
    } else {
        match spec_lookup_filter(libs[k].symtab, name) {
            Some(s) => Some(vstd::wrapping::usize_specs::wrapping_add(base_of(libs[k].segments), s.st_value)),
            None => libs_lookup(libs, name, k + 1),
        }
    }
}

/// What the symbol `name` of a loaded object stands for: its base plus the
/// value of its definition; for an indirect function that is the resolver,
/// whose result (obtained by the host, which runs it) is the symbol's
/// address.
pub open spec fn spec_get_symbol(lib: ScopeLib, name: Seq<u8>) -> Option<Resolved> {
    match spec_lookup_filter(lib.symtab, name) {
        Some(s) => {
            let a = vstd::wrapping::usize_specs::wrapping_add(base_of(lib.segments), s.st_value);
            if s.spec_type() == STT_GNU_IFUNC { Some(Resolved::Ifunc(a)) } else { Some(Resolved::Addr(a)) }
        },
        None => None,
    }
}

/// The symbol `name` of a loaded object, as [`spec_get_symbol`] says.
pub fn get_symbol(lib: &ScopeLib, name: &str) -> (r: Option<Resolved>)
    ensures
        r == spec_get_symbol(*lib, name.spec_bytes()),
{
    let info = SymbolInfo::from_str(name, None);
    match lib.symtab.lookup_filter(&info) {
        Some(s) => {
            let a = lib.segments.addr().wrapping_sub(lib.segments.offset()).wrapping_add(s.st_value());
            if s.st_type() == STT_GNU_IFUNC { Some(Resolved::Ifunc(a)) } else { Some(Resolved::Addr(a)) }
        },
        None => None,
    }
}

/// The lookup used when lazily bound functions are first called: the
/// caller's own lookup first, then the objects of the scope in order.
pub struct LazyScope<S> {
    pub libs: Vec<ScopeLib>,
    pub custom_scope: Option<S>,
}

impl<S: SymbolLookup> SymbolLookup for LazyScope<S> {
    open spec fn spec_lookup(&self, name: Seq<u8>) -> Option<usize> {
        match self.custom_scope {
            Some(c) => match c.spec_lookup(name) {
                Some(a) => Some(a),
                None => libs_lookup(self.libs@, name, 0),
            },
            None => libs_lookup(self.libs@, name, 0),
        }
    }

    fn lookup(&self, name: &[u8]) -> (r: Option<usize>) {
        match &self.custom_scope {
            Some(c) => match c.lookup(name) {
                Some(a) => {
                    return Some(a);
                },
                None => {},
            },
            None => {},
        }
        let info = SymbolInfo { name: copy_bytes(name) };
        let n = self.libs.len();
        let mut i: usize = 0;
        while i < n
            invariant
                n == self.libs@.len(),
                i <= n,
                info.name@ == name@,
                match self.custom_scope { Some(c) => c.spec_lookup(name@) is None, None => true },
                libs_lookup(self.libs@, name@, 0) == libs_lookup(self.libs@, name@, i as int),
            decreases n - i,
        {
            match self.libs[i].symtab.lookup_filter(&info) {
                Some(s) => {
                    let seg = &self.libs[i].segments;
                    return Some(seg.addr().wrapping_sub(seg.offset()).wrapping_add(s.st_value()));
                },
                None => {},
            }
            i = i + 1;
        }
        None
    }
}

/// What the first object of `libs` from `k` on that defines `name` gives
/// it, as [`spec_get_symbol`] says.
pub open spec fn libs_resolved(libs: Seq<ScopeLib>, name: Seq<u8>, k: int) -> Option<Resolved>
    decreases libs.len() - k,
{
    if k < 0 || k >= libs.len() {
        None
    } else {
        match spec_get_symbol(libs[k], name) {
            Some(r) => Some(r),
            None => libs_resolved(libs, name, k + 1),
        }
    }
}

impl<S: SymbolLookup> LazyScope<S> {
    /// The symbol `name` as a lazily bound call resolves it: the address the
    /// caller's own lookup gives, if any; else what the first object of the
    /// scope that defines it gives it, an indirect function as its resolver.
    pub open spec fn spec_lookup_resolved(&self, name: Seq<u8>) -> Option<Resolved> {
        match self.custom_scope {
            Some(c) => match c.spec_lookup(name) {
                Some(a) => Some(Resolved::Addr(a)),
                None => libs_resolved(self.libs@, name, 0),
            },
            None => libs_resolved(self.libs@, name, 0),
        }
    }

    /// The symbol `name`, as [`Self::spec_lookup_resolved`] says.
    pub fn lookup_resolved(&self, name: &str) -> (r: Option<Resolved>)
        ensures
            r == self.spec_lookup_resolved(name.spec_bytes()),
    {
        match &self.custom_scope {
            Some(c) => match c.lookup(name.as_bytes()) {
                Some(a) => {
                    return Some(Resolved::Addr(a));
                },
                None => {},
            },
            None => {},
        }
        let n = self.libs.len();
        let mut i: usize = 0;
        while i < n
            invariant
                n == self.libs@.len(),
                i <= n,
                match self.custom_scope { Some(c) => c.spec_lookup(name.spec_bytes()) is None, None => true },
                libs_resolved(self.libs@, name.spec_bytes(), 0) == libs_resolved(self.libs@, name.spec_bytes(), i as int),
            decreases n - i,
        {
            match get_symbol(&self.libs[i], name) {
                Some(r) => {
                    return Some(r);
                },
                None => {},
            }
            i = i + 1;
        }
        None
    }
}

/// A copy of `b`.
fn copy_bytes(b: &[u8]) -> (r: Vec<u8>)
    ensures
        r@ == b@,
{
    let mut v: Vec<u8> = Vec::new();
    let n = b.len();
    let mut i: usize = 0;
    while i < n
        invariant
            n == b@.len(),
            i <= n,
            v@ == b@.subrange(0, i as int),
        decreases n - i,
    {
        v.push(b[i]);
        i = i + 1;
        proof {
            assert(v@ =~= b@.subrange(0, i as int));
        }
    }
    proof {
        assert(v@ =~= b@);
    }
    v
}

/// The settings of a relocation: the scope searched for definitions, the
/// preferred and fallback lookups, the handlers asked before and after the
/// default treatment of an entry, the binding mode when one is chosen, and
/// the lookup that lazily bound calls use first.
pub struct Relocator<P, Q, H1, H2, L> {
    pub scope: Vec<ScopeLib>,
    pub pre_find: P,
    pub post_find: Q,
    pub pre_handler: H1,
    pub post_handler: H2,
    pub lazy: Option<bool>,
    pub lazy_scope: Option<L>,
}

impl Relocator<(), (), (), (), ()> {
    /// Settings with an empty scope, lookups that find nothing, handlers
    /// that handle nothing, and the object's own binding mode.
    pub fn new() -> (r: Relocator<(), (), (), (), ()>)
        ensures
            r.scope@.len() == 0,
            r.lazy is None,
            r.lazy_scope is None,
    {
        Relocator {
            scope: Vec::new(),
            pre_find: (),
            post_find: (),
            pre_handler: (),
            post_handler: (),
            lazy: None,
            lazy_scope: None,
        }
    }
}

impl<P: SymbolLookup, Q: SymbolLookup, H1: RelocationHandler, H2: RelocationHandler, L: SymbolLookup> Relocator<P, Q, H1, H2, L> {
    /// Use `pre_find` before anything else.
    pub fn pre_find<P2: SymbolLookup>(self, pre_find: P2) -> (r: Relocator<P2, Q, H1, H2, L>)
        ensures
            r.pre_find == pre_find,
            r.post_find == self.post_find,
            r.pre_handler == self.pre_handler,
            r.post_handler == self.post_handler,
            r.scope@ == self.scope@,
            r.lazy == self.lazy,
            r.lazy_scope == self.lazy_scope,
    {
        Relocator {
            scope: self.scope,
            pre_find,
            post_find: self.post_find,
            pre_handler: self.pre_handler,
            post_handler: self.post_handler,
            lazy: self.lazy,
            lazy_scope: self.lazy_scope,
        }
    }

    /// Use `post_find` after everything else.
    pub fn post_find<Q2: SymbolLookup>(self, post_find: Q2) -> (r: Relocator<P, Q2, H1, H2, L>)
        ensures
            r.pre_find == self.pre_find,
            r.post_find == post_find,
            r.pre_handler == self.pre_handler,
            r.post_handler == self.post_handler,
            r.scope@ == self.scope@,
            r.lazy == self.lazy,
            r.lazy_scope == self.lazy_scope,
    {
        Relocator {
            scope: self.scope,
            pre_find: self.pre_find,
            post_find,
            pre_handler: self.pre_handler,
            post_handler: self.post_handler,
            lazy: self.lazy,
            lazy_scope: self.lazy_scope,
        }
    }

    /// Ask `pre_handler` about each entry before the default treatment.
    pub fn pre_handler<G: RelocationHandler>(self, pre_handler: G) -> (r: Relocator<P, Q, G, H2, L>)
        ensures
            r.pre_find == self.pre_find,
            r.post_find == self.post_find,
            r.pre_handler == pre_handler,
            r.post_handler == self.post_handler,
            r.scope@ == self.scope@,
            r.lazy == self.lazy,
            r.lazy_scope == self.lazy_scope,
    {
        Relocator {
            scope: self.scope,
            pre_find: self.pre_find,
            post_find: self.post_find,
            pre_handler,
            post_handler: self.post_handler,
            lazy: self.lazy,
            lazy_scope: self.lazy_scope,
        }
    }

    /// Ask `post_handler` about each entry the default treatment leaves.
    pub fn post_handler<G: RelocationHandler>(self, post_handler: G) -> (r: Relocator<P, Q, H1, G, L>)
        ensures
            r.pre_find == self.pre_find,
            r.post_find == self.post_find,
            r.pre_handler == self.pre_handler,
            r.post_handler == post_handler,
            r.scope@ == self.scope@,
            r.lazy == self.lazy,
            r.lazy_scope == self.lazy_scope,
    {
        Relocator {
            scope: self.scope,
            pre_find: self.pre_find,
            post_find: self.post_find,
            pre_handler: self.pre_handler,
            post_handler,
            lazy: self.lazy,
            lazy_scope: self.lazy_scope,
        }
    }

    /// Search the objects of `scope`, in order, for definitions.
    pub fn scope(self, scope: Vec<ScopeLib>) -> (r: Relocator<P, Q, H1, H2, L>)
        ensures
            r.pre_find == self.pre_find,
            r.post_find == self.post_find,
            r.pre_handler == self.pre_handler,
            r.post_handler == self.post_handler,
            r.scope@ == scope@,
            r.lazy == self.lazy,
            r.lazy_scope == self.lazy_scope,
    {
        Relocator {
            scope,
            pre_find: self.pre_find,
            post_find: self.post_find,
            pre_handler: self.pre_handler,
            post_handler: self.post_handler,
            lazy: self.lazy,
            lazy_scope: self.lazy_scope,
        }
    }

    /// Bind lazily or not, whatever the object asks for.
    pub fn lazy(self, lazy: bool) -> (r: Relocator<P, Q, H1, H2, L>)
        ensures
            r.pre_find == self.pre_find,
            r.post_find == self.post_find,
            r.pre_handler == self.pre_handler,
            r.post_handler == self.post_handler,
            r.scope@ == self.scope@,
            r.lazy == Some(lazy),
            r.lazy_scope == self.lazy_scope,
    {
        Relocator {
            scope: self.scope,
            pre_find: self.pre_find,
            post_find: self.post_find,
            pre_handler: self.pre_handler,
            post_handler: self.post_handler,
            lazy: Some(lazy),
            lazy_scope: self.lazy_scope,
        }
    }

    /// Let lazily bound calls ask `lazy_scope` first.
    pub fn lazy_scope<L2: SymbolLookup>(self, lazy_scope: L2) -> (r: Relocator<P, Q, H1, H2, L2>)
        ensures
            r.pre_find == self.pre_find,
            r.post_find == self.post_find,
            r.pre_handler == self.pre_handler,
            r.post_handler == self.post_handler,
            r.scope@ == self.scope@,
            r.lazy == self.lazy,
            r.lazy_scope == Some(lazy_scope),
    {
        Relocator {
            scope: self.scope,
            pre_find: self.pre_find,
            post_find: self.post_find,
            pre_handler: self.pre_handler,
            post_handler: self.post_handler,
            lazy: self.lazy,
            lazy_scope: Some(lazy_scope),
        }
    }

    /// The lookup that the lazily bound calls of an object relocated with
    /// these settings use: none when binding is eager; otherwise the lazy
    /// scope given, then the objects of the scope when `use_scope_as_lazy`
    /// asks for them.
    pub fn into_lazy_scope(self, is_lazy: bool, use_scope_as_lazy: bool) -> (r: Option<LazyScope<L>>)
        ensures
            is_lazy ==> (r matches Some(ls) && ls.custom_scope == self.lazy_scope
                && ls.libs@ == (if use_scope_as_lazy { self.scope@ } else { Seq::empty() })),
            !is_lazy ==> r is None,
    {
        if !is_lazy {
            return None;
        }
        let libs = if use_scope_as_lazy { self.scope } else { Vec::new() };
        Some(LazyScope { libs, custom_scope: self.lazy_scope })
    }

    /// Relocate a dynamic object with these settings; it binds lazily as
    /// chosen, else as it asks (`object_lazy`).  An object that binds lazily
    /// and has entries to relocate is given the lookup its lazily bound
    /// calls use (see `into_lazy_scope`), the second result.
    pub fn relocate(self, t: &Target, seg: &mut ElfSegments, reloc: &DynamicRelocation, object_lazy: bool,
        use_scope_as_lazy: bool) -> (r: Result<(RelocOutcome, Option<LazyScope<L>>), Error>)
        requires
            target_matches(*t, *old(seg)),
            scope_wf(self.scope@),
            reloc.relative.spec_starts_ok(),
        ensures
            ({
                let lazy = match self.lazy { Some(l) => l, None => object_lazy };
                let res = spec_relocate(self.pre_find, self.post_find, self.pre_handler,
                    self.post_handler, *t, self.scope@, lazy, *reloc, old(seg).memory@);
                &&& r is Ok <==> res is Some
                &&& r matches Ok((out, ls)) ==> {
                    &&& res == Some((final(seg).memory@, out.fixups@, out.deps@))
                    &&& out.lazy_setup == (!reloc.spec_is_empty() && lazy && reloc.pltrel@.len() > 0)
                    &&& out.protect_relro == (!reloc.spec_is_empty() && !lazy)
                    &&& if !reloc.spec_is_empty() && lazy {
                        ls matches Some(l) && l.custom_scope == self.lazy_scope
                            && l.libs@ == (if use_scope_as_lazy { self.scope@ } else { Seq::<ScopeLib>::empty() })
                    } else {
                        ls is None
                    }
                }
                &&& r matches Err(e) ==> spec_relocate_fails(self.pre_find, self.post_find, self.pre_handler,
                    self.post_handler, *t, self.scope@, lazy, *reloc, old(seg).memory@, final(seg).memory@, e)
            }),
            final(seg).addr == old(seg).addr,
            final(seg).offset == old(seg).offset,
    {
        let mut me = self;
        let lazy = match me.lazy {
            Some(l) => l,
            None => object_lazy,
        };
        let out = relocate(&me.pre_find, &me.post_find, &mut me.pre_handler, &mut me.post_handler, t, seg,
            me.scope.as_slice(), lazy, reloc)?;
        if reloc.is_empty() {
            return Ok((out, None));
        }
        let ls = me.into_lazy_scope(lazy, use_scope_as_lazy);
        Ok((out, ls))
    }

    /// Relocate a relocatable object with these settings.  Its symbols are
    /// looked up in the two lookups only: the scope is not searched.
    pub fn relocate_object(
        &self,
        t: &Target,
        seg: &mut ElfSegments,
        pltgot: &mut PltGotSection,
        relocation: &Vec<Vec<ElfRelType>>,
    ) -> (r: Result<(), Error>)
        requires
            target_matches(*t, *old(seg)),
            tables_in_image(*old(pltgot), *old(seg)),
        ensures
            ({
                let rels = spec_flatten(relocation@, relocation@.len() as int);
                let res = spec_static_fold(self.pre_find, self.post_find, *t, Seq::empty(), *old(pltgot), old(seg).addr,
                    rels, rels.len() as int, (old(seg).memory@, slots_of(*old(pltgot))));
                &&& r is Ok <==> res is Some
                &&& r is Ok ==> res == Some((final(seg).memory@, slots_of(*final(pltgot))))
            }),
            final(seg).addr == old(seg).addr,
            final(seg).offset == old(seg).offset,
    {
        let no_scope: Vec<ScopeLib> = Vec::new();
        proof {
            assert(no_scope@ =~= Seq::<ScopeLib>::empty());
        }
        relocate_object(&self.pre_find, &self.post_find, t, seg, no_scope.as_slice(), pltgot, relocation)
    }
}

} // verus!
