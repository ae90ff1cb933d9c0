//! Symbol resolution: finding the definition a relocation refers to.
//!
//! A reference is resolved, in order, by the caller's preferred lookup, by
//! the object itself for a local symbol, by the first object of the scope
//! that defines it, by the object itself for a weak or already valued
//! symbol, and finally by the caller's fallback lookup.

use vstd::prelude::*;
use crate::elf::{ElfSymbol, STT_GNU_IFUNC};
use crate::segment::ElfSegments;
use crate::symbol::{is_cstr_at, spec_lookup_filter, SymbolInfo, SymbolTable};
use vstd::string::StringSliceAdditionalSpecFns;

verus! {

/// A source of symbol addresses by name, supplied by the user of the
/// loader.  The same name always gives the same answer.
pub trait SymbolLookup {
    /// The address found for `name`, if any.
    spec fn spec_lookup(&self, name: Seq<u8>) -> Option<usize>;

    /// Find the address of the symbol called `name`.
    fn lookup(&self, name: &[u8]) -> (r: Option<usize>)
        ensures
            r == self.spec_lookup(name@),
    ;
}

/// The empty lookup: finds nothing.
impl SymbolLookup for () {
    open spec fn spec_lookup(&self, name: Seq<u8>) -> Option<usize> {
        None
    }

    fn lookup(&self, name: &[u8]) -> (r: Option<usize>) {
        None
    }
}

/// Whether two byte strings are equal.
pub fn bytes_eq(a: &[u8], b: &[u8]) -> (r: bool)
    ensures
        r == (a@ == b@),
{
    if a.len() != b.len() {
        return false;
    }
    let n = a.len();
    let mut i: usize = 0;
    while i < n
        invariant
            n == a@.len(),
            n == b@.len(),
            i <= n,
            forall|k: int| 0 <= k < i ==> a@[k] == b@[k],
        decreases n - i,
    {
        if a[i] != b[i] {
            return false;
        }
        i = i + 1;
    }
    proof {
        assert(a@ =~= b@);
    }
    true
}

/// A fixed table of symbol names and addresses.
pub struct SymbolMap {
    pub names: Vec<Vec<u8>>,
    pub addrs: Vec<usize>,
}

/// The address of the first entry from `k` on called `name`.
pub open spec fn map_find(names: Seq<Vec<u8>>, addrs: Seq<usize>, name: Seq<u8>, k: int) -> Option<usize>
    decreases names.len() - k,
{
    if k < 0 || k >= names.len() || k >= addrs.len() {
        None
    } else if names[k]@ == name {
        Some(addrs[k])
    } else {
        map_find(names, addrs, name, k + 1)
    }
}

impl SymbolMap {
    /// An empty table.
    pub fn new() -> (r: SymbolMap)
        ensures
            r.names@.len() == 0,
            r.addrs@.len() == 0,
    {
        SymbolMap { names: Vec::new(), addrs: Vec::new() }
    }

    /// Add `name` at `addr`; earlier entries for the same name win.
    pub fn insert(&mut self, name: &str, addr: usize)
        requires
            old(self).names@.len() == old(self).addrs@.len(),
        ensures
            final(self).names@.len() == old(self).names@.len() + 1,
            final(self).names@.len() == final(self).addrs@.len(),
            forall|k: int| 0 <= k < old(self).names@.len() ==> #[trigger] final(self).names@[k] == old(self).names@[k]
                && final(self).addrs@[k] == old(self).addrs@[k],
            final(self).names@.last()@ == name.spec_bytes(),
            final(self).addrs@.last() == addr,
    {
        let info = SymbolInfo::from_str(name, None);
        self.names.push(info.name);
        self.addrs.push(addr);
    }
}

impl SymbolLookup for SymbolMap {
    open spec fn spec_lookup(&self, name: Seq<u8>) -> Option<usize> {
        map_find(self.names@, self.addrs@, name, 0)
    }

    fn lookup(&self, name: &[u8]) -> (r: Option<usize>) {
        let n = if self.names.len() < self.addrs.len() { self.names.len() } else { self.addrs.len() };
        let mut i: usize = 0;
        while i < n
            invariant
                n <= self.names@.len(),
                n <= self.addrs@.len(),
                n == self.names@.len() || n == self.addrs@.len(),
                i <= n,
                map_find(self.names@, self.addrs@, name@, 0) == map_find(self.names@, self.addrs@, name@, i as int),
            decreases n - i,
        {
            if bytes_eq(self.names[i].as_slice(), name) {
                return Some(self.addrs[i]);
            }
            i = i + 1;
        }
        None
    }
}

/// A loaded object in the scope: its identity, symbols and memory.
pub struct ScopeLib {
    pub id: usize,
    pub symtab: SymbolTable,
    pub segments: ElfSegments,
}

/// All objects of the scope have a well-formed mapping.
pub open spec fn scope_wf(scope: Seq<ScopeLib>) -> bool {
    forall|i: int| 0 <= i < scope.len() ==> (#[trigger] scope[i]).segments.wf()
}

/// The first object of `scope` from `k` on that defines `name`.
pub open spec fn first_def(scope: Seq<ScopeLib>, name: Seq<u8>, k: int) -> Option<int>
    decreases scope.len() - k,
{
    if k < 0 || k >= scope.len() {
        None
    } else if spec_lookup_filter(scope[k].symtab, name) is Some {
        Some(k)
    } else {
        first_def(scope, name, k + 1)
    }
}

/// A symbol definition: the symbol (none for an undefined weak symbol) and
/// the object that holds it (none for the object being relocated, else its
/// index in the scope).
#[derive(Clone, Copy, Debug, PartialEq, Eq)]
pub struct SymDef {
    pub sym: Option<ElfSymbol>,
    pub lib: Option<usize>,
}

/// The address a resolved reference stands for: a plain address, or the
/// address of an indirect-function resolver whose result is the address.
#[derive(Clone, Copy, Debug, PartialEq, Eq)]
pub enum Resolved {
    Addr(usize),
    Ifunc(usize),
}

/// The definition a reference to the undefined or local symbol `sym` of the
/// object being relocated falls back to: nothing for an undefined weak
/// symbol, the symbol itself when it has a value.
pub open spec fn spec_find_weak(sym: ElfSymbol) -> Option<SymDef> {
    if sym.spec_is_weak() && sym.spec_is_undef() {
        if sym.st_value == 0 { Some(SymDef { sym: None, lib: None }) } else { None }
    } else if sym.st_value != 0 {
        Some(SymDef { sym: Some(sym), lib: None })
    } else {
        None
    }
}

/// The definition of symbol `sym`, called `name`, of the object `own_id`:
/// itself when local, else the first definition in the scope (with the
/// scope index when that object is another one), else its weak fallback.
pub open spec fn spec_find_symdef(own_id: usize, scope: Seq<ScopeLib>, sym: ElfSymbol, name: Seq<u8>)
    -> Option<(SymDef, Option<usize>)>
{
    if sym.spec_is_local() {
        Some((SymDef { sym: Some(sym), lib: None }, None))
    } else {
        match first_def(scope, name, 0) {
            Some(i) => Some((
                SymDef { sym: spec_lookup_filter(scope[i].symtab, name), lib: Some(i as usize) },
                if scope[i].id == own_id { None } else { Some(i as usize) },
            )),
            None => match spec_find_weak(sym) {
                Some(d) => Some((d, None)),
                None => None,
            },
        }
    }
}

/// The load base of the object holding a definition.
pub open spec fn spec_lib_base(own_base: usize, scope: Seq<ScopeLib>, lib: Option<usize>) -> int {
    match lib {
        None => own_base as int,
        Some(i) => scope[i as int].segments.spec_base(),
    }
}

/// The address a definition stands for: zero for an undefined weak
/// symbol, the holder's base plus the symbol's value otherwise, to be
/// passed through the resolver for an indirect function.
pub open spec fn spec_convert(d: SymDef, own_base: usize, scope: Seq<ScopeLib>) -> Resolved {
    match d.sym {
        None => Resolved::Addr(0),
        Some(s) => {
            let a = vstd::wrapping::usize_specs::wrapping_add(
                spec_lib_base(own_base, scope, d.lib) as usize, s.st_value);
            if s.spec_type() == STT_GNU_IFUNC { Resolved::Ifunc(a) } else { Resolved::Addr(a) }
        },
    }
}

/// The name of symbol `i` of `t`, when it is terminated in the string table.
pub open spec fn spec_sym_name(t: SymbolTable, i: int) -> Option<Seq<u8>> {
    if 0 <= i < t.symbols@.len() && exists|s: Seq<u8>| t.has_name(i, s) {
        Some(choose|s: Seq<u8>| t.has_name(i, s))
    } else {
        None
    }
}

/// A string table holds at most one string at each offset.
pub proof fn lemma_cstr_unique(data: Seq<u8>, off: int, s1: Seq<u8>, s2: Seq<u8>)
    requires
        is_cstr_at(data, off, s1),
        is_cstr_at(data, off, s2),
    ensures
        s1 == s2,
{
    if s1.len() < s2.len() {
        assert(data.subrange(off, off + s2.len())[s1.len() as int] == s2[s1.len() as int]);
    } else if s2.len() < s1.len() {
        assert(data.subrange(off, off + s1.len())[s2.len() as int] == s1[s2.len() as int]);
    } else {
        assert(s1 =~= s2) by {
            assert forall|k: int| 0 <= k < s1.len() implies s1[k] == s2[k] by {
                assert(data.subrange(off, off + s1.len())[k] == s1[k]);
                assert(data.subrange(off, off + s2.len())[k] == s2[k]);
            }
        }
    }
}

/// The address a reference to symbol `r_sym` of the object resolves to,
/// and the scope index of the object that satisfied it when that is
/// another object: the preferred lookup's answer, else the definition
/// found in the object or scope, else the fallback lookup's answer.
pub open spec fn spec_find_symbol_addr<P: SymbolLookup, Q: SymbolLookup>(
    pre: P,
    post: Q,
    own_base: usize,
    own_id: usize,
    symtab: SymbolTable,
    scope: Seq<ScopeLib>,
    r_sym: int,
) -> Option<(Resolved, Option<usize>)> {
    match spec_sym_name(symtab, r_sym) {
        None => None,
        Some(name) => match pre.spec_lookup(name) {
            Some(a) => Some((Resolved::Addr(a), None)),
            None => match spec_find_symdef(own_id, scope, symtab.symbols@[r_sym], name) {
                Some((d, idx)) => Some((spec_convert(d, own_base, scope), idx)),
                None => match post.spec_lookup(name) {
                    Some(a) => Some((Resolved::Addr(a), None)),
                    None => None,
                },
            },
        },
    }
}

/// The definition for the reference to symbol `r_sym` of the object, found
/// in the object itself or the scope.
pub open spec fn spec_find_symdef_idx(own_id: usize, symtab: SymbolTable, scope: Seq<ScopeLib>, r_sym: int)
    -> Option<(SymDef, Option<usize>)>
{
    match spec_sym_name(symtab, r_sym) {
        None => None,
        Some(name) => spec_find_symdef(own_id, scope, symtab.symbols@[r_sym], name),
    }
}

/// The definition [`spec_find_weak`] describes.
pub fn find_weak(sym: &ElfSymbol) -> (r: Option<SymDef>)
    ensures
        r == spec_find_weak(*sym),
{
    if sym.is_weak() && sym.is_undef() {
        if sym.st_value() == 0 {
            Some(SymDef { sym: None, lib: None })
        } else {
            None
        }
    } else if sym.st_value() != 0 {
        Some(SymDef { sym: Some(*sym), lib: None })
    } else {
        None
    }
}

/// The first object of `scope` that defines `name`, with the definition.
fn find_in_scope(scope: &[ScopeLib], info: &SymbolInfo) -> (r: Option<(usize, ElfSymbol)>)
    ensures
        r matches Some(p) ==> first_def(scope@, info.name@, 0) == Some(p.0 as int)
            && spec_lookup_filter(scope@[p.0 as int].symtab, info.name@) == Some(p.1),
        r is None <==> first_def(scope@, info.name@, 0) is None,
{
    let n = scope.len();
    let mut i: usize = 0;
    while i < n
        invariant
            n == scope@.len(),
            i <= n,
            first_def(scope@, info.name@, 0) == first_def(scope@, info.name@, i as int),
        decreases n - i,
    {
        match scope[i].symtab.lookup_filter(info) {
            Some(sym) => {
                return Some((i, sym));
            },
            None => {},
        }
        i = i + 1;
    }
    None
}

/// Find the definition of symbol `sym`, called `info.name`, of the object
/// `own_id`, as [`spec_find_symdef`] describes.
pub fn find_symdef_impl(own_id: usize, scope: &[ScopeLib], sym: &ElfSymbol, info: &SymbolInfo)
    -> (r: Option<(SymDef, Option<usize>)>)
    ensures
        r == spec_find_symdef(own_id, scope@, *sym, info.name@),
{
    if sym.is_local() {
        return Some((SymDef { sym: Some(*sym), lib: None }, None));
    }
    proof { lemma_symdef_lib_in_scope(own_id, scope@, *sym, info.name@, 0); }
    match find_in_scope(scope, info) {
        Some((i, found)) => {
            let same = scope[i].id == own_id;
            Some((SymDef { sym: Some(found), lib: Some(i) }, if same { None } else { Some(i) }))
        },
        None => match find_weak(sym) {
            Some(d) => Some((d, None)),
            None => None,
        },
    }
}

impl SymDef {
    /// The address this definition stands for, as [`spec_convert`] says.
    pub fn convert(&self, own_base: usize, scope: &[ScopeLib]) -> (r: Resolved)
        requires
            scope_wf(scope@),
            self.lib matches Some(i) ==> i < scope@.len(),
        ensures
            r == spec_convert(*self, own_base, scope@),
    {
        match self.sym {
            None => Resolved::Addr(0),
            Some(s) => {
                let base = match self.lib {
                    None => own_base,
                    Some(i) => {
                        assert(scope@[i as int].segments.wf());
                        scope[i].segments.base()
                    },
                };
                let a = base.wrapping_add(s.st_value());
                if s.st_type() == STT_GNU_IFUNC {
                    Resolved::Ifunc(a)
                } else {
                    Resolved::Addr(a)
                }
            },
        }
    }
}

proof fn lemma_symdef_lib_in_scope(own_id: usize, scope: Seq<ScopeLib>, sym: ElfSymbol, name: Seq<u8>, k: int)
    requires
        0 <= k,
    ensures
        first_def(scope, name, k) matches Some(i) ==> k <= i < scope.len(),
    decreases scope.len() - k,
{
    if k < scope.len() && spec_lookup_filter(scope[k].symtab, name) is None {
        lemma_symdef_lib_in_scope(own_id, scope, sym, name, k + 1);
    }
}

/// The symbol at `r_sym` of `symtab` and its name, as [`spec_sym_name`] says.
pub fn symbol_named(symtab: &SymbolTable, r_sym: usize) -> (r: Option<(ElfSymbol, SymbolInfo)>)
    ensures
        r matches Some(p) ==> r_sym < symtab.symbols@.len() && p.0 == symtab.symbols@[r_sym as int]
            && spec_sym_name(*symtab, r_sym as int) == Some(p.1.name@),
        r is None <==> spec_sym_name(*symtab, r_sym as int) is None,
{
    let res = symtab.symbol_idx(r_sym);
    proof {
        if res is Some {
            let p = res->0;
            let s = choose|s: Seq<u8>| symtab.has_name(r_sym as int, s);
            lemma_cstr_unique(symtab.strtab.data@, symtab.symbols@[r_sym as int].st_name as int, s, p.1.name@);
        } else {
            if r_sym < symtab.symbols@.len() {
                assert forall|s: Seq<u8>| !symtab.has_name(r_sym as int, s) by {
                    let off = symtab.symbols@[r_sym as int].st_name as int;
                    if symtab.has_name(r_sym as int, s) {
                        assert(symtab.strtab.data@[off + s.len()] == 0);
                    }
                }
            }
        }
    }
    res
}

/// Find the definition of symbol `r_sym` of the object in the object or the
/// scope, as [`spec_find_symdef_idx`] says.
pub fn find_symdef_idx(own_id: usize, symtab: &SymbolTable, scope: &[ScopeLib], r_sym: usize)
    -> (r: Option<(SymDef, Option<usize>)>)
    ensures
        r == spec_find_symdef_idx(own_id, *symtab, scope@, r_sym as int),
        r matches Some(p) ==> (p.0.lib matches Some(i) ==> i < scope@.len()) && (p.1 matches Some(i) ==> i < scope@.len())
            && r_sym < symtab.symbols@.len(),
{
    match symbol_named(symtab, r_sym) {
        None => None,
        Some((sym, info)) => {
            proof { lemma_symdef_lib_in_scope(own_id, scope@, sym, info.name@, 0); }
            find_symdef_impl(own_id, scope, &sym, &info)
        },
    }
}

/// Resolve the reference to symbol `r_sym` of the object, as
/// [`spec_find_symbol_addr`] says: the preferred lookup first, then the
/// object and its scope, then the fallback lookup.
pub fn find_symbol_addr<P: SymbolLookup, Q: SymbolLookup>(
    pre: &P,
    post: &Q,
    own_base: usize,
    own_id: usize,
    symtab: &SymbolTable,
    scope: &[ScopeLib],
    r_sym: usize,
) -> (r: Option<(Resolved, Option<usize>)>)
    requires
        scope_wf(scope@),
    ensures
        r == spec_find_symbol_addr(*pre, *post, own_base, own_id, *symtab, scope@, r_sym as int),
        r matches Some(p) ==> (p.1 matches Some(i) ==> i < scope@.len()),
{
    match symbol_named(symtab, r_sym) {
        None => None,
        Some((sym, info)) => {
            match pre.lookup(info.name()) {
                Some(a) => {
                    return Some((Resolved::Addr(a), None));
                },
                None => {},
            }
            proof { lemma_symdef_lib_in_scope(own_id, scope@, sym, info.name@, 0); }
            match find_symdef_impl(own_id, scope, &sym, &info) {
                Some((d, idx)) => {
                    return Some((d.convert(own_base, scope), idx));
                },
                None => {},
            }
            match post.lookup(info.name()) {
                Some(a) => Some((Resolved::Addr(a), None)),
                None => None,
            }
        },
    }
}

} // verus!
