//! Properties that hold of the loader as a whole.

use vstd::prelude::*;
use crate::elf::{
    le_at, lemma_le_at_bound, pow256, spec_ehdr_fields, spec_phdr_at, spec_rela_at, spec_shdr_at, spec_sym_at,
    ElfRelType, REL_JUMP_SLOT,
};
use crate::layout::{spec_rounddown, spec_roundup};
use crate::relocation::dynamic::{
    no_deps, spec_dyn_hstep, spec_plt_hstep, spec_plt_step, spec_rel_fold, spec_relocate,
    spec_relr_step, spec_write_word, DynamicRelocation, RelocState, Target,
};
use crate::relocation::handler::RelocationHandler;
use crate::relocation::lookup::{
    map_find, spec_convert, spec_find_symbol_addr, spec_find_symdef, spec_sym_name, Resolved,
    ScopeLib, SymbolLookup,
};
use crate::relocation::value::wrap64;
use crate::segment::lemma_read_after_write;
use crate::segment::section::{
    content_infos, content_layout, idxs_in, place_addr, place_cursor, spec_slot_step, unit_extent, unit_layout_post,
};
use crate::segment::ElfSegment;
use crate::elf::ElfShdr;
use crate::symbol::SymbolTable;

verus! {

/// A symbol the preferred lookup knows resolves to the address it gives,
/// whatever the scope and the fallback lookup hold.
pub proof fn law_pre_find_first<P: SymbolLookup, Q: SymbolLookup>(
    pre: P,
    post: Q,
    own_base: usize,
    own_id: usize,
    symtab: SymbolTable,
    scope: Seq<ScopeLib>,
    r_sym: int,
    name: Seq<u8>,
    addr: usize,
)
    requires
        spec_sym_name(symtab, r_sym) == Some(name),
        pre.spec_lookup(name) == Some(addr),
    ensures
        spec_find_symbol_addr(pre, post, own_base, own_id, symtab, scope, r_sym)
            == Some((Resolved::Addr(addr), None::<usize>)),
{
}

/// A symbol the preferred lookup does not know resolves to its definition
/// in the object or the scope, when there is one, before the fallback
/// lookup is asked.
pub proof fn law_scope_before_post<P: SymbolLookup, Q: SymbolLookup>(
    pre: P,
    post: Q,
    own_base: usize,
    own_id: usize,
    symtab: SymbolTable,
    scope: Seq<ScopeLib>,
    r_sym: int,
    name: Seq<u8>,
)
    requires
        spec_sym_name(symtab, r_sym) == Some(name),
        pre.spec_lookup(name) is None,
        spec_find_symdef(own_id, scope, symtab.symbols@[r_sym], name) is Some,
    ensures
        ({
            let found = spec_find_symdef(own_id, scope, symtab.symbols@[r_sym], name)->0;
            spec_find_symbol_addr(pre, post, own_base, own_id, symtab, scope, r_sym)
                == Some((spec_convert(found.0, own_base, scope), found.1))
        }),
{
}

/// The fallback lookup decides only for a symbol that neither the
/// preferred lookup nor the object and its scope define.
pub proof fn law_post_find_last<P: SymbolLookup, Q: SymbolLookup>(
    pre: P,
    post: Q,
    own_base: usize,
    own_id: usize,
    symtab: SymbolTable,
    scope: Seq<ScopeLib>,
    r_sym: int,
    name: Seq<u8>,
)
    requires
        spec_sym_name(symtab, r_sym) == Some(name),
        pre.spec_lookup(name) is None,
        spec_find_symdef(own_id, scope, symtab.symbols@[r_sym], name) is None,
    ensures
        spec_find_symbol_addr(pre, post, own_base, own_id, symtab, scope, r_sym) == match post.spec_lookup(name) {
            Some(a) => Some((Resolved::Addr(a), None::<usize>)),
            None => None,
        },
{
}

/// After a relative relocation, its word reads back as the load base plus
/// its addend.
pub proof fn law_relative_reads_back(t: Target, rel: ElfRelType, mem: Seq<u8>)
    requires
        spec_write_word(mem, t.offset, rel.r_offset, wrap64(t.base + rel.r_addend)) is Some,
    ensures
        spec_rel_fold(t, seq![rel], 1, mem) matches Some(m)
            && le_at(m, rel.r_offset - t.offset, 8) == wrap64(t.base + rel.r_addend),
{
    assert(seq![rel][0] == rel);
    assert(spec_rel_fold(t, seq![rel], 0, mem) == Some(mem));
    let v = wrap64(t.base + rel.r_addend);
    lemma_read_after_write(mem, rel.r_offset - t.offset, v as nat, 8);
    assert(crate::elf::pow256(8) == 0x1_0000_0000_0000_0000) by {
        reveal_with_fuel(crate::elf::pow256, 9);
    }
    vstd::arithmetic::div_mod::lemma_small_mod(v as nat, 0x1_0000_0000_0000_0000nat);
}

/// With lazy binding, a jump slot is moved by the load base: its word reads
/// back as its old value plus the base.
pub proof fn law_lazy_slot_moves_by_base<P: SymbolLookup, Q: SymbolLookup>(
    pre: P,
    post: Q,
    t: Target,
    scope: Seq<ScopeLib>,
    rel: ElfRelType,
    st: RelocState,
)
    requires
        rel.spec_r_type() == REL_JUMP_SLOT,
        t.offset <= rel.r_offset,
        rel.r_offset - t.offset + 8 <= st.0.len(),
    ensures
        spec_plt_step(pre, post, t, scope, true, rel, st) matches Some(st2)
            && le_at(st2.0, rel.r_offset - t.offset, 8) == wrap64(le_at(st.0, rel.r_offset - t.offset, 8) + t.base)
            && st2.1 == st.1 && st2.2 == st.2,
{
    reveal(spec_plt_step);
    let idx = rel.r_offset - t.offset;
    let v = wrap64(le_at(st.0, idx, 8) + t.base);
    lemma_read_after_write(st.0, idx, v as nat, 8);
    assert(crate::elf::pow256(8) == 0x1_0000_0000_0000_0000) by {
        reveal_with_fuel(crate::elf::pow256, 9);
    }
    vstd::arithmetic::div_mod::lemma_small_mod(v as nat, 0x1_0000_0000_0000_0000nat);
}

/// An even RELR entry moves the word at that address by the load base and
/// leaves the cursor on the next word.
pub proof fn law_relr_address_entry(mem: Seq<u8>, t: Target, value: usize, cursor: int)
    requires
        value % 2 == 0,
        t.offset <= value,
        value - t.offset + 8 <= mem.len(),
    ensures
        spec_relr_step(mem, t, value, cursor) matches Some((m, c))
            && le_at(m, value - t.offset, 8) == wrap64(le_at(mem, value - t.offset, 8) + t.base)
            && c == t.base + value + 8,
{
    let idx = value - t.offset;
    let v = wrap64(le_at(mem, idx, 8) + t.base);
    lemma_read_after_write(mem, idx, v as nat, 8);
    assert(crate::elf::pow256(8) == 0x1_0000_0000_0000_0000) by {
        reveal_with_fuel(crate::elf::pow256, 9);
    }
    vstd::arithmetic::div_mod::lemma_small_mod(v as nat, 0x1_0000_0000_0000_0000nat);
}

/// An entry the pre-handler takes over is not applied by the loader: the
/// memory and the resolver calls stay as they are, and the scope object the
/// handler names, if any, is marked used.  An entry on which it fails stops
/// the relocation.  This holds of dynamic and PLT entries alike.
pub proof fn law_pre_handler_takes_over<P: SymbolLookup, Q: SymbolLookup, H1: RelocationHandler, H2: RelocationHandler>(
    pre: P,
    post: Q,
    pre_h: H1,
    post_h: H2,
    t: Target,
    scope: Seq<ScopeLib>,
    lazy: bool,
    rel: ElfRelType,
    st: RelocState,
)
    requires
        pre_h.spec_handle(rel, t, scope) is Some,
    ensures
        pre_h.spec_handle(rel, t, scope) matches Some(Ok(idx)) ==> {
            let expect = match idx {
                Some(i) => if i < st.2.len() { Some((st.0, st.1, st.2.update(i as int, true))) } else { None },
                None => Some(st),
            };
            &&& spec_dyn_hstep(pre, post, pre_h, post_h, t, scope, rel, st) == expect
            &&& spec_plt_hstep(pre, post, pre_h, post_h, t, scope, lazy, rel, st) == expect
        },
        pre_h.spec_handle(rel, t, scope) matches Some(Err(_)) ==> {
            &&& spec_dyn_hstep(pre, post, pre_h, post_h, t, scope, rel, st) is None
            &&& spec_plt_hstep(pre, post, pre_h, post_h, t, scope, lazy, rel, st) is None
        },
{
}

/// An object without relocation entries is left as it is, with nothing
/// left to the host and no object of the scope used.
pub proof fn law_no_entries_no_change<P: SymbolLookup, Q: SymbolLookup, H1: RelocationHandler, H2: RelocationHandler>(
    pre: P,
    post: Q,
    pre_h: H1,
    post_h: H2,
    t: Target,
    scope: Seq<ScopeLib>,
    lazy: bool,
    reloc: DynamicRelocation,
    mem: Seq<u8>,
)
    requires
        reloc.spec_is_empty(),
    ensures
        spec_relocate(pre, post, pre_h, post_h, t, scope, lazy, reloc, mem)
            == Some((mem, Seq::<crate::relocation::dynamic::IfuncFixup>::empty(), no_deps(scope.len() as int))),
{
}

/// A name added to a symbol map that did not hold it is then found at the
/// address it was added with.
pub proof fn law_map_finds_added(names: Seq<Vec<u8>>, addrs: Seq<usize>, n: Vec<u8>, a: usize)
    requires
        names.len() == addrs.len(),
        map_find(names, addrs, n@, 0) is None,
    ensures
        map_find(names.push(n), addrs.push(a), n@, 0) == Some(a),
{
    lemma_map_find_push(names, addrs, n, a, 0);
}

proof fn lemma_map_find_push(names: Seq<Vec<u8>>, addrs: Seq<usize>, n: Vec<u8>, a: usize, k: int)
    requires
        names.len() == addrs.len(),
        0 <= k <= names.len(),
        map_find(names, addrs, n@, k) is None,
    ensures
        map_find(names.push(n), addrs.push(a), n@, k) == Some(a),
    decreases names.len() - k,
{
    if k < names.len() {
        assert(names.push(n)[k] == names[k]);
        lemma_map_find_push(names, addrs, n, a, k + 1);
    } else {
        assert(names.push(n)[k] == n);
        assert(addrs.push(a)[k] == a);
    }
}

/// Rounding to an alignment that is a power of two: up gives the least
/// multiple at or above, down the greatest at or below.
pub proof fn law_rounding(x: int, align: int)
    requires
        align > 0,
        x >= 0,
    ensures
        spec_roundup(x, align) % align == 0,
        x <= spec_roundup(x, align) < x + align,
        spec_rounddown(x, align) % align == 0,
        x - align < spec_rounddown(x, align) <= x,
{
    let y = x + align - 1;
    vstd::arithmetic::div_mod::lemma_fundamental_div_mod(y, align);
    vstd::arithmetic::div_mod::lemma_mod_bound(y, align);
    vstd::arithmetic::mul::lemma_mul_is_commutative(align, y / align);
    vstd::arithmetic::div_mod::lemma_mod_multiples_basic(y / align, align);
    vstd::arithmetic::div_mod::lemma_fundamental_div_mod(x, align);
    vstd::arithmetic::div_mod::lemma_mod_bound(x, align);
    vstd::arithmetic::mul::lemma_mul_is_commutative(align, x / align);
    vstd::arithmetic::div_mod::lemma_mod_multiples_basic(x / align, align);
}

/// Rounding up is idempotent, and leaves a value unchanged exactly when it
/// is already a multiple of the alignment.
pub proof fn law_roundup_fixed(x: int, align: int)
    requires
        align > 0,
        x >= 0,
    ensures
        spec_roundup(spec_roundup(x, align), align) == spec_roundup(x, align),
        spec_roundup(x, align) == x <==> x % align == 0,
{
    law_rounding(x, align);
    let r = spec_roundup(x, align);
    lemma_roundup_of_multiple(r, align);
    if x % align == 0 {
        lemma_roundup_of_multiple(x, align);
    }
}

proof fn lemma_roundup_of_multiple(x: int, align: int)
    requires
        align > 0,
        x >= 0,
        x % align == 0,
    ensures
        spec_roundup(x, align) == x,
{
    vstd::arithmetic::div_mod::lemma_fundamental_div_mod(x, align);
    let q = x / align;
    assert(x == align * q);
    vstd::arithmetic::div_mod::lemma_div_multiples_vanish_fancy(q, align - 1, align);
    assert(x + align - 1 == align * q + (align - 1));
    vstd::arithmetic::mul::lemma_mul_is_commutative(align, q);
}

/// Sections laid out one after another from `start` (content sections
/// skipping the empty ones, zero-filled sections all of them) each start at
/// or after `start`, at a multiple of their alignment, and in order: a
/// section laid out before another ends at or before the other's start.
pub proof fn law_sections_laid_out_in_order(s: Seq<ElfShdr>, idxs: Seq<usize>, start: int, skip_empty: bool)
    requires
        start >= 0,
        forall|k: int| 0 <= k < idxs.len() ==> 0 <= #[trigger] idxs[k] < s.len(),
    ensures
        forall|k: int| 0 <= k < idxs.len() ==> start <= #[trigger] place_addr(s, idxs, k, start, skip_empty),
        forall|k: int| 0 <= k < idxs.len() && s[idxs[k] as int].sh_addralign > 0
            ==> #[trigger] place_addr(s, idxs, k, start, skip_empty) % (s[idxs[k] as int].sh_addralign as int) == 0,
        forall|k1: int, k2: int| 0 <= k1 < k2 < idxs.len() && !(skip_empty && s[idxs[k1] as int].sh_size == 0)
            ==> #[trigger] place_addr(s, idxs, k1, start, skip_empty) + s[idxs[k1] as int].sh_size
                <= #[trigger] place_addr(s, idxs, k2, start, skip_empty),
{
    assert forall|k: int| 0 <= k < idxs.len() implies start <= #[trigger] place_addr(s, idxs, k, start, skip_empty)
        && (s[idxs[k] as int].sh_addralign > 0 ==> place_addr(s, idxs, k, start, skip_empty)
            % (s[idxs[k] as int].sh_addralign as int) == 0) by {
        lemma_cursor_grows(s, idxs, 0, k, start, skip_empty);
        lemma_addr_after_cursor(s, idxs, k, start, skip_empty);
    }
    assert forall|k1: int, k2: int| 0 <= k1 < k2 < idxs.len() && !(skip_empty && s[idxs[k1] as int].sh_size == 0)
        implies #[trigger] place_addr(s, idxs, k1, start, skip_empty) + s[idxs[k1] as int].sh_size
            <= #[trigger] place_addr(s, idxs, k2, start, skip_empty) by {
        lemma_cursor_grows(s, idxs, k1 + 1, k2, start, skip_empty);
        lemma_cursor_grows(s, idxs, 0, k1, start, skip_empty);
        lemma_addr_after_cursor(s, idxs, k1, start, skip_empty);
        lemma_addr_after_cursor(s, idxs, k2, start, skip_empty);
    }
}

proof fn lemma_addr_after_cursor(s: Seq<ElfShdr>, idxs: Seq<usize>, k: int, start: int, skip_empty: bool)
    requires
        0 <= k,
        place_cursor(s, idxs, k, start, skip_empty) >= 0,
    ensures
        place_cursor(s, idxs, k, start, skip_empty) <= place_addr(s, idxs, k, start, skip_empty),
        s[idxs[k] as int].sh_addralign > 0 ==> place_addr(s, idxs, k, start, skip_empty)
            % (s[idxs[k] as int].sh_addralign as int) == 0,
{
    let a = s[idxs[k] as int].sh_addralign as int;
    if a > 0 {
        law_rounding(place_cursor(s, idxs, k, start, skip_empty), a);
    }
}

proof fn lemma_cursor_grows(s: Seq<ElfShdr>, idxs: Seq<usize>, j: int, k: int, start: int, skip_empty: bool)
    requires
        0 <= j <= k,
        start >= 0,
    ensures
        place_cursor(s, idxs, j, start, skip_empty) <= place_cursor(s, idxs, k, start, skip_empty),
        start <= place_cursor(s, idxs, j, start, skip_empty),
    decreases k,
{
    if k > j {
        lemma_cursor_grows(s, idxs, j, k - 1, start, skip_empty);
        lemma_addr_after_cursor(s, idxs, k - 1, start, skip_empty);
    } else if k > 0 {
        lemma_cursor_grows(s, idxs, 0, k - 1, start, skip_empty);
        lemma_addr_after_cursor(s, idxs, k - 1, start, skip_empty);
    }
}

/// The file ranges of the first `j` content sections are no more than those
/// of the first `k`, and a section with content adds one.
proof fn lemma_infos_count(s: Seq<ElfShdr>, c: Seq<usize>, j: int, k: int, start: int)
    requires
        0 <= j <= k,
    ensures
        content_infos(s, c, j, start).len() <= content_infos(s, c, k, start).len(),
        j < k && s[c[j] as int].sh_size != 0 ==> content_infos(s, c, j, start).len() + 1
            <= content_infos(s, c, k, start).len(),
    decreases k - j,
{
    if j < k {
        lemma_infos_count(s, c, j + 1, k, start);
    }
}

/// In a unit with at least two content sections that have content, laid
/// out from `start` (as `create_segment` does, giving the section headers
/// `s2`): each content section with content lies at or after `start`, at a
/// multiple of its alignment, and before the next one, without overlap;
/// the zero-filled sections follow the content likewise, and the segment
/// ends where the last of them ends.
pub proof fn law_unit_sections_in_order(
    s: Seq<ElfShdr>,
    s2: Seq<ElfShdr>,
    c: Seq<usize>,
    z: Seq<usize>,
    start: int,
    r: Option<ElfSegment>,
    end: int,
)
    requires
        start >= 0,
        idxs_in(s, c),
        idxs_in(s, z),
        unit_layout_post(s, s2, c, z, start, r, end),
        exists|a: int, b: int| 0 <= a < b < c.len() && #[trigger] s[c[a] as int].sh_size != 0
            && #[trigger] s[c[b] as int].sh_size != 0,
    ensures
        forall|k: int| 0 <= k < c.len() && s[c[k] as int].sh_size != 0
            ==> start <= #[trigger] s2[c[k] as int].sh_addr,
        forall|k: int| 0 <= k < c.len() && s[c[k] as int].sh_size != 0 && s[c[k] as int].sh_addralign > 0
            ==> #[trigger] s2[c[k] as int].sh_addr % s[c[k] as int].sh_addralign == 0,
        forall|k1: int, k2: int| 0 <= k1 < k2 < c.len() && s[c[k1] as int].sh_size != 0 && s[c[k2] as int].sh_size != 0
            ==> #[trigger] s2[c[k1] as int].sh_addr + s[c[k1] as int].sh_size <= #[trigger] s2[c[k2] as int].sh_addr,
        r matches Some(seg) ==> {
            &&& forall|k: int| 0 <= k < z.len() ==> start + seg.content_size <= #[trigger] s2[z[k] as int].sh_addr
            &&& forall|k: int| 0 <= k < z.len() && s[z[k] as int].sh_addralign > 0
                ==> #[trigger] s2[z[k] as int].sh_addr % s[z[k] as int].sh_addralign == 0
            &&& forall|k1: int, k2: int| 0 <= k1 < k2 < z.len()
                ==> #[trigger] s2[z[k1] as int].sh_addr + s[z[k1] as int].sh_size <= #[trigger] s2[z[k2] as int].sh_addr
            &&& z.len() > 0 ==> s2[z[z.len() - 1] as int].sh_addr + s[z[z.len() - 1] as int].sh_size
                == start + seg.content_size + seg.zero_size
        },
{
    reveal(unit_layout_post);
    let (a, b) = choose|a: int, b: int| 0 <= a < b < c.len() && #[trigger] s[c[a] as int].sh_size != 0
        && #[trigger] s[c[b] as int].sh_size != 0;
    lemma_infos_count(s, c, 0, a, start);
    lemma_infos_count(s, c, a, a + 1, start);
    lemma_infos_count(s, c, a + 1, b, start);
    lemma_infos_count(s, c, b, b + 1, start);
    lemma_infos_count(s, c, b + 1, c.len() as int, start);
    let cl = content_layout(s, c, start);
    assert(cl.0.len() >= 2);
    assert(!(c.len() == 0 && z.len() == 0));
    law_sections_laid_out_in_order(s, c, start, true);
    lemma_cursor_grows(s, c, c.len() as int, c.len() as int, start, true);
    assert(cl.1 == place_cursor(s, c, c.len() as int, start, true));
    law_sections_laid_out_in_order(s, z, cl.1, false);
    if z.len() > 0 {
        let l = z.len() - 1;
        assert(place_cursor(s, z, z.len() as int, cl.1, false) == place_addr(s, z, l, cl.1, false) + s[z[l] as int].sh_size);
        assert(unit_extent(s, c, z, start) == place_cursor(s, z, z.len() as int, cl.1, false) - start);
    }
}

/// The slots handed out, and the next free one, after asking for the slots
/// of the first `k` symbols of `syms`, starting from none.
pub open spec fn slot_fold(syms: Seq<usize>, k: int) -> (Map<usize, usize>, int)
    decreases k,
{
    if k <= 0 {
        (Map::empty(), 0)
    } else {
        let (m, c) = slot_fold(syms, k - 1);
        spec_slot_step(m, c as usize, syms[k - 1])
    }
}

/// `syms[i]` is asked for the first time at position `i`.
pub open spec fn first_request(syms: Seq<usize>, i: int) -> bool {
    0 <= i < syms.len() && !syms.subrange(0, i).contains(syms[i])
}

/// GOT and PLT slots are numbered in the order symbols are first asked
/// for: starting from none, after asking for `syms` in order, exactly the
/// symbols asked for have a slot, the slots are `0 .. c` with no two
/// symbols sharing one, and a symbol first asked for earlier has the lower
/// slot.  The number of slots handed out is the number of distinct symbols
/// asked for, and a symbol's slot is the number of distinct symbols asked
/// for before it was first asked for.
pub proof fn law_slots_in_request_order(syms: Seq<usize>)
    requires
        syms.len() < usize::MAX,
    ensures
        ({
            let (m, c) = slot_fold(syms, syms.len() as int);
            &&& forall|s: usize| m.dom().contains(s) <==> syms.contains(s)
            &&& forall|s: usize| #[trigger] m.dom().contains(s) ==> m[s] < c
            &&& forall|s1: usize, s2: usize| m.dom().contains(s1) && m.dom().contains(s2) && s1 != s2
                ==> #[trigger] m[s1] != #[trigger] m[s2]
            &&& forall|i: int, j: int| i < j && first_request(syms, i) && first_request(syms, j)
                ==> #[trigger] m[syms[i]] < #[trigger] m[syms[j]]
            &&& c == syms.to_set().len()
            &&& forall|i: int| first_request(syms, i) ==> #[trigger] m[syms[i]] == syms.subrange(0, i).to_set().len()
        }),
{
    lemma_slot_fold(syms, syms.len() as int);
    lemma_slot_counts(syms, syms.len() as int);
    assert(syms.subrange(0, syms.len() as int) =~= syms);
}

proof fn lemma_slot_counts(syms: Seq<usize>, k: int)
    requires
        0 <= k <= syms.len(),
        syms.len() < usize::MAX,
    ensures
        ({
            let (m, c) = slot_fold(syms, k);
            &&& m.dom() == syms.subrange(0, k).to_set()
            &&& m.dom().finite()
            &&& c == m.dom().len()
            &&& forall|i: int| 0 <= i < k && first_request(syms, i)
                ==> #[trigger] m[syms[i]] == syms.subrange(0, i).to_set().len()
        }),
    decreases k,
{
    lemma_slot_fold(syms, k);
    let (m, c) = slot_fold(syms, k);
    assert(m.dom() =~= syms.subrange(0, k).to_set());
    if k == 0 {
        assert(m.dom() =~= Set::<usize>::empty());
    } else {
        lemma_slot_counts(syms, k - 1);
        lemma_slot_fold(syms, k - 1);
        let (m0, c0) = slot_fold(syms, k - 1);
        let x = syms[k - 1];
        if !m0.dom().contains(x) {
            assert(m == m0.insert(x, c0 as usize));
            assert(m.dom() =~= m0.dom().insert(x));
            assert forall|i: int| 0 <= i < k && first_request(syms, i)
                implies #[trigger] m[syms[i]] == syms.subrange(0, i).to_set().len() by {
                if i < k - 1 {
                    assert(syms.subrange(0, k - 1)[i] == syms[i]);
                    assert(syms.subrange(0, k - 1).contains(syms[i]));
                    assert(m0.dom().contains(syms[i]));
                    assert(syms[i] != x);
                } else {
                    assert(syms.subrange(0, k - 1) == syms.subrange(0, i));
                }
            }
        } else {
            assert(m == m0);
            assert forall|i: int| 0 <= i < k && first_request(syms, i)
                implies #[trigger] m[syms[i]] == syms.subrange(0, i).to_set().len() by {
                if i == k - 1 {
                    assert(syms.subrange(0, k - 1).to_set().contains(x));
                    assert(syms.subrange(0, i) == syms.subrange(0, k - 1));
                }
            }
        }
    }
}

proof fn lemma_slot_fold(syms: Seq<usize>, k: int)
    requires
        0 <= k <= syms.len(),
        syms.len() < usize::MAX,
    ensures
        ({
            let (m, c) = slot_fold(syms, k);
            &&& 0 <= c <= k
            &&& forall|s: usize| m.dom().contains(s) <==> syms.subrange(0, k).contains(s)
            &&& forall|s: usize| #[trigger] m.dom().contains(s) ==> m[s] < c
            &&& forall|s1: usize, s2: usize| m.dom().contains(s1) && m.dom().contains(s2) && s1 != s2
                ==> #[trigger] m[s1] != #[trigger] m[s2]
            &&& forall|i: int, j: int| i < j < k && first_request(syms, i) && first_request(syms, j)
                ==> #[trigger] m[syms[i]] < #[trigger] m[syms[j]]
        }),
    decreases k,
{
    if k > 0 {
        lemma_slot_fold(syms, k - 1);
        let (m0, c0) = slot_fold(syms, k - 1);
        let (m, c) = slot_fold(syms, k);
        let x = syms[k - 1];
        let p0 = syms.subrange(0, k - 1);
        let p = syms.subrange(0, k);
        assert(p =~= p0.push(x));
        assert forall|s: usize| p.contains(s) <==> (p0.contains(s) || s == x) by {
            if p.contains(s) {
                let w = choose|w: int| 0 <= w < p.len() && p[w] == s;
                if w < k - 1 {
                    assert(p0[w] == s);
                }
            }
            if p0.contains(s) {
                let w = choose|w: int| 0 <= w < p0.len() && p0[w] == s;
                assert(p[w] == s);
            }
            if s == x {
                assert(p[k - 1] == s);
            }
        }
        if !m0.dom().contains(x) {
            assert(!p0.contains(x));
            assert forall|i: int, j: int| i < j < k && first_request(syms, i) && first_request(syms, j)
                implies #[trigger] m[syms[i]] < #[trigger] m[syms[j]] by {
                assert(p0[i] == syms[i]);
                assert(p0.contains(syms[i]));
                assert(syms[i] != x);
                assert(m0.dom().contains(syms[i]));
                assert(m == m0.insert(x, c0 as usize));
                assert(m[syms[i]] == m0[syms[i]]);
                if j < k - 1 {
                    assert(p0[j] == syms[j]);
                    assert(p0.contains(syms[j]));
                    assert(syms[j] != x);
                    assert(m[syms[j]] == m0[syms[j]]);
                    assert(m0[syms[i]] < m0[syms[j]]);
                } else {
                    assert(m[syms[j]] == c0);
                    assert(m0[syms[i]] < c0);
                }
            }
        } else {
            assert(p0.contains(x));
            assert(!first_request(syms, k - 1)) by {
                assert(syms.subrange(0, k - 1) == p0);
            }
        }
    }
}

/// Two bytes hold a value below `2^16`.
proof fn lemma_two_bytes(b: Seq<u8>, off: int)
    requires
        0 <= off,
        off + 2 <= b.len(),
    ensures
        le_at(b, off, 2) < 0x1_0000,
{
    lemma_le_at_bound(b, off, 2);
    reveal_with_fuel(pow256, 3);
}

/// A program header is read field by field from its 56 bytes at `off`: the
/// type at 0 and flags at 4 (4 bytes each), then offset, virtual address,
/// physical address, file size, memory size and alignment, 8 bytes each at
/// 8, 16, 24, 32, 40 and 48.  It is read exactly when each 8-byte field
/// fits a `usize`.
pub proof fn law_phdr_layout(b: Seq<u8>, off: int)
    requires
        0 <= off,
        off + 56 <= b.len(),
    ensures
        spec_phdr_at(b, off) is Some <==> le_at(b, off + 8, 8) <= usize::MAX && le_at(b, off + 16, 8) <= usize::MAX
            && le_at(b, off + 24, 8) <= usize::MAX && le_at(b, off + 32, 8) <= usize::MAX
            && le_at(b, off + 40, 8) <= usize::MAX && le_at(b, off + 48, 8) <= usize::MAX,
        spec_phdr_at(b, off) matches Some(p) ==> {
            &&& p.p_type == le_at(b, off, 4)
            &&& p.p_flags == le_at(b, off + 4, 4)
            &&& p.p_offset == le_at(b, off + 8, 8)
            &&& p.p_vaddr == le_at(b, off + 16, 8)
            &&& p.p_paddr == le_at(b, off + 24, 8)
            &&& p.p_filesz == le_at(b, off + 32, 8)
            &&& p.p_memsz == le_at(b, off + 40, 8)
            &&& p.p_align == le_at(b, off + 48, 8)
        },
{
    lemma_le_at_bound(b, off, 4);
    lemma_le_at_bound(b, off + 4, 4);
}

/// A section header is read field by field from its 64 bytes at `off`:
/// name and type at 0 and 4 (4 bytes), flags, address, file offset and size
/// at 8, 16, 24 and 32 (8 bytes), link and info at 40 and 44 (4 bytes),
/// alignment and entry size at 48 and 56 (8 bytes).  It is read exactly
/// when each 8-byte field fits a `usize`.
pub proof fn law_shdr_layout(b: Seq<u8>, off: int)
    requires
        0 <= off,
        off + 64 <= b.len(),
    ensures
        spec_shdr_at(b, off) is Some <==> le_at(b, off + 8, 8) <= usize::MAX && le_at(b, off + 16, 8) <= usize::MAX
            && le_at(b, off + 24, 8) <= usize::MAX && le_at(b, off + 32, 8) <= usize::MAX
            && le_at(b, off + 48, 8) <= usize::MAX && le_at(b, off + 56, 8) <= usize::MAX,
        spec_shdr_at(b, off) matches Some(h) ==> {
            &&& h.sh_name == le_at(b, off, 4)
            &&& h.sh_type == le_at(b, off + 4, 4)
            &&& h.sh_flags == le_at(b, off + 8, 8)
            &&& h.sh_addr == le_at(b, off + 16, 8)
            &&& h.sh_offset == le_at(b, off + 24, 8)
            &&& h.sh_size == le_at(b, off + 32, 8)
            &&& h.sh_link == le_at(b, off + 40, 4)
            &&& h.sh_info == le_at(b, off + 44, 4)
            &&& h.sh_addralign == le_at(b, off + 48, 8)
            &&& h.sh_entsize == le_at(b, off + 56, 8)
        },
{
    lemma_le_at_bound(b, off, 4);
    lemma_le_at_bound(b, off + 4, 4);
    lemma_le_at_bound(b, off + 40, 4);
    lemma_le_at_bound(b, off + 44, 4);
}

/// A symbol is read from its 24 bytes at `off`: name (4 bytes) at 0, info
/// and other (1 byte) at 4 and 5, section index (2 bytes) at 6, value and
/// size (8 bytes) at 8 and 16; exactly when value and size fit a `usize`.
pub proof fn law_sym_layout(b: Seq<u8>, off: int)
    requires
        0 <= off,
        off + 24 <= b.len(),
    ensures
        spec_sym_at(b, off) is Some <==> le_at(b, off + 8, 8) <= usize::MAX && le_at(b, off + 16, 8) <= usize::MAX,
        spec_sym_at(b, off) matches Some(y) ==> {
            &&& y.st_name == le_at(b, off, 4)
            &&& y.st_info == b[off + 4]
            &&& y.st_other == b[off + 5]
            &&& y.st_shndx == le_at(b, off + 6, 2)
            &&& y.st_value == le_at(b, off + 8, 8)
            &&& y.st_size == le_at(b, off + 16, 8)
        },
{
    lemma_le_at_bound(b, off, 4);
    lemma_two_bytes(b, off + 6);
}

/// A relocation entry is read from its 24 bytes at `off`: the place (8
/// bytes) at 0, the info word at 8, whose low 32 bits are the type and high
/// 32 bits the symbol, and the addend at 16, as a two's-complement signed
/// value; exactly when the place fits a `usize`.
pub proof fn law_rela_layout(b: Seq<u8>, off: int)
    requires
        0 <= off,
        off + 24 <= b.len(),
    ensures
        spec_rela_at(b, off) is Some <==> le_at(b, off, 8) <= usize::MAX,
        spec_rela_at(b, off) matches Some(e) ==> {
            &&& e.r_offset == le_at(b, off, 8)
            &&& e.r_info == le_at(b, off + 8, 8)
            &&& e.spec_r_type() == le_at(b, off + 8, 8) % 0x1_0000_0000
            &&& e.spec_r_sym() == le_at(b, off + 8, 8) / 0x1_0000_0000
            &&& e.r_addend == (if le_at(b, off + 16, 8) < 0x8000_0000_0000_0000 { le_at(b, off + 16, 8) as int }
                else { le_at(b, off + 16, 8) - 0x1_0000_0000_0000_0000 })
        },
{
    lemma_le_at_bound(b, off + 8, 8);
    lemma_le_at_bound(b, off + 16, 8);
    reveal_with_fuel(pow256, 9);
}

/// The file header's fields are read from their offsets: type, machine at
/// 16 and 18 (2 bytes), version at 20 (4), entry, program and section
/// header table offsets at 24, 32 and 40 (8), flags at 48 (4), then header
/// size, program header entry size and count, section header entry size and
/// count, and string table index, 2 bytes each from 52 to 62.
pub proof fn law_ehdr_layout(b: Seq<u8>)
    requires
        64 <= b.len(),
        le_at(b, 24, 8) <= usize::MAX,
        le_at(b, 32, 8) <= usize::MAX,
        le_at(b, 40, 8) <= usize::MAX,
    ensures
        ({
            let h = spec_ehdr_fields(b);
            &&& h.e_type == le_at(b, 16, 2)
            &&& h.e_machine == le_at(b, 18, 2)
            &&& h.e_version == le_at(b, 20, 4)
            &&& h.e_entry == le_at(b, 24, 8)
            &&& h.e_phoff == le_at(b, 32, 8)
            &&& h.e_shoff == le_at(b, 40, 8)
            &&& h.e_flags == le_at(b, 48, 4)
            &&& h.e_ehsize == le_at(b, 52, 2)
            &&& h.e_phentsize == le_at(b, 54, 2)
            &&& h.e_phnum == le_at(b, 56, 2)
            &&& h.e_shentsize == le_at(b, 58, 2)
            &&& h.e_shnum == le_at(b, 60, 2)
            &&& h.e_shstrndx == le_at(b, 62, 2)
        }),
{
    lemma_two_bytes(b, 16);
    lemma_two_bytes(b, 18);
    lemma_le_at_bound(b, 20, 4);
    lemma_le_at_bound(b, 48, 4);
    lemma_two_bytes(b, 52);
    lemma_two_bytes(b, 54);
    lemma_two_bytes(b, 56);
    lemma_two_bytes(b, 58);
    lemma_two_bytes(b, 60);
    lemma_two_bytes(b, 62);
}

/// `m` is `mem` with at most the `n` bytes from `i` changed.
pub open spec fn same_outside(m: Seq<u8>, mem: Seq<u8>, i: int, n: int) -> bool {
    &&& m.len() == mem.len()
    &&& forall|j: int| 0 <= j < mem.len() && !(i <= j < i + n) ==> #[trigger] m[j] == mem[j]
}

/// An absolute (`R_X86_64_64`) or GOT (`GLOB_DAT`) entry of a dynamic object
/// that the pre-handler leaves alone, whose symbol resolves to the plain
/// address `v`, is applied whenever its place lies in the image: the word
/// at the place then reads back as `v` plus the addend (modulo `2^64`),
/// whatever the object's load base; no other byte changes and no resolver
/// call is added.
pub proof fn law_symbol_word_is_address_plus_addend<P: SymbolLookup, Q: SymbolLookup, H1: RelocationHandler, H2: RelocationHandler>(
    pre: P,
    post: Q,
    pre_h: H1,
    post_h: H2,
    t: Target,
    scope: Seq<ScopeLib>,
    rel: ElfRelType,
    st: RelocState,
    v: usize,
    idx: Option<usize>,
)
    requires
        rel.spec_r_type() == crate::elf::REL_GOT || rel.spec_r_type() == crate::elf::REL_SYMBOLIC,
        pre_h.spec_handle(rel, t, scope) is None,
        spec_find_symbol_addr(pre, post, t.base, t.id, t.symtab, scope, rel.spec_r_sym() as int)
            == Some((Resolved::Addr(v), idx)),
        t.offset <= rel.r_offset,
        rel.r_offset - t.offset + 8 <= st.0.len(),
    ensures
        spec_dyn_hstep(pre, post, pre_h, post_h, t, scope, rel, st) is Some,
        spec_dyn_hstep(pre, post, pre_h, post_h, t, scope, rel, st) matches Some(fin) ==> {
            &&& le_at(fin.0, rel.r_offset - t.offset, 8) == (v + rel.r_addend) % 0x1_0000_0000_0000_0000
            &&& same_outside(fin.0, st.0, rel.r_offset - t.offset, 8)
            &&& fin.1 == st.1
        },
{
    reveal(crate::relocation::dynamic::spec_dyn_step);
    let i = rel.r_offset - t.offset;
    let w = wrap64(v + rel.r_addend);
    lemma_read_after_write(st.0, i, w as nat, 8);
    reveal_with_fuel(pow256, 9);
    let m = crate::segment::spec_write_le(st.0, i, w as nat, 8);
    assert(spec_write_word(st.0, t.offset, rel.r_offset, w) == Some(m));
    assert(crate::relocation::dynamic::spec_dyn_step(pre, post, t, scope, rel, st)
        == Some((m, st.1, crate::relocation::dynamic::spec_set_dep(st.2, idx))));
    assert(le_at(m, i, 8) == w as nat % 0x1_0000_0000_0000_0000);
    assert(le_at(m, i, 8) == (v + rel.r_addend) % 0x1_0000_0000_0000_0000);
    assert(same_outside(m, st.0, i, 8));
}

/// The signed 64-bit reading of `d` modulo `2^64` is `d` when `d` fits.
proof fn lemma_signed_wrap(d: int)
    requires
        i64::MIN <= d <= i64::MAX,
    ensures
        crate::relocation::value::spec_signed64(wrap64(d)) == d,
        (wrap64(d) as int) % 0x1_0000_0000 == d % 0x1_0000_0000,
{
    if d >= 0 {
        assert(wrap64(d) == d);
    } else {
        assert(wrap64(d) == d + 0x1_0000_0000_0000_0000);
        assert((d + 0x1_0000_0000_0000_0000) % 0x1_0000_0000 == d % 0x1_0000_0000) by (nonlinear_arith)
            requires d < 0;
    }
}

/// A PC-relative 32-bit entry (`R_X86_64_PC32`, or `R_X86_64_PLT32` whose
/// symbol is within reach) of a relocatable object, whose symbol resolves
/// to `s`: when `s` plus the addend, less the place `P` (load base plus
/// offset), fits in 32 signed bits and the field lies in the image, the
/// entry is applied, the 4-byte field reads back as `s + A - P` (modulo
/// `2^32`), no other byte changes and no slot is handed out.
#[verifier::spinoff_prover]
pub proof fn law_pc_relative_field<P: SymbolLookup, Q: SymbolLookup>(
    pre: P,
    post: Q,
    t: Target,
    scope: Seq<ScopeLib>,
    p0: crate::segment::section::PltGotSection,
    addr: usize,
    rel: ElfRelType,
    st: (Seq<u8>, crate::relocation::object_reloc::SlotsView),
    s: usize,
)
    requires
        rel.spec_r_type() == crate::elf::R_X86_64_PC32 || rel.spec_r_type() == crate::elf::R_X86_64_PLT32,
        crate::relocation::object_reloc::spec_static_sym(pre, post, t, scope, rel.spec_r_sym() as int) == Some(s),
        0 <= s + rel.r_addend <= u64::MAX,
        t.base + rel.r_offset <= u64::MAX,
        i32::MIN <= s + rel.r_addend - (t.base + rel.r_offset) <= i32::MAX,
        t.offset <= rel.r_offset,
        rel.r_offset - t.offset + 4 <= st.0.len(),
    ensures
        crate::relocation::object_reloc::spec_static_step(pre, post, t, scope, p0, addr, rel, st) is Some,
        crate::relocation::object_reloc::spec_static_step(pre, post, t, scope, p0, addr, rel, st) matches Some(fin) ==> {
            &&& le_at(fin.0, rel.r_offset - t.offset, 4)
                == (s + rel.r_addend - (t.base + rel.r_offset)) % 0x1_0000_0000
            &&& same_outside(fin.0, st.0, rel.r_offset - t.offset, 4)
            &&& fin.1 == st.1
        },
{
    reveal(crate::relocation::object_reloc::spec_static_step);
    let d = s + rel.r_addend - (t.base + rel.r_offset);
    assert(wrap64(s + rel.r_addend) == s + rel.r_addend);
    assert(wrap64(t.base + rel.r_offset) == t.base + rel.r_offset);
    lemma_signed_wrap(d);
    lemma_read_after_write(st.0, rel.r_offset - t.offset, wrap64(d) as nat, 4);
    reveal_with_fuel(pow256, 5);
}

/// An absolute entry of a relocatable object whose symbol resolves to `s`:
/// `R_X86_64_64` writes the 8-byte word `s + A` (modulo `2^64`);
/// `R_X86_64_32` the 4-byte field `s + A` when it fits in 32 unsigned bits;
/// `R_X86_64_32S` the 4-byte field `s + A` (modulo `2^32`) when it fits in
/// 32 signed bits.  In each case, with the field in the image, the entry is
/// applied, no other byte changes and no slot is handed out.
#[verifier::spinoff_prover]
#[verifier::rlimit(50)]
pub proof fn law_absolute_field<P: SymbolLookup, Q: SymbolLookup>(
    pre: P,
    post: Q,
    t: Target,
    scope: Seq<ScopeLib>,
    p0: crate::segment::section::PltGotSection,
    addr: usize,
    rel: ElfRelType,
    st: (Seq<u8>, crate::relocation::object_reloc::SlotsView),
    s: usize,
)
    requires
        rel.spec_r_type() == crate::elf::REL_SYMBOLIC || rel.spec_r_type() == crate::elf::R_X86_64_32
            || rel.spec_r_type() == crate::elf::R_X86_64_32S,
        crate::relocation::object_reloc::spec_static_sym(pre, post, t, scope, rel.spec_r_sym() as int) == Some(s),
        rel.spec_r_type() == crate::elf::R_X86_64_32 ==> 0 <= s + rel.r_addend <= u32::MAX,
        rel.spec_r_type() == crate::elf::R_X86_64_32S ==> i32::MIN <= s + rel.r_addend <= i32::MAX,
        t.offset <= rel.r_offset,
        rel.r_offset - t.offset + (if rel.spec_r_type() == crate::elf::REL_SYMBOLIC { 8int } else { 4int })
            <= st.0.len(),
    ensures
        crate::relocation::object_reloc::spec_static_step(pre, post, t, scope, p0, addr, rel, st) is Some,
        crate::relocation::object_reloc::spec_static_step(pre, post, t, scope, p0, addr, rel, st) matches Some(fin) ==> {
            let n: int = if rel.spec_r_type() == crate::elf::REL_SYMBOLIC { 8 } else { 4 };
            &&& le_at(fin.0, rel.r_offset - t.offset, n)
                == (s + rel.r_addend) % (if n == 8 { 0x1_0000_0000_0000_0000int } else { 0x1_0000_0000int })
            &&& same_outside(fin.0, st.0, rel.r_offset - t.offset, n)
            &&& fin.1 == st.1
        },
{
    reveal(crate::relocation::object_reloc::spec_static_step);
    let sa = s + rel.r_addend;
    let i = rel.r_offset - t.offset;
    let ty = rel.spec_r_type();
    reveal_with_fuel(pow256, 9);
    assert(pow256(8) == 0x1_0000_0000_0000_0000nat);
    assert(pow256(4) == 0x1_0000_0000nat);
    let w = wrap64(sa);
    let n: nat = if ty == crate::elf::REL_SYMBOLIC { 8 } else { 4 };
    let m = crate::segment::spec_write_le(st.0, i, w as nat, n);
    lemma_read_after_write(st.0, i, w as nat, n);
    if ty == crate::elf::REL_SYMBOLIC {
        assert(crate::relocation::object_reloc::spec_write_word_at(st.0, t.offset, rel.r_offset, w, 8) == Some(m));
        assert(le_at(m, i, 8) == (w as nat) % 0x1_0000_0000_0000_0000nat);
    } else if ty == crate::elf::R_X86_64_32 {
        assert(w == sa);
        assert(crate::relocation::object_reloc::spec_write_word_at(st.0, t.offset, rel.r_offset, w, 4) == Some(m));
        assert(le_at(m, i, 4) == sa % 0x1_0000_0000);
    } else {
        lemma_signed_wrap(sa);
        assert(crate::relocation::object_reloc::spec_put_i32(st.0, t.offset, rel.r_offset, w) == Some(m));
        assert(le_at(m, i, 4) == sa % 0x1_0000_0000);
    }
    assert(crate::relocation::object_reloc::spec_static_step(pre, post, t, scope, p0, addr, rel, st) == Some((m, st.1)));
    assert(same_outside(m, st.0, i, n as int));
}

/// The first object of `scope` from `k` on that defines `name` is `i` when
/// `i` defines it and none between `k` and `i` does.
proof fn lemma_first_def_at(scope: Seq<ScopeLib>, name: Seq<u8>, k: int, i: int)
    requires
        0 <= k <= i < scope.len(),
        crate::symbol::spec_lookup_filter(scope[i].symtab, name) is Some,
        forall|j: int| k <= j < i ==> crate::symbol::spec_lookup_filter(#[trigger] scope[j].symtab, name) is None,
    ensures
        crate::relocation::lookup::first_def(scope, name, k) == Some(i),
    decreases i - k,
{
    if k < i {
        lemma_first_def_at(scope, name, k + 1, i);
    }
}

/// A reference to a global symbol that the preferred lookup does not know,
/// first defined (in scope order) by scope object `i` as an indirect
/// function (`STT_GNU_IFUNC`), resolves to that function's resolver, at the
/// object's load base plus the definition's value, never to a plain
/// address.
pub proof fn law_ifunc_definition_resolves_to_resolver<P: SymbolLookup, Q: SymbolLookup>(
    pre: P,
    post: Q,
    own_base: usize,
    own_id: usize,
    symtab: SymbolTable,
    scope: Seq<ScopeLib>,
    r_sym: int,
    name: Seq<u8>,
    i: int,
    d: crate::elf::ElfSymbol,
)
    requires
        spec_sym_name(symtab, r_sym) == Some(name),
        pre.spec_lookup(name) is None,
        !symtab.symbols@[r_sym].spec_is_local(),
        0 <= i < scope.len(),
        i <= usize::MAX,
        0 <= scope[i].segments.spec_base() <= usize::MAX,
        crate::symbol::spec_lookup_filter(scope[i].symtab, name) == Some(d),
        forall|j: int| 0 <= j < i ==> crate::symbol::spec_lookup_filter(#[trigger] scope[j].symtab, name) is None,
        d.st_info % 16 == crate::elf::STT_GNU_IFUNC,
    ensures
        spec_find_symbol_addr(pre, post, own_base, own_id, symtab, scope, r_sym) matches Some((r, _))
            && r == Resolved::Ifunc(vstd::wrapping::usize_specs::wrapping_add(
                scope[i].segments.spec_base() as usize, d.st_value)),
{
    lemma_first_def_at(scope, name, 0, i);
    let def = crate::relocation::lookup::SymDef { sym: Some(d), lib: Some(i as usize) };
    assert(spec_find_symdef(own_id, scope, symtab.symbols@[r_sym], name) matches Some((sd, _)) && sd == def);
    assert(spec_convert(def, own_base, scope) == Resolved::Ifunc(vstd::wrapping::usize_specs::wrapping_add(
        scope[i].segments.spec_base() as usize, d.st_value)));
}

/// An absolute (`R_X86_64_64`) or GOT (`GLOB_DAT`) entry that the
/// pre-handler leaves alone, whose symbol resolves to an indirect function
/// with resolver `r`, is applied by handing the host the call of `r`, with
/// the entry's place and addend; the image is left as it is until then.
pub proof fn law_ifunc_entry_left_to_host<P: SymbolLookup, Q: SymbolLookup, H1: RelocationHandler, H2: RelocationHandler>(
    pre: P,
    post: Q,
    pre_h: H1,
    post_h: H2,
    t: Target,
    scope: Seq<ScopeLib>,
    rel: ElfRelType,
    st: RelocState,
    r: usize,
    idx: Option<usize>,
)
    requires
        rel.spec_r_type() == crate::elf::REL_GOT || rel.spec_r_type() == crate::elf::REL_SYMBOLIC,
        pre_h.spec_handle(rel, t, scope) is None,
        spec_find_symbol_addr(pre, post, t.base, t.id, t.symtab, scope, rel.spec_r_sym() as int)
            == Some((Resolved::Ifunc(r), idx)),
    ensures
        spec_dyn_hstep(pre, post, pre_h, post_h, t, scope, rel, st) matches Some(fin) && {
            &&& fin.0 == st.0
            &&& fin.1 == st.1.push(crate::relocation::dynamic::IfuncFixup {
                place: rel.r_offset, resolver: r, addend: rel.r_addend })
        },
{
    reveal(crate::relocation::dynamic::spec_dyn_step);
}

/// A loadable segment holds its file bytes: once the segment built from a
/// `PT_LOAD` header (whose file offset and virtual address agree modulo the
/// page size, as ELF requires of loadable segments) is placed for the load
/// base `base` and loaded into the image `mem`, mapped at `img`, from the
/// file `content`, each of the header's `p_filesz` bytes at virtual address
/// `p_vaddr + k` holds the file's byte at `p_offset + k`, and each byte
/// after those, up to the header's `p_memsz`, is zero.
#[verifier::spinoff_prover]
pub proof fn law_segment_holds_file_bytes(
    p: crate::elf::ElfPhdr,
    s: ElfSegment,
    base: int,
    mem: Seq<u8>,
    img: usize,
    content: Seq<u8>,
    m: Seq<u8>,
)
    requires
        crate::segment::program::phdr_segment_placed(p, s, base),
        (p.p_vaddr as int) % (crate::layout::PAGE_SIZE as int) == (p.p_offset as int) % (crate::layout::PAGE_SIZE as int),
        0 <= base + spec_rounddown(p.p_vaddr as int, crate::layout::PAGE_SIZE as int) <= usize::MAX,
        crate::segment::load::spec_load_segment(mem, img, s, content) == Some(m),
    ensures
        forall|k: int| 0 <= k < p.p_filesz ==> #[trigger] m[base + p.p_vaddr + k - img] == content[p.p_offset + k],
        forall|k: int| p.p_filesz <= k < p.p_memsz ==> #[trigger] m[base + p.p_vaddr + k - img] == 0,
{
    let pg = crate::layout::PAGE_SIZE as int;
    let f = crate::segment::program::spec_phdr_segment_fields(p);
    let seg = base + f.0;
    assert(s.addr->Absolute_0 == seg);
    let info = s.map_info@[0];
    assert(s.map_info@.len() == 1);
    assert(crate::segment::load::spec_copy_infos(mem, img, seg, s.map_info@, content, 0) == Some(mem));
    let c1 = crate::segment::load::spec_copy_infos(mem, img, seg, s.map_info@, content, 1);
    assert(c1 is Some);
    let m1 = c1->0;
    assert(info.offset == f.4 && info.filesz == f.5 && info.start == 0);
    assert(m1 == crate::segment::spec_write_bytes(mem, seg - img,
        content.subrange(info.offset as int, info.offset + info.filesz)));
    assert(p.p_vaddr - spec_rounddown(p.p_vaddr as int, pg) == (p.p_vaddr as int) % pg);
    assert(p.p_offset - spec_rounddown(p.p_offset as int, pg) == (p.p_offset as int) % pg);
    assert forall|k: int| 0 <= k < p.p_filesz implies #[trigger] m[base + p.p_vaddr + k - img] == content[p.p_offset + k] by {
        let j = (p.p_vaddr as int) % pg + k;
        assert(base + p.p_vaddr + k - img == seg - img + j);
        assert(j < info.filesz);
        assert(m1[seg - img + j] == content[info.offset + j]);
        assert(info.offset + j == p.p_offset + k);
    }
    let zs = seg + s.content_size;
    assert(zs == base + p.p_vaddr + p.p_filesz);
    let n = crate::segment::load::zero_len(zs, s.zero_size as int);
    assert forall|k: int| p.p_filesz <= k < p.p_memsz implies #[trigger] m[base + p.p_vaddr + k - img] == 0 by {
        assert(n >= s.zero_size);
        assert(m == crate::segment::spec_fill_zero(m1, zs - img, n));
    }
}

/// An eagerly bound jump slot that the pre-handler leaves alone, whose
/// symbol resolves to the plain address `v`, is applied whenever its place
/// lies in the image: the slot then reads back as `v` (the addend plays no
/// part), no other byte changes and no resolver call is added.
pub proof fn law_jump_slot_holds_address<P: SymbolLookup, Q: SymbolLookup, H1: RelocationHandler, H2: RelocationHandler>(
    pre: P,
    post: Q,
    pre_h: H1,
    post_h: H2,
    t: Target,
    scope: Seq<ScopeLib>,
    rel: ElfRelType,
    st: RelocState,
    v: usize,
    idx: Option<usize>,
)
    requires
        rel.spec_r_type() == REL_JUMP_SLOT,
        pre_h.spec_handle(rel, t, scope) is None,
        spec_find_symbol_addr(pre, post, t.base, t.id, t.symtab, scope, rel.spec_r_sym() as int)
            == Some((Resolved::Addr(v), idx)),
        t.offset <= rel.r_offset,
        rel.r_offset - t.offset + 8 <= st.0.len(),
    ensures
        spec_plt_hstep(pre, post, pre_h, post_h, t, scope, false, rel, st) is Some,
        spec_plt_hstep(pre, post, pre_h, post_h, t, scope, false, rel, st) matches Some(fin) ==> {
            &&& le_at(fin.0, rel.r_offset - t.offset, 8) == v
            &&& same_outside(fin.0, st.0, rel.r_offset - t.offset, 8)
            &&& fin.1 == st.1
        },
{
    reveal(spec_plt_step);
    let i = rel.r_offset - t.offset;
    lemma_read_after_write(st.0, i, v as nat, 8);
    reveal_with_fuel(pow256, 9);
    let m = crate::segment::spec_write_le(st.0, i, v as nat, 8);
    assert(spec_write_word(st.0, t.offset, rel.r_offset, v as u64) == Some(m));
    assert(v < 0x1_0000_0000_0000_0000) by {
        assert(usize::MAX == 0xffff_ffff || usize::MAX == 0xffff_ffff_ffff_ffff);
    }
    assert(pow256(8) == 0x1_0000_0000_0000_0000nat);
    assert((v as nat) % 0x1_0000_0000_0000_0000nat == v);
    assert(le_at(m, i, 8) == v);
    assert(same_outside(m, st.0, i, 8));
}

/// An indirect relative entry (`R_X86_64_IRELATIVE`), among the dynamic or
/// the PLT entries, that the pre-handler leaves alone hands the host the
/// call of the resolver at the load base plus the addend, for the entry's
/// place; the image is left as it is until then.
pub proof fn law_irelative_calls_resolver<P: SymbolLookup, Q: SymbolLookup, H1: RelocationHandler, H2: RelocationHandler>(
    pre: P,
    post: Q,
    pre_h: H1,
    post_h: H2,
    t: Target,
    scope: Seq<ScopeLib>,
    lazy: bool,
    rel: ElfRelType,
    st: RelocState,
)
    requires
        rel.spec_r_type() == crate::elf::REL_IRELATIVE,
        pre_h.spec_handle(rel, t, scope) is None,
        0 <= t.base + rel.r_addend <= usize::MAX,
    ensures
        ({
            let call = crate::relocation::dynamic::IfuncFixup {
                place: rel.r_offset, resolver: (t.base + rel.r_addend) as usize, addend: 0 };
            &&& spec_dyn_hstep(pre, post, pre_h, post_h, t, scope, rel, st) == Some((st.0, st.1.push(call), st.2))
            &&& spec_plt_hstep(pre, post, pre_h, post_h, t, scope, lazy, rel, st) == Some((st.0, st.1.push(call), st.2))
        }),
{
    reveal(crate::relocation::dynamic::spec_dyn_step);
    reveal(spec_plt_step);
    assert(wrap64(t.base + rel.r_addend) == t.base + rel.r_addend);
}

/// A TLS offset entry (`R_X86_64_DTPOFF64`) that the pre-handler leaves
/// alone, whose symbol is defined by `sym`, is applied whenever its place
/// lies in the image: the word at the place reads back as the definition's
/// value plus the addend, less the DTV offset (modulo `2^64`); no other
/// byte changes.
pub proof fn law_tls_offset_word<P: SymbolLookup, Q: SymbolLookup, H1: RelocationHandler, H2: RelocationHandler>(
    pre: P,
    post: Q,
    pre_h: H1,
    post_h: H2,
    t: Target,
    scope: Seq<ScopeLib>,
    rel: ElfRelType,
    st: RelocState,
    sym: crate::elf::ElfSymbol,
    lib: Option<usize>,
    idx: Option<usize>,
)
    requires
        rel.spec_r_type() == crate::elf::REL_DTPOFF,
        pre_h.spec_handle(rel, t, scope) is None,
        crate::relocation::lookup::spec_find_symdef_idx(t.id, t.symtab, scope, rel.spec_r_sym() as int)
            == Some((crate::relocation::lookup::SymDef { sym: Some(sym), lib }, idx)),
        t.offset <= rel.r_offset,
        rel.r_offset - t.offset + 8 <= st.0.len(),
    ensures
        spec_dyn_hstep(pre, post, pre_h, post_h, t, scope, rel, st) is Some,
        spec_dyn_hstep(pre, post, pre_h, post_h, t, scope, rel, st) matches Some(fin) ==> {
            &&& le_at(fin.0, rel.r_offset - t.offset, 8) == (sym.st_value + rel.r_addend
                - crate::elf::TLS_DTV_OFFSET) % 0x1_0000_0000_0000_0000
            &&& same_outside(fin.0, st.0, rel.r_offset - t.offset, 8)
            &&& fin.1 == st.1
        },
{
    reveal(crate::relocation::dynamic::spec_dyn_step);
    let i = rel.r_offset - t.offset;
    let w = wrap64(sym.st_value + rel.r_addend - crate::elf::TLS_DTV_OFFSET);
    lemma_read_after_write(st.0, i, w as nat, 8);
    reveal_with_fuel(pow256, 9);
    let m = crate::segment::spec_write_le(st.0, i, w as nat, 8);
    assert(spec_write_word(st.0, t.offset, rel.r_offset, w) == Some(m));
    assert(le_at(m, i, 8) == w as nat % 0x1_0000_0000_0000_0000);
    assert(same_outside(m, st.0, i, 8));
}

/// A GOT-relative entry (`R_X86_64_GOTPCREL` and its relaxable forms) of a
/// relocatable object, whose symbol resolves to `s`: the symbol's GOT slot
/// `g` is the one it was given before, or else the next free slot, which
/// it is then given and which is set to `s`.  When `g` plus the addend,
/// less the place `P`, fits in 32 signed bits and the field, the slot and
/// the image agree, the entry is applied and the 4-byte field reads back
/// as `g + A - P` (modulo `2^32`).
#[verifier::spinoff_prover]
pub proof fn law_got_relative_field<P: SymbolLookup, Q: SymbolLookup>(
    pre: P,
    post: Q,
    t: Target,
    scope: Seq<ScopeLib>,
    p0: crate::segment::section::PltGotSection,
    addr: usize,
    rel: ElfRelType,
    st: (Seq<u8>, crate::relocation::object_reloc::SlotsView),
    s: usize,
)
    requires
        rel.spec_r_type() == crate::elf::R_X86_64_GOTPCREL || rel.spec_r_type() == crate::elf::R_X86_64_GOTPCRELX
            || rel.spec_r_type() == crate::elf::R_X86_64_REX_GOTPCRELX,
        crate::relocation::object_reloc::spec_static_sym(pre, post, t, scope, rel.spec_r_sym() as int) == Some(s),
        !st.1.0.dom().contains(rel.spec_r_sym()) ==> (st.1.1 + 1) * 8 <= p0.got_size,
        ({
            let g: int = if st.1.0.dom().contains(rel.spec_r_sym()) { st.1.0[rel.spec_r_sym()] * 8 + p0.got_base }
                else { st.1.1 * 8 + p0.got_base };
            &&& g <= usize::MAX
            &&& 0 <= g + rel.r_addend <= u64::MAX
            &&& t.base + rel.r_offset <= u64::MAX
            &&& i32::MIN <= g + rel.r_addend - (t.base + rel.r_offset) <= i32::MAX
            &&& !st.1.0.dom().contains(rel.spec_r_sym()) ==> {
                &&& addr <= g
                &&& g - addr + 8 <= st.0.len()
                &&& (rel.r_offset - t.offset + 4 <= g - addr || g - addr + 8 <= rel.r_offset - t.offset)
            }
        }),
        t.offset <= rel.r_offset,
        rel.r_offset - t.offset + 4 <= st.0.len(),
    ensures
        crate::relocation::object_reloc::spec_static_step(pre, post, t, scope, p0, addr, rel, st) is Some,
        crate::relocation::object_reloc::spec_static_step(pre, post, t, scope, p0, addr, rel, st) matches Some(fin) ==> {
            let r = rel.spec_r_sym();
            let fresh = !st.1.0.dom().contains(r);
            let g: int = if fresh { st.1.1 * 8 + p0.got_base } else { st.1.0[r] * 8 + p0.got_base };
            &&& le_at(fin.0, rel.r_offset - t.offset, 4) == (g + rel.r_addend - (t.base + rel.r_offset)) % 0x1_0000_0000
            &&& !fresh ==> fin.1 == st.1 && same_outside(fin.0, st.0, rel.r_offset - t.offset, 4)
            &&& fresh ==> {
                &&& le_at(fin.0, g - addr, 8) == s
                &&& fin.1 == (st.1.0.insert(r, st.1.1), (st.1.1 + 1) as usize, st.1.2, st.1.3)
            }
        },
{
    reveal(crate::relocation::object_reloc::spec_static_step);
    reveal_with_fuel(pow256, 9);
    let r = rel.spec_r_sym();
    let fresh = !st.1.0.dom().contains(r);
    let g: int = if fresh { st.1.1 * 8 + p0.got_base } else { st.1.0[r] * 8 + p0.got_base };
    let d = g + rel.r_addend - (t.base + rel.r_offset);
    assert(wrap64(g + rel.r_addend) == g + rel.r_addend);
    assert(wrap64(t.base + rel.r_offset) == t.base + rel.r_offset);
    lemma_signed_wrap(d);
    let i = rel.r_offset - t.offset;
    if fresh {
        let m1 = crate::segment::spec_write_le(st.0, g - addr, s as nat, 8);
        lemma_read_after_write(st.0, g - addr, s as nat, 8);
        assert(s < 0x1_0000_0000_0000_0000) by {
            assert(usize::MAX == 0xffff_ffff || usize::MAX == 0xffff_ffff_ffff_ffff);
        }
        lemma_read_after_write(m1, i, wrap64(d) as nat, 4);
        let m2 = crate::segment::spec_write_le(m1, i, wrap64(d) as nat, 4);
        assert(m2.subrange(g - addr, g - addr + 8) =~= m1.subrange(g - addr, g - addr + 8));
        assert(pow256(8) == 0x1_0000_0000_0000_0000nat);
        assert((s as nat) % 0x1_0000_0000_0000_0000nat == s);
        assert(le_at(m1, g - addr, 8) == s);
        assert(le_at(m2, g - addr, 8) == s);
    } else {
        lemma_read_after_write(st.0, i, wrap64(d) as nat, 4);
    }
}

/// A copy entry (`R_X86_64_COPY`) that the pre-handler leaves alone, whose
/// symbol is defined by `sym` in scope object `i`: when the definition's
/// bytes and the place lie in their images, the entry is applied and the
/// object's own symbol size worth of bytes at the place are the defining
/// object's bytes at the definition's value; no other byte changes.
pub proof fn law_copy_takes_definition_bytes<P: SymbolLookup, Q: SymbolLookup, H1: RelocationHandler, H2: RelocationHandler>(
    pre: P,
    post: Q,
    pre_h: H1,
    post_h: H2,
    t: Target,
    scope: Seq<ScopeLib>,
    rel: ElfRelType,
    st: RelocState,
    sym: crate::elf::ElfSymbol,
    i: usize,
    idx: Option<usize>,
)
    requires
        rel.spec_r_type() == crate::elf::REL_COPY,
        pre_h.spec_handle(rel, t, scope) is None,
        crate::relocation::lookup::spec_find_symdef_idx(t.id, t.symtab, scope, rel.spec_r_sym() as int)
            == Some((crate::relocation::lookup::SymDef { sym: Some(sym), lib: Some(i) }, idx)),
        i < scope.len(),
        ({
            let len = t.symtab.symbols@[rel.spec_r_sym() as int].st_size;
            let src = scope[i as int].segments;
            &&& src.offset <= sym.st_value
            &&& sym.st_value - src.offset + len <= src.memory@.len()
            &&& t.offset <= rel.r_offset
            &&& rel.r_offset - t.offset + len <= st.0.len()
        }),
    ensures
        spec_dyn_hstep(pre, post, pre_h, post_h, t, scope, rel, st) is Some,
        spec_dyn_hstep(pre, post, pre_h, post_h, t, scope, rel, st) matches Some(fin) ==> {
            let len = t.symtab.symbols@[rel.spec_r_sym() as int].st_size;
            let src = scope[i as int].segments;
            &&& forall|k: int| 0 <= k < len ==> #[trigger] fin.0[rel.r_offset - t.offset + k]
                == src.memory@[sym.st_value - src.offset + k]
            &&& same_outside(fin.0, st.0, rel.r_offset - t.offset, len as int)
            &&& fin.1 == st.1
        },
{
    reveal(crate::relocation::dynamic::spec_dyn_step);
}

} // verus!
