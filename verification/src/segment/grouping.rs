//! The segments of a relocatable object.
//!
//! Every section joins the unit of its protection (read-only, writable,
//! executable, writable and executable); three sections are added for the
//! GOT, the PLT's GOT slots and the PLT.  The units are then laid out one
//! after another from relative address zero.

use vstd::prelude::*;
use crate::elf::ElfShdr;
use crate::error::Error;
use crate::layout::PAGE_SIZE;
use super::ElfSegment;
use super::section::{
    align_ok, all_budget, consecutive, count_rels, create_got_shdr, create_plt_shdr, entsizes_ok,
    align_pad, flags_to_idx, is_align_ok, pad_of, is_zero_kind, place_unit, rel_count, same_but_addrs, size_budget,
    spec_flags_idx, spec_got_shdr, spec_plt_shdrs, unit_contains_post, PltGotSection, SectionUnit,
    PLT_ENTRY_SIZE,
};

verus! {

/// The unit section `i` of `s` belongs to.
pub open spec fn unit_of(s: Seq<ElfShdr>, i: int) -> int {
    spec_flags_idx(s[i].sh_flags)
}

/// `idxs` lists in increasing order exactly the sections below `i` of unit
/// `u` whose kind is zero-filled when `zero` holds and has content otherwise.
pub open spec fn members_ok(s: Seq<ElfShdr>, idxs: Seq<usize>, u: int, zero: bool, i: int) -> bool {
    &&& forall|k: int| 0 <= k < idxs.len() ==> #[trigger] idxs[k] < i
        && unit_of(s, idxs[k] as int) == u && is_zero_kind(s[idxs[k] as int]) == zero
    &&& forall|a: int, b: int| 0 <= a < b < idxs.len() ==> idxs[a] < idxs[b]
    &&& forall|j: int| 0 <= j < i && unit_of(s, j) == u && is_zero_kind(#[trigger] s[j]) == zero
        ==> idxs.contains(j as usize)
}

/// The unit holds exactly the sections below `i` of unit `u`.
pub open spec fn unit_ok(s: Seq<ElfShdr>, unit: SectionUnit, u: int, i: int) -> bool {
    &&& members_ok(s, unit.content_sections@, u, false, i)
    &&& members_ok(s, unit.zero_sections@, u, true, i)
}

/// Space the sections of a unit need at most.
pub open spec fn unit_budget(s: Seq<ElfShdr>, unit: SectionUnit) -> int {
    size_budget(s, unit.content_sections@, unit.content_sections@.len() as int)
        + size_budget(s, unit.zero_sections@, unit.zero_sections@.len() as int)
}

proof fn lemma_budget_push(s: Seq<ElfShdr>, idxs: Seq<usize>, x: usize, k: int)
    requires
        0 <= k <= idxs.len(),
    ensures
        size_budget(s, idxs.push(x), k) == size_budget(s, idxs, k),
    decreases k,
{
    if k > 0 {
        lemma_budget_push(s, idxs, x, k - 1);
        assert(idxs.push(x)[k - 1] == idxs[k - 1]);
    }
}

proof fn lemma_members_push(s: Seq<ElfShdr>, idxs: Seq<usize>, u: int, zero: bool, i: int)
    requires
        members_ok(s, idxs, u, zero, i),
        0 <= i < s.len(),
        i <= usize::MAX,
    ensures
        unit_of(s, i) == u && is_zero_kind(s[i]) == zero ==> members_ok(s, idxs.push(i as usize), u, zero, i + 1),
        !(unit_of(s, i) == u && is_zero_kind(s[i]) == zero) ==> members_ok(s, idxs, u, zero, i + 1),
{
    let p = idxs.push(i as usize);
    if unit_of(s, i) == u && is_zero_kind(s[i]) == zero {
        assert forall|k: int| 0 <= k < p.len() implies #[trigger] p[k] < i + 1
            && unit_of(s, p[k] as int) == u && is_zero_kind(s[p[k] as int]) == zero by {
            if k < idxs.len() {
                assert(p[k] == idxs[k]);
            }
        }
        assert forall|a: int, b: int| 0 <= a < b < p.len() implies p[a] < p[b] by {
            assert(p[a] == idxs[a]);
            if b < idxs.len() {
                assert(p[b] == idxs[b]);
            }
        }
        assert forall|j: int| 0 <= j < i + 1 && unit_of(s, j) == u && is_zero_kind(#[trigger] s[j]) == zero
            implies p.contains(j as usize) by {
            if j < i {
                assert(idxs.contains(j as usize));
                let k = choose|k: int| 0 <= k < idxs.len() && idxs[k] == j as usize;
                assert(p[k] == idxs[k]);
            } else {
                assert(p[idxs.len() as int] == i as usize);
            }
        }
    }
}

/// Add section `i` to the unit it belongs to.
fn add_to_unit(
    s: &Vec<ElfShdr>,
    i: usize,
    u0: &mut SectionUnit,
    u1: &mut SectionUnit,
    u2: &mut SectionUnit,
    u3: &mut SectionUnit,
)
    requires
        i < s@.len(),
        unit_ok(s@, *old(u0), 0, i as int),
        unit_ok(s@, *old(u1), 1, i as int),
        unit_ok(s@, *old(u2), 2, i as int),
        unit_ok(s@, *old(u3), 3, i as int),
    ensures
        unit_ok(s@, *final(u0), 0, i + 1),
        unit_ok(s@, *final(u1), 1, i + 1),
        unit_ok(s@, *final(u2), 2, i + 1),
        unit_ok(s@, *final(u3), 3, i + 1),
        unit_budget(s@, *final(u0)) + unit_budget(s@, *final(u1)) + unit_budget(s@, *final(u2))
            + unit_budget(s@, *final(u3)) == unit_budget(s@, *old(u0)) + unit_budget(s@, *old(u1))
            + unit_budget(s@, *old(u2)) + unit_budget(s@, *old(u3)) + s@[i as int].sh_size
            + align_pad(s@[i as int].sh_addralign),
{
    let ghost sq = s@;
    let idx = flags_to_idx(s[i].sh_flags);
    proof {
        let ii = i as int;
        lemma_members_push(sq, old(u0).content_sections@, 0, false, ii);
        lemma_members_push(sq, old(u0).zero_sections@, 0, true, ii);
        lemma_members_push(sq, old(u1).content_sections@, 1, false, ii);
        lemma_members_push(sq, old(u1).zero_sections@, 1, true, ii);
        lemma_members_push(sq, old(u2).content_sections@, 2, false, ii);
        lemma_members_push(sq, old(u2).zero_sections@, 2, true, ii);
        lemma_members_push(sq, old(u3).content_sections@, 3, false, ii);
        lemma_members_push(sq, old(u3).zero_sections@, 3, true, ii);
        lemma_budget_push(sq, old(u0).content_sections@, i, old(u0).content_sections@.len() as int);
        lemma_budget_push(sq, old(u0).zero_sections@, i, old(u0).zero_sections@.len() as int);
        lemma_budget_push(sq, old(u1).content_sections@, i, old(u1).content_sections@.len() as int);
        lemma_budget_push(sq, old(u1).zero_sections@, i, old(u1).zero_sections@.len() as int);
        lemma_budget_push(sq, old(u2).content_sections@, i, old(u2).content_sections@.len() as int);
        lemma_budget_push(sq, old(u2).zero_sections@, i, old(u2).zero_sections@.len() as int);
        lemma_budget_push(sq, old(u3).content_sections@, i, old(u3).content_sections@.len() as int);
        lemma_budget_push(sq, old(u3).zero_sections@, i, old(u3).zero_sections@.len() as int);
    }
    if idx == 0 {
        u0.add_section(s.as_slice(), i);
    } else if idx == 1 {
        u1.add_section(s.as_slice(), i);
    } else if idx == 2 {
        u2.add_section(s.as_slice(), i);
    } else {
        u3.add_section(s.as_slice(), i);
    }
}

/// Sort the sections of `s` into the four units.
fn group_sections(s: &Vec<ElfShdr>) -> (r: (SectionUnit, SectionUnit, SectionUnit, SectionUnit))
    ensures
        unit_ok(s@, r.0, 0, s@.len() as int),
        unit_ok(s@, r.1, 1, s@.len() as int),
        unit_ok(s@, r.2, 2, s@.len() as int),
        unit_ok(s@, r.3, 3, s@.len() as int),
        unit_budget(s@, r.0) + unit_budget(s@, r.1) + unit_budget(s@, r.2) + unit_budget(s@, r.3)
            == all_budget(s@, s@.len() as int),
{
    let mut u0 = SectionUnit::new();
    let mut u1 = SectionUnit::new();
    let mut u2 = SectionUnit::new();
    let mut u3 = SectionUnit::new();
    let n = s.len();
    let mut i: usize = 0;
    while i < n
        invariant
            n == s@.len(),
            i <= n,
            unit_ok(s@, u0, 0, i as int),
            unit_ok(s@, u1, 1, i as int),
            unit_ok(s@, u2, 2, i as int),
            unit_ok(s@, u3, 3, i as int),
            unit_budget(s@, u0) + unit_budget(s@, u1) + unit_budget(s@, u2) + unit_budget(s@, u3)
                == all_budget(s@, i as int),
        decreases n - i,
    {
        add_to_unit(s, i, &mut u0, &mut u1, &mut u2, &mut u3);
        i = i + 1;
    }
    (u0, u1, u2, u3)
}

proof fn lemma_all_budget_mono(s: Seq<ElfShdr>, j: int, k: int)
    requires
        0 <= j <= k <= s.len(),
    ensures
        all_budget(s, j) <= all_budget(s, k),
    decreases k - j,
{
    if j < k {
        lemma_all_budget_mono(s, j, k - 1);
    }
}

/// The space all sections of `s` need at most, if it fits in a `usize`.
fn total_budget(s: &Vec<ElfShdr>) -> (r: Option<usize>)
    ensures
        r matches Some(b) ==> b == all_budget(s@, s@.len() as int),
        r is None ==> all_budget(s@, s@.len() as int) > usize::MAX,
{
    let n = s.len();
    let mut total: usize = 0;
    let mut i: usize = 0;
    while i < n
        invariant
            n == s@.len(),
            i <= n,
            total == all_budget(s@, i as int),
        decreases n - i,
    {
        let size = s[i].sh_size;
        let pad = pad_of(s[i].sh_addralign);
        if total > usize::MAX - pad || size > usize::MAX - pad - total {
            proof { lemma_all_budget_mono(s@, (i + 1) as int, n as int); }
            return None;
        }
        total = total + size + pad;
        i = i + 1;
    }
    Some(total)
}

/// Every section has an alignment the layout accepts: zero or a power of
/// two (the only alignments an ELF file may give).
pub open spec fn aligns_all_ok(s: Seq<ElfShdr>) -> bool {
    forall|i: int| 0 <= i < s.len() ==> align_ok(#[trigger] s[i].sh_addralign)
}

/// The sections `s` followed by the GOT, the PLT and the PLT's GOT slots
/// sized for `cnt` relocation entries.
pub open spec fn with_tables(s: Seq<ElfShdr>, cnt: int, lazy: bool) -> Seq<ElfShdr> {
    s.push(spec_got_shdr(cnt)).push(spec_plt_shdrs(cnt, lazy).1).push(spec_plt_shdrs(cnt, lazy).0)
}

/// The sections can be laid out: alignments are accepted, and the tables
/// and all sections with their padding fit in the address space.
pub open spec fn layout_accepted(s: Seq<ElfShdr>, lazy: bool) -> bool {
    let cnt = rel_count(s, s.len() as int);
    &&& aligns_all_ok(s)
    &&& cnt * 16 + 16 <= usize::MAX
    &&& all_budget(with_tables(s, cnt, lazy), s.len() + 3int) + 8 * PAGE_SIZE <= usize::MAX
}

/// The sections of unit `u` of `s0` that take space lie in `[lo, hi)` in `s`.
pub open spec fn unit_placed(s0: Seq<ElfShdr>, s: Seq<ElfShdr>, u: int, lo: int, hi: int) -> bool {
    forall|i: int| 0 <= i < s0.len() && unit_of(s0, i) == u
        && (is_zero_kind(s0[i]) || s0[i].sh_size != 0) ==> lo <= #[trigger] s[i].sh_addr
            && s[i].sh_addr + s0[i].sh_size <= hi
}

/// Section `i` of `s0` takes space and lies within `[0, end)` in `s`.
pub open spec fn section_placed(s0: Seq<ElfShdr>, s: Seq<ElfShdr>, i: int, end: int) -> bool {
    (is_zero_kind(s0[i]) || s0[i].sh_size != 0) ==> s[i].sh_addr + s0[i].sh_size <= end
}

proof fn lemma_same_trans(s0: Seq<ElfShdr>, s1: Seq<ElfShdr>, s2: Seq<ElfShdr>)
    requires
        same_but_addrs(s0, s1),
        same_but_addrs(s1, s2),
    ensures
        same_but_addrs(s0, s2),
{
    assert forall|i: int| 0 <= i < s0.len() implies #[trigger] s2[i] == (ElfShdr { sh_addr: s2[i].sh_addr, ..s0[i] }) by {
        assert(s1[i] == (ElfShdr { sh_addr: s1[i].sh_addr, ..s0[i] }));
        assert(s2[i] == (ElfShdr { sh_addr: s2[i].sh_addr, ..s1[i] }));
    }
}

proof fn lemma_unit_ready(s0: Seq<ElfShdr>, s: Seq<ElfShdr>, unit: SectionUnit, u: int, start: int)
    requires
        unit_ok(s0, unit, u, s0.len() as int),
        same_but_addrs(s0, s),
        aligns_all_ok(s0),
        0 <= start,
        start + unit_budget(s0, unit) + 2 * PAGE_SIZE <= usize::MAX,
    ensures
        unit.layout_ok(s, start),
{
    let c = unit.content_sections@;
    let z = unit.zero_sections@;
    assert forall|k: int| 0 <= k < c.len() implies {
        let a = #[trigger] s[c[k] as int].sh_addralign;
        a == 0 || crate::layout::is_pow2(a)
    } by {
        assert(c[k] < s0.len());
        assert(s[c[k] as int] == (ElfShdr { sh_addr: s[c[k] as int].sh_addr, ..s0[c[k] as int] }));
        super::section::lemma_align_ok(s0[c[k] as int].sh_addralign);
    }
    assert forall|k: int| 0 <= k < z.len() implies {
        let a = #[trigger] s[z[k] as int].sh_addralign;
        a == 0 || crate::layout::is_pow2(a)
    } by {
        assert(z[k] < s0.len());
        assert(s[z[k] as int] == (ElfShdr { sh_addr: s[z[k] as int].sh_addr, ..s0[z[k] as int] }));
        super::section::lemma_align_ok(s0[z[k] as int].sh_addralign);
    }
    assert forall|k: int| 0 <= k < c.len() implies #[trigger] c[k] < s.len() by {}
    assert forall|k: int| 0 <= k < z.len() implies #[trigger] z[k] < s.len() by {}
    assert forall|m: int| 0 <= m < c.len() implies #[trigger] s[c[m] as int].sh_size == s0[c[m] as int].sh_size by {
        assert(c[m] < s0.len());
        assert(s[c[m] as int] == (ElfShdr { sh_addr: s[c[m] as int].sh_addr, ..s0[c[m] as int] }));
    }
    assert forall|m: int| 0 <= m < z.len() implies #[trigger] s[z[m] as int].sh_size == s0[z[m] as int].sh_size by {
        assert(z[m] < s0.len());
        assert(s[z[m] as int] == (ElfShdr { sh_addr: s[z[m] as int].sh_addr, ..s0[z[m] as int] }));
    }
    super::section::lemma_budget_same(s0, s, c, c.len() as int);
    super::section::lemma_budget_same(s0, s, z, z.len() as int);
    assert forall|i: int, j: int| 0 <= i < c.len() && 0 <= j < z.len() implies c[i] != z[j] by {
        assert(is_zero_kind(s0[c[i] as int]) == false);
        assert(is_zero_kind(s0[z[j] as int]) == true);
    }
}

proof fn lemma_unit_placed(
    s0: Seq<ElfShdr>,
    s1: Seq<ElfShdr>,
    s2: Seq<ElfShdr>,
    unit: SectionUnit,
    u: int,
    start: int,
    end: int,
)
    requires
        unit_ok(s0, unit, u, s0.len() as int),
        s0.len() <= usize::MAX,
        same_but_addrs(s0, s1),
        unit_contains_post(s1, s2, unit.content_sections@, unit.zero_sections@, start, end),
    ensures
        unit_placed(s0, s2, u, start, end),
{
    reveal(unit_contains_post);
    let c = unit.content_sections@;
    let z = unit.zero_sections@;
    assert forall|i: int| 0 <= i < s0.len() && unit_of(s0, i) == u
        && (is_zero_kind(s0[i]) || s0[i].sh_size != 0) implies start <= #[trigger] s2[i].sh_addr
            && s2[i].sh_addr + s0[i].sh_size <= end by {
        assert(s1[i] == (ElfShdr { sh_addr: s1[i].sh_addr, ..s0[i] }));
        if is_zero_kind(s0[i]) {
            assert(z.contains(i as usize));
            let k = choose|k: int| 0 <= k < z.len() && z[k] == i as usize;
            assert(s2[z[k] as int].sh_addr == s2[i].sh_addr);
        } else {
            assert(c.contains(i as usize));
            let k = choose|k: int| 0 <= k < c.len() && c[k] == i as usize;
            assert(s2[c[k] as int].sh_addr == s2[i].sh_addr);
        }
    }
}

proof fn lemma_placed_kept(
    s0: Seq<ElfShdr>,
    s1: Seq<ElfShdr>,
    s2: Seq<ElfShdr>,
    other: SectionUnit,
    u: int,
    v: int,
    lo: int,
    hi: int,
)
    requires
        unit_placed(s0, s1, u, lo, hi),
        unit_ok(s0, other, v, s0.len() as int),
        u != v,
        s1.len() == s0.len(),
        s0.len() <= usize::MAX,
        forall|i: int| 0 <= i < s1.len() && !other.content_sections@.contains(i as usize)
            && !other.zero_sections@.contains(i as usize) ==> #[trigger] s2[i].sh_addr == s1[i].sh_addr,
    ensures
        unit_placed(s0, s2, u, lo, hi),
{
    let c = other.content_sections@;
    let z = other.zero_sections@;
    assert forall|i: int| 0 <= i < s0.len() && unit_of(s0, i) == u
        && (is_zero_kind(s0[i]) || s0[i].sh_size != 0) implies lo <= #[trigger] s2[i].sh_addr
            && s2[i].sh_addr + s0[i].sh_size <= hi by {
        if c.contains(i as usize) {
            let k = choose|k: int| 0 <= k < c.len() && c[k] == i as usize;
            assert(unit_of(s0, c[k] as int) == v);
        }
        if z.contains(i as usize) {
            let k = choose|k: int| 0 <= k < z.len() && z[k] == i as usize;
            assert(unit_of(s0, z[k] as int) == v);
        }
        assert(s2[i].sh_addr == s1[i].sh_addr);
    }
}

proof fn lemma_size_budget_nonneg(s: Seq<ElfShdr>, idxs: Seq<usize>, k: int)
    ensures
        size_budget(s, idxs, k) >= 0,
    decreases k,
{
    if k > 0 {
        lemma_size_budget_nonneg(s, idxs, k - 1);
    }
}

proof fn lemma_unit_budget_nonneg(s: Seq<ElfShdr>, unit: SectionUnit)
    ensures
        unit_budget(s, unit) >= 0,
{
    lemma_size_budget_nonneg(s, unit.content_sections@, unit.content_sections@.len() as int);
    lemma_size_budget_nonneg(s, unit.zero_sections@, unit.zero_sections@.len() as int);
}

/// The sections of units `0 .. k` of `se` that take space lie in `[0, end)`
/// in `s`, which differs from `se` only in addresses.
#[verifier::opaque]
pub open spec fn units_placed(se: Seq<ElfShdr>, s: Seq<ElfShdr>, k: int, end: int) -> bool {
    &&& same_but_addrs(se, s)
    &&& forall|u: int| 0 <= u < k ==> #[trigger] unit_placed(se, s, u, 0, end)
}

proof fn lemma_placed_grow(se: Seq<ElfShdr>, s: Seq<ElfShdr>, u: int, lo: int, hi: int, hi2: int)
    requires
        unit_placed(se, s, u, lo, hi),
        hi <= hi2,
    ensures
        unit_placed(se, s, u, 0, hi2),
{
}

proof fn lemma_before_place(se: Seq<ElfShdr>, s1: Seq<ElfShdr>, unit: SectionUnit, k: int, st1: int)
    requires
        se.len() <= usize::MAX,
        aligns_all_ok(se),
        unit_ok(se, unit, k, se.len() as int),
        units_placed(se, s1, k, st1),
        0 <= st1,
        st1 + unit_budget(se, unit) + 2 * PAGE_SIZE <= usize::MAX,
    ensures
        unit.layout_ok(s1, st1),
        size_budget(s1, unit.content_sections@, unit.content_sections@.len() as int)
            + size_budget(s1, unit.zero_sections@, unit.zero_sections@.len() as int) == unit_budget(se, unit),
{
    reveal(units_placed);
    lemma_unit_ready(se, s1, unit, k, st1);
    let c = unit.content_sections@;
    let z = unit.zero_sections@;
    assert forall|m: int| 0 <= m < c.len() implies #[trigger] s1[c[m] as int].sh_size == se[c[m] as int].sh_size by {
        assert(s1[c[m] as int] == (ElfShdr { sh_addr: s1[c[m] as int].sh_addr, ..se[c[m] as int] }));
    }
    assert forall|m: int| 0 <= m < z.len() implies #[trigger] s1[z[m] as int].sh_size == se[z[m] as int].sh_size by {
        assert(s1[z[m] as int] == (ElfShdr { sh_addr: s1[z[m] as int].sh_addr, ..se[z[m] as int] }));
    }
    super::section::lemma_budget_same(se, s1, c, c.len() as int);
    super::section::lemma_budget_same(se, s1, z, z.len() as int);
}

proof fn lemma_after_place(
    se: Seq<ElfShdr>,
    s1: Seq<ElfShdr>,
    s2: Seq<ElfShdr>,
    unit: SectionUnit,
    k: int,
    st1: int,
    st2: int,
)
    requires
        se.len() <= usize::MAX,
        unit_ok(se, unit, k, se.len() as int),
        units_placed(se, s1, k, st1),
        st1 <= st2,
        same_but_addrs(s1, s2),
        unit_contains_post(s1, s2, unit.content_sections@, unit.zero_sections@, st1, st2),
        forall|i: int| 0 <= i < s1.len() && !unit.content_sections@.contains(i as usize)
            && !unit.zero_sections@.contains(i as usize) ==> #[trigger] s2[i].sh_addr == s1[i].sh_addr,
    ensures
        units_placed(se, s2, k + 1, st2),
{
    reveal(units_placed);
    lemma_same_trans(se, s1, s2);
    lemma_unit_placed(se, s1, s2, unit, k, st1, st2);
    lemma_placed_grow(se, s2, k, st1, st2, st2);
    assert forall|u: int| 0 <= u < k + 1 implies #[trigger] unit_placed(se, s2, u, 0, st2) by {
        if u < k {
            assert(unit_placed(se, s1, u, 0, st1));
            lemma_placed_kept(se, s1, s2, unit, u, k, 0, st1);
            lemma_placed_grow(se, s2, u, 0, st1, st2);
        }
    }
}

/// Lay out unit `k` after units `0 .. k`.
#[verifier::spinoff_prover]
#[verifier::rlimit(80)]
fn place_one(
    shdrs: &mut Vec<ElfShdr>,
    unit: SectionUnit,
    offset: &mut usize,
    segments: &mut Vec<ElfSegment>,
    Ghost(se): Ghost<Seq<ElfShdr>>,
    Ghost(k): Ghost<int>,
)
    requires
        0 <= k < 4,
        se.len() <= usize::MAX,
        aligns_all_ok(se),
        unit_ok(se, unit, k, se.len() as int),
        units_placed(se, old(shdrs)@, k, *old(offset) as int),
        *old(offset) % PAGE_SIZE == 0,
        consecutive(old(segments)@, *old(offset) as int),
        *old(offset) + unit_budget(se, unit) + 2 * PAGE_SIZE <= usize::MAX,
    ensures
        units_placed(se, final(shdrs)@, k + 1, *final(offset) as int),
        *old(offset) <= *final(offset) <= *old(offset) + unit_budget(se, unit) + 2 * PAGE_SIZE,
        *final(offset) % PAGE_SIZE == 0,
        consecutive(final(segments)@, *final(offset) as int),
{
    let ghost s1 = shdrs@;
    let ghost st1 = *offset as int;
    proof {
        lemma_before_place(se, s1, unit, k, st1);
    }
    let mut unit = unit;
    place_unit(&mut unit, shdrs, offset, segments);
    proof {
        lemma_after_place(se, s1, shdrs@, unit, k, st1, *offset as int);
    }
}

/// Lay out the four units one after another from relative address zero.
fn place_all(
    shdrs: &mut Vec<ElfShdr>,
    u0: SectionUnit,
    u1: SectionUnit,
    u2: SectionUnit,
    u3: SectionUnit,
) -> (r: (Vec<ElfSegment>, usize))
    requires
        old(shdrs)@.len() <= usize::MAX,
        aligns_all_ok(old(shdrs)@),
        unit_ok(old(shdrs)@, u0, 0, old(shdrs)@.len() as int),
        unit_ok(old(shdrs)@, u1, 1, old(shdrs)@.len() as int),
        unit_ok(old(shdrs)@, u2, 2, old(shdrs)@.len() as int),
        unit_ok(old(shdrs)@, u3, 3, old(shdrs)@.len() as int),
        unit_budget(old(shdrs)@, u0) + unit_budget(old(shdrs)@, u1) + unit_budget(old(shdrs)@, u2)
            + unit_budget(old(shdrs)@, u3) + 8 * PAGE_SIZE <= usize::MAX,
    ensures
        same_but_addrs(old(shdrs)@, final(shdrs)@),
        consecutive(r.0@, r.1 as int),
        forall|j: int| 0 <= j < old(shdrs)@.len() ==> #[trigger] section_placed(old(shdrs)@, final(shdrs)@, j, r.1 as int),
{
    let ghost se = shdrs@;
    proof {
        lemma_unit_budget_nonneg(se, u0);
        lemma_unit_budget_nonneg(se, u1);
        lemma_unit_budget_nonneg(se, u2);
        lemma_unit_budget_nonneg(se, u3);
        reveal(units_placed);
        reveal(consecutive);
        assert(same_but_addrs(se, se));
    }
    let mut segments: Vec<ElfSegment> = Vec::new();
    let mut offset: usize = 0;
    proof { reveal(consecutive); }
    place_one(shdrs, u0, &mut offset, &mut segments, Ghost(se), Ghost(0));
    place_one(shdrs, u1, &mut offset, &mut segments, Ghost(se), Ghost(1));
    place_one(shdrs, u2, &mut offset, &mut segments, Ghost(se), Ghost(2));
    place_one(shdrs, u3, &mut offset, &mut segments, Ghost(se), Ghost(3));
    proof {
        reveal(units_placed);
        let s4 = shdrs@;
        assert forall|j: int| 0 <= j < se.len() implies #[trigger] section_placed(se, s4, j, offset as int) by {
            let u = unit_of(se, j);
            assert(0 <= u < 4);
            assert(unit_placed(se, s4, u, 0, offset as int));
        }
    }
    (segments, offset)
}

/// The segments of a relocatable object, with its PLT and GOT.
pub struct ShdrSegments {
    /// One segment per non-empty unit, from relative address zero.
    pub segments: Vec<ElfSegment>,
    /// The length of the image.
    pub total_size: usize,
    /// The PLT and GOT, until they are taken.
    pub pltgot: Option<PltGotSection>,
}

impl ShdrSegments {
    /// Lay out the sections of a relocatable object.  Each section gets an
    /// address relative to the image; every section that takes space lies
    /// inside the image, and so do the GOT and PLT built for the object's
    /// relocation entries.  Fails, leaving `shdrs` as it was, when a
    /// section's alignment is not accepted or the image would not fit in
    /// the address space.
    pub fn new(shdrs: &mut Vec<ElfShdr>, lazy_bind: bool) -> (r: Result<ShdrSegments, Error>)
        requires
            entsizes_ok(old(shdrs)@),
            old(shdrs)@.len() + 3 <= usize::MAX,
        ensures
            r is Ok <==> layout_accepted(old(shdrs)@, lazy_bind),
            r is Err ==> final(shdrs)@ == old(shdrs)@,
            r matches Ok(seg) ==> {
                let n = old(shdrs)@.len() as int;
                let cnt = rel_count(old(shdrs)@, n);
                &&& same_but_addrs(old(shdrs)@, final(shdrs)@)
                &&& consecutive(seg.segments@, seg.total_size as int)
                &&& forall|i: int| 0 <= i < n ==> #[trigger] section_placed(old(shdrs)@, final(shdrs)@, i, seg.total_size as int)
                &&& seg.pltgot matches Some(p) && {
                    &&& p.wf()
                    &&& p.lazy_bind == lazy_bind
                    &&& p.cur_got_idx == 0
                    &&& p.cur_plt_idx == 0
                    &&& p.got_slots() == Map::<usize, usize>::empty()
                    &&& p.plt_slots() == Map::<usize, usize>::empty()
                    &&& p.got_size == cnt * 8
                    &&& p.pltgot_size == cnt * 8
                    &&& p.plt_size == cnt * PLT_ENTRY_SIZE
                    &&& p.got_base + p.got_size <= seg.total_size
                    &&& p.plt_base + p.plt_size <= seg.total_size
                    &&& p.pltgot_base + p.pltgot_size <= seg.total_size
                }
            },
    {
        let ghost s0 = shdrs@;
        let n = shdrs.len();
        let mut i: usize = 0;
        while i < n
            invariant
                n == s0.len(),
                shdrs@ == s0,
                i <= n,
                forall|j: int| 0 <= j < i ==> align_ok(#[trigger] s0[j].sh_addralign),
            decreases n - i,
        {
            if !is_align_ok(shdrs[i].sh_addralign) {
                return Err(Error::ParseShdr { msg: "section alignment is not a power of two" });
            }
            i = i + 1;
        }
        let cnt = match count_rels(shdrs.as_slice()) {
            Some(c) => c,
            None => {
                return Err(Error::ParseShdr { msg: "too many relocation entries" });
            }
        };
        if cnt > (usize::MAX - 16) / 16 {
            assert(cnt * 16 + 16 > usize::MAX) by (nonlinear_arith)
                requires cnt > (usize::MAX - 16) / 16;
            return Err(Error::ParseShdr { msg: "too many relocation entries" });
        }
        assert(cnt * 16 + 16 <= usize::MAX) by (nonlinear_arith)
            requires cnt <= (usize::MAX - 16) / 16;
        let got = create_got_shdr(cnt);
        let (pltgot, plt) = create_plt_shdr(cnt, lazy_bind);
        shdrs.push(got);
        shdrs.push(plt);
        shdrs.push(pltgot);
        let ghost se = shdrs@;
        assert(se == with_tables(s0, cnt as int, lazy_bind));
        let budget = match total_budget(shdrs) {
            Some(b) => b,
            None => {
                shdrs.truncate(n);
                assert(shdrs@ =~= s0);
                return Err(Error::ParseShdr { msg: "sections do not fit in the address space" });
            }
        };
        if budget > usize::MAX - 8 * PAGE_SIZE {
            shdrs.truncate(n);
            assert(shdrs@ =~= s0);
            return Err(Error::ParseShdr { msg: "sections do not fit in the address space" });
        }
        assert(aligns_all_ok(se)) by {
            assert forall|j: int| 0 <= j < se.len() implies align_ok(#[trigger] se[j].sh_addralign) by {
                if j < n {
                    assert(se[j] == s0[j]);
                } else {
                    vstd::arithmetic::power2::lemma2_to64();
                    assert(vstd::arithmetic::power2::pow2(3) == 8);
                    assert(vstd::arithmetic::power2::pow2(4) == 16);
                }
            }
        }
        let (u0, u1, u2, u3) = group_sections(shdrs);
        let (segments, offset) = place_all(shdrs, u0, u1, u2, u3);
        let ghost s4 = shdrs@;
        let ghost st4 = offset as int;
        let got_s = shdrs[n];
        let plt_s = shdrs[n + 1];
        let pltgot_s = shdrs[n + 2];
        proof {
            assert(section_placed(se, s4, n as int, st4));
            assert(section_placed(se, s4, n + 1, st4));
            assert(section_placed(se, s4, n + 2, st4));
            assert(s4[n as int] == (ElfShdr { sh_addr: s4[n as int].sh_addr, ..se[n as int] }));
            assert(s4[n + 1] == (ElfShdr { sh_addr: s4[n + 1].sh_addr, ..se[n + 1] }));
            assert(s4[n + 2] == (ElfShdr { sh_addr: s4[n + 2].sh_addr, ..se[n + 2] }));
        }
        shdrs.truncate(n);
        proof {
            assert forall|j: int| 0 <= j < n implies #[trigger] shdrs@[j] == (ElfShdr { sh_addr: shdrs@[j].sh_addr, ..s0[j] }) by {
                assert(se[j] == s0[j]);
                assert(s4[j] == (ElfShdr { sh_addr: s4[j].sh_addr, ..se[j] }));
            }
            assert forall|j: int| 0 <= j < n implies #[trigger] section_placed(s0, shdrs@, j, st4) by {
                assert(se[j] == s0[j]);
                assert(section_placed(se, s4, j, st4));
            }
        }
        let p = PltGotSection::new(&got_s, &plt_s, &pltgot_s, lazy_bind);
        Ok(ShdrSegments { segments, total_size: offset, pltgot: Some(p) })
    }

    /// Take the PLT and GOT out of the layout.
    pub fn take_pltgot(&mut self) -> (r: Option<PltGotSection>)
        ensures
            r == old(self).pltgot,
            final(self).pltgot is None,
            final(self).segments == old(self).segments,
            final(self).total_size == old(self).total_size,
    {
        self.pltgot.take()
    }
}

} // verus!
