//! The dynamic section of an executable or shared library.
//!
//! The dynamic section is an array of tag and value pairs ending with a
//! `DT_NULL` entry.  A tag that occurs more than once takes its last value,
//! except `DT_NEEDED`, which lists every library the object needs.

use vstd::prelude::*;
use crate::elf::le_at;
use crate::error::Error;
use crate::segment::ElfSegments;
use crate::elf::{spec_rela_at, spec_usize_at, ElfRelType, RELA_SIZE};
use crate::relocation::dynamic::{DynamicRelocation, RelativeRel, spec_read_bytes};
use crate::symbol::{is_cstr_at, no_cstr_at, ElfStringTable, SymbolTable};
use crate::object::adjust_rel;

verus! {

pub const DT_NULL: u64 = 0;
pub const DT_NEEDED: u64 = 1;
pub const DT_PLTRELSZ: u64 = 2;
pub const DT_PLTGOT: u64 = 3;
pub const DT_HASH: u64 = 4;
pub const DT_STRTAB: u64 = 5;
pub const DT_SYMTAB: u64 = 6;
pub const DT_RELA: u64 = 7;
pub const DT_RELASZ: u64 = 8;
pub const DT_STRSZ: u64 = 10;
pub const DT_INIT: u64 = 12;
pub const DT_FINI: u64 = 13;
pub const DT_RPATH: u64 = 15;
pub const DT_JMPREL: u64 = 23;
pub const DT_BIND_NOW: u64 = 24;
pub const DT_INIT_ARRAY: u64 = 25;
pub const DT_FINI_ARRAY: u64 = 26;
pub const DT_INIT_ARRAYSZ: u64 = 27;
pub const DT_FINI_ARRAYSZ: u64 = 28;
pub const DT_RUNPATH: u64 = 29;
pub const DT_FLAGS: u64 = 30;
pub const DT_RELRSZ: u64 = 35;
pub const DT_RELR: u64 = 36;
pub const DT_GNU_HASH: u64 = 0x6fff_fef5;
pub const DT_RELACOUNT: u64 = 0x6fff_fff9;
pub const DT_FLAGS_1: u64 = 0x6fff_fffb;
/// `DT_FLAGS` bit asking for all symbols to be bound at load time.
pub const DF_BIND_NOW: u64 = 8;
/// `DT_FLAGS_1` bit asking for all symbols to be bound at load time.
pub const DF_1_NOW: u64 = 1;

/// The tag and value of dynamic entry `k` of the array at index `idx` of `mem`.
pub open spec fn spec_dyn_entry(mem: Seq<u8>, idx: int, k: int) -> (u64, u64) {
    (le_at(mem, idx + 16 * k, 8) as u64, le_at(mem, idx + 16 * k + 8, 8) as u64)
}

/// The number of entries from the `k`-th on, among the first `n` at index
/// `idx` of `mem`, that come before a `DT_NULL` one, added to `k`; none when
/// an entry read before then (the `DT_NULL` one included) is outside `mem`.
pub open spec fn spec_dyn_len(mem: Seq<u8>, idx: int, n: int, k: int) -> Option<int>
    decreases n - k,
{
    if k >= n {
        Some(k)
    } else if idx + 16 * k + 16 > mem.len() {
        None
    } else if spec_dyn_entry(mem, idx, k).0 == DT_NULL {
        Some(k)
    } else {
        spec_dyn_len(mem, idx, n, k + 1)
    }
}

/// The last value of `tag` among the first `k` entries.
pub open spec fn last_val(es: Seq<(u64, u64)>, tag: u64, k: int) -> Option<u64>
    decreases k,
{
    if k <= 0 {
        None
    } else if es[k - 1].0 == tag {
        Some(es[k - 1].1)
    } else {
        last_val(es, tag, k - 1)
    }
}

/// The values of the `DT_NEEDED` entries among the first `k`, in order.
pub open spec fn needed_vals(es: Seq<(u64, u64)>, k: int) -> Seq<u64>
    decreases k,
{
    if k <= 0 {
        Seq::empty()
    } else if es[k - 1].0 == DT_NEEDED {
        needed_vals(es, k - 1).push(es[k - 1].1)
    } else {
        needed_vals(es, k - 1)
    }
}

/// The entries of a dynamic section, up to its `DT_NULL` entry.
pub struct ElfDynamic {
    pub entries: Vec<(u64, u64)>,
}

impl ElfDynamic {
    /// Read the dynamic array at virtual address `vaddr`, at most `size`
    /// bytes long, up to its `DT_NULL` entry.  Fails when an entry lies
    /// outside the image.
    pub fn parse(image: &ElfSegments, vaddr: usize, size: usize) -> (r: Result<ElfDynamic, Error>)
        requires
            image.wf(),
        ensures
            r is Ok <==> image.offset <= vaddr
                && spec_dyn_len(image.memory@, vaddr - image.offset, (size / 16) as int, 0) is Some,
            r matches Ok(d) ==> d.entries@.len() == spec_dyn_len(image.memory@, vaddr - image.offset, (size / 16) as int, 0)->0,
            r matches Ok(d) ==> {
                let idx = vaddr - image.offset;
                &&& image.offset <= vaddr
                &&& d.entries@.len() <= size / 16
                &&& forall|k: int| 0 <= k < d.entries@.len()
                    ==> #[trigger] d.entries@[k] == spec_dyn_entry(image.memory@, idx, k)
                    && d.entries@[k].0 != DT_NULL
                &&& d.entries@.len() < size / 16 ==> spec_dyn_entry(image.memory@, idx, d.entries@.len() as int).0 == DT_NULL
                    && idx + 16 * d.entries@.len() + 16 <= image.memory@.len()
            },
    {
        let n = size / 16;
        let mut entries: Vec<(u64, u64)> = Vec::new();
        let mut k: usize = 0;
        while k < n
            invariant
                n == size / 16,
                k <= n,
                entries@.len() == k,
                forall|j: int| 0 <= j < k ==> #[trigger] entries@[j] == spec_dyn_entry(image.memory@, vaddr - image.offset, j)
                    && entries@[j].0 != DT_NULL,
                k > 0 ==> image.offset <= vaddr,
                image.wf(),
                image.offset <= vaddr ==> spec_dyn_len(image.memory@, vaddr - image.offset, n as int, 0)
                    == spec_dyn_len(image.memory@, vaddr - image.offset, n as int, k as int),
            decreases n - k,
        {
            assert(16 * k + 16 <= size) by (nonlinear_arith)
                requires k < n, n == size / 16;
            if vaddr > usize::MAX - 16 * k - 8 {
                return Err(Error::ParseDynamic { msg: "dynamic section outside the image" });
            }
            let tag = match image.read_le(vaddr + 16 * k, 8) {
                Ok(t) => t,
                Err(_) => {
                    return Err(Error::ParseDynamic { msg: "dynamic section outside the image" });
                },
            };
            let val = match image.read_le(vaddr + 16 * k + 8, 8) {
                Ok(v) => v,
                Err(_) => {
                    return Err(Error::ParseDynamic { msg: "dynamic section outside the image" });
                },
            };
            if tag == DT_NULL {
                return Ok(ElfDynamic { entries });
            }
            entries.push((tag, val));
            k = k + 1;
        }
        if n == 0 && vaddr < image.offset {
            return Err(Error::ParseDynamic { msg: "dynamic section outside the image" });
        }
        Ok(ElfDynamic { entries })
    }

    /// The last value given to `tag`.
    pub fn get(&self, tag: u64) -> (r: Option<u64>)
        ensures
            r == last_val(self.entries@, tag, self.entries@.len() as int),
    {
        let mut k = self.entries.len();
        while k > 0
            invariant
                k <= self.entries@.len(),
                last_val(self.entries@, tag, self.entries@.len() as int) == last_val(self.entries@, tag, k as int),
            decreases k,
        {
            if self.entries[k - 1].0 == tag {
                return Some(self.entries[k - 1].1);
            }
            k = k - 1;
        }
        None
    }

    /// The string-table offsets of the libraries the object needs, in order.
    pub fn needed(&self) -> (r: Vec<u64>)
        ensures
            r@ == needed_vals(self.entries@, self.entries@.len() as int),
    {
        let n = self.entries.len();
        let mut out: Vec<u64> = Vec::new();
        let mut k: usize = 0;
        while k < n
            invariant
                n == self.entries@.len(),
                k <= n,
                out@ == needed_vals(self.entries@, k as int),
            decreases n - k,
        {
            if self.entries[k].0 == DT_NEEDED {
                out.push(self.entries[k].1);
            }
            k = k + 1;
        }
        out
    }

    /// All symbols are to be bound at load time.
    pub open spec fn spec_bind_now(&self) -> bool {
        let es = self.entries@;
        let n = es.len() as int;
        ||| last_val(es, DT_BIND_NOW, n) is Some
        ||| (last_val(es, DT_FLAGS, n) matches Some(f) && f & DF_BIND_NOW != 0)
        ||| (last_val(es, DT_FLAGS_1, n) matches Some(f) && f & DF_1_NOW != 0)
    }

    /// Whether all symbols are to be bound at load time.
    pub fn bind_now(&self) -> (r: bool)
        ensures
            r == self.spec_bind_now(),
    {
        if self.get(DT_BIND_NOW).is_some() {
            return true;
        }
        let f = match self.get(DT_FLAGS) {
            Some(f) => f & DF_BIND_NOW != 0,
            None => false,
        };
        let f1 = match self.get(DT_FLAGS_1) {
            Some(f) => f & DF_1_NOW != 0,
            None => false,
        };
        f || f1
    }
}

/// The relocation entries of `size` bytes at virtual address `vaddr`.
pub open spec fn spec_rela_list(mem: Seq<u8>, off: usize, vaddr: usize, size: usize) -> Option<Seq<ElfRelType>> {
    match spec_read_bytes(mem, off, vaddr, size) {
        Some(b) => {
            let n = b.len() as int / (RELA_SIZE as int);
            if forall|e: int| 0 <= e < n ==> #[trigger] spec_rela_at(b, e * RELA_SIZE) is Some {
                Some(Seq::new(n as nat, |e: int| spec_rela_at(b, e * RELA_SIZE)->0))
            } else {
                None
            }
        },
        None => None,
    }
}

/// Read the relocation entries of `size` bytes at virtual address `vaddr`.
pub fn read_rela_list(image: &ElfSegments, vaddr: usize, size: usize) -> (r: Result<Vec<ElfRelType>, Error>)
    ensures
        r is Ok <==> spec_rela_list(image.memory@, image.offset, vaddr, size) is Some,
        r matches Ok(v) ==> Some(v@) == spec_rela_list(image.memory@, image.offset, vaddr, size),
{
    let bytes = match image.read_bytes(vaddr, size) {
        Some(b) => b,
        None => {
            return Err(Error::ParseDynamic { msg: "relocation entries outside the image" });
        },
    };
    let res = crate::object::parse_rels(bytes.as_slice(), 0);
    proof {
        let b = bytes@;
        let n = b.len() as int / (RELA_SIZE as int);
        assert forall|e: int| 0 <= e < n && #[trigger] spec_rela_at(b, e * RELA_SIZE) is Some
            implies adjust_rel(0, spec_rela_at(b, e * RELA_SIZE)->0) == spec_rela_at(b, e * RELA_SIZE)->0 by {
            let rel = spec_rela_at(b, e * RELA_SIZE)->0;
            assert(vstd::wrapping::usize_specs::wrapping_add(0usize, rel.r_offset) == rel.r_offset);
        }
        if res is Ok {
            assert(res->Ok_0@ =~= Seq::new(n as nat, |e: int| spec_rela_at(b, e * RELA_SIZE)->0));
        }
    }
    res
}

/// The RELR words of `size` bytes at virtual address `vaddr`.
pub open spec fn spec_relr_list(mem: Seq<u8>, off: usize, vaddr: usize, size: usize) -> Option<Seq<usize>> {
    match spec_read_bytes(mem, off, vaddr, size) {
        Some(b) => {
            let n = b.len() as int / 8;
            if forall|e: int| 0 <= e < n ==> #[trigger] spec_usize_at(b, e * 8) is Some {
                Some(Seq::new(n as nat, |e: int| spec_usize_at(b, e * 8)->0))
            } else {
                None
            }
        },
        None => None,
    }
}

/// Read the RELR words of `size` bytes at virtual address `vaddr`.
pub fn read_relr_list(image: &ElfSegments, vaddr: usize, size: usize) -> (r: Result<Vec<usize>, Error>)
    ensures
        r is Ok <==> spec_relr_list(image.memory@, image.offset, vaddr, size) is Some,
        r matches Ok(v) ==> Some(v@) == spec_relr_list(image.memory@, image.offset, vaddr, size),
{
    let bytes = match image.read_bytes(vaddr, size) {
        Some(b) => b,
        None => {
            return Err(Error::ParseDynamic { msg: "RELR entries outside the image" });
        },
    };
    let blen = bytes.len();
    let n = blen / 8;
    let mut out: Vec<usize> = Vec::new();
    let mut i: usize = 0;
    assert(Some(bytes@) == spec_read_bytes(image.memory@, image.offset, vaddr, size));
    while i < n
        invariant
            Some(bytes@) == spec_read_bytes(image.memory@, image.offset, vaddr, size),
            blen == bytes@.len(),
            n == blen as int / 8,
            i <= n,
            out@.len() == i,
            forall|e: int| 0 <= e < i ==> #[trigger] spec_usize_at(bytes@, e * 8) is Some,
            forall|e: int| 0 <= e < i ==> #[trigger] out@[e] == spec_usize_at(bytes@, e * 8)->0,
        decreases n - i,
    {
        assert(i * 8 + 8 <= blen) by (nonlinear_arith)
            requires i < n, n == blen as int / 8;
        match crate::elf::read_usize(bytes.as_slice(), i * 8) {
            Some(w) => {
                out.push(w);
            },
            None => {
                assert(!(spec_usize_at(bytes@, i * 8) is Some));
                return Err(Error::ParseDynamic { msg: "RELR entry out of range" });
            },
        }
        i = i + 1;
    }
    proof {
        assert(out@ =~= Seq::new(n as nat, |e: int| spec_usize_at(bytes@, e * 8)->0));
    }
    Ok(out)
}

/// The 4-byte word at virtual address `vaddr`, when it lies in the image.
pub open spec fn spec_word32(mem: Seq<u8>, off: usize, vaddr: int) -> Option<nat> {
    if off <= vaddr && vaddr - off + 4 <= mem.len() {
        Some(le_at(mem, vaddr - off, 4))
    } else {
        None
    }
}

/// Read the 4-byte word at virtual address `vaddr`.
fn read_word32(image: &ElfSegments, vaddr: u128) -> (r: Result<u32, Error>)
    requires
        image.wf(),
    ensures
        r is Ok <==> spec_word32(image.memory@, image.offset, vaddr as int) is Some,
        r matches Ok(w) ==> Some(w as nat) == spec_word32(image.memory@, image.offset, vaddr as int),
{
    if vaddr > usize::MAX as u128 {
        return Err(Error::ParseDynamic { msg: "hash table outside the image" });
    }
    match image.read_le(vaddr as usize, 4) {
        Ok(w) => {
            proof { crate::elf::lemma_le_at_bound(image.memory@, image.index_of(vaddr as int), 4); }
            Ok(w as u32)
        },
        Err(_) => Err(Error::ParseDynamic { msg: "hash table outside the image" }),
    }
}

/// The number of symbols a SysV hash table at `hash` describes: its chain
/// count.
pub fn sysv_hash_count(image: &ElfSegments, hash: usize) -> (r: Result<usize, Error>)
    requires
        image.wf(),
    ensures
        r matches Ok(c) ==> Some(c as nat) == spec_word32(image.memory@, image.offset, hash + 4),
        r is Err <==> spec_word32(image.memory@, image.offset, hash + 4) is None,
{
    let w = read_word32(image, hash as u128 + 4)?;
    Ok(w as usize)
}

/// The largest of the first `k` bucket words at `at`.
pub open spec fn max_bucket(mem: Seq<u8>, off: usize, at: int, k: int) -> Option<nat>
    decreases k,
{
    if k <= 0 {
        Some(0)
    } else {
        match (max_bucket(mem, off, at, k - 1), spec_word32(mem, off, at + 4 * (k - 1))) {
            (Some(m), Some(w)) => Some(if w > m { w } else { m }),
            _ => None,
        }
    }
}

proof fn lemma_max_bucket_none(mem: Seq<u8>, off: usize, at: int, k: int, m: int)
    requires
        0 <= k <= m,
        max_bucket(mem, off, at, k) is None,
    ensures
        max_bucket(mem, off, at, m) is None,
    decreases m - k,
{
    if k < m {
        lemma_max_bucket_none(mem, off, at, k, m - 1);
    }
}

/// The word at `at` is in the image and even.
pub open spec fn even_word(mem: Seq<u8>, off: usize, at: int) -> bool {
    spec_word32(mem, off, at) matches Some(w) && w % 2 == 0
}

/// The number of symbols a GNU hash table describes, given where its
/// buckets and chains start: the symbols below `symoffset` when no bucket
/// reaches them, else one past the end of the chain that starts at the
/// highest bucket value (the first chain word from there with its low bit
/// set).
pub open spec fn gnu_count_ok(mem: Seq<u8>, off: usize, symoffset: nat, maxb: nat, chains: int, c: nat) -> bool {
    if maxb < symoffset {
        c == symoffset
    } else {
        &&& c >= maxb + 1
        &&& spec_word32(mem, off, chains + 4 * (c - 1 - symoffset)) matches Some(w) && w % 2 == 1
        &&& forall|j: int| maxb <= j < c - 1 ==> #[trigger] even_word(mem, off, chains + 4 * (j - symoffset))
    }
}

/// One past the index of the first chain word with its low bit set, from
/// index `idx` on (chain words start at `chains` for index `symoffset`);
/// none when a word is outside the image, or no such word comes before the
/// index leaves the 32-bit range or the count leaves `usize`.
pub open spec fn chain_end(mem: Seq<u8>, off: usize, symoffset: nat, chains: int, idx: nat) -> Option<nat>
    decreases 0x1_0000_0000 - idx,
{
    if idx > u32::MAX {
        None
    } else {
        match spec_word32(mem, off, chains + 4 * (idx - symoffset)) {
            None => None,
            Some(w) => if w % 2 == 1 {
                if idx + 1 <= usize::MAX { Some(idx + 1) } else { None }
            } else if idx == u32::MAX {
                None
            } else {
                chain_end(mem, off, symoffset, chains, idx + 1)
            },
        }
    }
}

/// The number of symbols the GNU hash table at `gh` describes, when it can
/// be read: the symbol offset when no bucket reaches it, else the end of
/// the chain that starts at the highest bucket value.
pub open spec fn spec_gnu_count(mem: Seq<u8>, off: usize, gh: int) -> Option<nat> {
    match (spec_word32(mem, off, gh), spec_word32(mem, off, gh + 4), spec_word32(mem, off, gh + 8)) {
        (Some(nb), Some(so), Some(bl)) => match max_bucket(mem, off, gh + 16 + 8 * bl, nb as int) {
            Some(mb) => if mb < so {
                Some(so)
            } else {
                chain_end(mem, off, so, gh + 16 + 8 * bl + 4 * nb, mb)
            },
            None => None,
        },
        _ => None,
    }
}

/// The number of symbols the GNU hash table at `gh` describes.
pub fn gnu_hash_count(image: &ElfSegments, gh: usize) -> (r: Result<usize, Error>)
    requires
        image.wf(),
    ensures
        r matches Ok(c) ==> {
            let mem = image.memory@;
            let off = image.offset;
            spec_word32(mem, off, gh as int) matches Some(nb)
            && spec_word32(mem, off, gh + 4) matches Some(so)
            && spec_word32(mem, off, gh + 8) matches Some(bl)
            && max_bucket(mem, off, gh + 16 + 8 * bl, nb as int) matches Some(mb)
            && gnu_count_ok(mem, off, so, mb, gh + 16 + 8 * bl + 4 * nb, c as nat)
        },
        r is Ok <==> spec_gnu_count(image.memory@, image.offset, gh as int) is Some,
        r matches Ok(c) ==> spec_gnu_count(image.memory@, image.offset, gh as int) == Some(c as nat),
{
    let ghost mem = image.memory@;
    let ghost off = image.offset;
    let nbuckets = read_word32(image, gh as u128)?;
    let symoffset = read_word32(image, gh as u128 + 4)?;
    let bloom = read_word32(image, gh as u128 + 8)?;
    let buckets_at: u128 = gh as u128 + 16 + 8 * bloom as u128;
    let chains_at: u128 = buckets_at + 4 * nbuckets as u128;
    let mut maxb: u32 = 0;
    let mut b: u32 = 0;
    while b < nbuckets
        invariant
            b <= nbuckets,
            image.wf(),
            buckets_at == gh + 16 + 8 * bloom,
            max_bucket(mem, off, buckets_at as int, b as int) == Some(maxb as nat),
            mem == image.memory@,
            off == image.offset,
            Some(nbuckets as nat) == spec_word32(mem, off, gh as int),
            Some(symoffset as nat) == spec_word32(mem, off, gh + 4),
            Some(bloom as nat) == spec_word32(mem, off, gh + 8),
        decreases nbuckets - b,
    {
        let w = match read_word32(image, buckets_at + 4 * b as u128) {
            Ok(w) => w,
            Err(e) => {
                proof {
                    lemma_max_bucket_none(mem, off, buckets_at as int, b + 1, nbuckets as int);
                }
                return Err(e);
            },
        };
        if w > maxb {
            maxb = w;
        }
        b = b + 1;
    }
    if maxb < symoffset {
        return Ok(symoffset as usize);
    }
    let mut idx: u32 = maxb;
    loop
        invariant
            maxb <= idx,
            symoffset <= maxb,
            image.wf(),
            Some(nbuckets as nat) == spec_word32(mem, off, gh as int),
            Some(symoffset as nat) == spec_word32(mem, off, gh + 4),
            Some(bloom as nat) == spec_word32(mem, off, gh + 8),
            buckets_at == gh + 16 + 8 * bloom,
            max_bucket(mem, off, buckets_at as int, nbuckets as int) == Some(maxb as nat),
            chains_at == buckets_at + 4 * nbuckets,
            chains_at <= 0x1_0000_0000_0000_0000 + 16 + 8 * 0x1_0000_0000 + 4 * 0x1_0000_0000,
            mem == image.memory@,
            off == image.offset,
            forall|j: int| maxb <= j < idx ==> #[trigger] even_word(mem, off, chains_at + 4 * (j - symoffset)),
            chain_end(mem, off, symoffset as nat, chains_at as int, maxb as nat)
                == chain_end(mem, off, symoffset as nat, chains_at as int, idx as nat),
        decreases u32::MAX - idx,
    {
        let w = read_word32(image, chains_at + 4 * (idx - symoffset) as u128)?;
        if w % 2 == 1 {
            if idx as usize == usize::MAX {
                return Err(Error::ParseDynamic { msg: "GNU hash chain does not end" });
            }
            return Ok(idx as usize + 1);
        }
        if idx == u32::MAX {
            return Err(Error::ParseDynamic { msg: "GNU hash chain does not end" });
        }
        idx = idx + 1;
    }
}

/// The value of `tag`, if given, fits in a `usize`.
pub open spec fn tag_fits(es: Seq<(u64, u64)>, tag: u64) -> bool {
    last_val(es, tag, es.len() as int) matches Some(v) ==> v <= usize::MAX
}

/// The value of `tag`, if given, as a `usize`.
pub open spec fn tag_val(es: Seq<(u64, u64)>, tag: u64) -> Option<usize> {
    match last_val(es, tag, es.len() as int) {
        Some(v) => Some(v as usize),
        None => None,
    }
}

/// A string starts at offset `o` of `strtab`: the offset fits in a `usize`
/// and a NUL follows it in the table.
pub open spec fn str_at_ok(strtab: Seq<u8>, o: u64) -> bool {
    o <= usize::MAX && !no_cstr_at(strtab, o as int)
}

/// The entries of the list given by an address tag and a size tag, when
/// both are given and it can be read; none when it is given and cannot be.
pub open spec fn rela_entries(es: Seq<(u64, u64)>, a_tag: u64, z_tag: u64, mem: Seq<u8>, off: usize)
    -> Option<Seq<ElfRelType>>
{
    match (tag_val(es, a_tag), tag_val(es, z_tag)) {
        (Some(a), Some(z)) => spec_rela_list(mem, off, a, z),
        _ => Some(Seq::empty()),
    }
}

/// The PLT entries sit at the end of the dynamic ones.
pub open spec fn plt_is_tail(es: Seq<(u64, u64)>) -> bool {
    match (tag_val(es, DT_RELA), tag_val(es, DT_RELASZ), tag_val(es, DT_JMPREL), tag_val(es, DT_PLTRELSZ)) {
        (Some(a), Some(z), Some(pa), Some(pz)) => a + z == pa + pz,
        _ => false,
    }
}

/// The number of symbols the hash tables give: the GNU one when there is
/// one, else the SysV one.
pub open spec fn spec_sym_count(es: Seq<(u64, u64)>, mem: Seq<u8>, off: usize) -> Option<nat> {
    match tag_val(es, DT_GNU_HASH) {
        Some(gh) => spec_gnu_count(mem, off, gh as int),
        None => match tag_val(es, DT_HASH) {
            Some(h) => spec_word32(mem, off, h + 4),
            None => None,
        },
    }
}

/// The `count` symbols at virtual address `sa` can be read.
pub open spec fn syms_ok(mem: Seq<u8>, off: usize, sa: usize, count: nat) -> bool {
    &&& count * crate::elf::SYM_SIZE <= usize::MAX
    &&& spec_read_bytes(mem, off, sa, (count * crate::elf::SYM_SIZE) as usize) is Some
    &&& forall|i: int| 0 <= i < count ==> #[trigger] crate::elf::spec_sym_at(mem, (sa - off) + i * crate::elf::SYM_SIZE) is Some
}

/// The relocation lists split as their tags say: the relative entries (as
/// many as the count tag gives) lead the dynamic ones, and the PLT entries,
/// when they sit at the end of them, are no more than the rest.  Nothing
/// to check with the compact relative form.
pub open spec fn split_ok(es: Seq<(u64, u64)>, d: Seq<ElfRelType>, p: Seq<ElfRelType>) -> bool {
    ||| (tag_val(es, DT_RELR) is Some && tag_val(es, DT_RELRSZ) is Some)
    ||| {
        let nrel: int = match tag_val(es, DT_RELACOUNT) { Some(c) => c as int, None => 0 };
        &&& nrel <= d.len()
        &&& plt_is_tail(es) ==> p.len() <= d.len() - nrel
    }
}

/// The relocation lists `r` are those the entries `es` give: with the
/// compact relative form, its words and all the dynamic entries; otherwise
/// the relative entries (as many as the count tag gives) lead the dynamic
/// ones, and the PLT entries are cut from their end when they sit there.
pub open spec fn relocation_split(es: Seq<(u64, u64)>, mem: Seq<u8>, off: usize, r: DynamicRelocation) -> bool {
    let d = rela_entries(es, DT_RELA, DT_RELASZ, mem, off)->0;
    let p = rela_entries(es, DT_JMPREL, DT_PLTRELSZ, mem, off)->0;
    match (tag_val(es, DT_RELR), tag_val(es, DT_RELRSZ)) {
        (Some(ra), Some(rz)) => {
            &&& r.relative matches RelativeRel::Relr(v) && v@ == spec_relr_list(mem, off, ra, rz)->0
            &&& r.dynrel@ == d
        },
        _ => {
            let nrel: int = match tag_val(es, DT_RELACOUNT) { Some(c) => c as int, None => 0 };
            &&& r.relative matches RelativeRel::Rel(v) && v@ == d.subrange(0, nrel)
            &&& r.dynrel@ == if plt_is_tail(es) { d.subrange(nrel, d.len() - p.len()) } else { d.subrange(nrel, d.len() as int) }
        },
    }
}

/// Whether the dynamic section `d` of the object in `image` can be read in
/// full: every tag value used fits in a `usize`; the string table, the
/// symbols the hash table counts, the relocation lists and every library
/// name and search path are in the image; and the relocation lists split
/// as their tags say.
pub open spec fn spec_dyninfo_ok(d: ElfDynamic, image: ElfSegments) -> bool {
    let es = d.entries@;
    let n = es.len() as int;
    let mem = image.memory@;
    let off = image.offset;
    &&& tag_fits(es, DT_STRTAB) && tag_fits(es, DT_STRSZ) && tag_fits(es, DT_SYMTAB) && tag_fits(es, DT_GNU_HASH)
    &&& (last_val(es, DT_GNU_HASH, n) is None ==> tag_fits(es, DT_HASH))
    &&& tag_fits(es, DT_RELA) && tag_fits(es, DT_RELASZ) && tag_fits(es, DT_JMPREL) && tag_fits(es, DT_PLTRELSZ)
    &&& tag_fits(es, DT_RELR) && tag_fits(es, DT_RELRSZ) && tag_fits(es, DT_RELACOUNT)
    &&& tag_fits(es, DT_INIT) && tag_fits(es, DT_FINI) && tag_fits(es, DT_PLTGOT)
    &&& tag_fits(es, DT_INIT_ARRAY) && tag_fits(es, DT_INIT_ARRAYSZ)
    &&& tag_fits(es, DT_FINI_ARRAY) && tag_fits(es, DT_FINI_ARRAYSZ)
    &&& tag_val(es, DT_STRTAB) is Some && tag_val(es, DT_STRSZ) is Some
    &&& spec_read_bytes(mem, off, tag_val(es, DT_STRTAB)->0, tag_val(es, DT_STRSZ)->0) is Some
    &&& tag_val(es, DT_SYMTAB) is Some
    &&& spec_sym_count(es, mem, off) is Some
    &&& syms_ok(mem, off, tag_val(es, DT_SYMTAB)->0, spec_sym_count(es, mem, off)->0)
    &&& rela_entries(es, DT_RELA, DT_RELASZ, mem, off) is Some
    &&& rela_entries(es, DT_JMPREL, DT_PLTRELSZ, mem, off) is Some
    &&& (tag_val(es, DT_RELR) is Some && tag_val(es, DT_RELRSZ) is Some
        ==> spec_relr_list(mem, off, tag_val(es, DT_RELR)->0, tag_val(es, DT_RELRSZ)->0) is Some)
    &&& split_ok(es, rela_entries(es, DT_RELA, DT_RELASZ, mem, off)->0, rela_entries(es, DT_JMPREL, DT_PLTRELSZ, mem, off)->0)
    &&& strings_ok(es, spec_read_bytes(mem, off, tag_val(es, DT_STRTAB)->0, tag_val(es, DT_STRSZ)->0)->0)
}

/// Every library name and search path the entries `es` give is in the
/// string table `strtab`.
pub open spec fn strings_ok(es: Seq<(u64, u64)>, strtab: Seq<u8>) -> bool {
    let n = es.len() as int;
    &&& forall|k: int| 0 <= k < needed_vals(es, n).len() ==> str_at_ok(strtab, #[trigger] needed_vals(es, n)[k])
    &&& (last_val(es, DT_RPATH, n) is Some ==> str_at_ok(strtab, last_val(es, DT_RPATH, n)->0))
    &&& (last_val(es, DT_RUNPATH, n) is Some ==> str_at_ok(strtab, last_val(es, DT_RUNPATH, n)->0))
}

/// What the dynamic section of a loaded object says: its symbols, its
/// relocation entries, whether binding is lazy, the libraries it needs, its
/// search paths, and the absolute addresses of its initialisers,
/// finalisers and PLT GOT.
pub struct DynamicInfo {
    pub symtab: SymbolTable,
    pub relocation: DynamicRelocation,
    pub lazy: bool,
    pub needed: Vec<Vec<u8>>,
    pub rpath: Option<Vec<u8>>,
    pub runpath: Option<Vec<u8>>,
    pub init_fn: Option<usize>,
    pub init_array: Option<(usize, usize)>,
    pub fini_fn: Option<usize>,
    pub fini_array: Option<(usize, usize)>,
    pub got_plt: Option<usize>,
}

/// The value `v` as a `usize`.
fn to_usize(v: u64) -> (r: Result<usize, Error>)
    ensures
        r is Ok <==> v <= usize::MAX,
        r matches Ok(u) ==> u == v,
{
    if v > usize::MAX as u64 {
        return Err(Error::ParseDynamic { msg: "dynamic value out of range" });
    }
    Ok(v as usize)
}

/// The value of `tag` as a `usize`, if given.
fn get_usize(d: &ElfDynamic, tag: u64) -> (r: Result<Option<usize>, Error>)
    ensures
        r is Ok <==> tag_fits(d.entries@, tag),
        r matches Ok(o) ==> o == tag_val(d.entries@, tag),
        r matches Ok(o) ==> match last_val(d.entries@, tag, d.entries@.len() as int) {
            Some(v) => o == Some(v as usize) && v <= usize::MAX,
            None => o is None,
        },
{
    match d.get(tag) {
        Some(v) => Ok(Some(to_usize(v)?)),
        None => Ok(None),
    }
}

/// The absolute address of the value of `tag`, if given.
fn get_addr(d: &ElfDynamic, tag: u64, base: usize) -> (r: Result<Option<usize>, Error>)
    ensures
        r is Ok <==> tag_fits(d.entries@, tag),
        r matches Ok(o) ==> match last_val(d.entries@, tag, d.entries@.len() as int) {
            Some(v) => v <= usize::MAX && o == Some(vstd::wrapping::usize_specs::wrapping_add(base, v as usize)),
            None => o is None,
        },
{
    match get_usize(d, tag)? {
        Some(v) => Ok(Some(base.wrapping_add(v))),
        None => Ok(None),
    }
}

/// The string at `off` of `strtab`.
fn string_at(strtab: &ElfStringTable, off: u64) -> (r: Result<Vec<u8>, Error>)
    ensures
        r is Ok <==> str_at_ok(strtab.data@, off),
        r matches Ok(v) ==> off <= usize::MAX && is_cstr_at(strtab.data@, off as int, v@),
{
    let o = to_usize(off)?;
    match strtab.get_str(o) {
        Some(v) => Ok(v),
        None => Err(Error::ParseDynamic { msg: "string not terminated in the string table" }),
    }
}

/// The absolute address the value of `tag` gives in an image loaded at
/// `base`, if the tag is given.
pub open spec fn dyn_addr(es: Seq<(u64, u64)>, tag: u64, base: int) -> Option<usize> {
    match last_val(es, tag, es.len() as int) {
        Some(v) => Some(vstd::wrapping::usize_specs::wrapping_add(base as usize, v as usize)),
        None => None,
    }
}

/// An array given by its address tag and its size tag in bytes: its
/// absolute address and its number of words.
pub open spec fn dyn_array(es: Seq<(u64, u64)>, addr_tag: u64, size_tag: u64, base: int) -> Option<(usize, usize)> {
    match (dyn_addr(es, addr_tag, base), last_val(es, size_tag, es.len() as int)) {
        (Some(a), Some(z)) => Some((a, (z / 8) as usize)),
        _ => None,
    }
}

/// The string named by `tag` in `strtab`: present exactly when the tag is
/// given, and then the string at its value.
pub open spec fn dyn_string(es: Seq<(u64, u64)>, tag: u64, strtab: Seq<u8>, got: Option<Vec<u8>>) -> bool {
    match last_val(es, tag, es.len() as int) {
        Some(o) => got matches Some(v) && is_cstr_at(strtab, o as int, v@),
        None => got is None,
    }
}

/// The `count` symbols at virtual address `sa`, with the string table
/// `strtab`.
fn read_symbols(image: &ElfSegments, sa: usize, count: usize, strtab: Vec<u8>) -> (r: Result<SymbolTable, Error>)
    requires
        image.wf(),
    ensures
        r is Ok <==> syms_ok(image.memory@, image.offset, sa, count as nat),
        r matches Ok(t) ==> {
            &&& t.symbols@.len() == count
            &&& t.strtab.data@ == strtab@
            &&& forall|i: int| 0 <= i < count ==> crate::elf::spec_sym_at(
                image.memory@, (sa - image.offset) + i * crate::elf::SYM_SIZE) == Some(#[trigger] t.symbols@[i])
        },
{
    if count > usize::MAX / crate::elf::SYM_SIZE {
        proof {
            assert(count * crate::elf::SYM_SIZE > usize::MAX) by (nonlinear_arith)
                requires count > usize::MAX / 24, crate::elf::SYM_SIZE == 24;
        }
        return Err(Error::ParseDynamic { msg: "too many symbols" });
    }
    proof {
        assert(count * crate::elf::SYM_SIZE <= usize::MAX) by (nonlinear_arith)
            requires count <= usize::MAX / 24, crate::elf::SYM_SIZE == 24;
    }
    let len = count * crate::elf::SYM_SIZE;
    let sym_bytes = match image.read_bytes(sa, len) {
        Some(b) => b,
        None => {
            return Err(Error::ParseDynamic { msg: "symbol table outside the image" });
        },
    };
    let ghost idx = sa - image.offset;
    proof {
        assert(sym_bytes@.len() as int / 24 == count) by (nonlinear_arith)
            requires sym_bytes@.len() == count * 24;
        assert forall|i: int| 0 <= i < count implies crate::elf::spec_sym_at(sym_bytes@, i * crate::elf::SYM_SIZE)
            == #[trigger] crate::elf::spec_sym_at(image.memory@, idx + i * crate::elf::SYM_SIZE) by {
            assert(i * crate::elf::SYM_SIZE + crate::elf::SYM_SIZE <= sym_bytes@.len()) by (nonlinear_arith)
                requires 0 <= i < count, sym_bytes@.len() == count * 24, crate::elf::SYM_SIZE == 24;
            assert(0 <= i * crate::elf::SYM_SIZE) by (nonlinear_arith)
                requires 0 <= i, crate::elf::SYM_SIZE == 24;
            crate::elf::lemma_sym_sub(image.memory@, idx, sym_bytes@.len() as int, i * crate::elf::SYM_SIZE);
        }
    }
    let t = SymbolTable::parse(sym_bytes.as_slice(), strtab);
    proof {
        if t is Err {
            let i = choose|i: int| 0 <= i < sym_bytes@.len() as int / (crate::elf::SYM_SIZE as int)
                && #[trigger] crate::elf::spec_sym_at(sym_bytes@, i * crate::elf::SYM_SIZE) is None;
            assert(crate::elf::spec_sym_at(image.memory@, idx + i * crate::elf::SYM_SIZE) is None);
        } else {
            assert forall|i: int| 0 <= i < count implies
                #[trigger] crate::elf::spec_sym_at(image.memory@, idx + i * crate::elf::SYM_SIZE) is Some by {
                assert(crate::elf::spec_sym_at(sym_bytes@, i * crate::elf::SYM_SIZE) is Some);
            }
        }
    }
    t
}

/// The library names at the string-table offsets `offs`.
fn read_needed(strtab: &ElfStringTable, offs: &Vec<u64>) -> (r: Result<Vec<Vec<u8>>, Error>)
    ensures
        r is Ok <==> forall|k: int| 0 <= k < offs@.len() ==> str_at_ok(strtab.data@, #[trigger] offs@[k]),
        r matches Ok(v) ==> v@.len() == offs@.len()
            && forall|k: int| 0 <= k < offs@.len() ==> is_cstr_at(strtab.data@, offs@[k] as int, (#[trigger] v@[k])@),
{
    let mut needed: Vec<Vec<u8>> = Vec::new();
    let mut i: usize = 0;
    while i < offs.len()
        invariant
            i <= offs@.len(),
            needed@.len() == i,
            forall|k: int| 0 <= k < i ==> str_at_ok(strtab.data@, #[trigger] offs@[k]),
            forall|k: int| 0 <= k < i ==> is_cstr_at(strtab.data@, offs@[k] as int, (#[trigger] needed@[k])@),
        decreases offs@.len() - i,
    {
        let name = string_at(strtab, offs[i])?;
        needed.push(name);
        i = i + 1;
    }
    Ok(needed)
}

/// The string at offset `o` of `strtab`, if an offset is given.
fn opt_string(strtab: &ElfStringTable, o: Option<u64>) -> (r: Result<Option<Vec<u8>>, Error>)
    ensures
        r is Ok <==> (o matches Some(x) ==> str_at_ok(strtab.data@, x)),
        r matches Ok(v) ==> match o {
            Some(x) => v matches Some(st) && is_cstr_at(strtab.data@, x as int, st@),
            None => v is None,
        },
{
    match o {
        Some(x) => Ok(Some(string_at(strtab, x)?)),
        None => Ok(None),
    }
}

impl DynamicInfo {
    /// Read what the dynamic section `d` of the object in `image` says.
    /// The symbol count comes from the GNU hash table, else from the SysV
    /// one.  Succeeds exactly when the section can be read in full
    /// ([`spec_dyninfo_ok`]).
    #[verifier::rlimit(100)]
    #[verifier::spinoff_prover]
    pub fn new(d: &ElfDynamic, image: &ElfSegments) -> (r: Result<DynamicInfo, Error>)
        requires
            image.wf(),
        ensures
            r is Ok <==> spec_dyninfo_ok(*d, *image),
            r matches Ok(info) ==> {
                let es = d.entries@;
                let n = es.len() as int;
                let mem = image.memory@;
                let off = image.offset;
                &&& info.lazy == !d.spec_bind_now()
                &&& last_val(es, DT_STRTAB, n) matches Some(st) && last_val(es, DT_STRSZ, n) matches Some(ss)
                    && Some(info.symtab.strtab.data@) == spec_read_bytes(mem, off, st as usize, ss as usize)
                &&& info.needed@.len() == needed_vals(es, n).len()
                &&& forall|i: int| 0 <= i < info.needed@.len() ==> is_cstr_at(info.symtab.strtab.data@,
                    needed_vals(es, n)[i] as int, (#[trigger] info.needed@[i])@)
                &&& last_val(es, DT_SYMTAB, n) is Some
                &&& spec_sym_count(es, mem, off) == Some(info.symtab.symbols@.len())
                &&& forall|i: int| 0 <= i < info.symtab.symbols@.len() ==> crate::elf::spec_sym_at(
                    mem, (last_val(es, DT_SYMTAB, n)->0 - off) + i * crate::elf::SYM_SIZE) == Some(#[trigger] info.symtab.symbols@[i])
                &&& info.relocation.pltrel@ == match (last_val(es, DT_JMPREL, n), last_val(es, DT_PLTRELSZ, n)) {
                    (Some(a), Some(z)) => spec_rela_list(mem, off, a as usize, z as usize)->0,
                    _ => Seq::empty(),
                }
                &&& relocation_split(es, mem, off, info.relocation)
                &&& dyn_string(es, DT_RPATH, info.symtab.strtab.data@, info.rpath)
                &&& dyn_string(es, DT_RUNPATH, info.symtab.strtab.data@, info.runpath)
                &&& info.init_fn == dyn_addr(es, DT_INIT, image.spec_base())
                &&& info.fini_fn == dyn_addr(es, DT_FINI, image.spec_base())
                &&& info.got_plt == dyn_addr(es, DT_PLTGOT, image.spec_base())
                &&& info.init_array == dyn_array(es, DT_INIT_ARRAY, DT_INIT_ARRAYSZ, image.spec_base())
                &&& info.fini_array == dyn_array(es, DT_FINI_ARRAY, DT_FINI_ARRAYSZ, image.spec_base())
            },
    {
        let base = image.base();
        let strtab_addr = get_usize(d, DT_STRTAB)?;
        let strsz = get_usize(d, DT_STRSZ)?;
        let (st, ss) = match (strtab_addr, strsz) {
            (Some(a), Some(z)) => (a, z),
            _ => {
                return Err(Error::ParseDynamic { msg: "no string table" });
            },
        };
        let strtab_bytes = match image.read_bytes(st, ss) {
            Some(b) => b,
            None => {
                return Err(Error::ParseDynamic { msg: "string table outside the image" });
            },
        };
        let symtab_addr = match get_usize(d, DT_SYMTAB)? {
            Some(a) => a,
            None => {
                return Err(Error::ParseDynamic { msg: "no symbol table" });
            },
        };
        let count = match get_usize(d, DT_GNU_HASH)? {
            Some(gh) => gnu_hash_count(image, gh)?,
            None => match get_usize(d, DT_HASH)? {
                Some(h) => sysv_hash_count(image, h)?,
                None => {
                    return Err(Error::ParseDynamic { msg: "no hash table" });
                },
            },
        };
        let symtab = read_symbols(image, symtab_addr, count, strtab_bytes)?;
        let dynrel = match (get_usize(d, DT_RELA)?, get_usize(d, DT_RELASZ)?) {
            (Some(a), Some(z)) => Some(read_rela_list(image, a, z)?),
            _ => None,
        };
        let pltrel = match (get_usize(d, DT_JMPREL)?, get_usize(d, DT_PLTRELSZ)?) {
            (Some(a), Some(z)) => Some(read_rela_list(image, a, z)?),
            _ => None,
        };
        let relr_a = get_usize(d, DT_RELR)?;
        let relr_z = get_usize(d, DT_RELRSZ)?;
        let relr = match (relr_a, relr_z) {
            (Some(a), Some(z)) => Some(read_relr_list(image, a, z)?),
            _ => None,
        };
        let rela_count = get_usize(d, DT_RELACOUNT)?;
        let tail = match (get_usize(d, DT_RELA)?, get_usize(d, DT_RELASZ)?, get_usize(d, DT_JMPREL)?, get_usize(d, DT_PLTRELSZ)?) {
            (Some(a), Some(z), Some(pa), Some(pz)) => {
                a as u128 + z as u128 == pa as u128 + pz as u128
            },
            _ => false,
        };
        if !DynamicRelocation::can_split(&pltrel, &dynrel, &relr, rela_count, tail) {
            return Err(Error::ParseDynamic { msg: "relocation counts exceed the entries" });
        }
        let relocation = DynamicRelocation::new(pltrel, dynrel, relr, rela_count, tail);
        let offs = d.needed();
        let needed = read_needed(&symtab.strtab, &offs)?;
        let rpath = opt_string(&symtab.strtab, d.get(DT_RPATH))?;
        let runpath = opt_string(&symtab.strtab, d.get(DT_RUNPATH))?;
        let init_fn = get_addr(d, DT_INIT, base)?;
        let fini_fn = get_addr(d, DT_FINI, base)?;
        let init_array = match (get_addr(d, DT_INIT_ARRAY, base)?, get_usize(d, DT_INIT_ARRAYSZ)?) {
            (Some(a), Some(z)) => Some((a, z / 8)),
            _ => None,
        };
        let fini_array = match (get_addr(d, DT_FINI_ARRAY, base)?, get_usize(d, DT_FINI_ARRAYSZ)?) {
            (Some(a), Some(z)) => Some((a, z / 8)),
            _ => None,
        };
        let got_plt = get_addr(d, DT_PLTGOT, base)?;
        let lazy = !d.bind_now();
        Ok(DynamicInfo {
            symtab, relocation, lazy, needed, rpath, runpath, init_fn, init_array, fini_fn, fini_array, got_plt,
        })
    }
}

} // verus!
