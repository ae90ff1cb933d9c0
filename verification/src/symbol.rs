//! Symbol tables.
//!
//! A symbol table is a sequence of [`ElfSymbol`] entries together with the
//! string table that holds their NUL-terminated names.  Lookup by name finds
//! the first entry, after the reserved null entry, whose name matches.

use vstd::prelude::*;
use crate::elf::{ElfSymbol, SYM_SIZE};
use crate::error::Error;
use vstd::string::StringSliceAdditionalSpecFns;

verus! {

/// `s` is the NUL-terminated string stored at `off` in `data`.
pub open spec fn is_cstr_at(data: Seq<u8>, off: int, s: Seq<u8>) -> bool {
    &&& 0 <= off
    &&& off + s.len() < data.len()
    &&& data.subrange(off, off + s.len()) == s
    &&& data[off + s.len()] == 0
    &&& forall|k: int| 0 <= k < s.len() ==> s[k] != 0
}

/// No NUL byte terminates a string at `off` in `data`.
pub open spec fn no_cstr_at(data: Seq<u8>, off: int) -> bool {
    forall|j: int| off <= j < data.len() ==> data[j] != 0
}

/// A string table: NUL-terminated strings addressed by byte offset.
pub struct ElfStringTable {
    pub data: Vec<u8>,
}

impl ElfStringTable {
    /// A string table over `data`.
    pub fn new(data: Vec<u8>) -> (r: ElfStringTable)
        ensures
            r.data@ == data@,
    {
        ElfStringTable { data }
    }

    /// The string stored at `offset`, without its terminating NUL; `None`
    /// when no NUL follows `offset` in the table.
    pub fn get_str(&self, offset: usize) -> (r: Option<Vec<u8>>)
        ensures
            r matches Some(v) ==> is_cstr_at(self.data@, offset as int, v@),
            r is None <==> no_cstr_at(self.data@, offset as int),
    {
        let n = self.data.len();
        if offset >= n {
            return None;
        }
        let mut out: Vec<u8> = Vec::new();
        let mut j = offset;
        while j < n
            invariant
                n == self.data@.len(),
                offset <= j,
                j <= n,
                out@.len() == j - offset,
                out@ == self.data@.subrange(offset as int, j as int),
                forall|k: int| offset <= k < j ==> self.data@[k] != 0,
            decreases n - j,
        {
            let b = self.data[j];
            if b == 0 {
                proof {
                    assert forall|k: int| 0 <= k < out@.len() implies out@[k] != 0 by {
                        assert(out@[k] == self.data@[offset + k]);
                    }
                }
                return Some(out);
            }
            out.push(b);
            j = j + 1;
            proof {
                assert(out@ =~= self.data@.subrange(offset as int, j as int));
            }
        }
        None
    }
}

/// Information about a symbol that is looked up by name.
pub struct SymbolInfo {
    pub name: Vec<u8>,
}

impl SymbolInfo {
    /// The information for a symbol called `name`; versions are not
    /// distinguished.
    pub fn from_str(name: &str, version: Option<&str>) -> (r: SymbolInfo)
        ensures
            r.name@ == name.spec_bytes(),
    {
        let bytes = name.as_bytes();
        let mut v: Vec<u8> = Vec::new();
        let n = bytes.len();
        let mut i: usize = 0;
        while i < n
            invariant
                n == bytes@.len(),
                i <= n,
                v@ == bytes@.subrange(0, i as int),
            decreases n - i,
        {
            v.push(bytes[i]);
            i = i + 1;
            proof {
                assert(v@ =~= bytes@.subrange(0, i as int));
            }
        }
        proof {
            assert(v@ =~= bytes@);
        }
        SymbolInfo { name: v }
    }

    /// The symbol's name.
    pub fn name(&self) -> (r: &[u8])
        ensures
            r@ == self.name@,
    {
        self.name.as_slice()
    }
}

/// A symbol table with its string table.
pub struct SymbolTable {
    pub symbols: Vec<ElfSymbol>,
    pub strtab: ElfStringTable,
}

impl SymbolTable {
    /// Symbol `i` is called `name`.
    pub open spec fn has_name(&self, i: int, name: Seq<u8>) -> bool {
        is_cstr_at(self.strtab.data@, self.symbols@[i].st_name as int, name)
    }

    /// The first index from 1 whose symbol is called `name`, if any.
    pub open spec fn spec_lookup(&self, name: Seq<u8>) -> Option<int> {
        if exists|i: int| 1 <= i < self.symbols@.len() && self.has_name(i, name) {
            Some(choose|i: int| 1 <= i < self.symbols@.len() && self.has_name(i, name)
                && forall|j: int| 1 <= j < i ==> !self.has_name(j, name))
        } else {
            None
        }
    }

    /// A symbol table over `symbols` and the string table `strtab`.
    pub fn new(symbols: Vec<ElfSymbol>, strtab: ElfStringTable) -> (r: SymbolTable)
        ensures
            r.symbols@ == symbols@,
            r.strtab.data@ == strtab.data@,
    {
        SymbolTable { symbols, strtab }
    }

    /// Decode a symbol table from the bytes of its entries and of its string
    /// table.  Fails when an entry's value or size does not fit a `usize`.
    pub fn parse(entries: &[u8], strtab: Vec<u8>) -> (r: Result<SymbolTable, Error>)
        ensures
            r matches Ok(t) ==> {
                &&& t.symbols@.len() == entries@.len() as int / (SYM_SIZE as int)
                &&& forall|i: int| 0 <= i < t.symbols@.len()
                    ==> crate::elf::spec_sym_at(entries@, i * SYM_SIZE) == Some(#[trigger] t.symbols@[i])
                &&& t.strtab.data@ == strtab@
            },
            r is Err <==> exists|i: int| 0 <= i < entries@.len() as int / (SYM_SIZE as int)
                && #[trigger] crate::elf::spec_sym_at(entries@, i * SYM_SIZE) is None,
    {
        let blen = entries.len();
        let count = blen / SYM_SIZE;
        let mut symbols: Vec<ElfSymbol> = Vec::new();
        let mut i: usize = 0;
        while i < count
            invariant
                count == entries@.len() as int / (SYM_SIZE as int),
                blen == entries@.len(),
                i <= count,
                symbols@.len() == i,
                forall|k: int| 0 <= k < i ==> crate::elf::spec_sym_at(entries@, k * SYM_SIZE) == Some(#[trigger] symbols@[k]),
            decreases count - i,
        {
            assert(i * SYM_SIZE + SYM_SIZE <= entries@.len()) by (nonlinear_arith)
                requires i < count, count == blen as int / (SYM_SIZE as int), SYM_SIZE == 24, blen == entries@.len();
            match ElfSymbol::parse(entries, i * SYM_SIZE) {
                Ok(sym) => {
                    symbols.push(sym);
                },
                Err(e) => {
                    assert(crate::elf::spec_sym_at(entries@, i * SYM_SIZE) is None);
                    return Err(e);
                },
            }
            i = i + 1;
        }
        assert forall|k: int| 0 <= k < entries@.len() as int / (SYM_SIZE as int)
            implies !(#[trigger] crate::elf::spec_sym_at(entries@, k * SYM_SIZE) is None) by {
            assert(crate::elf::spec_sym_at(entries@, k * SYM_SIZE) == Some(symbols@[k]));
        }
        Ok(SymbolTable { symbols, strtab: ElfStringTable { data: strtab } })
    }

    /// The number of symbols in the table.
    pub fn count_syms(&self) -> (r: usize)
        ensures
            r == self.symbols@.len(),
    {
        self.symbols.len()
    }

    /// Whether symbol `i` is called `name`.
    fn name_matches(&self, i: usize, name: &[u8]) -> (r: bool)
        requires
            i < self.symbols@.len(),
        ensures
            r == self.has_name(i as int, name@),
    {
        let off = self.symbols[i].st_name();
        let data = &self.strtab.data;
        let dlen = data.len();
        let n = name.len();
        if off > data.len() || n >= data.len() - off {
            return false;
        }
        let mut k: usize = 0;
        while k < n
            invariant
                n == name@.len(),
                off + n < data@.len(),
                dlen == data@.len(),
                off == self.symbols@[i as int].st_name,
                data@ == self.strtab.data@,
                k <= n,
                forall|m: int| 0 <= m < k ==> data@[off + m] == name@[m] && name@[m] != 0,
            decreases n - k,
        {
            if data[off + k] != name[k] || name[k] == 0 {
                return false;
            }
            k = k + 1;
        }
        proof {
            assert(data@.subrange(off as int, off + n) =~= name@);
        }
        data[off + n] == 0
    }

    /// The symbol at `idx` and its name; `None` when there is no such
    /// symbol or its name is not terminated in the string table.
    pub fn symbol_idx(&self, idx: usize) -> (r: Option<(ElfSymbol, SymbolInfo)>)
        ensures
            r matches Some(p) ==> idx < self.symbols@.len() && p.0 == self.symbols@[idx as int]
                && self.has_name(idx as int, p.1.name@),
            r is None <==> idx >= self.symbols@.len()
                || no_cstr_at(self.strtab.data@, self.symbols@[idx as int].st_name as int),
    {
        if idx >= self.symbols.len() {
            return None;
        }
        let sym = self.symbols[idx];
        match self.strtab.get_str(sym.st_name()) {
            Some(name) => Some((sym, SymbolInfo { name })),
            None => None,
        }
    }

    /// The index of the first symbol after the null entry called `name`.
    pub fn lookup_idx(&self, name: &[u8]) -> (r: Option<usize>)
        ensures
            r matches Some(i) ==> Some(i as int) == self.spec_lookup(name@) && 1 <= i < self.symbols@.len(),
            r is None <==> self.spec_lookup(name@) is None,
    {
        let n = self.symbols.len();
        let mut i: usize = 1;
        while i < n
            invariant
                n == self.symbols@.len(),
                1 <= i,
                forall|j: int| 1 <= j < i && j < n ==> !self.has_name(j, name@),
            decreases n - i,
        {
            if self.name_matches(i, name) {
                proof {
                    let w = choose|w: int| 1 <= w < self.symbols@.len() && self.has_name(w, name@)
                        && forall|j: int| 1 <= j < w ==> !self.has_name(j, name@);
                    if w < i {
                    } else if w > i {
                        assert(!self.has_name(i as int, name@));
                    }
                }
                return Some(i);
            }
            i = i + 1;
        }
        None
    }

    /// The first symbol after the null entry called `name`.
    pub fn lookup_by_name(&self, name: &str) -> (r: Option<ElfSymbol>)
        ensures
            r matches Some(s) ==> self.spec_lookup(name.spec_bytes()) matches Some(i) && s == self.symbols@[i],
            r is None <==> self.spec_lookup(name.spec_bytes()) is None,
    {
        match self.lookup_idx(name.as_bytes()) {
            Some(i) => Some(self.symbols[i]),
            None => None,
        }
    }

    /// The symbol called `symbol.name`, when it is defined here and its
    /// binding and type let it satisfy a reference from another object.
    pub fn lookup_filter(&self, symbol: &SymbolInfo) -> (r: Option<ElfSymbol>)
        ensures
            r == spec_lookup_filter(*self, symbol.name@),
    {
        match self.lookup_idx(symbol.name.as_slice()) {
            Some(i) => {
                let sym = self.symbols[i];
                if !sym.is_undef() && sym.is_ok_bind() && sym.is_ok_type() {
                    Some(sym)
                } else {
                    None
                }
            },
            None => None,
        }
    }
}

/// The definition `t` offers for a reference to `name`: the symbol found by
/// name, when it is defined and its binding and type are acceptable.
pub open spec fn spec_lookup_filter(t: SymbolTable, name: Seq<u8>) -> Option<ElfSymbol> {
    match t.spec_lookup(name) {
        Some(i) => {
            let s = t.symbols@[i];
            if !s.spec_is_undef() && s.spec_is_ok_bind() && s.spec_is_ok_type() {
                Some(s)
            } else {
                None
            }
        },
        None => None,
    }
}

} // verus!
