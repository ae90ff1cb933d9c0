//! Reading an object's headers, deciding what kind of object it is, and
//! building its image.
//!
//! Loading is split around the one step only the host can do, reserving the
//! address range: first the headers are read and the layout is planned,
//! which gives the length the image needs; then, at the address the host
//! reserved, the image is built from the object's bytes.

use vstd::prelude::*;
use crate::elf::{
    spec_ehdr_fields, spec_ehdr_valid, spec_phdr_at, spec_shdr_at, ElfHeader, ElfPhdr, ElfShdr,
    EHDR_SIZE, ET_DYN, ET_EXEC, ET_REL, PHDR_SIZE, PT_DYNAMIC, PT_INTERP, SHDR_SIZE,
};
use crate::error::Error;
use crate::input::ElfReader;
use crate::segment::{placed, ElfSegment, ElfSegments};
use crate::segment::load::{create_space, load_segments, no_file_ranges, spec_load_segments};
use crate::segment::program::{has_load, loads_ok, ProgramSegments};
use crate::segment::grouping::{layout_accepted, section_placed, ShdrSegments};
use crate::segment::section::{consecutive, entsizes_ok, is_rel_section, same_but_addrs, PltGotSection};
use crate::object::{built_from, object_ok, pltgot_moved, rebased, ObjectBuilder};

verus! {

/// What a loaded object becomes.
#[derive(Clone, Copy, Debug, PartialEq, Eq)]
pub enum ElfKind {
    /// A relocatable object (`ET_REL`).
    Object,
    /// An executable, including a position-independent one.
    Exec,
    /// A shared library.
    Dylib,
}

/// Some program header has type `ty`.
pub open spec fn has_phdr_type(phdrs: Seq<ElfPhdr>, ty: u32) -> bool {
    exists|i: int| 0 <= i < phdrs.len() && (#[trigger] phdrs[i]).p_type == ty
}

/// The kind of an object with header type `e_type` and program headers
/// `phdrs`: a shared object with an interpreter or without a dynamic
/// section is a position-independent executable; unknown types are loaded
/// as executables.
pub open spec fn spec_kind(e_type: u16, phdrs: Seq<ElfPhdr>) -> ElfKind {
    if e_type == ET_REL {
        ElfKind::Object
    } else if e_type == ET_EXEC {
        ElfKind::Exec
    } else if e_type == ET_DYN {
        if has_phdr_type(phdrs, PT_INTERP) || !has_phdr_type(phdrs, PT_DYNAMIC) {
            ElfKind::Exec
        } else {
            ElfKind::Dylib
        }
    } else {
        ElfKind::Exec
    }
}

/// Whether some program header has type `ty`.
fn any_phdr(phdrs: &[ElfPhdr], ty: u32) -> (r: bool)
    ensures
        r == has_phdr_type(phdrs@, ty),
{
    let n = phdrs.len();
    let mut i: usize = 0;
    while i < n
        invariant
            n == phdrs@.len(),
            i <= n,
            forall|k: int| 0 <= k < i ==> (#[trigger] phdrs@[k]).p_type != ty,
        decreases n - i,
    {
        if phdrs[i].p_type == ty {
            return true;
        }
        i = i + 1;
    }
    false
}

/// Decide what kind of object the header and program headers describe.
pub fn classify(ehdr: &ElfHeader, phdrs: &[ElfPhdr]) -> (r: ElfKind)
    ensures
        r == spec_kind(ehdr.e_type, phdrs@),
{
    if ehdr.e_type == ET_REL {
        ElfKind::Object
    } else if ehdr.e_type == ET_EXEC {
        ElfKind::Exec
    } else if ehdr.e_type == ET_DYN {
        let has_dynamic = any_phdr(phdrs, PT_DYNAMIC);
        let is_pie = any_phdr(phdrs, PT_INTERP) || !has_dynamic;
        if is_pie {
            ElfKind::Exec
        } else {
            ElfKind::Dylib
        }
    } else {
        ElfKind::Exec
    }
}

/// Read and validate the ELF header.
pub fn prepare_ehdr<R: ElfReader>(reader: &mut R) -> (r: Result<ElfHeader, Error>)
    ensures
        final(reader).spec_content() == old(reader).spec_content(),
        r matches Ok(h) ==> EHDR_SIZE <= old(reader).spec_content().len()
            && spec_ehdr_valid(old(reader).spec_content().subrange(0, EHDR_SIZE as int))
            && h == spec_ehdr_fields(old(reader).spec_content().subrange(0, EHDR_SIZE as int)),
{
    let buf = reader.read(0, EHDR_SIZE)?;
    ElfHeader::parse(buf.as_slice())
}

/// Read the program headers the header points to.
pub fn prepare_phdrs<R: ElfReader>(ehdr: &ElfHeader, reader: &mut R) -> (r: Result<Vec<ElfPhdr>, Error>)
    requires
        ehdr.wf(),
    ensures
        final(reader).spec_content() == old(reader).spec_content(),
        r matches Ok(v) ==> {
            let c = old(reader).spec_content();
            &&& ehdr.e_phoff + ehdr.e_phnum * PHDR_SIZE <= c.len()
            &&& v@.len() == ehdr.e_phnum
            &&& forall|i: int| 0 <= i < v@.len() ==> spec_phdr_at(c, ehdr.e_phoff + i * PHDR_SIZE) == Some(#[trigger] v@[i])
        },
{
    let (start, end) = ehdr.phdr_range();
    let buf = reader.read(start, end - start)?;
    let n = ehdr.e_phnum();
    let ghost c = old(reader).spec_content();
    let out = parse_phdr_table(buf.as_slice(), n)?;
    proof {
        assert forall|i: int| 0 <= i < n implies spec_phdr_at(c, ehdr.e_phoff + i * PHDR_SIZE) == Some(#[trigger] out@[i]) by {
            assert(i * PHDR_SIZE + PHDR_SIZE <= n * PHDR_SIZE) by (nonlinear_arith)
                requires 0 <= i < n;
            assert(0 <= i * PHDR_SIZE) by (nonlinear_arith)
                requires 0 <= i;
            lemma_phdr_sub(c, ehdr.e_phoff as int, n * PHDR_SIZE, i * PHDR_SIZE);
        }
    }
    Ok(out)
}

/// The `n` program headers stored one after another at the start of `buf`;
/// fails when `buf` is shorter than that or one of them cannot be decoded.
pub fn parse_phdr_table(buf: &[u8], n: usize) -> (r: Result<Vec<ElfPhdr>, Error>)
    ensures
        r is Ok <==> n * PHDR_SIZE <= buf@.len()
            && forall|i: int| 0 <= i < n ==> #[trigger] spec_phdr_at(buf@, i * PHDR_SIZE) is Some,
        r matches Ok(v) ==> v@.len() == n
            && forall|i: int| 0 <= i < n ==> spec_phdr_at(buf@, i * PHDR_SIZE) == Some(#[trigger] v@[i]),
{
    if n > buf.len() / PHDR_SIZE {
        proof {
            assert(n * PHDR_SIZE > buf@.len()) by (nonlinear_arith)
                requires n > buf@.len() / 56, PHDR_SIZE == 56;
        }
        return Err(Error::ParsePhdr { msg: "program header table outside the file" });
    }
    proof {
        assert(n * PHDR_SIZE <= buf@.len()) by (nonlinear_arith)
            requires n <= buf@.len() / 56, PHDR_SIZE == 56;
    }
    let mut out: Vec<ElfPhdr> = Vec::new();
    let blen = buf.len();
    let mut i: usize = 0;
    while i < n
        invariant
            blen == buf@.len(),
            n * PHDR_SIZE <= buf@.len(),
            i <= n,
            out@.len() == i,
            forall|k: int| 0 <= k < i ==> spec_phdr_at(buf@, k * PHDR_SIZE) == Some(#[trigger] out@[k]),
        decreases n - i,
    {
        assert(i * PHDR_SIZE + PHDR_SIZE <= n * PHDR_SIZE) by (nonlinear_arith)
            requires i < n, PHDR_SIZE == 56;
        let p = ElfPhdr::parse(buf, i * PHDR_SIZE)?;
        out.push(p);
        i = i + 1;
    }
    proof {
        assert forall|i: int| 0 <= i < n implies #[trigger] spec_phdr_at(buf@, i * PHDR_SIZE) is Some by {
            assert(spec_phdr_at(buf@, i * PHDR_SIZE) == Some(out@[i]));
        }
    }
    Ok(out)
}

proof fn lemma_phdr_sub(c: Seq<u8>, start: int, len: int, off: int)
    requires
        0 <= start,
        start + len <= c.len(),
        0 <= off,
        off + PHDR_SIZE <= len,
    ensures
        spec_phdr_at(c.subrange(start, start + len), off) == spec_phdr_at(c, start + off),
{
    let b = c.subrange(start, start + len);
    assert(b.subrange(off, off + 4) =~= c.subrange(start + off, start + off + 4));
    assert(b.subrange(off + 4, off + 8) =~= c.subrange(start + off + 4, start + off + 8));
    assert(b.subrange(off + 8, off + 16) =~= c.subrange(start + off + 8, start + off + 16));
    assert(b.subrange(off + 16, off + 24) =~= c.subrange(start + off + 16, start + off + 24));
    assert(b.subrange(off + 24, off + 32) =~= c.subrange(start + off + 24, start + off + 32));
    assert(b.subrange(off + 32, off + 40) =~= c.subrange(start + off + 32, start + off + 40));
    assert(b.subrange(off + 40, off + 48) =~= c.subrange(start + off + 40, start + off + 48));
    assert(b.subrange(off + 48, off + 56) =~= c.subrange(start + off + 48, start + off + 56));
}

proof fn lemma_shdr_sub(c: Seq<u8>, start: int, len: int, off: int)
    requires
        0 <= start,
        start + len <= c.len(),
        0 <= off,
        off + SHDR_SIZE <= len,
    ensures
        spec_shdr_at(c.subrange(start, start + len), off) == spec_shdr_at(c, start + off),
{
    let b = c.subrange(start, start + len);
    assert(b.subrange(off, off + 4) =~= c.subrange(start + off, start + off + 4));
    assert(b.subrange(off + 4, off + 8) =~= c.subrange(start + off + 4, start + off + 8));
    assert(b.subrange(off + 8, off + 16) =~= c.subrange(start + off + 8, start + off + 16));
    assert(b.subrange(off + 16, off + 24) =~= c.subrange(start + off + 16, start + off + 24));
    assert(b.subrange(off + 24, off + 32) =~= c.subrange(start + off + 24, start + off + 32));
    assert(b.subrange(off + 32, off + 40) =~= c.subrange(start + off + 32, start + off + 40));
    assert(b.subrange(off + 40, off + 44) =~= c.subrange(start + off + 40, start + off + 44));
    assert(b.subrange(off + 44, off + 48) =~= c.subrange(start + off + 44, start + off + 48));
    assert(b.subrange(off + 48, off + 56) =~= c.subrange(start + off + 48, start + off + 56));
    assert(b.subrange(off + 56, off + 64) =~= c.subrange(start + off + 56, start + off + 64));
}

/// Read the section headers the header points to.
pub fn prepare_shdrs<R: ElfReader>(ehdr: &ElfHeader, reader: &mut R) -> (r: Result<Vec<ElfShdr>, Error>)
    requires
        ehdr.wf(),
    ensures
        final(reader).spec_content() == old(reader).spec_content(),
        r matches Ok(v) ==> {
            let c = old(reader).spec_content();
            &&& ehdr.e_shoff + ehdr.e_shnum * SHDR_SIZE <= c.len()
            &&& v@.len() == ehdr.e_shnum
            &&& forall|i: int| 0 <= i < v@.len() ==> spec_shdr_at(c, ehdr.e_shoff + i * SHDR_SIZE) == Some(#[trigger] v@[i])
        },
{
    let (start, end) = ehdr.shdr_range();
    let buf = reader.read(start, end - start)?;
    let n = ehdr.e_shnum();
    let ghost c = old(reader).spec_content();
    let out = parse_shdr_table(buf.as_slice(), n)?;
    proof {
        assert forall|i: int| 0 <= i < n implies spec_shdr_at(c, ehdr.e_shoff + i * SHDR_SIZE) == Some(#[trigger] out@[i]) by {
            assert(i * SHDR_SIZE + SHDR_SIZE <= n * SHDR_SIZE) by (nonlinear_arith)
                requires 0 <= i < n;
            assert(0 <= i * SHDR_SIZE) by (nonlinear_arith)
                requires 0 <= i;
            lemma_shdr_sub(c, ehdr.e_shoff as int, n * SHDR_SIZE, i * SHDR_SIZE);
        }
    }
    Ok(out)
}

/// The `n` section headers stored one after another at the start of `buf`;
/// fails when `buf` is shorter than that or one of them cannot be decoded.
pub fn parse_shdr_table(buf: &[u8], n: usize) -> (r: Result<Vec<ElfShdr>, Error>)
    ensures
        r is Ok <==> n * SHDR_SIZE <= buf@.len()
            && forall|i: int| 0 <= i < n ==> #[trigger] spec_shdr_at(buf@, i * SHDR_SIZE) is Some,
        r matches Ok(v) ==> v@.len() == n
            && forall|i: int| 0 <= i < n ==> spec_shdr_at(buf@, i * SHDR_SIZE) == Some(#[trigger] v@[i]),
{
    if n > buf.len() / SHDR_SIZE {
        proof {
            assert(n * SHDR_SIZE > buf@.len()) by (nonlinear_arith)
                requires n > buf@.len() / 64, SHDR_SIZE == 64;
        }
        return Err(Error::ParseShdr { msg: "section header table outside the file" });
    }
    proof {
        assert(n * SHDR_SIZE <= buf@.len()) by (nonlinear_arith)
            requires n <= buf@.len() / 64, SHDR_SIZE == 64;
    }
    let mut out: Vec<ElfShdr> = Vec::new();
    let blen = buf.len();
    let mut i: usize = 0;
    while i < n
        invariant
            blen == buf@.len(),
            n * SHDR_SIZE <= buf@.len(),
            i <= n,
            out@.len() == i,
            forall|k: int| 0 <= k < i ==> spec_shdr_at(buf@, k * SHDR_SIZE) == Some(#[trigger] out@[k]),
        decreases n - i,
    {
        assert(i * SHDR_SIZE + SHDR_SIZE <= n * SHDR_SIZE) by (nonlinear_arith)
            requires i < n, SHDR_SIZE == 64;
        let sh = ElfShdr::parse(buf, i * SHDR_SIZE)?;
        out.push(sh);
        i = i + 1;
    }
    proof {
        assert forall|i: int| 0 <= i < n implies #[trigger] spec_shdr_at(buf@, i * SHDR_SIZE) is Some by {
            assert(spec_shdr_at(buf@, i * SHDR_SIZE) == Some(out@[i]));
        }
    }
    Ok(out)
}

/// Whether `phdrs` has a loadable segment and all of them are well formed.
fn check_loads(phdrs: &[ElfPhdr]) -> (r: bool)
    ensures
        r == (has_load(phdrs@) && loads_ok(phdrs@)),
{
    let n = phdrs.len();
    let mut found = false;
    let mut i: usize = 0;
    while i < n
        invariant
            n == phdrs@.len(),
            i <= n,
            found == exists|k: int| 0 <= k < i && #[trigger] phdrs@[k].p_type == crate::elf::PT_LOAD,
            forall|k: int| 0 <= k < i && #[trigger] phdrs@[k].p_type == crate::elf::PT_LOAD
                ==> crate::segment::program::load_ok(phdrs@[k]),
        decreases n - i,
    {
        let p = phdrs[i];
        if p.p_type == crate::elf::PT_LOAD {
            if p.p_filesz > p.p_memsz || p.p_vaddr > usize::MAX - crate::layout::PAGE_SIZE
                || p.p_memsz > usize::MAX - crate::layout::PAGE_SIZE - p.p_vaddr
                || p.p_filesz > usize::MAX - crate::layout::PAGE_SIZE {
                assert(!crate::segment::program::load_ok(phdrs@[i as int]));
                return false;
            }
            found = true;
        }
        i = i + 1;
    }
    found
}

/// The planned layout of an executable or shared library: its segments,
/// the address it must be placed at (for an executable), the length of its
/// image and the lowest virtual address the image covers.
pub struct ProgramPlan {
    pub segments: ProgramSegments,
    pub fixed: Option<usize>,
    pub len: usize,
    pub min_vaddr: usize,
}

/// The object is an executable: of type `ET_EXEC`, or a position-independent
/// `ET_DYN`, one that names an interpreter or has no dynamic section.
pub open spec fn is_exec_object(e_type: u16, phdrs: Seq<ElfPhdr>) -> bool {
    e_type == ET_EXEC || (e_type == ET_DYN && spec_kind(e_type, phdrs) == ElfKind::Exec)
}

impl ProgramPlan {
    /// `self` is the plan of an object of type `e_type` with program headers
    /// `phdrs`, before any segment is created.
    pub open spec fn planned(&self, e_type: u16, phdrs: Seq<ElfPhdr>, use_file: bool) -> bool {
        &&& self.segments.phdrs@ == phdrs
        &&& self.segments.segments@.len() == 0
        &&& self.segments.is_dylib == (e_type == ET_DYN)
        &&& self.segments.use_file == use_file
        &&& self.min_vaddr == crate::layout::spec_rounddown(
            crate::segment::program::min_load_vaddr(phdrs, phdrs.len() as int), crate::layout::PAGE_SIZE as int)
        &&& self.min_vaddr + self.len == crate::layout::spec_roundup(
            crate::segment::program::max_load_end(phdrs, phdrs.len() as int), crate::layout::PAGE_SIZE as int)
        &&& self.fixed == (if e_type == ET_DYN { None } else { Some(self.min_vaddr) })
    }

    /// Plan the image of an executable.  Refuses an object of another kind,
    /// a shared library among them; otherwise as `new`.
    pub fn new_exec(ehdr: &ElfHeader, phdrs: Vec<ElfPhdr>, use_file: bool) -> (r: Result<ProgramPlan, Error>)
        ensures
            !is_exec_object(ehdr.e_type, phdrs@) ==> r == Err::<ProgramPlan, Error>(
                Error::ParseEhdr { msg: "file type mismatch" }),
            is_exec_object(ehdr.e_type, phdrs@) ==> (r is Ok <==> has_load(phdrs@) && loads_ok(phdrs@)),
            r matches Ok(p) ==> p.planned(ehdr.e_type, phdrs@, use_file),
    {
        let kind = classify(ehdr, phdrs.as_slice());
        let is_exec_kind = match kind { ElfKind::Exec => true, _ => false };
        let exec = ehdr.e_type == ET_EXEC || (ehdr.e_type == ET_DYN && is_exec_kind);
        if !exec {
            return Err(Error::ParseEhdr { msg: "file type mismatch" });
        }
        ProgramPlan::new(ehdr, phdrs, use_file)
    }

    /// Plan the image of the object with header `ehdr` and program headers
    /// `phdrs`.  Fails when there is no loadable segment or one of them
    /// does not fit the address space.
    pub fn new(ehdr: &ElfHeader, phdrs: Vec<ElfPhdr>, use_file: bool) -> (r: Result<ProgramPlan, Error>)
        ensures
            r is Ok <==> has_load(phdrs@) && loads_ok(phdrs@),
            r matches Ok(p) ==> p.planned(ehdr.e_type, phdrs@, use_file),
    {
        if !check_loads(phdrs.as_slice()) {
            return Err(Error::ParsePhdr { msg: "no loadable segment, or one that does not fit" });
        }
        let segments = ProgramSegments::new(phdrs, ehdr.is_dylib(), use_file);
        let (fixed, len, min_vaddr) = segments.create_space();
        Ok(ProgramPlan { segments, fixed, len, min_vaddr })
    }

    /// Build the image at `addr`: create the segments, place them for the
    /// load base `addr - min_vaddr`, and fill them from the object's bytes.
    /// Fails when `addr` is below the lowest virtual address, the image does
    /// not fit from `addr`, or a segment cannot be filled.
    pub fn load<R: ElfReader>(&mut self, reader: &mut R, addr: usize) -> (r: Result<ElfSegments, Error>)
        requires
            loads_ok(old(self).segments.phdrs@),
            old(self).segments.segments@.len() == 0,
        ensures
            final(reader).spec_content() == old(reader).spec_content(),
            addr < old(self).min_vaddr || addr + old(self).len > usize::MAX ==> r is Err,
            crate::segment::program::load_count(old(self).segments.phdrs@, old(self).segments.phdrs@.len() as int) == 0
                ==> (r is Ok <==> old(self).min_vaddr <= addr && addr + old(self).len <= usize::MAX),
            r matches Ok(img) ==> {
                let phdrs = old(self).segments.phdrs@;
                &&& forall|i: int| 0 <= i < phdrs.len() && #[trigger] phdrs[i].p_type == crate::elf::PT_LOAD
                    ==> crate::segment::program::phdr_segment_placed(phdrs[i],
                        final(self).segments.segments@[crate::segment::program::load_count(phdrs, i)],
                        addr - old(self).min_vaddr)
                &&& img.addr == addr
                &&& img.offset == old(self).min_vaddr
                &&& img.memory@.len() == old(self).len
                &&& final(self).segments.segments@.len() == crate::segment::program::load_count(
                    old(self).segments.phdrs@, old(self).segments.phdrs@.len() as int)
                &&& forall|k: int| 0 <= k < final(self).segments.segments@.len()
                    ==> (#[trigger] final(self).segments.segments@[k]).addr is Absolute
                &&& spec_load_segments(Seq::new(old(self).len as nat, |i: int| 0u8), addr,
                    final(self).segments.segments@, old(reader).spec_content(),
                    final(self).segments.segments@.len() as int) == Some(img.memory@)
            },
    {
        if addr < self.min_vaddr || self.len > usize::MAX - addr {
            return Err(Error::Mmap { msg: "the image does not fit at this address" });
        }
        let mut image = create_space(self.len, addr, self.min_vaddr);
        let base = addr - self.min_vaddr;
        self.segments.create_segments();
        let mut segs: Vec<ElfSegment> = Vec::new();
        let mut taken: Vec<ElfSegment> = Vec::new();
        std::mem::swap(&mut taken, &mut self.segments.segments);
        let ghost created = taken@;
        let ghost phdrs0 = self.segments.phdrs@;
        while taken.len() > 0
            invariant
                phdrs0 == self.segments.phdrs@,
                phdrs0 == old(self).segments.phdrs@,
                created.len() == crate::segment::program::load_count(phdrs0, phdrs0.len() as int),
                forall|i: int| 0 <= i < phdrs0.len() && #[trigger] phdrs0[i].p_type == crate::elf::PT_LOAD
                    ==> crate::segment::program::phdr_segment_matches(phdrs0[i],
                        &created[crate::segment::program::load_count(phdrs0, i)]),
                segs@.len() + taken@.len() == created.len(),
                forall|k: int| 0 <= k < segs@.len() ==> (#[trigger] segs@[k]).addr is Absolute,
                taken@ == created.subrange(segs@.len() as int, created.len() as int),
                forall|k: int| 0 <= k < segs@.len() ==> placed(created[k], #[trigger] segs@[k], base),
            decreases taken@.len(),
        {
            let mut seg = taken.remove(0);
            match seg.addr {
                crate::segment::Address::Relative(rel) => {
                    if rel > usize::MAX - base {
                        return Err(Error::Mmap { msg: "segment does not fit at this address" });
                    }
                    seg.rebase(base);
                },
                crate::segment::Address::Absolute(_) => {},
            }
            segs.push(seg);
        }
        let ghost placed_segs = segs@;
        let res = load_segments(segs.as_slice(), reader, &mut image);
        self.segments.segments = segs;
        res?;
        proof {
            let phdrs = self.segments.phdrs@;
            assert(placed_segs.len() == created.len());
            assert(self.segments.segments@ == placed_segs);
            assert forall|i: int| 0 <= i < phdrs.len() && #[trigger] phdrs[i].p_type == crate::elf::PT_LOAD
                implies crate::segment::program::phdr_segment_placed(phdrs[i],
                    self.segments.segments@[crate::segment::program::load_count(phdrs, i)], base as int) by {
                let k = crate::segment::program::load_count(phdrs, i);
                crate::segment::program::lemma_load_count_mono(phdrs, phdrs.len() as int);
                crate::segment::program::lemma_load_count_mono(phdrs, i);
                assert(phdrs == phdrs0);
                assert(0 <= k < created.len());
                assert(placed(created[k], placed_segs[k], base));
            }
        }
        Ok(image)
    }
}

/// Whether every relocation section has a non-zero entry size.
fn check_entsizes(shdrs: &[ElfShdr]) -> (r: bool)
    ensures
        r == entsizes_ok(shdrs@),
{
    let n = shdrs.len();
    let mut i: usize = 0;
    while i < n
        invariant
            n == shdrs@.len(),
            i <= n,
            forall|k: int| 0 <= k < i && is_rel_section(#[trigger] shdrs@[k]) ==> shdrs@[k].sh_entsize != 0,
        decreases n - i,
    {
        let sh = shdrs[i];
        if (sh.sh_type == crate::elf::SHT_REL || sh.sh_type == crate::elf::SHT_RELA) && sh.sh_entsize == 0 {
            return false;
        }
        i = i + 1;
    }
    true
}

/// The section header table of the header `ehdr` lies in the bytes `c`, and
/// each of its headers can be read.
pub open spec fn shdr_table_ok(c: Seq<u8>, ehdr: ElfHeader) -> bool {
    &&& ehdr.e_shoff + ehdr.e_shnum * SHDR_SIZE <= c.len()
    &&& forall|i: int| 0 <= i < ehdr.e_shnum ==> #[trigger] spec_shdr_at(c, ehdr.e_shoff + i * SHDR_SIZE) is Some
}

/// The section headers of the table of the header `ehdr` in the bytes `c`.
pub open spec fn spec_shdr_table(c: Seq<u8>, ehdr: ElfHeader) -> Seq<ElfShdr> {
    Seq::new(ehdr.e_shnum as nat, |i: int| spec_shdr_at(c, ehdr.e_shoff + i * SHDR_SIZE)->0)
}

/// Segment `s` can be placed at `addr`: a relative address added to it
/// stays in the address space.
pub open spec fn segment_fits(s: ElfSegment, addr: usize) -> bool {
    s.addr matches crate::segment::Address::Relative(rel) ==> addr + rel <= usize::MAX
}

/// Every segment of `segs` can be placed at `addr`.
pub open spec fn segments_fit(segs: Seq<ElfSegment>, addr: usize) -> bool {
    forall|k: int| 0 <= k < segs.len() ==> #[trigger] segment_fits(segs[k], addr)
}

/// The planned layout of a relocatable object: its sections, with
/// image-relative addresses, and its segments, PLT and GOT.
pub struct ObjectPlan {
    pub shdrs: Vec<ElfShdr>,
    pub layout: ShdrSegments,
}

impl ObjectPlan {
    /// Read the sections of the object with header `ehdr` and lay them out.
    /// Fails when the section headers cannot be read, a relocation section
    /// has entry size zero, or the layout is refused.
    pub fn new<R: ElfReader>(ehdr: &ElfHeader, reader: &mut R, lazy_bind: bool) -> (r: Result<ObjectPlan, Error>)
        requires
            ehdr.wf(),
        ensures
            final(reader).spec_content() == old(reader).spec_content(),
            r matches Ok(p) ==> p.layout.pltgot matches Some(g) && {
                &&& g.wf()
                &&& g.got_base + g.got_size <= p.layout.total_size
                &&& g.plt_base + g.plt_size <= p.layout.total_size
                &&& g.pltgot_base + g.pltgot_size <= p.layout.total_size
            },
            r matches Ok(p) ==> {
                let s = spec_shdr_table(old(reader).spec_content(), *ehdr);
                &&& shdr_table_ok(old(reader).spec_content(), *ehdr)
                &&& entsizes_ok(s)
                &&& layout_accepted(s, lazy_bind)
                &&& same_but_addrs(s, p.shdrs@)
                &&& consecutive(p.layout.segments@, p.layout.total_size as int)
                &&& forall|i: int| 0 <= i < s.len()
                    ==> #[trigger] section_placed(s, p.shdrs@, i, p.layout.total_size as int)
            },
            shdr_table_ok(old(reader).spec_content(), *ehdr) && !(
                entsizes_ok(spec_shdr_table(old(reader).spec_content(), *ehdr))
                && layout_accepted(spec_shdr_table(old(reader).spec_content(), *ehdr), lazy_bind)) ==> r is Err,
    {
        let mut shdrs = prepare_shdrs(ehdr, reader)?;
        let ghost c = old(reader).spec_content();
        proof {
            assert(shdrs@ =~= spec_shdr_table(c, *ehdr));
            assert forall|i: int| 0 <= i < ehdr.e_shnum implies
                #[trigger] spec_shdr_at(c, ehdr.e_shoff + i * SHDR_SIZE) is Some by {
                assert(spec_shdr_at(c, ehdr.e_shoff + i * SHDR_SIZE) == Some(shdrs@[i]));
            }
        }
        if !check_entsizes(shdrs.as_slice()) {
            return Err(Error::ParseShdr { msg: "relocation section with entry size zero" });
        }
        let layout = ShdrSegments::new(&mut shdrs, lazy_bind)?;
        Ok(ObjectPlan { shdrs, layout })
    }

    /// The length of the image.
    pub fn total_size(&self) -> (r: usize)
        ensures
            r == self.layout.total_size,
    {
        self.layout.total_size
    }

    /// Build the image at `addr` and prepare the object for relocation:
    /// place the segments, fill them from the object's bytes, and hand the
    /// sections, PLT and GOT to [`ObjectBuilder::new`].
    pub fn load<R: ElfReader>(&mut self, reader: &mut R, addr: usize) -> (r: Result<(ElfSegments, ObjectBuilder, PltGotSection), Error>)
        requires
            old(self).layout.pltgot matches Some(g) && {
                &&& g.wf()
                &&& g.got_base + g.got_size <= old(self).layout.total_size
                &&& g.plt_base + g.plt_size <= old(self).layout.total_size
                &&& g.pltgot_base + g.pltgot_size <= old(self).layout.total_size
            },
        ensures
            final(reader).spec_content() == old(reader).spec_content(),
            addr + old(self).layout.total_size > usize::MAX ==> r is Err,
            final(self).layout.total_size == old(self).layout.total_size,
            r is Ok ==> {
                &&& final(self).layout.segments@.len() == old(self).layout.segments@.len()
                &&& forall|k: int| 0 <= k < old(self).layout.segments@.len()
                    ==> placed(old(self).layout.segments@[k], #[trigger] final(self).layout.segments@[k], addr)
            },
            r matches Ok(res) ==> {
                let zeros = Seq::new(old(self).layout.total_size as nat, |i: int| 0u8);
                let segs = final(self).layout.segments@;
                &&& res.0.addr == addr
                &&& res.0.offset == 0
                &&& spec_load_segments(zeros, addr, segs, old(reader).spec_content(), segs.len() as int)
                    == Some(res.0.memory@)
                &&& object_ok(old(self).shdrs@, res.0.memory@, 0, addr)
                &&& rebased(old(self).shdrs@, final(self).shdrs@, addr)
                &&& built_from(old(self).shdrs@, res.0.memory@, addr, res.1)
                &&& pltgot_moved(old(self).layout.pltgot->0, res.2, addr)
            },
            forall|m: Seq<u8>| spec_load_segments(Seq::new(old(self).layout.total_size as nat, |i: int| 0u8), addr,
                final(self).layout.segments@, old(reader).spec_content(), final(self).layout.segments@.len() as int)
                == Some(m) && !object_ok(old(self).shdrs@, m, 0, addr) ==> r is Err,
            no_file_ranges(old(self).layout.segments@) ==> (r is Ok <==> {
                &&& addr + old(self).layout.total_size <= usize::MAX
                &&& segments_fit(old(self).layout.segments@, addr)
                &&& spec_load_segments(Seq::new(old(self).layout.total_size as nat, |i: int| 0u8), addr,
                    final(self).layout.segments@, old(reader).spec_content(), final(self).layout.segments@.len() as int)
                    matches Some(m)
                &&& object_ok(old(self).shdrs@, m, 0, addr)
            }),
    {
        let total = self.layout.total_size;
        if total > usize::MAX - addr {
            return Err(Error::Mmap { msg: "the image does not fit at this address" });
        }
        let mut image = create_space(total, addr, 0);
        let mut taken: Vec<ElfSegment> = Vec::new();
        std::mem::swap(&mut taken, &mut self.layout.segments);
        let ghost orig = taken@;
        let mut segs: Vec<ElfSegment> = Vec::new();
        while taken.len() > 0
            invariant
                forall|k: int| 0 <= k < segs@.len() ==> (#[trigger] segs@[k]).addr is Absolute,
                segs@.len() + taken@.len() == orig.len(),
                taken@ == orig.subrange(segs@.len() as int, orig.len() as int),
                forall|k: int| 0 <= k < segs@.len() ==> placed(orig[k], #[trigger] segs@[k], addr),
                self.layout.total_size == old(self).layout.total_size,
                self.layout.pltgot == old(self).layout.pltgot,
                self.shdrs@ == old(self).shdrs@,
                orig == old(self).layout.segments@,
                forall|k: int| 0 <= k < segs@.len() ==> #[trigger] segment_fits(orig[k], addr),
            decreases taken@.len(),
        {
            let ghost k = segs@.len() as int;
            let mut seg = taken.remove(0);
            proof {
                assert(seg == orig[k]);
            }
            match seg.addr {
                crate::segment::Address::Relative(rel) => {
                    if rel > usize::MAX - addr {
                        proof {
                            assert(!segment_fits(orig[k], addr));
                        }
                        return Err(Error::Mmap { msg: "segment does not fit at this address" });
                    }
                    seg.rebase(addr);
                },
                crate::segment::Address::Absolute(_) => {},
            }
            segs.push(seg);
        }
        let res = load_segments(segs.as_slice(), reader, &mut image);
        self.layout.segments = segs;
        res?;
        let mut pltgot = match self.layout.take_pltgot() {
            Some(g) => g,
            None => {
                return Err(Error::Mmap { msg: "the PLT and GOT were already taken" });
            },
        };
        if !crate::object::has_symtab(self.shdrs.as_slice()) {
            return Err(Error::ParseShdr { msg: "the object has no symbol table" });
        }
        let builder = ObjectBuilder::new(&mut self.shdrs, &image, &mut pltgot)?;
        Ok((image, builder, pltgot))
    }
}

/// The last program header among the first `k` of type `ty`.
pub open spec fn last_phdr(phdrs: Seq<ElfPhdr>, ty: u32, k: int) -> Option<ElfPhdr>
    decreases k,
{
    if k <= 0 {
        None
    } else if phdrs[k - 1].p_type == ty {
        Some(phdrs[k - 1])
    } else {
        last_phdr(phdrs, ty, k - 1)
    }
}

/// The last program header of type `ty`.
fn find_last_phdr(phdrs: &[ElfPhdr], ty: u32) -> (r: Option<ElfPhdr>)
    ensures
        r == last_phdr(phdrs@, ty, phdrs@.len() as int),
{
    let mut k = phdrs.len();
    while k > 0
        invariant
            k <= phdrs@.len(),
            last_phdr(phdrs@, ty, phdrs@.len() as int) == last_phdr(phdrs@, ty, k as int),
        decreases k,
    {
        if phdrs[k - 1].p_type == ty {
            return Some(phdrs[k - 1]);
        }
        k = k - 1;
    }
    None
}

/// What the program headers of a loaded object point to: the dynamic
/// section (address and size), the range to make read-only after
/// relocation, the program header table in memory (address and size), and
/// the interpreter path.  Addresses are virtual, except the read-only
/// range's.
pub struct PhdrInfo {
    pub dynamic: Option<(usize, usize)>,
    pub relro: Option<crate::segment::ELFRelro>,
    pub phdr: Option<(usize, usize)>,
    pub interp: Option<usize>,
}

/// Find what the program headers point to, for an image loaded at `base`;
/// of several headers of a kind, the last counts.  Fails when the
/// read-only range does not fit the address space.
pub fn scan_phdrs(phdrs: &[ElfPhdr], base: usize) -> (r: Result<PhdrInfo, Error>)
    ensures
        ({
            let n = phdrs@.len() as int;
            &&& r is Err <==> (last_phdr(phdrs@, crate::elf::PT_GNU_RELRO, n) matches Some(p) && base + p.p_vaddr > usize::MAX)
            &&& r matches Ok(info) ==> {
                &&& info.dynamic == match last_phdr(phdrs@, PT_DYNAMIC, n) {
                    Some(p) => Some((p.p_paddr, p.p_memsz)),
                    None => None,
                }
                &&& info.phdr == match last_phdr(phdrs@, crate::elf::PT_PHDR, n) {
                    Some(p) => Some((p.p_vaddr, p.p_memsz)),
                    None => None,
                }
                &&& info.interp == match last_phdr(phdrs@, PT_INTERP, n) {
                    Some(p) => Some(p.p_vaddr),
                    None => None,
                }
                &&& info.relro == match last_phdr(phdrs@, crate::elf::PT_GNU_RELRO, n) {
                    Some(p) => Some(crate::segment::ELFRelro { addr: (base + p.p_vaddr) as usize, len: p.p_memsz }),
                    None => None,
                }
            }
        }),
{
    let dynamic = match find_last_phdr(phdrs, PT_DYNAMIC) {
        Some(p) => Some((p.p_paddr, p.p_memsz)),
        None => None,
    };
    let phdr = match find_last_phdr(phdrs, crate::elf::PT_PHDR) {
        Some(p) => Some((p.p_vaddr, p.p_memsz)),
        None => None,
    };
    let interp = match find_last_phdr(phdrs, PT_INTERP) {
        Some(p) => Some(p.p_vaddr),
        None => None,
    };
    let relro = match find_last_phdr(phdrs, crate::elf::PT_GNU_RELRO) {
        Some(p) => {
            if p.p_vaddr > usize::MAX - base {
                return Err(Error::ParsePhdr { msg: "read-only range does not fit" });
            }
            Some(crate::segment::ELFRelro::new(&p, base))
        },
        None => None,
    };
    Ok(PhdrInfo { dynamic, relro, phdr, interp })
}

/// The virtual address of the program header table in a loaded image: the
/// table's own header when there is one, else its place inside the first
/// loadable segment whose file range holds the table's start and end.
pub open spec fn spec_phdr_table(phdrs: Seq<ElfPhdr>, start: usize, end: usize) -> Option<int> {
    match last_phdr(phdrs, crate::elf::PT_PHDR, phdrs.len() as int) {
        Some(p) => Some(p.p_vaddr as int),
        None => match first_holding(phdrs, start, end, 0) {
            Some(i) => Some(phdrs[i].p_vaddr + start - phdrs[i].p_offset),
            None => None,
        },
    }
}

/// The first loadable segment from `k` on whose file range holds `start`
/// and `end`.
pub open spec fn first_holding(phdrs: Seq<ElfPhdr>, start: usize, end: usize, k: int) -> Option<int>
    decreases phdrs.len() - k,
{
    if k < 0 || k >= phdrs.len() {
        None
    } else if phdrs[k].p_type == crate::elf::PT_LOAD && phdrs[k].p_offset <= start
        && start < phdrs[k].p_offset + phdrs[k].p_filesz && phdrs[k].p_offset <= end
        && end < phdrs[k].p_offset + phdrs[k].p_filesz {
        Some(k)
    } else {
        first_holding(phdrs, start, end, k + 1)
    }
}

/// Where the program header table of the header `ehdr` lies in the image.
pub fn locate_phdrs(ehdr: &ElfHeader, phdrs: &[ElfPhdr]) -> (r: Option<usize>)
    requires
        ehdr.wf(),
    ensures
        ({
            let (start, end) = (ehdr.e_phoff, (ehdr.e_phoff + ehdr.e_phnum * PHDR_SIZE) as usize);
            match spec_phdr_table(phdrs@, start, end) {
                Some(a) => if a <= usize::MAX { r == Some(a as usize) } else { r is None },
                None => r is None,
            }
        }),
{
    let (start, end) = ehdr.phdr_range();
    match find_last_phdr(phdrs, crate::elf::PT_PHDR) {
        Some(p) => {
            return Some(p.p_vaddr);
        },
        None => {},
    }
    let n = phdrs.len();
    let mut i: usize = 0;
    while i < n
        invariant
            n == phdrs@.len(),
            i <= n,
            start == ehdr.e_phoff,
            end == ehdr.e_phoff + ehdr.e_phnum * PHDR_SIZE,
            last_phdr(phdrs@, crate::elf::PT_PHDR, phdrs@.len() as int) is None,
            first_holding(phdrs@, start, end, 0) == first_holding(phdrs@, start, end, i as int),
        decreases n - i,
    {
        let p = phdrs[i];
        if p.p_type == crate::elf::PT_LOAD && p.p_offset <= start && (start as u128) < p.p_offset as u128 + p.p_filesz as u128
            && p.p_offset <= end && (end as u128) < p.p_offset as u128 + p.p_filesz as u128 {
            if p.p_vaddr > usize::MAX - (start - p.p_offset) {
                return None;
            }
            return Some(p.p_vaddr + (start - p.p_offset));
        }
        i = i + 1;
    }
    None
}

} // verus!
