//! Filling the image from the object's bytes.
//!
//! Each segment's file ranges are copied to their places in the image,
//! and its zero-filled part is cleared: up to the end of the page its
//! content ends in, and at least its zero size.

use vstd::prelude::*;
use crate::error::Error;
use crate::input::ElfReader;
use crate::layout::{spec_roundup, PAGE_SIZE};
use crate::layout::roundup;
use crate::mmap::{DefaultMmap, MapFlags, MmapRequest, ProtFlags, MAP_ANONYMOUS, MAP_FIXED, MAP_PRIVATE, PROT_READ, PROT_WRITE};
use super::{spec_fill_zero, spec_write_bytes, ElfSegment, ElfSegments, FileMapInfo};

verus! {

/// The image bytes `mem` (mapped at `img`) after copying the first `k`
/// file ranges of a segment at absolute address `seg` from `content`;
/// none when a range is outside the file or the image.
pub open spec fn spec_copy_infos(
    mem: Seq<u8>,
    img: usize,
    seg: int,
    infos: Seq<FileMapInfo>,
    content: Seq<u8>,
    k: int,
) -> Option<Seq<u8>>
    decreases k,
{
    if k <= 0 {
        Some(mem)
    } else {
        match spec_copy_infos(mem, img, seg, infos, content, k - 1) {
            Some(m) => {
                let info = infos[k - 1];
                let dest = seg + info.start;
                if info.offset + info.filesz <= content.len() && img <= dest && dest - img + info.filesz <= m.len() {
                    Some(spec_write_bytes(m, dest - img, content.subrange(info.offset as int, info.offset + info.filesz)))
                } else {
                    None
                }
            },
            None => None,
        }
    }
}

/// The length cleared after a segment's content: to the end of the page the
/// content ends in, and at least the zero size.
pub open spec fn zero_len(zero_start: int, zero_size: int) -> int {
    let to_page = spec_roundup(zero_start, PAGE_SIZE as int) - zero_start;
    if zero_size == 0 { 0 } else if to_page < zero_size { zero_size } else { to_page }
}

/// The image after loading segment `s` from `content`.
pub open spec fn spec_load_segment(mem: Seq<u8>, img: usize, s: ElfSegment, content: Seq<u8>) -> Option<Seq<u8>> {
    let seg = s.addr->Absolute_0 as int;
    match spec_copy_infos(mem, img, seg, s.map_info@, content, s.map_info@.len() as int) {
        Some(m) => {
            let zs = seg + s.content_size;
            let n = zero_len(zs, s.zero_size as int);
            if n == 0 {
                Some(m)
            } else if img <= zs && zs - img + n <= m.len() {
                Some(spec_fill_zero(m, zs - img, n))
            } else {
                None
            }
        },
        None => None,
    }
}

/// The image after loading the first `k` segments.
pub open spec fn spec_load_segments(mem: Seq<u8>, img: usize, segs: Seq<ElfSegment>, content: Seq<u8>, k: int) -> Option<Seq<u8>>
    decreases k,
{
    if k <= 0 {
        Some(mem)
    } else {
        match spec_load_segments(mem, img, segs, content, k - 1) {
            Some(m) => spec_load_segment(m, img, segs[k - 1], content),
            None => None,
        }
    }
}

/// Copy the file range `info` of the segment at `seg` into the image.
fn copy_info<R: ElfReader>(info: &FileMapInfo, seg: usize, reader: &mut R, image: &mut ElfSegments) -> (r: Result<(), Error>)
    ensures
        final(reader).spec_content() == old(reader).spec_content(),
        final(image).addr == old(image).addr,
        final(image).offset == old(image).offset,
        final(image).memory@.len() == old(image).memory@.len(),
        r is Ok ==> spec_copy_infos(old(image).memory@, old(image).addr, seg as int, seq![*info],
            old(reader).spec_content(), 1) == Some(final(image).memory@),
        spec_copy_infos(old(image).memory@, old(image).addr, seg as int, seq![*info],
            old(reader).spec_content(), 1) is None ==> r is Err,
{
    proof {
        assert(spec_copy_infos(old(image).memory@, old(image).addr, seg as int, seq![*info],
            old(reader).spec_content(), 0) == Some(old(image).memory@));
    }
    if seg > usize::MAX - info.start {
        return Err(Error::Mmap { msg: "segment range does not fit" });
    }
    let dest = seg + info.start;
    let bytes = reader.read(info.offset, info.filesz)?;
    image.write_bytes_abs(dest, bytes.as_slice())
}

/// The distance from `x` to the next page boundary.
proof fn lemma_to_page(x: int)
    requires
        x >= 0,
    ensures
        spec_roundup(x, PAGE_SIZE as int) - x == (if x % 4096 == 0 { 0 } else { 4096 - x % 4096 }),
{
    let q = x / 4096;
    let r = x % 4096;
    vstd::arithmetic::div_mod::lemma_fundamental_div_mod(x, 4096);
    assert(x == 4096 * q + r);
    if r == 0 {
        assert((x + 4095) / 4096 == q);
    } else {
        assert((x + 4095) / 4096 == q + 1);
    }
}

/// Load segment `s`: copy its file ranges, then clear its zero-filled part.
pub fn load_segment<R: ElfReader>(s: &ElfSegment, reader: &mut R, image: &mut ElfSegments) -> (r: Result<(), Error>)
    requires
        s.addr is Absolute,
    ensures
        final(reader).spec_content() == old(reader).spec_content(),
        final(image).addr == old(image).addr,
        final(image).offset == old(image).offset,
        final(image).memory@.len() == old(image).memory@.len(),
        r is Ok ==> spec_load_segment(old(image).memory@, old(image).addr, *s, old(reader).spec_content())
            == Some(final(image).memory@),
        spec_load_segment(old(image).memory@, old(image).addr, *s, old(reader).spec_content()) is None ==> r is Err,
        old(image).wf() && s.map_info@.len() == 0 ==> (r is Ok <==> spec_load_segment(old(image).memory@,
            old(image).addr, *s, old(reader).spec_content()) is Some),
{
    let ghost content = reader.spec_content();
    let ghost mem0 = image.memory@;
    let seg = s.addr.absolute_addr();
    let n = s.map_info.len();
    let mut i: usize = 0;
    while i < n
        invariant
            n == s.map_info@.len(),
            i <= n,
            reader.spec_content() == content,
            content == old(reader).spec_content(),
            mem0 == old(image).memory@,
            image.addr == old(image).addr,
            image.offset == old(image).offset,
            image.memory@.len() == old(image).memory@.len(),
            seg == s.addr->Absolute_0,
            spec_copy_infos(mem0, image.addr, seg as int, s.map_info@, content, i as int) == Some(image.memory@),
        decreases n - i,
    {
        let ghost before = image.memory@;
        let res = copy_info(&s.map_info[i], seg, reader, image);
        proof {
            let info = s.map_info@[i as int];
            assert(spec_copy_infos(before, image.addr, seg as int, seq![info], content, 0) == Some(before));
        }
        match res {
            Ok(()) => {},
            Err(e) => {
                return Err(e);
            },
        }
        i = i + 1;
    }
    if s.zero_size > 0 {
        if seg > usize::MAX - s.content_size {
            return Err(Error::Mmap { msg: "segment range does not fit" });
        }
        let zs = seg + s.content_size;
        let rem = zs % PAGE_SIZE;
        let to_page = if rem == 0 { 0 } else { PAGE_SIZE - rem };
        proof { lemma_to_page(zs as int); }
        let len = if to_page < s.zero_size { s.zero_size } else { to_page };
        if zs < image.addr || zs - image.addr > image.memory.len() || len > image.memory.len() - (zs - image.addr) {
            return Err(Error::Mmap { msg: "zero-filled part outside the image" });
        }
        image.zero_idx(zs - image.addr, len);
    }
    Ok(())
}

proof fn lemma_load_segments_none(mem: Seq<u8>, img: usize, segs: Seq<ElfSegment>, content: Seq<u8>, k: int, m: int)
    requires
        0 <= k <= m,
        spec_load_segments(mem, img, segs, content, k) is None,
    ensures
        spec_load_segments(mem, img, segs, content, m) is None,
    decreases m - k,
{
    if k < m {
        lemma_load_segments_none(mem, img, segs, content, k, m - 1);
    }
}

/// Segments none of which has a file range: loading them reads nothing.
pub open spec fn no_file_ranges(segs: Seq<ElfSegment>) -> bool {
    forall|k: int| 0 <= k < segs.len() ==> (#[trigger] segs[k]).map_info@.len() == 0
}

/// Load the segments `segs`, in order, into the image.
pub fn load_segments<R: ElfReader>(segs: &[ElfSegment], reader: &mut R, image: &mut ElfSegments) -> (r: Result<(), Error>)
    requires
        forall|k: int| 0 <= k < segs@.len() ==> (#[trigger] segs@[k]).addr is Absolute,
    ensures
        final(reader).spec_content() == old(reader).spec_content(),
        final(image).addr == old(image).addr,
        final(image).offset == old(image).offset,
        final(image).memory@.len() == old(image).memory@.len(),
        r is Ok ==> spec_load_segments(old(image).memory@, old(image).addr, segs@, old(reader).spec_content(),
            segs@.len() as int) == Some(final(image).memory@),
        spec_load_segments(old(image).memory@, old(image).addr, segs@, old(reader).spec_content(),
            segs@.len() as int) is None ==> r is Err,
        old(image).wf() && no_file_ranges(segs@) ==> (r is Ok <==> spec_load_segments(old(image).memory@,
            old(image).addr, segs@, old(reader).spec_content(), segs@.len() as int) is Some),
{
    let ghost content = reader.spec_content();
    let ghost mem0 = image.memory@;
    let n = segs.len();
    let mut i: usize = 0;
    while i < n
        invariant
            n == segs@.len(),
            i <= n,
            forall|k: int| 0 <= k < segs@.len() ==> (#[trigger] segs@[k]).addr is Absolute,
            reader.spec_content() == content,
            content == old(reader).spec_content(),
            mem0 == old(image).memory@,
            image.addr == old(image).addr,
            image.offset == old(image).offset,
            image.memory@.len() == old(image).memory@.len(),
            spec_load_segments(mem0, image.addr, segs@, content, i as int) == Some(image.memory@),
            old(image).wf() ==> image.wf(),
        decreases n - i,
    {
        let ghost before = image.memory@;
        match load_segment(&segs[i], reader, image) {
            Ok(()) => {},
            Err(e) => {
                proof {
                    if old(image).wf() && no_file_ranges(segs@) {
                        assert(segs@[i as int].map_info@.len() == 0);
                        assert(spec_load_segments(mem0, image.addr, segs@, content, i + 1) is None);
                        lemma_load_segments_none(mem0, image.addr, segs@, content, i + 1, n as int);
                    }
                }
                return Err(e);
            },
        }
        i = i + 1;
    }
    Ok(())
}

/// A zero-filled image of `len` bytes mapped at `addr`, whose lowest
/// virtual address is `offset`.
pub fn create_space(len: usize, addr: usize, offset: usize) -> (r: ElfSegments)
    requires
        offset <= addr,
        addr + len <= usize::MAX,
    ensures
        r.memory@ == Seq::new(len as nat, |i: int| 0u8),
        r.addr == addr,
        r.offset == offset,
        r.wf(),
{
    let mut memory: Vec<u8> = Vec::new();
    let mut i: usize = 0;
    while i < len
        invariant
            i <= len,
            memory@ == Seq::new(i as nat, |k: int| 0u8),
        decreases len - i,
    {
        memory.push(0u8);
        i = i + 1;
        proof {
            assert(memory@ =~= Seq::new(i as nat, |k: int| 0u8));
        }
    }
    ElfSegments::with_offset(memory, addr, offset)
}

impl ElfSegment {
    /// The protection a segment is mapped with: read and write for one built
    /// from sections, which is written while relocated; its own otherwise.
    pub open spec fn spec_map_prot(&self) -> ProtFlags {
        if self.from_relocatable { ProtFlags { bits: PROT_READ | PROT_WRITE } } else { self.prot }
    }

    /// The request that maps this placed segment: from the file `fd` when
    /// its content is one page-aligned file range, else the reserved memory
    /// at its address, into which the content is then copied.  Whether the
    /// content is to be copied is recorded in the segment.
    pub fn map_request(&mut self, fd: Option<isize>) -> (r: MmapRequest)
        requires
            old(self).addr is Absolute,
            fd matches Some(f) ==> i32::MIN <= f <= i32::MAX,
        ensures
            ({
                let a = old(self).addr->Absolute_0;
                let prot = old(self).spec_map_prot();
                if old(self).map_info@.len() == 1 && fd is Some {
                    &&& r == (MmapRequest::File { addr: a, len: old(self).len, prot, flags: old(self).flags,
                        fd: fd->0 as i32, offset: old(self).map_info@[0].offset })
                    &&& !final(self).need_copy
                } else {
                    &&& r == (MmapRequest::Reserved { addr: a })
                    &&& final(self).need_copy
                }
            }),
            final(self).addr == old(self).addr,
            final(self).prot == old(self).prot,
            final(self).flags == old(self).flags,
            final(self).len == old(self).len,
            final(self).zero_size == old(self).zero_size,
            final(self).content_size == old(self).content_size,
            final(self).map_info@ == old(self).map_info@,
            final(self).from_relocatable == old(self).from_relocatable,
    {
        let addr = self.addr.absolute_addr();
        let prot = if self.from_relocatable {
            ProtFlags::from_bits_retain(PROT_READ).union(ProtFlags::from_bits_retain(PROT_WRITE))
        } else {
            self.prot
        };
        let (req, need_copy) = if self.map_info.len() == 1 {
            DefaultMmap::mmap(Some(addr), self.len, prot, self.flags, self.map_info[0].offset, fd)
        } else {
            DefaultMmap::mmap(Some(addr), self.len, prot, self.flags, 0, None)
        };
        self.need_copy = need_copy;
        req
    }

    /// The zero-filled part of this placed segment past the page its content
    /// ends in, which is mapped as fresh zero pages: none when the zero size
    /// is zero or the rest of that page holds it.
    pub open spec fn spec_zero_tail(&self) -> Option<MmapRequest> {
        let zs = self.addr->Absolute_0 + self.content_size;
        let ze = spec_roundup(zs, PAGE_SIZE as int);
        let w = ze - zs;
        if self.zero_size > 0 && w < self.zero_size {
            Some(MmapRequest::Anonymous {
                addr: ze as usize,
                len: (self.zero_size - w) as usize,
                prot: self.prot,
                flags: MapFlags { bits: (MAP_PRIVATE | MAP_FIXED) | MAP_ANONYMOUS },
            })
        } else {
            None
        }
    }

    /// The request mapping the zero pages past the page this placed
    /// segment's content ends in (the part of that page after the content
    /// is cleared in the image by `load_segment`).
    pub fn zero_tail_request(&self) -> (r: Option<MmapRequest>)
        requires
            self.addr is Absolute,
            self.addr->Absolute_0 + self.content_size + PAGE_SIZE <= usize::MAX + 1,
        ensures
            r == self.spec_zero_tail(),
    {
        if self.zero_size == 0 {
            return None;
        }
        let zs = self.addr.absolute_addr() + self.content_size;
        proof { crate::layout::lemma_page_size_pow2(); }
        let ze = roundup(zs, PAGE_SIZE);
        let w = ze - zs;
        if w < self.zero_size {
            Some(DefaultMmap::mmap_anonymous(ze, self.zero_size - w, self.prot,
                MapFlags::from_bits_retain(MAP_PRIVATE | MAP_FIXED)))
        } else {
            None
        }
    }

    /// The protection change this placed segment needs once its content is
    /// in place: `(address, length, protection)` when it was copied in or
    /// built from sections, none otherwise.
    pub fn protect_request(&self) -> (r: Option<(usize, usize, ProtFlags)>)
        requires
            self.addr is Absolute,
        ensures
            r == (if self.need_copy || self.from_relocatable {
                Some((self.addr->Absolute_0, self.len, self.prot))
            } else {
                None
            }),
    {
        if self.need_copy || self.from_relocatable {
            Some((self.addr.absolute_addr(), self.len, self.prot))
        } else {
            None
        }
    }
}

} // verus!
