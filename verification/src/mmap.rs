//! Memory protection and mapping flags.
//!
//! The values follow the POSIX `mmap`/`mprotect` constants used by the
//! host program when it maps the finished image.

use vstd::prelude::*;
use crate::error::Error;

verus! {

/// No access allowed.
pub const PROT_NONE: i32 = 0;
/// Allow reading from the memory region.
pub const PROT_READ: i32 = 1;
/// Allow writing to the memory region.
pub const PROT_WRITE: i32 = 2;
/// Allow executing code in the memory region.
pub const PROT_EXEC: i32 = 4;

/// A private copy-on-write mapping.
pub const MAP_PRIVATE: i32 = 2;
/// Place the mapping at exactly the specified address.
pub const MAP_FIXED: i32 = 16;
/// A mapping not backed by any file.
pub const MAP_ANONYMOUS: i32 = 32;

/// Memory protection flags for controlling access permissions.
#[derive(Clone, Copy, Debug, PartialEq, Eq)]
pub struct ProtFlags {
    pub bits: i32,
}

impl ProtFlags {
    /// The raw bits.
    pub fn bits(&self) -> (r: i32)
        ensures
            r == self.bits,
    {
        self.bits
    }

    /// Flags with exactly the given bits, unknown bits included.
    pub fn from_bits_retain(bits: i32) -> (r: ProtFlags)
        ensures
            r.bits == bits,
    {
        ProtFlags { bits }
    }

    /// All bits of `other` are set in `self`.
    pub fn contains(&self, other: ProtFlags) -> (r: bool)
        ensures
            r == (self.bits & other.bits == other.bits),
    {
        self.bits & other.bits == other.bits
    }

    /// The bits set in either flag set.
    pub fn union(self, other: ProtFlags) -> (r: ProtFlags)
        ensures
            r.bits == self.bits | other.bits,
    {
        ProtFlags { bits: self.bits | other.bits }
    }
}

/// Memory mapping configuration flags.
#[derive(Clone, Copy, Debug, PartialEq, Eq)]
pub struct MapFlags {
    pub bits: i32,
}

impl MapFlags {
    /// Flags with exactly the given bits.
    pub fn from_bits_retain(bits: i32) -> (r: MapFlags)
        ensures
            r.bits == bits,
    {
        MapFlags { bits }
    }

    /// The raw bits.
    pub fn bits(&self) -> (r: i32)
        ensures
            r == self.bits,
    {
        self.bits
    }

    /// The bits set in either flag set.
    pub fn union(self, other: MapFlags) -> (r: MapFlags)
        ensures
            r.bits == self.bits | other.bits,
    {
        MapFlags { bits: self.bits | other.bits }
    }
}

/// What a mapping call asks of the system.
#[derive(Clone, Copy, Debug, PartialEq, Eq)]
pub enum MmapRequest {
    /// Map `len` bytes of the file `fd` from `offset` at `addr` (zero: anywhere).
    File { addr: usize, len: usize, prot: ProtFlags, flags: MapFlags, fd: i32, offset: usize },
    /// Map `len` zero bytes at `addr` (zero: anywhere).
    Anonymous { addr: usize, len: usize, prot: ProtFlags, flags: MapFlags },
    /// Use the memory already reserved at `addr`.
    Reserved { addr: usize },
}

/// The mapping calls of the portable implementation.
pub struct MmapImpl;

impl MmapImpl {
    /// The request for mapping a segment: from the file when there is one;
    /// otherwise writable anonymous memory, into which the content is to be
    /// copied (the second result).
    pub fn mmap(addr: Option<usize>, len: usize, prot: ProtFlags, flags: MapFlags, offset: usize, fd: Option<i32>)
        -> (r: (MmapRequest, bool))
        ensures
            ({
                let a: usize = match addr { Some(a) => a, None => 0 };
                match fd {
                    Some(f) => r == (MmapRequest::File { addr: a, len, prot, flags, fd: f, offset }, false),
                    None => r == (MmapRequest::Anonymous {
                        addr: a, len, prot: ProtFlags { bits: PROT_WRITE },
                        flags: MapFlags { bits: flags.bits | MAP_ANONYMOUS } }, true),
                }
            }),
    {
        let a = match addr {
            Some(a) => a,
            None => 0,
        };
        match fd {
            Some(f) => (MmapRequest::File { addr: a, len, prot, flags, fd: f, offset }, false),
            None => (
                MmapRequest::Anonymous {
                    addr: a,
                    len,
                    prot: ProtFlags::from_bits_retain(PROT_WRITE),
                    flags: flags.union(MapFlags::from_bits_retain(MAP_ANONYMOUS)),
                },
                true,
            ),
        }
    }

    /// The request for zero-filled memory at `addr`.
    pub fn mmap_anonymous(addr: usize, len: usize, prot: ProtFlags, flags: MapFlags) -> (r: MmapRequest)
        ensures
            r == (MmapRequest::Anonymous { addr, len, prot, flags: MapFlags { bits: flags.bits | MAP_ANONYMOUS } }),
    {
        MmapRequest::Anonymous { addr, len, prot, flags: flags.union(MapFlags::from_bits_retain(MAP_ANONYMOUS)) }
    }

    /// The request reserving `len` bytes of address space, inaccessible.
    pub fn mmap_reserve(addr: Option<usize>, len: usize, use_file: bool) -> (r: MmapRequest)
        ensures
            r == (MmapRequest::Anonymous {
                addr: match addr { Some(a) => a, None => 0 },
                len,
                prot: ProtFlags { bits: PROT_NONE },
                flags: MapFlags { bits: MAP_PRIVATE | MAP_ANONYMOUS },
            }),
    {
        let a = match addr {
            Some(a) => a,
            None => 0,
        };
        MmapRequest::Anonymous {
            addr: a,
            len,
            prot: ProtFlags::from_bits_retain(PROT_NONE),
            flags: MapFlags::from_bits_retain(MAP_PRIVATE | MAP_ANONYMOUS),
        }
    }
}

/// The mapping calls of the Linux implementation, which reserves writable
/// memory when there is no file and copies segments into it.
pub struct DefaultMmap;

impl DefaultMmap {
    /// The request for mapping a segment: from the file when there is one;
    /// otherwise the reserved memory at `addr` is used and the content is
    /// to be copied (the second result).  Without a file, an address is
    /// needed.
    pub fn mmap(addr: Option<usize>, len: usize, prot: ProtFlags, flags: MapFlags, offset: usize, fd: Option<isize>)
        -> (r: (MmapRequest, bool))
        requires
            fd is None ==> addr is Some,
            fd matches Some(f) ==> i32::MIN <= f <= i32::MAX,
        ensures
            match fd {
                Some(f) => r == (MmapRequest::File {
                    addr: match addr { Some(a) => a, None => 0 }, len, prot, flags, fd: f as i32, offset }, false),
                None => r == (MmapRequest::Reserved { addr: addr->0 }, true),
            },
    {
        match fd {
            Some(f) => {
                let a = match addr {
                    Some(a) => a,
                    None => 0,
                };
                (MmapRequest::File { addr: a, len, prot, flags, fd: f as i32, offset }, false)
            },
            None => (MmapRequest::Reserved { addr: addr.unwrap() }, true),
        }
    }

    /// The request for zero-filled memory at `addr`.
    pub fn mmap_anonymous(addr: usize, len: usize, prot: ProtFlags, flags: MapFlags) -> (r: MmapRequest)
        ensures
            r == (MmapRequest::Anonymous { addr, len, prot, flags: MapFlags { bits: flags.bits | MAP_ANONYMOUS } }),
    {
        MmapImpl::mmap_anonymous(addr, len, prot, flags)
    }

    /// The request reserving `len` bytes of address space: inaccessible
    /// when segments will be mapped from the file, writable when they will
    /// be copied in.
    pub fn mmap_reserve(addr: Option<usize>, len: usize, use_file: bool) -> (r: MmapRequest)
        ensures
            r == (MmapRequest::Anonymous {
                addr: match addr { Some(a) => a, None => 0 },
                len,
                prot: ProtFlags { bits: if use_file { PROT_NONE } else { PROT_WRITE } },
                flags: MapFlags { bits: MAP_PRIVATE | MAP_ANONYMOUS },
            }),
    {
        let a = match addr {
            Some(a) => a,
            None => 0,
        };
        let prot = if use_file { PROT_NONE } else { PROT_WRITE };
        MmapRequest::Anonymous {
            addr: a,
            len,
            prot: ProtFlags::from_bits_retain(prot),
            flags: MapFlags::from_bits_retain(MAP_PRIVATE | MAP_ANONYMOUS),
        }
    }
}

/// The result of a raw system call: values in the last 4095 of the range
/// are negated error numbers.
pub fn from_ret(value: usize, msg: &'static str) -> (r: Result<usize, Error>)
    ensures
        r is Err <==> value > usize::MAX - 4095,
        r matches Ok(v) ==> v == value,
        r matches Err(e) ==> e == (Error::Mmap { msg }),
{
    if value > usize::MAX - 4095 {
        return Err(Error::Mmap { msg });
    }
    Ok(value)
}

} // verus!
