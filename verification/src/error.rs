//! Errors reported by the loader.

use vstd::prelude::*;

verus! {

/// Errors that can occur while loading, laying out or relocating an ELF object.
#[derive(Debug, Clone, PartialEq, Eq)]
pub enum Error {
    /// Reading the ELF source failed.
    Io { msg: &'static str },
    /// A memory mapping request could not be satisfied.
    Mmap { msg: &'static str },
    /// A relocation entry could not be applied: the message, the entry's
    /// type and symbol index, and the name of the object the entry belongs
    /// to (none where the failing step is not tied to one object, such as a
    /// value that does not fit or a full table).
    Relocate { msg: &'static str, r_type: u32, r_sym: usize, file: Option<String> },
    /// The dynamic section is malformed.
    ParseDynamic { msg: &'static str },
    /// The ELF header is malformed or of an unsupported kind.
    ParseEhdr { msg: &'static str },
    /// A program header is malformed.
    ParsePhdr { msg: &'static str },
    /// A section header is malformed.
    ParseShdr { msg: &'static str },
}

} // verus!
