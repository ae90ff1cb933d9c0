//! A runtime ELF loader and linker whose layout, parsing and relocation
//! logic is verified.
//!
//! The library works on a byte-level model of a loaded image: segments are
//! laid out and filled in a `Vec<u8>` that stands for the mapped memory, and
//! relocations are applied to that buffer.  The host program maps the
//! finished image and runs its initialisers.

use vstd::prelude::*;

pub mod dynamic;
pub mod elf;
pub mod error;
pub mod input;
pub mod laws;
pub mod layout;
pub mod loader;
pub mod mmap;
pub mod object;
pub mod relocation;
pub mod segment;
pub mod slot_map;
pub mod symbol;
