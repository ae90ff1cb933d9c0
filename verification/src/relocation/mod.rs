//! Relocation of ELF objects.
//!
//! Relocation entries name a place in the image and a formula over the
//! load base, a symbol's address and an addend; applying them patches the
//! image so that its code and data refer to the right addresses.

pub mod dynamic;
pub mod handler;
pub mod lazy;
pub mod lookup;
pub mod object_reloc;
pub mod value;

pub use value::RelocValue;
