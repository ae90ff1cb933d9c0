//! Values computed by relocations.

use vstd::prelude::*;
use crate::error::Error;

verus! {

/// A computed address or offset, written into the image by a relocation.
/// Address arithmetic on it wraps around, as on the machine.
#[derive(Clone, Copy, Debug, PartialEq, Eq)]
pub struct RelocValue<T>(pub T);

impl<T> RelocValue<T> {
    /// Wrap `val`.
    pub fn new(val: T) -> (r: RelocValue<T>)
        ensures
            r.0 == val,
    {
        RelocValue(val)
    }
}

/// The value of `v` read as a two's-complement signed number.
pub open spec fn spec_signed(v: usize) -> int {
    if v <= isize::MAX { v as int } else { v - (usize::MAX + 1) }
}

impl RelocValue<usize> {
    /// The address this value denotes.
    pub fn as_ptr(self) -> (r: usize)
        ensures
            r == self.0,
    {
        self.0
    }

    /// The address this value denotes, for writing.
    pub fn as_mut_ptr(self) -> (r: usize)
        ensures
            r == self.0,
    {
        self.0
    }

    /// The raw value.
    pub fn into_usize(self) -> (r: usize)
        ensures
            r == self.0,
    {
        self.0
    }

    /// `self + rhs`, wrapping around.
    pub fn add_usize(self, rhs: usize) -> (r: RelocValue<usize>)
        ensures
            r.0 == vstd::wrapping::usize_specs::wrapping_add(self.0, rhs),
    {
        RelocValue(self.0.wrapping_add(rhs))
    }

    /// `self - rhs`, wrapping around.
    pub fn sub_usize(self, rhs: usize) -> (r: RelocValue<usize>)
        ensures
            r.0 == vstd::wrapping::usize_specs::wrapping_sub(self.0, rhs),
    {
        RelocValue(self.0.wrapping_sub(rhs))
    }

    /// The value as a signed 32-bit number; an error when it does not fit.
    pub fn to_i32(self) -> (r: Result<RelocValue<i32>, Error>)
        ensures
            r is Ok <==> i32::MIN <= spec_signed(self.0) <= i32::MAX,
            r matches Ok(v) ==> v.0 == spec_signed(self.0),
            r matches Err(e) ==> e == (Error::Relocate { msg: "value does not fit in 32 bits", r_type: 0, r_sym: 0, file: None }),
    {
        let v = self.0;
        if v <= i32::MAX as usize {
            Ok(RelocValue(v as i32))
        } else if v <= isize::MAX as usize {
            Err(Error::Relocate { msg: "value does not fit in 32 bits", r_type: 0, r_sym: 0, file: None })
        } else if usize::MAX - v <= i32::MAX as usize {
            let d = (usize::MAX - v) as i32;
            Ok(RelocValue(-d - 1))
        } else {
            Err(Error::Relocate { msg: "value does not fit in 32 bits", r_type: 0, r_sym: 0, file: None })
        }
    }

    /// The value as an unsigned 32-bit number; an error when it does not fit.
    pub fn to_u32(self) -> (r: Result<RelocValue<u32>, Error>)
        ensures
            r is Ok <==> self.0 <= u32::MAX,
            r matches Ok(v) ==> v.0 == self.0,
            r matches Err(e) ==> e == (Error::Relocate { msg: "value does not fit in 32 bits", r_type: 0, r_sym: 0, file: None }),
    {
        if self.0 <= u32::MAX as usize {
            Ok(RelocValue(self.0 as u32))
        } else {
            Err(Error::Relocate { msg: "value does not fit in 32 bits", r_type: 0, r_sym: 0, file: None })
        }
    }
}

/// The 64-bit word `(a + b) mod 2^64`.
pub open spec fn wrap64(v: int) -> u64 {
    (v % 0x1_0000_0000_0000_0000) as u64
}

proof fn lemma_wrap64_small(v: int)
    requires
        -0x1_0000_0000_0000_0000 <= v < 2 * 0x1_0000_0000_0000_0000,
    ensures
        0 <= v < 0x1_0000_0000_0000_0000 ==> wrap64(v) == v,
        v >= 0x1_0000_0000_0000_0000 ==> wrap64(v) == v - 0x1_0000_0000_0000_0000,
        v < 0 ==> wrap64(v) == v + 0x1_0000_0000_0000_0000,
{
    let md: int = 0x1_0000_0000_0000_0000;
    if 0 <= v < md {
        vstd::arithmetic::div_mod::lemma_small_mod(v as nat, md as nat);
    } else if v >= md {
        vstd::arithmetic::div_mod::lemma_mod_sub_multiples_vanish(v, md);
        vstd::arithmetic::div_mod::lemma_small_mod((v - md) as nat, md as nat);
    } else {
        vstd::arithmetic::div_mod::lemma_mod_add_multiples_vanish(v, md);
        vstd::arithmetic::div_mod::lemma_small_mod((v + md) as nat, md as nat);
    }
}

impl RelocValue<u64> {
    /// `self + rhs` modulo `2^64`.
    pub fn add_u64(self, rhs: u64) -> (r: RelocValue<u64>)
        ensures
            r.0 == wrap64(self.0 + rhs),
    {
        proof { lemma_wrap64_small(self.0 + rhs); }
        RelocValue(self.0.wrapping_add(rhs))
    }

    /// `self + rhs` modulo `2^64`, for a signed `rhs`.
    pub fn add_i64(self, rhs: i64) -> (r: RelocValue<u64>)
        ensures
            r.0 == wrap64(self.0 + rhs),
    {
        proof { lemma_wrap64_small(self.0 + rhs); }
        if rhs >= 0 {
            RelocValue(self.0.wrapping_add(rhs as u64))
        } else {
            let a = (-(rhs + 1)) as u64 + 1;
            RelocValue(self.0.wrapping_sub(a))
        }
    }

    /// `self - rhs` modulo `2^64`.
    pub fn sub_u64(self, rhs: u64) -> (r: RelocValue<u64>)
        ensures
            r.0 == wrap64(self.0 - rhs),
    {
        proof { lemma_wrap64_small(self.0 - rhs); }
        RelocValue(self.0.wrapping_sub(rhs))
    }

    /// The word read as a signed 32-bit number; an error when it does not fit.
    pub fn to_i32(self) -> (r: Result<RelocValue<i32>, Error>)
        ensures
            r is Ok <==> i32::MIN <= spec_signed64(self.0) <= i32::MAX,
            r matches Ok(v) ==> v.0 == spec_signed64(self.0),
    {
        let v = self.0;
        if v <= i32::MAX as u64 {
            Ok(RelocValue(v as i32))
        } else if v <= i64::MAX as u64 {
            Err(Error::Relocate { msg: "value does not fit in 32 bits", r_type: 0, r_sym: 0, file: None })
        } else if u64::MAX - v <= i32::MAX as u64 {
            let d = (u64::MAX - v) as i32;
            Ok(RelocValue(-d - 1))
        } else {
            Err(Error::Relocate { msg: "value does not fit in 32 bits", r_type: 0, r_sym: 0, file: None })
        }
    }
}

/// The 64-bit word `v` read as a two's-complement signed number.
pub open spec fn spec_signed64(v: u64) -> int {
    if v <= i64::MAX { v as int } else { v - 0x1_0000_0000_0000_0000 }
}

} // verus!
