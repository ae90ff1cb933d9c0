//! Sources of ELF bytes.
//!
//! The loader reads an object through an [`ElfReader`]: a named source of
//! bytes, in memory or in a file.  [`ElfBinary`] is the in-memory source.

use vstd::prelude::*;
use vstd::string::StrSliceExecFns;
use crate::error::Error;

verus! {

/// The position of the last `/` in `s` before `k`, or `-1`.
pub open spec fn last_slash(s: Seq<char>, k: int) -> int
    decreases k,
{
    if k <= 0 {
        -1
    } else if s[k - 1] == '/' {
        k - 1
    } else {
        last_slash(s, k - 1)
    }
}

/// The part of `name` after its last `/`: the file name without its path.
pub fn short_name(name: &str) -> (r: &str)
    ensures
        r@ == name@.subrange(last_slash(name@, name@.len() as int) + 1, name@.len() as int),
{
    let n = name.unicode_len();
    let mut k = n;
    while k > 0
        invariant
            n == name@.len(),
            k <= n,
            last_slash(name@, n as int) == last_slash(name@, k as int),
        decreases k,
    {
        if name.get_char(k - 1) == '/' {
            return name.substring_char(k, n);
        }
        k = k - 1;
    }
    name.substring_char(0, n)
}

/// A source of ELF bytes, supplied by the user of the loader.  Reading
/// leaves the bytes as they are; a read that succeeds gives the bytes asked
/// for.
pub trait ElfReader {
    /// The bytes of the source.
    spec fn spec_content(&self) -> Seq<u8>;

    /// The full name or path of the object.
    fn file_name(&self) -> &str;

    /// Read `len` bytes from `offset`.
    fn read(&mut self, offset: usize, len: usize) -> (r: Result<Vec<u8>, Error>)
        ensures
            final(self).spec_content() == old(self).spec_content(),
            r matches Ok(v) ==> offset + len <= old(self).spec_content().len()
                && v@ == old(self).spec_content().subrange(offset as int, offset + len),
    ;

    /// The file descriptor, for a source that is a file.
    fn as_fd(&self) -> Option<isize>;
}

/// An ELF object held in memory.
pub struct ElfBinary<'bytes> {
    pub name: String,
    pub bytes: &'bytes [u8],
}

impl<'bytes> ElfBinary<'bytes> {
    /// The object called `name` whose bytes are `bytes`.
    pub fn new(name: &str, bytes: &'bytes [u8]) -> (r: ElfBinary<'bytes>)
        ensures
            r.name@ == name@,
            r.bytes@ == bytes@,
    {
        ElfBinary { name: name.to_owned(), bytes }
    }

    /// The file name without its path.
    pub fn shortname(&self) -> (r: &str)
        ensures
            r@ == self.name@.subrange(last_slash(self.name@, self.name@.len() as int) + 1, self.name@.len() as int),
    {
        short_name(self.name.as_str())
    }
}

impl<'bytes> ElfReader for ElfBinary<'bytes> {
    open spec fn spec_content(&self) -> Seq<u8> {
        self.bytes@
    }

    fn file_name(&self) -> (r: &str)
        ensures
            r@ == self.name@,
    {
        self.name.as_str()
    }

    /// Copy `len` bytes from `offset`; fails when they run past the end.
    fn read(&mut self, offset: usize, len: usize) -> (r: Result<Vec<u8>, Error>)
        ensures
            r is Ok <==> offset + len <= old(self).bytes@.len(),
    {
        if offset > self.bytes.len() || len > self.bytes.len() - offset {
            return Err(Error::Io { msg: "read past the end of the object" });
        }
        let blen = self.bytes.len();
        let mut out: Vec<u8> = Vec::new();
        let mut k: usize = 0;
        while k < len
            invariant
                blen == self.bytes@.len(),
                offset + len <= self.bytes@.len(),
                k <= len,
                out@ == self.bytes@.subrange(offset as int, offset + k),
            decreases len - k,
        {
            out.push(self.bytes[offset + k]);
            k = k + 1;
            proof {
                assert(out@ =~= self.bytes@.subrange(offset as int, offset + k));
            }
        }
        Ok(out)
    }

    fn as_fd(&self) -> (r: Option<isize>)
        ensures
            r is None,
    {
        None
    }
}

/// Conversion of an input into an [`ElfReader`].
pub trait IntoElfReader<'a> {
    /// The reader the input becomes.
    type Reader: ElfReader + 'a;

    /// Turn the input into a reader.
    fn into_reader(self) -> Result<Self::Reader, Error>;
}

impl<'a> IntoElfReader<'a> for ElfBinary<'a> {
    type Reader = ElfBinary<'a>;

    fn into_reader(self) -> (r: Result<ElfBinary<'a>, Error>)
        ensures
            r matches Ok(b) && b.bytes@ == self.bytes@ && b.name@ == self.name@,
    {
        Ok(self)
    }
}

} // verus!
