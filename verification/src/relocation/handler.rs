//! Relocation handlers: user hooks that may take over relocation entries.
//!
//! A handler is asked about an entry before the default treatment (the
//! pre-handler) or when the default treatment does not handle it (the
//! post-handler).  It either leaves the entry alone, or takes it over:
//! successfully, possibly naming the object of the scope it used, or with
//! an error that stops the relocation.

use vstd::prelude::*;
use crate::elf::ElfRelType;
use crate::error::Error;
use super::dynamic::Target;
use super::lookup::ScopeLib;

verus! {

/// A hook on relocation entries, supplied by the user of the loader.  The
/// handler's answers stay the same while it is used, whatever state it
/// keeps.
pub trait RelocationHandler {
    /// The answer for entry `rel` of the object `lib`, relocated against
    /// the objects `scope`: none to leave it alone, `Ok` with the index of
    /// the scope object used (if any) when it handled it, `Err` when it
    /// failed.
    spec fn spec_handle(&self, rel: ElfRelType, lib: Target, scope: Seq<ScopeLib>) -> Option<Result<Option<usize>, Error>>;

    /// Handle entry `rel` of the object `lib`, relocated against the
    /// objects `scope`, or leave it alone.
    fn handle(&mut self, rel: &ElfRelType, lib: &Target, scope: &[ScopeLib]) -> (r: Option<Result<Option<usize>, Error>>)
        ensures
            r == old(self).spec_handle(*rel, *lib, scope@),
            forall|x: ElfRelType, lt: Target, ls: Seq<ScopeLib>| #[trigger] final(self).spec_handle(x, lt, ls)
                == old(self).spec_handle(x, lt, ls),
    ;
}

/// The handler that handles nothing.
impl RelocationHandler for () {
    open spec fn spec_handle(&self, rel: ElfRelType, lib: Target, scope: Seq<ScopeLib>) -> Option<Result<Option<usize>, Error>> {
        None
    }

    fn handle(&mut self, rel: &ElfRelType, lib: &Target, scope: &[ScopeLib]) -> (r: Option<Result<Option<usize>, Error>>) {
        None
    }
}

/// A handler that takes over the entries of the listed types, without
/// using any object of the scope.
pub struct SkipTypes {
    pub types: Vec<u32>,
}

impl RelocationHandler for SkipTypes {
    open spec fn spec_handle(&self, rel: ElfRelType, lib: Target, scope: Seq<ScopeLib>) -> Option<Result<Option<usize>, Error>> {
        if self.types@.contains(rel.spec_r_type()) { Some(Ok(None)) } else { None }
    }

    fn handle(&mut self, rel: &ElfRelType, lib: &Target, scope: &[ScopeLib]) -> (r: Option<Result<Option<usize>, Error>>) {
        let ty = rel.r_type();
        let n = self.types.len();
        let mut i: usize = 0;
        while i < n
            invariant
                n == self.types@.len(),
                i <= n,
                ty == rel.spec_r_type(),
                forall|k: int| 0 <= k < i ==> self.types@[k] != ty,
            decreases n - i,
        {
            if self.types[i] == ty {
                return Some(Ok(None));
            }
            i = i + 1;
        }
        None
    }
}

/// The state after a handler took over an entry, naming scope object
/// `idx` if any: that object is marked used; none when there is no such
/// object.
pub open spec fn spec_handled(deps: Seq<bool>, idx: Option<usize>) -> Option<Seq<bool>> {
    match idx {
        Some(i) => if i < deps.len() { Some(deps.update(i as int, true)) } else { None },
        None => Some(deps),
    }
}

/// Mark the scope object a handler used.
pub fn mark_handled(deps: &mut Vec<bool>, idx: Option<usize>) -> (r: Result<(), Error>)
    ensures
        r is Ok <==> spec_handled(old(deps)@, idx) is Some,
        r is Ok ==> spec_handled(old(deps)@, idx) == Some(final(deps)@),
        r is Err ==> final(deps)@ == old(deps)@,
        final(deps)@.len() == old(deps)@.len(),
{
    match idx {
        Some(i) => {
            if i >= deps.len() {
                return Err(Error::Relocate { msg: "handler names a missing scope object", r_type: 0, r_sym: i, file: None });
            }
            deps.set(i, true);
            Ok(())
        },
        None => Ok(()),
    }
}

} // verus!
