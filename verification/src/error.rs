//! Error kinds of the gadget finder.

use vstd::prelude::*;

verus! {

/// What can go wrong while loading, patching or scanning an image.
///
/// Failures that are tolerated with a warning (a missing helper section or
/// symbol) are not errors: the affected pass is simply skipped.
#[derive(Clone, Copy, Debug, PartialEq, Eq, Structural)]
pub enum Error {
    /// The object was recognized but is malformed.
    ParseErr,
    /// The object is neither ELF nor PE and a non-raw scan was requested.
    Unsupported,
    /// A retpoline site resolves to the stack-pointer thunk, which no
    /// compiler emits; the image cannot be patched safely.
    PatchErr,
    /// A symbol was requested from an image that is not an ELF.
    NotElf,
}

} // verus!
