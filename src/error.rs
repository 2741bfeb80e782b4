//! Errors of the wide-column layer.
use vstd::prelude::*;

verus! {

/// An error of the store underneath, carried through unchanged.
#[verifier::external_type_specification]
#[verifier::external_body]
pub struct ExStoreError(fjall::Error);

/// What can go wrong in an operation of the wide-column layer.
#[derive(Debug)]
pub enum CellError {
    /// A row key, column family or column qualifier holds a NUL byte.
    Validation,
    /// The key of a cell is longer than 65535 bytes, or its value longer
    /// than `u32::MAX` bytes: the store takes neither.
    TooLarge,
    /// A stored key does not have the layout of a cell key.
    Corruption,
    /// The store reported a failure.
    Store(fjall::Error),
}

} // verus!
