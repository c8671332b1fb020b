//! The single recoverable error of this crate.

use vstd::prelude::*;

verus! {

/// A possible error value if allocating or resizing a [`LeanString`] failed.
///
/// It is returned when a requested length or capacity exceeds what the
/// two-word representation can record, or when a size computation overflows.
///
/// [`LeanString`]: crate::LeanString
#[derive(Debug, Clone, Copy, PartialEq)]
pub struct ReserveError;

impl ReserveError {
    /// A human-readable description of the error.
    pub fn message(&self) -> (r: &'static str) {
        "Cannot allocate memory to hold SmallString"
    }
}

} // verus!
