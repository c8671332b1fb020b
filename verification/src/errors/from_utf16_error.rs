//! Error for text that is not well-formed UTF-16.

use vstd::prelude::*;

verus! {

/// Returned when a sequence of 16-bit units is not well-formed UTF-16.
#[derive(Debug, Clone, Copy, PartialEq, Eq, Hash)]
pub struct FromUtf16Error;

impl FromUtf16Error {
    /// A human-readable description of the error.
    pub fn message(&self) -> (r: &'static str) {
        "invalid utf-16 sequence"
    }
}

} // verus!
