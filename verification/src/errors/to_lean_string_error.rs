//! Error for conversions into a [`LeanString`].
//!
//! [`LeanString`]: crate::LeanString

use crate::reserve_error::ReserveError;
use vstd::prelude::*;

verus! {

/// Why converting a value into a [`LeanString`] failed: either the buffer
/// could not be resized, or the value's textual form could not be written.
///
/// [`LeanString`]: crate::LeanString
#[derive(Debug, Clone, Copy, PartialEq)]
pub enum ToLeanStringError {
    Reserve(ReserveError),
    Fmt,
}

impl ToLeanStringError {
    /// A human-readable description of the error.
    pub fn message(&self) -> (r: &'static str) {
        match self {
            ToLeanStringError::Reserve(e) => e.message(),
            ToLeanStringError::Fmt => "an error occurred when formatting an argument",
        }
    }
}

impl From<ReserveError> for ToLeanStringError {
    fn from(value: ReserveError) -> (r: Self) {
        ToLeanStringError::Reserve(value)
    }
}

impl vstd::std_specs::convert::FromSpecImpl<ReserveError> for ToLeanStringError {
    open spec fn obeys_from_spec() -> bool {
        true
    }

    open spec fn from_spec(value: ReserveError) -> Self {
        ToLeanStringError::Reserve(value)
    }
}

} // verus!
