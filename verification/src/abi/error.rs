//! The failures of decoding.

use vstd::prelude::*;

verus! {

/// Why a decode failed. Every failure is returned to the caller; none aborts.
#[derive(Debug, Clone, Copy, PartialEq, Eq, Structural)]
pub enum Error {
    /// A read asked for more bytes than remain.
    UnexpectedEOF,
    /// A boolean byte was neither 0 nor 1.
    IrregularData,
    /// Text bytes were not valid UTF-8.
    InvalidUtf8,
}

/// A result seen through the view of its value.
pub open spec fn viewed<T: View>(r: Result<T, Error>) -> Result<T::V, Error> {
    match r {
        Ok(value) => Ok(value@),
        Err(e) => Err(e),
    }
}

/// A result seen through the deep view of its value, the view that looks
/// through every layer of a nested value.
pub open spec fn deeply_viewed<T: DeepView>(r: Result<T, Error>) -> Result<T::V, Error> {
    match r {
        Ok(value) => Ok(value.deep_view()),
        Err(e) => Err(e),
    }
}

} // verus!
