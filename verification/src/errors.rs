//! The error kinds the library distinguishes. Every failure is terminal for
//! the caller: there is no retry or repair, only a report.

use vstd::prelude::*;

verus! {

/// Why building the cache from the downloaded list failed.
#[derive(Clone, Copy, Debug, PartialEq, Eq, Structural)]
pub enum BuildError {
    /// A kept line holds a hexadecimal field that does not fit a code point.
    InvalidCodePoint,
    /// A kept range line has a lower bound above its upper bound.
    ReversedRange,
}

/// Why reading one record from an existing cache failed.
#[derive(Clone, Copy, Debug, PartialEq, Eq, Structural)]
pub enum ReadError {
    /// The cache length is zero or not a multiple of the record size; the
    /// operator must delete the file by hand.
    Corrupted,
    /// The stored record is not a Unicode scalar value.
    InvalidScalar,
}

} // verus!
