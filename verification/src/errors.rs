//! The errors this library reports.

use vstd::prelude::*;

verus! {

/// Everything that can go wrong in this library and is reported to the
/// caller rather than clipped away.
#[derive(Debug, Clone, Copy, PartialEq, Eq)]
pub enum Error {
    /// The request cannot be served, most prominently because a supplied
    /// buffer is too small for the requested canvas.
    Unsupported(&'static str),
}

/// Builds the `Err` result carrying an `Unsupported` error with the given message.
pub fn unsupported_error<T>(msg: &'static str) -> (r: Result<T, Error>)
    ensures
        r == Result::<T, Error>::Err(Error::Unsupported(msg)),
{
    Err(Error::Unsupported(msg))
}

} // verus!
