use vstd::prelude::*;

verus! {

/// The failures a caller can see. Every operation detects a missing
/// precondition at its own boundary and reports it as a typed error;
/// nothing is coerced to a fallback value. Samples are ordered integers and
/// every statistic is computed exactly, so a failed numeric conversion or a
/// missing ordering — conceivable for other element types — cannot arise
/// here, and these two variants are the whole set.
#[derive(Clone, Copy, Debug, PartialEq, Eq, Structural)]
pub enum Error {
    /// The raw buffer's length is incompatible with the requested
    /// channel count (zero channels, or not an exact multiple).
    ShapeError,
    /// A reduction or statistic was asked of zero samples or of a
    /// zero-length profile; the result would be undefined.
    EmptyInputError,
}

impl Error {
    /// A short human-readable description of the failure.
    pub fn describe(&self) -> (r: &'static str)
        ensures
            self is ShapeError ==> r@ == "buffer length is incompatible with the channel count"@,
            self is EmptyInputError ==> r@ == "input holds no elements"@,
    {
        match self {
            Error::ShapeError => "buffer length is incompatible with the channel count",
            Error::EmptyInputError => "input holds no elements",
        }
    }
}

} // verus!
