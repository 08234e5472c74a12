use vstd::prelude::*;

verus! {

/// Flag indicating whether to store data in Big-endian or Little-endian format.
#[derive(Debug, PartialEq, Eq, Structural, Copy, Clone)]
pub enum Endian {
    Big,
    Little,
}

/// What can go wrong while reading or writing a PFM image.
#[derive(Debug, PartialEq, Eq, Structural, Copy, Clone)]
pub enum PfmError {
    /// The header ended before a token or its separator byte.
    UnexpectedEof,
    /// The magic token is not `PF` or `Pf`.
    InvalidMagic,
    /// The width or height is zero or not a decimal number.
    InvalidDimension,
    /// The scale is zero or not a number.
    InvalidScale,
    /// The payload does not hold exactly `width * height * channels` samples.
    PayloadSizeMismatch,
    /// The payload ran out in the middle of a sample.
    TruncatedPayload,
    /// The data does not hold exactly `width * height * channels` samples.
    DataLengthMismatch,
}

} // verus!
