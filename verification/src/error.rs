//! The ways in which a conversion can fail.

use vstd::prelude::*;

verus! {

/// Why a conversion was abandoned. Every failure is final: nothing of the
/// grid is returned.
#[derive(Clone, Copy, Debug, PartialEq, Eq, Structural)]
pub enum Error {
    /// A desired dimension is zero, or larger than the source dimension it
    /// divides, so that a chunk would hold no pixel.
    InvalidDimensions,
    /// The mean shade of a chunk is above 256.
    InvalidShade,
    /// The ramp has no glyph at the position the shade selects.
    Lookup,
}

impl Error {
    /// The text that goes with each failure.
    pub open spec fn spec_message(self) -> Seq<char> {
        match self {
            Error::InvalidDimensions => "Desired dimensions do not fit the image"@,
            Error::InvalidShade => "Chunk shade number > 256!!!"@,
            Error::Lookup => "Selected char for shade does not exists"@,
        }
    }

    /// A short description of the failure, fit for printing.
    pub fn message(&self) -> (text: &'static str)
        ensures
            text@ == self.spec_message(),
    {
        match self {
            Error::InvalidDimensions => "Desired dimensions do not fit the image",
            Error::InvalidShade => "Chunk shade number > 256!!!",
            Error::Lookup => "Selected char for shade does not exists",
        }
    }
}

} // verus!
