//! The error taxonomy of the decoder. Every failure aborts the whole decode;
//! there is no partial canvas and no silent default substitution.

use vstd::prelude::*;

verus! {

/// Why a decode request was rejected.
#[derive(Debug, Clone, Copy, PartialEq, Eq, Structural)]
pub enum DecodeError {
    /// A numeric field (width, height, offset, tile size) is empty or not a number.
    InvalidGeometry,
    /// Width or height (image or tile) parsed to zero.
    ZeroDimension,
    /// Image dimensions are not divisible by the tile dimensions.
    TileMismatch,
    /// The component-order string has the wrong length or misses a required letter.
    InvalidComponentOrder,
    /// The palette offset field is empty or not a number.
    PaletteOffsetInvalid,
    /// The source could not be opened at all.
    SourceOpenFailed,
    /// The source holds fewer bytes than the requested geometry demands.
    BufferUnderrun,
}

impl DecodeError {
    /// A short description, for display by the caller.
    pub fn message(&self) -> (r: &'static str)
        ensures
            r@ == self.message_spec(),
    {
        match self {
            DecodeError::InvalidGeometry => "a numeric field is empty or not a number",
            DecodeError::ZeroDimension => "width or height cannot be zero",
            DecodeError::TileMismatch => "image size is not divisible by tile size",
            DecodeError::InvalidComponentOrder => "invalid component order",
            DecodeError::PaletteOffsetInvalid => "palette offset is empty or not a number",
            DecodeError::SourceOpenFailed => "failed to open the source",
            DecodeError::BufferUnderrun => "failed to fill pixel data buffer",
        }
    }

    /// The text that `message` returns.
    pub open spec fn message_spec(&self) -> Seq<char> {
        match self {
            DecodeError::InvalidGeometry => "a numeric field is empty or not a number"@,
            DecodeError::ZeroDimension => "width or height cannot be zero"@,
            DecodeError::TileMismatch => "image size is not divisible by tile size"@,
            DecodeError::InvalidComponentOrder => "invalid component order"@,
            DecodeError::PaletteOffsetInvalid => "palette offset is empty or not a number"@,
            DecodeError::SourceOpenFailed => "failed to open the source"@,
            DecodeError::BufferUnderrun => "failed to fill pixel data buffer"@,
        }
    }
}

} // verus!
