//! Container layouts and their parameters: how the pixel stream is arranged
//! in the source (linear, palette-indexed, tiled, or both), the palette
//! table's location and index width, and the tile dimensions.

use vstd::prelude::*;

use crate::error::DecodeError;
use crate::geometry::{dec_ok, dec_value, parse_usize};

verus! {

/// How the source bytes are arranged: one linear pixel stream, a palette
/// index stream, a sequence of fixed-size tiles, or tiles of palette indices.
#[derive(Debug, Clone, Copy, PartialEq, Eq, Structural)]
pub enum ImageFormat {
    Linear,
    Indexed,
    Tiled,
    TiledIndexed,
}

impl Default for ImageFormat {
    fn default() -> (r: Self)
        ensures
            r == ImageFormat::Linear,
    {
        ImageFormat::Linear
    }
}

/// The width of one palette index in the source stream.
#[derive(Debug, Clone, Copy, PartialEq, Eq, Structural)]
pub enum Bpp {
    /// 4-bit indices: two pixels per source byte, 16 table entries.
    Bpp4,
    /// 8-bit indices: one pixel per source byte, 256 table entries.
    Bpp8,
}

impl Default for Bpp {
    fn default() -> (r: Self)
        ensures
            r == Bpp::Bpp8,
    {
        Bpp::Bpp8
    }
}

impl Bpp {
    /// The number of entries in the palette's color table.
    pub open spec fn spec_color_count(self) -> usize {
        match self {
            Bpp::Bpp4 => 16,
            Bpp::Bpp8 => 256,
        }
    }

    /// The number of entries in the palette's color table: every index the
    /// stream can hold addresses an entry.
    pub fn color_count(&self) -> (r: usize)
        ensures
            r == self.spec_color_count(),
    {
        match self {
            Bpp::Bpp4 => 16,
            Bpp::Bpp8 => 256,
        }
    }
}

/// Where the palette's color table starts and how wide one index is.
#[derive(Debug, Clone)]
pub struct PaletteInfo {
    /// The byte offset of the color table, as typed by the user.
    pub offset: String,
    pub bpp: Bpp,
}

impl Default for PaletteInfo {
    fn default() -> (r: Self)
        ensures
            r.offset@ == "0"@,
            r.bpp == Bpp::Bpp8,
    {
        PaletteInfo { offset: "0".to_owned(), bpp: Bpp::default() }
    }
}

impl PaletteInfo {
    /// The number of entries in the color table.
    pub fn color_count(&self) -> (r: usize)
        ensures
            r == self.bpp.spec_color_count(),
    {
        self.bpp.color_count()
    }

    /// The color table's byte offset, parsed from the user field; an empty or
    /// non-numeric field is `PaletteOffsetInvalid`.
    pub fn offset(&self) -> (r: Result<usize, DecodeError>)
        ensures
            r is Ok <==> dec_ok(self.offset@),
            r matches Ok(v) ==> v == dec_value(self.offset@),
            r is Err ==> r == Err::<usize, DecodeError>(DecodeError::PaletteOffsetInvalid),
    {
        match parse_usize(self.offset.as_str()) {
            Some(v) => Ok(v),
            None => Err(DecodeError::PaletteOffsetInvalid),
        }
    }
}

/// The tile dimensions for the tiled layouts, as typed by the user.
#[derive(Debug, Clone)]
pub struct TileInfo {
    pub width: String,
    pub height: String,
}

impl Default for TileInfo {
    fn default() -> (r: Self)
        ensures
            r.width@ == "2"@,
            r.height@ == "2"@,
    {
        TileInfo { width: "2".to_owned(), height: "2".to_owned() }
    }
}

impl TileInfo {
    /// The tile width in pixels, parsed from the user field; an empty or
    /// non-numeric field is `InvalidGeometry`.
    pub fn width(&self) -> (r: Result<usize, DecodeError>)
        ensures
            r is Ok <==> dec_ok(self.width@),
            r matches Ok(v) ==> v == dec_value(self.width@),
            r is Err ==> r == Err::<usize, DecodeError>(DecodeError::InvalidGeometry),
    {
        match parse_usize(self.width.as_str()) {
            Some(v) => Ok(v),
            None => Err(DecodeError::InvalidGeometry),
        }
    }

    /// The tile height in pixels, parsed from the user field; an empty or
    /// non-numeric field is `InvalidGeometry`.
    pub fn height(&self) -> (r: Result<usize, DecodeError>)
        ensures
            r is Ok <==> dec_ok(self.height@),
            r matches Ok(v) ==> v == dec_value(self.height@),
            r is Err ==> r == Err::<usize, DecodeError>(DecodeError::InvalidGeometry),
    {
        match parse_usize(self.height.as_str()) {
            Some(v) => Ok(v),
            None => Err(DecodeError::InvalidGeometry),
        }
    }
}

} // verus!
