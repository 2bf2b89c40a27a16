//! The decode pipeline: one request aggregates everything the caller typed,
//! and `process_image` validates the geometry, dispatches on the container
//! layout, and produces the canvas or the first error.

use vstd::prelude::*;

use crate::error::DecodeError;
use crate::geometry::{dec_ok, dec_value, parse_usize};
use crate::image::{spec_indexed, spec_linear, spec_tiled, spec_tiled_indexed, Canvas, Image};
use crate::image_format::{ImageFormat, PaletteInfo, TileInfo};
use crate::pixel_format::PixelFormatState;

verus! {

/// Everything one decode invocation needs, as the caller supplied it:
/// geometry fields still as text, the pixel encoding, the container layout,
/// and the palette and tile parameters. Built fresh per invocation and
/// discarded once the canvas or the error is out.
#[derive(Debug)]
pub struct DecodeRequest {
    pub width: String,
    pub height: String,
    pub offset: String,
    pub pixel_format: PixelFormatState,
    pub ignore_alpha: bool,
    pub image_format: ImageFormat,
    pub palette: PaletteInfo,
    pub tile: TileInfo,
}

impl Default for DecodeRequest {
    fn default() -> (r: Self)
        ensures
            r.width@ == "2"@,
            r.height@ == "2"@,
            r.offset@ == "0"@,
            r.ignore_alpha == false,
            r.image_format == ImageFormat::Linear,
    {
        DecodeRequest {
            width: "2".to_owned(),
            height: "2".to_owned(),
            offset: "0".to_owned(),
            pixel_format: PixelFormatState::default(),
            ignore_alpha: false,
            image_format: ImageFormat::default(),
            palette: PaletteInfo::default(),
            tile: TileInfo::default(),
        }
    }
}

/// The whole pipeline: geometry is validated first (`InvalidGeometry`, then
/// `ZeroDimension`), then the request dispatches on its container layout.
pub open spec fn spec_process(req: DecodeRequest, src: Seq<u8>) -> Result<Seq<u8>, DecodeError> {
    if !dec_ok(req.width@) || !dec_ok(req.height@) || !dec_ok(req.offset@) {
        Err(DecodeError::InvalidGeometry)
    } else {
        let w = dec_value(req.width@);
        let h = dec_value(req.height@);
        let offset = dec_value(req.offset@);
        if w == 0 || h == 0 {
            Err(DecodeError::ZeroDimension)
        } else {
            match req.image_format {
                ImageFormat::Linear => spec_linear(
                    req.pixel_format.selected,
                    req.pixel_format.component_order@,
                    req.pixel_format.endian,
                    req.ignore_alpha,
                    src,
                    w,
                    h,
                    offset,
                ),
                ImageFormat::Indexed => spec_indexed(
                    req.pixel_format.selected,
                    req.pixel_format.component_order@,
                    req.pixel_format.endian,
                    req.ignore_alpha,
                    req.palette,
                    src,
                    w,
                    h,
                    offset,
                ),
                ImageFormat::Tiled => spec_tiled(
                    req.pixel_format.selected,
                    req.pixel_format.component_order@,
                    req.pixel_format.endian,
                    req.ignore_alpha,
                    req.tile,
                    src,
                    w,
                    h,
                    offset,
                ),
                ImageFormat::TiledIndexed => spec_tiled_indexed(
                    req.pixel_format.selected,
                    req.pixel_format.component_order@,
                    req.pixel_format.endian,
                    req.ignore_alpha,
                    req.palette,
                    req.tile,
                    src,
                    w,
                    h,
                    offset,
                ),
            }
        }
    }
}

/// Runs one decode request against the source bytes.
///
/// The caller must have checked that the requested canvas fits the machine:
/// a parsed width and height whose product of pixels times four overflows
/// `usize` cannot be allocated.
pub fn process_image(req: &DecodeRequest, src: &[u8]) -> (r: Result<Canvas, DecodeError>)
    requires
        dec_ok(req.width@) && dec_ok(req.height@) ==> dec_value(req.width@) * dec_value(
            req.height@,
        ) * 4 <= usize::MAX,
    ensures
        ({
            let sres = spec_process(*req, src@);
            match r {
                Ok(c) => sres is Ok && c.rgba@ == sres->Ok_0 && c.width == dec_value(req.width@)
                    && c.height == dec_value(req.height@) && c.wf(),
                Err(e) => sres is Err && e == sres->Err_0,
            }
        }),
{
    let w = match parse_usize(req.width.as_str()) {
        Some(v) => v,
        None => {
            return Err(DecodeError::InvalidGeometry);
        },
    };
    let h = match parse_usize(req.height.as_str()) {
        Some(v) => v,
        None => {
            return Err(DecodeError::InvalidGeometry);
        },
    };
    let offset = match parse_usize(req.offset.as_str()) {
        Some(v) => v,
        None => {
            return Err(DecodeError::InvalidGeometry);
        },
    };
    if w == 0 || h == 0 {
        return Err(DecodeError::ZeroDimension);
    }
    match req.image_format {
        ImageFormat::Linear => Image::linear(
            &req.pixel_format,
            req.ignore_alpha,
            src,
            w,
            h,
            offset,
        ),
        ImageFormat::Indexed => Image::indexed(
            &req.pixel_format,
            req.ignore_alpha,
            &req.palette,
            src,
            w,
            h,
            offset,
        ),
        ImageFormat::Tiled => Image::tiled(
            &req.pixel_format,
            req.ignore_alpha,
            &req.tile,
            src,
            w,
            h,
            offset,
        ),
        ImageFormat::TiledIndexed => Image::tiled_indexed(
            &req.pixel_format,
            req.ignore_alpha,
            &req.palette,
            &req.tile,
            src,
            w,
            h,
            offset,
        ),
    }
}

} // verus!
