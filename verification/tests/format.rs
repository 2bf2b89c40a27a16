//! Unit tests for the pixel formats, component-order resolution, geometry
//! parsing and the small shared value types.

use raw_image::error::DecodeError;
use raw_image::geometry::parse_usize;
use raw_image::image_format::{Bpp, ImageFormat, PaletteInfo, TileInfo};
use raw_image::message::{SaveFormat, TextInput};
use raw_image::pixel_format::{rgb_order, rgba_order, Endian, PixelFormat, PixelFormatState};

#[test]
fn all_formats_listed() {
    let all = PixelFormat::all();
    assert_eq!(all.len(), 9);
    assert_eq!(all[0], PixelFormat::RGBA8888);
    assert_eq!(all[8], PixelFormat::L8);
}

#[test]
fn bytes_per_pixel_per_format() {
    assert_eq!(PixelFormat::RGBA8888.bytes_per_pixel(), 4);
    assert_eq!(PixelFormat::RGB888.bytes_per_pixel(), 3);
    assert_eq!(PixelFormat::RGBA4444.bytes_per_pixel(), 2);
    assert_eq!(PixelFormat::RGBA5551.bytes_per_pixel(), 2);
    assert_eq!(PixelFormat::RGB565.bytes_per_pixel(), 2);
    assert_eq!(PixelFormat::R8.bytes_per_pixel(), 1);
    assert_eq!(PixelFormat::G8.bytes_per_pixel(), 1);
    assert_eq!(PixelFormat::B8.bytes_per_pixel(), 1);
    assert_eq!(PixelFormat::L8.bytes_per_pixel(), 1);
}

#[test]
fn alpha_endian_orderable_flags() {
    assert!(PixelFormat::RGBA8888.use_alpha());
    assert!(PixelFormat::RGBA4444.use_alpha());
    assert!(PixelFormat::RGBA5551.use_alpha());
    assert!(!PixelFormat::RGB888.use_alpha());
    assert!(!PixelFormat::L8.use_alpha());

    assert!(!PixelFormat::RGBA8888.use_endian());
    assert!(PixelFormat::RGBA4444.use_endian());
    assert!(PixelFormat::RGBA5551.use_endian());
    assert!(PixelFormat::RGB565.use_endian());
    assert!(!PixelFormat::R8.use_endian());

    assert!(PixelFormat::is_orderable(&PixelFormat::RGB565));
    assert!(!PixelFormat::is_orderable(&PixelFormat::L8));
}

#[test]
fn default_orders() {
    assert_eq!(PixelFormat::RGBA8888.default_order(), "RGBA");
    assert_eq!(PixelFormat::RGBA4444.default_order(), "RGBA");
    assert_eq!(PixelFormat::RGB888.default_order(), "RGB");
    assert_eq!(PixelFormat::RGB565.default_order(), "RGB");
    assert_eq!(PixelFormat::L8.default_order(), "");
}

#[test]
fn valid_order_accepts_case_insensitive_permutations() {
    let v = PixelFormat::RGBA8888.valid_order("RgAb").unwrap();
    assert_eq!(v, vec!['r', 'g', 'a', 'b']);
    let v = PixelFormat::RGB565.valid_order("BGR").unwrap();
    assert_eq!(v, vec!['b', 'g', 'r']);
}

#[test]
fn valid_order_rejects_wrong_length_or_letters() {
    assert!(PixelFormat::RGBA8888.valid_order("rgb").is_none());
    assert!(PixelFormat::RGBA8888.valid_order("rgbb").is_none());
    assert!(PixelFormat::RGBA8888.valid_order("rgbax").is_none());
    assert!(PixelFormat::RGB888.valid_order("rga").is_none());
    assert!(PixelFormat::RGB888.valid_order("").is_none());
}

#[test]
fn valid_order_trivial_for_single_channel() {
    let v = PixelFormat::L8.valid_order("anything").unwrap();
    assert!(v.is_empty());
}

#[test]
fn rgba_order_positions() {
    let (r, g, b, a) = rgba_order(&vec!['a', 'b', 'g', 'r']).unwrap();
    assert_eq!((r, g, b, a), (3, 2, 1, 0));
    let err = rgba_order(&vec!['r', 'g', 'b']).unwrap_err();
    assert_eq!(err, DecodeError::InvalidComponentOrder);
}

#[test]
fn rgb_order_positions() {
    let (r, g, b) = rgb_order(&vec!['b', 'r', 'g']).unwrap();
    assert_eq!((r, g, b), (1, 2, 0));
    let err = rgb_order(&vec!['r', 'g']).unwrap_err();
    assert_eq!(err, DecodeError::InvalidComponentOrder);
}

#[test]
fn parse_usize_accepts_digits() {
    assert_eq!(parse_usize("0"), Some(0));
    assert_eq!(parse_usize("123"), Some(123));
    assert_eq!(parse_usize("007"), Some(7));
}

#[test]
fn parse_usize_rejects_bad_input() {
    assert_eq!(parse_usize(""), None);
    assert_eq!(parse_usize("12a"), None);
    assert_eq!(parse_usize("-1"), None);
    assert_eq!(parse_usize(" 1"), None);
    assert_eq!(parse_usize("99999999999999999999999999"), None);
}

#[test]
fn palette_info_parses_offset() {
    let p = PaletteInfo { offset: String::from("64"), bpp: Bpp::Bpp4 };
    assert_eq!(p.offset().unwrap(), 64);
    assert_eq!(p.color_count(), 16);
    let bad = PaletteInfo { offset: String::new(), bpp: Bpp::Bpp8 };
    assert_eq!(bad.offset().unwrap_err(), DecodeError::PaletteOffsetInvalid);
    assert_eq!(bad.color_count(), 256);
}

#[test]
fn tile_info_parses_dimensions() {
    let t = TileInfo { width: String::from("8"), height: String::from("4") };
    assert_eq!(t.width().unwrap(), 8);
    assert_eq!(t.height().unwrap(), 4);
    let bad = TileInfo { width: String::from("x"), height: String::new() };
    assert_eq!(bad.width().unwrap_err(), DecodeError::InvalidGeometry);
    assert_eq!(bad.height().unwrap_err(), DecodeError::InvalidGeometry);
}

#[test]
fn defaults_match_the_shell() {
    let pf = PixelFormatState::default();
    assert_eq!(pf.selected, PixelFormat::RGBA8888);
    assert_eq!(pf.component_order, "RGBA");
    assert_eq!(pf.endian, Endian::LE);
    let p = PaletteInfo::default();
    assert_eq!(p.offset, "0");
    assert_eq!(p.bpp, Bpp::Bpp8);
    let t = TileInfo::default();
    assert_eq!(t.width, "2");
    assert_eq!(t.height, "2");
    assert_eq!(Endian::default(), Endian::LE);
    assert_eq!(ImageFormat::default(), ImageFormat::Linear);
    assert_eq!(Bpp::default(), Bpp::Bpp8);
}

#[test]
fn save_format_extensions() {
    assert_eq!(SaveFormat::Png.extension(), &["png"]);
    assert!(SaveFormat::Rgba.extension().is_empty());
    assert!(matches!(SaveFormat::default(), SaveFormat::Png));
    let _ = TextInput::Width;
    let _ = TextInput::TileHeight;
}

#[test]
fn error_messages_are_descriptive() {
    assert_eq!(DecodeError::InvalidComponentOrder.message(), "invalid component order");
    assert_eq!(DecodeError::ZeroDimension.message(), "width or height cannot be zero");
    assert_eq!(DecodeError::BufferUnderrun.message(), "failed to fill pixel data buffer");
    assert_eq!(DecodeError::SourceOpenFailed.message(), "failed to open the source");
    assert_eq!(DecodeError::TileMismatch.message(), "image size is not divisible by tile size");
    assert_eq!(
        DecodeError::PaletteOffsetInvalid.message(),
        "palette offset is empty or not a number"
    );
    assert_eq!(DecodeError::InvalidGeometry.message(), "a numeric field is empty or not a number");
}
