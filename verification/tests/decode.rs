//! End-to-end decode tests: one per pixel-format rule, container layout,
//! and error path.

use raw_image::decode::{process_image, DecodeRequest};
use raw_image::error::DecodeError;
use raw_image::image::Image;
use raw_image::image_format::{Bpp, ImageFormat, PaletteInfo, TileInfo};
use raw_image::pixel_format::{Endian, PixelFormat, PixelFormatState};

fn state(fmt: PixelFormat, order: &str, endian: Endian) -> PixelFormatState {
    PixelFormatState { selected: fmt, component_order: String::from(order), endian }
}

#[test]
fn rgba8888_canonical_order_is_identity() {
    let pf = state(PixelFormat::RGBA8888, "rgba", Endian::LE);
    let src: Vec<u8> = (0..16).collect();
    let c = Image::linear(&pf, false, &src, 2, 2, 0).unwrap();
    assert_eq!(c.width, 2);
    assert_eq!(c.height, 2);
    assert_eq!(c.rgba, src);
}

#[test]
fn rgba8888_permutes_and_forces_alpha() {
    let pf = state(PixelFormat::RGBA8888, "bgra", Endian::LE);
    let src = vec![1, 2, 3, 4];
    let c = Image::linear(&pf, false, &src, 1, 1, 0).unwrap();
    assert_eq!(c.rgba, vec![3, 2, 1, 4]);
    let c = Image::linear(&pf, true, &src, 1, 1, 0).unwrap();
    assert_eq!(c.rgba, vec![3, 2, 1, 255]);
}

#[test]
fn rgb888_always_opaque() {
    let pf = state(PixelFormat::RGB888, "rgb", Endian::LE);
    let src = vec![9, 8, 7];
    let c = Image::linear(&pf, false, &src, 1, 1, 0).unwrap();
    assert_eq!(c.rgba, vec![9, 8, 7, 255]);
}

#[test]
fn rgba5551_extremes() {
    let pf = state(PixelFormat::RGBA5551, "rgba", Endian::LE);
    let ones = 0xFFFFu16.to_le_bytes().to_vec();
    let c = Image::linear(&pf, false, &ones, 1, 1, 0).unwrap();
    assert_eq!(c.rgba, vec![255, 255, 255, 255]);
    let zeros = vec![0, 0];
    let c = Image::linear(&pf, false, &zeros, 1, 1, 0).unwrap();
    assert_eq!(c.rgba, vec![0, 0, 0, 0]);
}

#[test]
fn rgba5551_rounding_formula() {
    // fields: r = 10, g = 21, b = 31, a = 1
    let word: u16 = 10 | (21 << 5) | (31 << 10) | (1 << 15);
    let pf = state(PixelFormat::RGBA5551, "rgba", Endian::LE);
    let c = Image::linear(&pf, false, &word.to_le_bytes(), 1, 1, 0).unwrap();
    // v * 8 + (v * 8) / 32
    assert_eq!(c.rgba, vec![82, 173, 255, 255]);
}

#[test]
fn rgba4444_le_word() {
    let pf = state(PixelFormat::RGBA4444, "rgba", Endian::LE);
    let src = 0x1234u16.to_le_bytes();
    let c = Image::linear(&pf, false, &src, 1, 1, 0).unwrap();
    assert_eq!(c.rgba, vec![4 * 17, 3 * 17, 2 * 17, 1 * 17]);
}

#[test]
fn rgba4444_be_word() {
    let pf = state(PixelFormat::RGBA4444, "rgba", Endian::BE);
    let src = 0x1234u16.to_be_bytes();
    let c = Image::linear(&pf, false, &src, 1, 1, 0).unwrap();
    assert_eq!(c.rgba, vec![4 * 17, 3 * 17, 2 * 17, 1 * 17]);
}

#[test]
fn rgb565_scaling_formula() {
    // fields: r = 16, g = 32, b = 16
    let word: u16 = 16 | (32 << 5) | (16 << 11);
    let pf = state(PixelFormat::RGB565, "rgb", Endian::LE);
    let c = Image::linear(&pf, false, &word.to_le_bytes(), 1, 1, 0).unwrap();
    // 16 * 8 = 128, + 128 / 32 = 132; 32 * 4 = 128, + 128 / 64 = 130
    assert_eq!(c.rgba, vec![132, 130, 132, 255]);
}

#[test]
fn single_channel_formats_zero_fill() {
    let src = vec![200];
    let c = Image::linear(&state(PixelFormat::R8, "", Endian::LE), false, &src, 1, 1, 0).unwrap();
    assert_eq!(c.rgba, vec![200, 0, 0, 255]);
    let c = Image::linear(&state(PixelFormat::G8, "", Endian::LE), false, &src, 1, 1, 0).unwrap();
    assert_eq!(c.rgba, vec![0, 200, 0, 255]);
    let c = Image::linear(&state(PixelFormat::B8, "", Endian::LE), false, &src, 1, 1, 0).unwrap();
    assert_eq!(c.rgba, vec![0, 0, 200, 255]);
    let c = Image::linear(&state(PixelFormat::L8, "", Endian::LE), false, &src, 1, 1, 0).unwrap();
    assert_eq!(c.rgba, vec![200, 200, 200, 255]);
}

#[test]
fn linear_honors_offset() {
    let pf = state(PixelFormat::L8, "", Endian::LE);
    let src = vec![11, 22, 33];
    let c = Image::linear(&pf, false, &src, 1, 1, 2).unwrap();
    assert_eq!(c.rgba, vec![33, 33, 33, 255]);
}

#[test]
fn palette_4bit_round_trip() {
    // Index stream at offset 0: the sixteen indices 0..15, low nibble first.
    // Palette table at offset 8: entry i = (i, i, i, 255), RGBA8888.
    let mut src = Vec::new();
    for j in 0u8..8 {
        src.push((2 * j) | ((2 * j + 1) << 4));
    }
    for i in 0u8..16 {
        src.extend_from_slice(&[i, i, i, 255]);
    }
    let pf = state(PixelFormat::RGBA8888, "rgba", Endian::LE);
    let palette = PaletteInfo { offset: String::from("8"), bpp: Bpp::Bpp4 };
    let c = Image::indexed(&pf, false, &palette, &src, 4, 4, 0).unwrap();
    for i in 0u8..16 {
        let at = i as usize * 4;
        assert_eq!(&c.rgba[at..at + 4], &[i, i, i, 255]);
    }
}

#[test]
fn palette_4bit_low_nibble_is_first_pixel() {
    // One index byte 0x21: pixel 0 takes entry 1, pixel 1 takes entry 2.
    let mut src = vec![0x21];
    for i in 0u8..16 {
        src.extend_from_slice(&[10 * i, 0, 0, 255]);
    }
    let pf = state(PixelFormat::RGBA8888, "rgba", Endian::LE);
    let palette = PaletteInfo { offset: String::from("1"), bpp: Bpp::Bpp4 };
    let c = Image::indexed(&pf, false, &palette, &src, 2, 1, 0).unwrap();
    assert_eq!(&c.rgba[0..4], &[10, 0, 0, 255]);
    assert_eq!(&c.rgba[4..8], &[20, 0, 0, 255]);
}

#[test]
fn palette_4bit_odd_pixel_count() {
    // 3 x 1 image: one index byte covers the first two pixels; the third has
    // no index byte and stays zero.
    let mut src = vec![0x21];
    for i in 0u8..16 {
        src.extend_from_slice(&[10 * i, 0, 0, 255]);
    }
    let pf = state(PixelFormat::RGBA8888, "rgba", Endian::LE);
    let palette = PaletteInfo { offset: String::from("1"), bpp: Bpp::Bpp4 };
    let c = Image::indexed(&pf, false, &palette, &src, 3, 1, 0).unwrap();
    assert_eq!(c.rgba.len(), 12);
    assert_eq!(&c.rgba[0..4], &[10, 0, 0, 255]);
    assert_eq!(&c.rgba[4..8], &[20, 0, 0, 255]);
    assert_eq!(&c.rgba[8..12], &[0, 0, 0, 0]);
}

#[test]
fn palette_8bit_expansion() {
    // Palette at offset 0 (256 L8 entries, entry i = i); indices at 256.
    let mut src: Vec<u8> = (0u16..256).map(|i| i as u8).collect();
    src.extend_from_slice(&[7, 0, 255, 128]);
    let pf = state(PixelFormat::L8, "", Endian::LE);
    let palette = PaletteInfo { offset: String::from("0"), bpp: Bpp::Bpp8 };
    let c = Image::indexed(&pf, false, &palette, &src, 2, 2, 256).unwrap();
    assert_eq!(&c.rgba[0..4], &[7, 7, 7, 255]);
    assert_eq!(&c.rgba[4..8], &[0, 0, 0, 255]);
    assert_eq!(&c.rgba[8..12], &[255, 255, 255, 255]);
    assert_eq!(&c.rgba[12..16], &[128, 128, 128, 255]);
}

#[test]
fn tiling_reassembles_quadrants() {
    // 4 x 4 canvas of 2 x 2 tiles; tile k's bytes are all k (L8).
    let mut src = Vec::new();
    for k in 0u8..4 {
        src.extend_from_slice(&[k; 4]);
    }
    let pf = state(PixelFormat::L8, "", Endian::LE);
    let tile = TileInfo { width: String::from("2"), height: String::from("2") };
    let c = Image::tiled(&pf, false, &tile, &src, 4, 4, 0).unwrap();
    for y in 0..4usize {
        for x in 0..4usize {
            let k = ((y / 2) * 2 + x / 2) as u8;
            let at = (y * 4 + x) * 4;
            assert_eq!(&c.rgba[at..at + 4], &[k, k, k, 255], "pixel ({x}, {y})");
        }
    }
}

#[test]
fn tiled_indexed_composes() {
    // 4 x 4 canvas of 2 x 2 tiles of 8-bit indices; tile k is filled with
    // index k; palette entry i = (i, 0, 0, 255) at offset 16.
    let mut src = vec![0u8; 16];
    for k in 0u8..4 {
        for p in 0..4 {
            src[k as usize * 4 + p] = k;
        }
    }
    for i in 0u16..256 {
        src.extend_from_slice(&[i as u8, 0, 0, 255]);
    }
    let pf = state(PixelFormat::RGBA8888, "rgba", Endian::LE);
    let palette = PaletteInfo { offset: String::from("16"), bpp: Bpp::Bpp8 };
    let tile = TileInfo { width: String::from("2"), height: String::from("2") };
    let c = Image::tiled_indexed(&pf, false, &palette, &tile, &src, 4, 4, 0).unwrap();
    for y in 0..4usize {
        for x in 0..4usize {
            let k = ((y / 2) * 2 + x / 2) as u8;
            let at = (y * 4 + x) * 4;
            assert_eq!(&c.rgba[at..at + 4], &[k, 0, 0, 255], "pixel ({x}, {y})");
        }
    }
}

#[test]
fn wrong_length_order_fails_before_any_read() {
    let pf = state(PixelFormat::RGBA8888, "rgb", Endian::LE);
    let empty: Vec<u8> = Vec::new();
    let e = Image::linear(&pf, false, &empty, 2, 2, 0).unwrap_err();
    assert_eq!(e, DecodeError::InvalidComponentOrder);
}

#[test]
fn permuted_order_succeeds() {
    let pf = state(PixelFormat::RGBA8888, "rgab", Endian::LE);
    let src = vec![10, 20, 30, 40];
    let c = Image::linear(&pf, false, &src, 1, 1, 0).unwrap();
    assert_eq!(c.rgba, vec![10, 20, 40, 30]);
}

#[test]
fn tile_mismatch_before_any_read() {
    let pf = state(PixelFormat::L8, "", Endian::LE);
    let tile = TileInfo { width: String::from("2"), height: String::from("2") };
    let empty: Vec<u8> = Vec::new();
    let e = Image::tiled(&pf, false, &tile, &empty, 5, 4, 0).unwrap_err();
    assert_eq!(e, DecodeError::TileMismatch);
}

#[test]
fn underrun_never_truncates() {
    let pf = state(PixelFormat::RGBA8888, "rgba", Endian::LE);
    let src = vec![0u8; 399];
    let e = Image::linear(&pf, false, &src, 10, 10, 0).unwrap_err();
    assert_eq!(e, DecodeError::BufferUnderrun);
    let src = vec![0u8; 400];
    assert!(Image::linear(&pf, false, &src, 10, 10, 0).is_ok());
    let e = Image::linear(&pf, false, &src, 10, 10, 1).unwrap_err();
    assert_eq!(e, DecodeError::BufferUnderrun);
}

#[test]
fn palette_table_underrun() {
    let pf = state(PixelFormat::RGBA8888, "rgba", Endian::LE);
    let palette = PaletteInfo { offset: String::from("0"), bpp: Bpp::Bpp4 };
    let src = vec![0u8; 63];
    let e = Image::indexed(&pf, false, &palette, &src, 2, 2, 0).unwrap_err();
    assert_eq!(e, DecodeError::BufferUnderrun);
}

#[test]
fn palette_offset_must_parse() {
    let pf = state(PixelFormat::RGBA8888, "rgba", Endian::LE);
    let palette = PaletteInfo { offset: String::new(), bpp: Bpp::Bpp8 };
    let src = vec![0u8; 2048];
    let e = Image::indexed(&pf, false, &palette, &src, 2, 2, 0).unwrap_err();
    assert_eq!(e, DecodeError::PaletteOffsetInvalid);
}

#[test]
fn tile_dimensions_must_parse_and_be_nonzero() {
    let pf = state(PixelFormat::L8, "", Endian::LE);
    let src = vec![0u8; 64];
    let tile = TileInfo { width: String::from("q"), height: String::from("2") };
    let e = Image::tiled(&pf, false, &tile, &src, 4, 4, 0).unwrap_err();
    assert_eq!(e, DecodeError::InvalidGeometry);
    let tile = TileInfo { width: String::from("0"), height: String::from("2") };
    let e = Image::tiled(&pf, false, &tile, &src, 4, 4, 0).unwrap_err();
    assert_eq!(e, DecodeError::ZeroDimension);
}

#[test]
fn process_image_linear_end_to_end() {
    let req = DecodeRequest {
        width: String::from("2"),
        height: String::from("1"),
        offset: String::from("1"),
        pixel_format: state(PixelFormat::L8, "", Endian::LE),
        ignore_alpha: false,
        image_format: ImageFormat::Linear,
        palette: PaletteInfo::default(),
        tile: TileInfo::default(),
    };
    let src = vec![1, 2, 3];
    let c = process_image(&req, &src).unwrap();
    assert_eq!((c.width, c.height), (2, 1));
    assert_eq!(c.rgba, vec![2, 2, 2, 255, 3, 3, 3, 255]);
}

#[test]
fn process_image_rejects_bad_geometry() {
    let mut req = DecodeRequest::default();
    req.pixel_format = state(PixelFormat::L8, "", Endian::LE);
    let src = vec![0u8; 16];
    req.width = String::from("two");
    assert_eq!(process_image(&req, &src).unwrap_err(), DecodeError::InvalidGeometry);
    req.width = String::from("2");
    req.height = String::new();
    assert_eq!(process_image(&req, &src).unwrap_err(), DecodeError::InvalidGeometry);
    req.height = String::from("0");
    assert_eq!(process_image(&req, &src).unwrap_err(), DecodeError::ZeroDimension);
    req.height = String::from("2");
    req.offset = String::from("9x");
    assert_eq!(process_image(&req, &src).unwrap_err(), DecodeError::InvalidGeometry);
}

#[test]
fn process_image_dispatches_on_layout() {
    let mut src = vec![0u8; 4];
    src[0] = 5;
    src[1] = 5;
    src[2] = 5;
    src[3] = 5;
    for i in 0u16..256 {
        src.push(i as u8);
    }
    let req = DecodeRequest {
        width: String::from("2"),
        height: String::from("2"),
        offset: String::from("0"),
        pixel_format: state(PixelFormat::L8, "", Endian::LE),
        ignore_alpha: false,
        image_format: ImageFormat::Indexed,
        palette: PaletteInfo { offset: String::from("4"), bpp: Bpp::Bpp8 },
        tile: TileInfo::default(),
    };
    let c = process_image(&req, &src).unwrap();
    assert_eq!(c.rgba, vec![5, 5, 5, 255, 5, 5, 5, 255, 5, 5, 5, 255, 5, 5, 5, 255]);
}

#[test]
fn canvas_is_always_full_size() {
    let pf = state(PixelFormat::RGB888, "bgr", Endian::LE);
    let src = vec![0u8; 36];
    let c = Image::linear(&pf, false, &src, 4, 3, 0).unwrap();
    assert_eq!(c.rgba.len(), 4 * 3 * 4);
}
