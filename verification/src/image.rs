//! Image reconstruction: reads the required byte ranges out of the source
//! buffer and produces the canvas for each container layout — one linear
//! pixel stream, a palette-indexed stream, a sequence of fixed-size tiles,
//! or tiles of palette indices.
//!
//! Errors come in a fixed order: geometry first, then the component order,
//! then the palette offset, then tile divisibility, and only then short
//! reads. A failure aborts the whole decode; no partial canvas is returned.

use vstd::prelude::*;
use vstd::arithmetic::div_mod::{lemma_fundamental_div_mod, lemma_fundamental_div_mod_converse};

use crate::codec::{decode_stream, fill_rgba};
use crate::error::DecodeError;
use crate::geometry::{dec_ok, dec_value};
use crate::image_format::{Bpp, PaletteInfo, TileInfo};
use crate::pixel_format::{lower_seq, Endian, PixelFormat, PixelFormatState};

verus! {

/// The sole decode artifact: a row-major 8-bit RGBA buffer of exactly
/// `width * height * 4` bytes.
#[derive(Debug, Clone)]
pub struct Canvas {
    pub width: usize,
    pub height: usize,
    pub rgba: Vec<u8>,
}

impl Canvas {
    /// The buffer holds exactly four bytes per pixel.
    pub open spec fn wf(self) -> bool {
        self.rgba@.len() == self.width * self.height * 4
    }
}

/// Whether a positioned exact read of `need` bytes at `offset` fails: there
/// is something to read and the source ends too early. Reading nothing
/// succeeds at any offset.
pub open spec fn short_read(src_len: int, offset: int, need: int) -> bool {
    need > 0 && offset + need > src_len
}

/// Relates an executable decode result to its specified one: same error, or
/// a canvas of the requested size holding exactly the specified bytes.
pub open spec fn canvas_matches(
    r: Result<Canvas, DecodeError>,
    s: Result<Seq<u8>, DecodeError>,
    w: usize,
    h: usize,
) -> bool {
    match r {
        Ok(c) => s is Ok && c.width == w && c.height == h && c.rgba@ == s->Ok_0,
        Err(e) => s is Err && e == s->Err_0,
    }
}

/// The linear layout: the canvas is the decode of `w * h` consecutive packed
/// pixels starting at `offset`, or the first applicable error.
pub open spec fn spec_linear(
    fmt: PixelFormat,
    order: Seq<char>,
    endian: Endian,
    ignore_alpha: bool,
    src: Seq<u8>,
    w: int,
    h: int,
    offset: int,
) -> Result<Seq<u8>, DecodeError> {
    let bpp = fmt.spec_bytes_per_pixel() as int;
    let need = w * h * bpp;
    if !fmt.spec_valid_order(lower_seq(order)) {
        Err(DecodeError::InvalidComponentOrder)
    } else if short_read(src.len() as int, offset, need) {
        Err(DecodeError::BufferUnderrun)
    } else if need == 0 {
        Ok(Seq::empty())
    } else {
        Ok(
            decode_stream(
                fmt,
                fmt.spec_resolved_order(order),
                endian,
                ignore_alpha,
                src.subrange(offset, offset + need),
            ),
        )
    }
}

/// The palette index held by pixel slot `which` of a 4-bit index byte: the
/// low nibble is the earlier pixel, the high nibble the later one.
pub open spec fn nibble_index(b: u8, which: int) -> int {
    if which == 0 {
        (b & 0xF) as int
    } else {
        ((b & 0xF0) >> 4) as int
    }
}

/// Expands an index stream through a decoded color table.
///
/// `table` is the table's RGBA bytes (four per entry), `idx` the raw index
/// bytes, and the result holds `pixel_count` RGBA pixels: each index,
/// scaled by four, addresses its color-table entry. With 4-bit indices each
/// byte holds two pixels, and a final pixel with no index byte (odd
/// `pixel_count`) stays zero.
pub open spec fn expand_indices(
    table: Seq<u8>,
    idx: Seq<u8>,
    bpp: Bpp,
    pixel_count: int,
) -> Seq<u8> {
    Seq::new(
        (pixel_count * 4) as nat,
        |k: int|
            {
                let p = k / 4;
                let c = k % 4;
                match bpp {
                    Bpp::Bpp8 => if p < idx.len() {
                        table[(idx[p] as int) * 4 + c]
                    } else {
                        0u8
                    },
                    Bpp::Bpp4 => if p / 2 < idx.len() {
                        table[nibble_index(idx[p / 2], p % 2) * 4 + c]
                    } else {
                        0u8
                    },
                }
            },
    )
}

/// The two nibbles of an index byte both address a 16-entry table.
proof fn lemma_nibble_bounds(b: u8)
    by (bit_vector)
    ensures
        b & 0xF < 16,
        (b & 0xF0) >> 4 < 16,
{
}

/// The palette-indexed layout: the color table at the palette offset is
/// decoded through the pixel codec, then each index in the stream at
/// `offset` is expanded to its table entry, or the first applicable error.
pub open spec fn spec_indexed(
    fmt: PixelFormat,
    order: Seq<char>,
    endian: Endian,
    ignore_alpha: bool,
    palette: PaletteInfo,
    src: Seq<u8>,
    w: int,
    h: int,
    offset: int,
) -> Result<Seq<u8>, DecodeError> {
    let bpc = fmt.spec_bytes_per_pixel() as int;
    let cc = palette.bpp.spec_color_count() as int;
    let idx_len = match palette.bpp {
        Bpp::Bpp4 => w * h / 2,
        Bpp::Bpp8 => w * h,
    };
    if !fmt.spec_valid_order(lower_seq(order)) {
        Err(DecodeError::InvalidComponentOrder)
    } else if !dec_ok(palette.offset@) {
        Err(DecodeError::PaletteOffsetInvalid)
    } else if short_read(src.len() as int, dec_value(palette.offset@), cc * bpc) {
        Err(DecodeError::BufferUnderrun)
    } else if short_read(src.len() as int, offset, idx_len) {
        Err(DecodeError::BufferUnderrun)
    } else {
        let poff = dec_value(palette.offset@);
        let table = decode_stream(
            fmt,
            fmt.spec_resolved_order(order),
            endian,
            ignore_alpha,
            src.subrange(poff, poff + cc * bpc),
        );
        let idx = if idx_len == 0 {
            Seq::<u8>::empty()
        } else {
            src.subrange(offset, offset + idx_len)
        };
        Ok(expand_indices(table, idx, palette.bpp, w * h))
    }
}

/// The per-tile decoded RGBA streams of a tiled pixel stream: tile `t` is
/// the decode of bytes `t * tile_bytes .. (t + 1) * tile_bytes` of `data`,
/// in row-major tile order.
pub open spec fn tile_streams(
    fmt: PixelFormat,
    order: Seq<char>,
    endian: Endian,
    ignore_alpha: bool,
    data: Seq<u8>,
    tile_bytes: int,
    count: int,
) -> Seq<Seq<u8>> {
    Seq::new(
        count as nat,
        |t: int|
            decode_stream(
                fmt,
                order,
                endian,
                ignore_alpha,
                data.subrange(t * tile_bytes, (t + 1) * tile_bytes),
            ),
    )
}

/// Scatters row-major tiles into a `w` by `h` canvas: canvas pixel `(x, y)`
/// takes its four bytes from position `(x % tw, y % th)` of tile
/// `(y / th) * (w / tw) + (x / tw)`.
pub open spec fn assemble(tiles: Seq<Seq<u8>>, w: int, h: int, tw: int, th: int) -> Seq<u8> {
    Seq::new(
        (w * h * 4) as nat,
        |k: int|
            {
                let p = k / 4;
                let c = k % 4;
                let x = p % w;
                let y = p / w;
                let t = (y / th) * (w / tw) + x / tw;
                tiles[t][((y % th) * tw + (x % tw)) * 4 + c]
            },
    )
}

/// The tiled layout: the stream at `offset` holds whole tiles back to back;
/// each is decoded independently and scattered into the canvas, or the
/// first applicable error is returned.
pub open spec fn spec_tiled(
    fmt: PixelFormat,
    order: Seq<char>,
    endian: Endian,
    ignore_alpha: bool,
    tile: TileInfo,
    src: Seq<u8>,
    w: int,
    h: int,
    offset: int,
) -> Result<Seq<u8>, DecodeError> {
    if !dec_ok(tile.width@) || !dec_ok(tile.height@) {
        Err(DecodeError::InvalidGeometry)
    } else {
        let tw = dec_value(tile.width@);
        let th = dec_value(tile.height@);
        if tw == 0 || th == 0 {
            Err(DecodeError::ZeroDimension)
        } else if !fmt.spec_valid_order(lower_seq(order)) {
            Err(DecodeError::InvalidComponentOrder)
        } else if w % tw != 0 || h % th != 0 {
            Err(DecodeError::TileMismatch)
        } else {
            let bpp = fmt.spec_bytes_per_pixel() as int;
            let need = w * h * bpp;
            if short_read(src.len() as int, offset, need) {
                Err(DecodeError::BufferUnderrun)
            } else if need == 0 {
                Ok(Seq::empty())
            } else {
                Ok(
                    assemble(
                        tile_streams(
                            fmt,
                            fmt.spec_resolved_order(order),
                            endian,
                            ignore_alpha,
                            src.subrange(offset, offset + need),
                            tw * th * bpp,
                            (w / tw) * (h / th),
                        ),
                        w,
                        h,
                        tw,
                        th,
                    ),
                )
            }
        }
    }
}

/// Copies one four-byte RGBA entry out of `table` into `dst` at `di`.
fn copy_entry(dst: &mut Vec<u8>, di: usize, table: &Vec<u8>, si: usize)
    requires
        di + 4 <= old(dst)@.len(),
        si + 4 <= table@.len(),
    ensures
        final(dst)@.len() == old(dst)@.len(),
        forall|k: int|
            0 <= k < old(dst)@.len() ==> final(dst)@[k] == (if di <= k < di + 4 {
                table@[si + (k - di)]
            } else {
                old(dst)@[k]
            }),
{
    let table_len = table.len();
    let dst_len = dst.len();
    proof {
        assert(si + 4 <= table_len);
        assert(di + 4 <= dst_len);
    }
    dst.set(di, table[si]);
    dst.set(di + 1, table[si + 1]);
    dst.set(di + 2, table[si + 2]);
    dst.set(di + 3, table[si + 3]);
}

/// The per-tile RGBA streams of a tiled index stream: tile `t` expands the
/// index bytes `t * tile_idx_bytes .. (t + 1) * tile_idx_bytes` through the
/// decoded color table.
pub open spec fn index_tile_streams(
    table: Seq<u8>,
    idx: Seq<u8>,
    bpp: Bpp,
    tile_px: int,
    tile_idx_bytes: int,
    count: int,
) -> Seq<Seq<u8>> {
    Seq::new(
        count as nat,
        |t: int|
            expand_indices(
                table,
                idx.subrange(t * tile_idx_bytes, (t + 1) * tile_idx_bytes),
                bpp,
                tile_px,
            ),
    )
}

/// The tiled palette-indexed layout: the color table is decoded once, each
/// tile's index stream is expanded through it, and the expanded tiles are
/// scattered into the canvas, or the first applicable error is returned.
pub open spec fn spec_tiled_indexed(
    fmt: PixelFormat,
    order: Seq<char>,
    endian: Endian,
    ignore_alpha: bool,
    palette: PaletteInfo,
    tile: TileInfo,
    src: Seq<u8>,
    w: int,
    h: int,
    offset: int,
) -> Result<Seq<u8>, DecodeError> {
    if !dec_ok(tile.width@) || !dec_ok(tile.height@) {
        Err(DecodeError::InvalidGeometry)
    } else {
        let tw = dec_value(tile.width@);
        let th = dec_value(tile.height@);
        if tw == 0 || th == 0 {
            Err(DecodeError::ZeroDimension)
        } else if !fmt.spec_valid_order(lower_seq(order)) {
            Err(DecodeError::InvalidComponentOrder)
        } else if !dec_ok(palette.offset@) {
            Err(DecodeError::PaletteOffsetInvalid)
        } else if w % tw != 0 || h % th != 0 {
            Err(DecodeError::TileMismatch)
        } else {
            let bpc = fmt.spec_bytes_per_pixel() as int;
            let cc = palette.bpp.spec_color_count() as int;
            let poff = dec_value(palette.offset@);
            let tile_px = tw * th;
            let tile_idx_bytes = match palette.bpp {
                Bpp::Bpp4 => tile_px / 2,
                Bpp::Bpp8 => tile_px,
            };
            let count = (w / tw) * (h / th);
            let total = count * tile_idx_bytes;
            if short_read(src.len() as int, poff, cc * bpc) {
                Err(DecodeError::BufferUnderrun)
            } else if short_read(src.len() as int, offset, total) {
                Err(DecodeError::BufferUnderrun)
            } else {
                let table = decode_stream(
                    fmt,
                    fmt.spec_resolved_order(order),
                    endian,
                    ignore_alpha,
                    src.subrange(poff, poff + cc * bpc),
                );
                let idx = if total == 0 {
                    Seq::<u8>::empty()
                } else {
                    src.subrange(offset, offset + total)
                };
                Ok(
                    assemble(
                        index_tile_streams(table, idx, palette.bpp, tile_px, tile_idx_bytes, count),
                        w,
                        h,
                        tw,
                        th,
                    ),
                )
            }
        }
    }
}

/// Expands one tile's worth of palette indices through an already-decoded
/// color table into a fresh RGBA buffer of `pixel_count` pixels.
#[verifier::rlimit(100)]
fn expand_tile(table: &Vec<u8>, bpp: Bpp, idx: &[u8], pixel_count: usize) -> (out: Vec<u8>)
    requires
        pixel_count * 4 <= usize::MAX,
        bpp == Bpp::Bpp4 ==> table@.len() == 64 && idx@.len() == pixel_count / 2,
        bpp == Bpp::Bpp8 ==> table@.len() == 1024 && idx@.len() == pixel_count,
    ensures
        out@ == expand_indices(table@, idx@, bpp, pixel_count as int),
        out@.len() == pixel_count * 4,
{
    let mut out = vec![0u8; pixel_count * 4];
    let idx_len = idx.len();
    let ghost target = expand_indices(table@, idx@, bpp, pixel_count as int);
    match bpp {
        Bpp::Bpp4 => {
            proof {
                lemma_fundamental_div_mod(pixel_count as int, 2);
            }
            for i in 0..idx_len
                invariant
                    idx_len == pixel_count / 2,
                    idx_len == idx@.len(),
                    2 * idx_len <= pixel_count,
                    pixel_count * 4 <= usize::MAX,
                    out@.len() == pixel_count * 4,
                    target.len() == pixel_count * 4,
                    table@.len() == 64,
                    target == expand_indices(table@, idx@, Bpp::Bpp4, pixel_count as int),
                    forall|k: int| 0 <= k < 8 * i ==> out@[k] == target[k],
                    forall|k: int| 8 * i <= k < pixel_count * 4 ==> out@[k] == 0,
            {
                let b = idx[i];
                proof {
                    lemma_nibble_bounds(b);
                    assert(8 * i + 8 <= 8 * idx_len);
                    assert(8 * idx_len == 4 * (2 * idx_len));
                }
                let s1 = (b & 0xF) as usize * 4;
                let s2 = ((b & 0xF0) >> 4) as usize * 4;
                let d1 = i * 8;
                copy_entry(&mut out, d1, table, s1);
                copy_entry(&mut out, d1 + 4, table, s2);
                proof {
                    assert forall|k: int| 0 <= k < 8 * (i + 1) implies out@[k] == target[k] by {
                        if 8 * i <= k {
                            let r = k - 8 * i;
                            if r < 4 {
                                lemma_fundamental_div_mod_converse(k, 4, 2 * i, r);
                                lemma_fundamental_div_mod_converse(2 * i, 2, i as int, 0);
                            } else {
                                lemma_fundamental_div_mod_converse(k, 4, 2 * i + 1, r - 4);
                                lemma_fundamental_div_mod_converse(2 * i + 1, 2, i as int, 1);
                            }
                        }
                    }
                }
            }
            proof {
                assert forall|k: int| 0 <= k < pixel_count * 4 implies out@[k] == target[k] by {
                    if 8 * idx_len <= k {
                        vstd::arithmetic::div_mod::lemma_div_is_ordered(8 * idx_len, k, 4);
                        lemma_fundamental_div_mod_converse(8 * idx_len, 4, 2 * idx_len, 0);
                        vstd::arithmetic::div_mod::lemma_div_is_ordered(2 * idx_len, k / 4, 2);
                        lemma_fundamental_div_mod_converse(2 * idx_len, 2, idx_len as int, 0);
                    }
                }
                assert(out@ =~= target);
            }
        },
        Bpp::Bpp8 => {
            for i in 0..idx_len
                invariant
                    idx_len == pixel_count,
                    idx_len == idx@.len(),
                    pixel_count * 4 <= usize::MAX,
                    out@.len() == pixel_count * 4,
                    target.len() == pixel_count * 4,
                    table@.len() == 1024,
                    target == expand_indices(table@, idx@, Bpp::Bpp8, pixel_count as int),
                    forall|k: int| 0 <= k < 4 * i ==> out@[k] == target[k],
                    forall|k: int| 4 * i <= k < pixel_count * 4 ==> out@[k] == 0,
            {
                let b = idx[i];
                let si = b as usize * 4;
                let di = i * 4;
                copy_entry(&mut out, di, table, si);
                proof {
                    assert forall|k: int| 0 <= k < 4 * (i + 1) implies out@[k] == target[k] by {
                        if 4 * i <= k {
                            lemma_fundamental_div_mod_converse(k, 4, i as int, k - 4 * i);
                        }
                    }
                }
            }
            proof {
                assert(out@ =~= target);
            }
        },
    }
    out
}

/// Scatters already-decoded row-major tiles into a fresh canvas buffer.
#[verifier::rlimit(100)]
fn scatter_tiles(
    tiles: &Vec<Vec<u8>>,
    w: usize,
    h: usize,
    tile_w: usize,
    tile_h: usize,
) -> (rgba: Vec<u8>)
    requires
        tile_w >= 1,
        tile_h >= 1,
        w % tile_w == 0,
        h % tile_h == 0,
        w * h * 4 <= usize::MAX,
        tiles@.len() == (w / tile_w) * (h / tile_h),
        forall|j: int|
            0 <= j < tiles@.len() ==> (#[trigger] tiles@[j])@.len() == tile_w * tile_h * 4,
    ensures
        rgba@ == assemble(tiles.deep_view(), w as int, h as int, tile_w as int, tile_h as int),
        rgba@.len() == w * h * 4,
{
    let tile_row = w / tile_w;
    let tile_col = h / tile_h;
    let tile_count = tiles.len();
    let pixel_total = w * h;
    proof {
        lemma_fundamental_div_mod(w as int, tile_w as int);
        lemma_fundamental_div_mod(h as int, tile_h as int);
        assert(w == tile_row * tile_w);
        assert(h == tile_col * tile_h);
    }
    let mut rgba = vec![0u8; pixel_total * 4];
    let ghost target = assemble(
        tiles.deep_view(),
        w as int,
        h as int,
        tile_w as int,
        tile_h as int,
    );
    proof {
        assert(target.len() == pixel_total * 4);
        assert forall|j: int| 0 <= j < tiles@.len() implies #[trigger] tiles.deep_view()[j]
            == tiles@[j]@ by {
            assert(tiles.deep_view()[j] =~= tiles@[j]@);
        }
    }
    let mut y: usize = 0;
    while y < h
        invariant
            y <= h,
            tile_count == tiles@.len(),
            forall|j: int| 0 <= j < tiles@.len() ==> #[trigger] tiles.deep_view()[j] == tiles@[j]@,
            tile_w >= 1,
            tile_h >= 1,
            w == tile_row * tile_w,
            h == tile_col * tile_h,
            pixel_total == w * h,
            pixel_total * 4 <= usize::MAX,
            rgba@.len() == pixel_total * 4,
            target.len() == pixel_total * 4,
            target == assemble(tiles.deep_view(), w as int, h as int, tile_w as int, tile_h as int),
            tiles@.len() == tile_row * tile_col,
            forall|j: int|
                0 <= j < tiles@.len() ==> (#[trigger] tiles@[j])@.len() == tile_w * tile_h * 4,
            forall|k: int| 0 <= k < y * w * 4 ==> rgba@[k] == target[k],
        decreases h - y,
    {
        proof {
            assert(y * w + w <= pixel_total) by (nonlinear_arith)
                requires
                    y + 1 <= h,
                    pixel_total == w * h,
                    w >= 0,
            ;
        }
        let mut x: usize = 0;
        while x < w
            invariant
                x <= w,
                tile_count == tiles@.len(),
                forall|j: int|
                    0 <= j < tiles@.len() ==> #[trigger] tiles.deep_view()[j] == tiles@[j]@,
                tile_w >= 1,
                tile_h >= 1,
                w == tile_row * tile_w,
                h == tile_col * tile_h,
                y < h,
                pixel_total == w * h,
                pixel_total * 4 <= usize::MAX,
                y * w + w <= pixel_total,
                rgba@.len() == pixel_total * 4,
                target.len() == pixel_total * 4,
                target == assemble(
                    tiles.deep_view(),
                    w as int,
                    h as int,
                    tile_w as int,
                    tile_h as int,
                ),
                tiles@.len() == tile_row * tile_col,
                forall|j: int|
                    0 <= j < tiles@.len() ==> (#[trigger] tiles@[j])@.len() == tile_w * tile_h * 4,
                forall|k: int| 0 <= k < (y * w + x) * 4 ==> rgba@[k] == target[k],
            decreases w - x,
        {
            let tile_x = x / tile_w;
            let tile_y = y / tile_h;
            proof {
                assert(x < tile_w * tile_row) by (nonlinear_arith)
                    requires
                        x < w,
                        w == tile_row * tile_w,
                ;
                vstd::arithmetic::div_mod::lemma_multiply_divide_lt(
                    x as int,
                    tile_w as int,
                    tile_row as int,
                );
                assert(y < tile_h * tile_col) by (nonlinear_arith)
                    requires
                        y < h,
                        h == tile_col * tile_h,
                ;
                vstd::arithmetic::div_mod::lemma_multiply_divide_lt(
                    y as int,
                    tile_h as int,
                    tile_col as int,
                );
                assert(tile_y * tile_row + tile_x < tile_row * tile_col) by (nonlinear_arith)
                    requires
                        tile_x < tile_row,
                        tile_y < tile_col,
                        tile_row >= 0,
                ;
            }
            let ti = tile_y * tile_row + tile_x;
            let xr = x % tile_w;
            let yr = y % tile_h;
            proof {
                lemma_fundamental_div_mod(x as int, tile_w as int);
                lemma_fundamental_div_mod(y as int, tile_h as int);
                lemma_fundamental_div_mod_converse(w as int, tile_w as int, tile_row as int, 0);
                lemma_fundamental_div_mod_converse(h as int, tile_h as int, tile_col as int, 0);
                assert(yr * tile_w + xr + 1 <= tile_w * tile_h) by (nonlinear_arith)
                    requires
                        xr < tile_w,
                        yr < tile_h,
                        tile_w >= 1,
                ;
                assert(tile_w <= w) by (nonlinear_arith)
                    requires
                        w == tile_row * tile_w,
                        w >= 1,
                        tile_w >= 1,
                        tile_row >= 0,
                ;
                assert(tile_h <= h) by (nonlinear_arith)
                    requires
                        h == tile_col * tile_h,
                        h >= 1,
                        tile_h >= 1,
                        tile_col >= 0,
                ;
                assert(tile_w * tile_h <= pixel_total) by (nonlinear_arith)
                    requires
                        0 <= tile_w <= w,
                        0 <= tile_h <= h,
                        pixel_total == w * h,
                ;
            }
            let si = (yr * tile_w + xr) * 4;
            let di = (y * w + x) * 4;
            let tref = &tiles[ti];
            copy_entry(&mut rgba, di, tref, si);
            proof {
                let p = (y * w + x) as int;
                assert forall|k: int| 0 <= k < (p + 1) * 4 implies rgba@[k] == target[k] by {
                    if p * 4 <= k {
                        lemma_fundamental_div_mod_converse(k, 4, p, k - p * 4);
                        lemma_fundamental_div_mod_converse(p, w as int, y as int, x as int);
                        assert(target[k] == tiles.deep_view()[(tile_y * tile_row
                            + tile_x) as int][((yr * tile_w + xr) * 4 + (k - p * 4)) as int]);
                        assert(tiles.deep_view()[ti as int] == tiles@[ti as int]@);
                    }
                }
            }
            x = x + 1;
        }
        proof {
            assert((y * w + w) * 4 == ((y + 1) * w) * 4) by (nonlinear_arith);
        }
        y = y + 1;
    }
    proof {
        assert(h * w == pixel_total) by (nonlinear_arith)
            requires
                pixel_total == w * h,
        ;
        assert(rgba@ =~= target);
    }
    rgba
}

/// Reconstructs images; each method covers one container layout.
pub struct Image {}

impl Image {
    /// Decodes a linear pixel stream into a `w` by `h` canvas.
    ///
    /// The component order is validated before any read; a source that ends
    /// before `w * h` whole pixels is `BufferUnderrun`, never a truncated
    /// canvas.
    pub fn linear(
        pf: &PixelFormatState,
        ignore_alpha: bool,
        src: &[u8],
        w: usize,
        h: usize,
        offset: usize,
    ) -> (r: Result<Canvas, DecodeError>)
        requires
            w * h * 4 <= usize::MAX,
        ensures
            canvas_matches(
                r,
                spec_linear(
                    pf.selected,
                    pf.component_order@,
                    pf.endian,
                    ignore_alpha,
                    src@,
                    w as int,
                    h as int,
                    offset as int,
                ),
                w,
                h,
            ),
            r matches Ok(c) ==> c.wf(),
    {
        let fmt = pf.selected;
        let bpp = fmt.bytes_per_pixel();
        let pixel_count = w * h;
        proof {
            assert(pixel_count * bpp <= pixel_count * 4) by (nonlinear_arith)
                requires
                    1 <= bpp <= 4,
                    pixel_count >= 0,
            ;
        }
        let need = pixel_count * bpp;

        if fmt.valid_order(pf.component_order.as_str()).is_none() {
            return Err(DecodeError::InvalidComponentOrder);
        }
        if need > 0 && (offset > src.len() || src.len() - offset < need) {
            return Err(DecodeError::BufferUnderrun);
        }
        if need == 0 {
            let rgba: Vec<u8> = Vec::new();
            proof {
                assert(rgba@ =~= Seq::<u8>::empty());
            }
            return Ok(Canvas { width: w, height: h, rgba });
        }
        let data = vstd::slice::slice_subrange(src, offset, offset + need);
        let mut rgba = vec![0u8; pixel_count * 4];
        proof {
            assert((pixel_count * bpp) as int / bpp as int == pixel_count) by (nonlinear_arith)
                requires
                    bpp >= 1,
                    pixel_count >= 0,
            ;
        }
        match fill_rgba(pf, ignore_alpha, &mut rgba, data) {
            Ok(_) => Ok(Canvas { width: w, height: h, rgba }),
            Err(e) => Err(e),
        }
    }

    /// Decodes a palette-indexed pixel stream into a `w` by `h` canvas.
    ///
    /// The color table at the palette offset is decoded through the pixel
    /// codec first; the index stream at `offset` then selects one table
    /// entry per pixel (two pixels per byte for 4-bit indices).
    #[verifier::rlimit(100)]
    pub fn indexed(
        pf: &PixelFormatState,
        ignore_alpha: bool,
        palette: &PaletteInfo,
        src: &[u8],
        w: usize,
        h: usize,
        offset: usize,
    ) -> (r: Result<Canvas, DecodeError>)
        requires
            w * h * 4 <= usize::MAX,
        ensures
            canvas_matches(
                r,
                spec_indexed(
                    pf.selected,
                    pf.component_order@,
                    pf.endian,
                    ignore_alpha,
                    *palette,
                    src@,
                    w as int,
                    h as int,
                    offset as int,
                ),
                w,
                h,
            ),
            r matches Ok(c) ==> c.wf(),
    {
        let fmt = pf.selected;
        let bpc = fmt.bytes_per_pixel();
        if fmt.valid_order(pf.component_order.as_str()).is_none() {
            return Err(DecodeError::InvalidComponentOrder);
        }
        let palette_offset = match palette.offset() {
            Ok(v) => v,
            Err(e) => {
                return Err(e);
            },
        };
        let color_count = palette.color_count();
        let table_bytes = color_count * bpc;
        if palette_offset > src.len() || src.len() - palette_offset < table_bytes {
            return Err(DecodeError::BufferUnderrun);
        }
        let palette_data = vstd::slice::slice_subrange(
            src,
            palette_offset,
            palette_offset + table_bytes,
        );
        let mut palette_rgba = vec![0u8; color_count * 4];
        proof {
            assert((color_count * bpc) as int / bpc as int == color_count) by (nonlinear_arith)
                requires
                    bpc >= 1,
                    color_count >= 0,
            ;
        }
        match fill_rgba(pf, ignore_alpha, &mut palette_rgba, palette_data) {
            Ok(_) => (),
            Err(e) => {
                return Err(e);
            },
        }
        let pixel_count = w * h;
        let idx_len = match palette.bpp {
            Bpp::Bpp4 => pixel_count / 2,
            Bpp::Bpp8 => pixel_count,
        };
        if idx_len > 0 && (offset > src.len() || src.len() - offset < idx_len) {
            return Err(DecodeError::BufferUnderrun);
        }
        let ghost idx = if idx_len == 0 {
            Seq::<u8>::empty()
        } else {
            src@.subrange(offset as int, offset as int + idx_len as int)
        };
        let empty_pixels: Vec<u8> = Vec::new();
        let pixel_data: &[u8] = if idx_len == 0 {
            empty_pixels.as_slice()
        } else {
            vstd::slice::slice_subrange(src, offset, offset + idx_len)
        };
        proof {
            assert(pixel_data@ =~= idx);
            if palette.bpp == Bpp::Bpp4 {
                lemma_fundamental_div_mod(pixel_count as int, 2);
            }
        }
        let rgba = expand_tile(&palette_rgba, palette.bpp, pixel_data, pixel_count);
        Ok(Canvas { width: w, height: h, rgba })
    }

    /// Decodes a stream of fixed-size tiles into a `w` by `h` canvas.
    ///
    /// Tiles are stored whole, back to back, in row-major tile order; each
    /// tile is decoded independently and scattered into place. The image
    /// dimensions must be exact multiples of the tile dimensions.
    #[verifier::rlimit(100)]
    pub fn tiled(
        pf: &PixelFormatState,
        ignore_alpha: bool,
        tile: &TileInfo,
        src: &[u8],
        w: usize,
        h: usize,
        offset: usize,
    ) -> (r: Result<Canvas, DecodeError>)
        requires
            w * h * 4 <= usize::MAX,
        ensures
            canvas_matches(
                r,
                spec_tiled(
                    pf.selected,
                    pf.component_order@,
                    pf.endian,
                    ignore_alpha,
                    *tile,
                    src@,
                    w as int,
                    h as int,
                    offset as int,
                ),
                w,
                h,
            ),
            r matches Ok(c) ==> c.wf(),
    {
        let fmt = pf.selected;
        let tile_w = match tile.width() {
            Ok(v) => v,
            Err(e) => {
                return Err(e);
            },
        };
        let tile_h = match tile.height() {
            Ok(v) => v,
            Err(e) => {
                return Err(e);
            },
        };
        if tile_w == 0 || tile_h == 0 {
            return Err(DecodeError::ZeroDimension);
        }
        if fmt.valid_order(pf.component_order.as_str()).is_none() {
            return Err(DecodeError::InvalidComponentOrder);
        }
        if w % tile_w != 0 || h % tile_h != 0 {
            return Err(DecodeError::TileMismatch);
        }
        let bpp = fmt.bytes_per_pixel();
        let pixel_total = w * h;
        proof {
            assert(pixel_total * bpp <= pixel_total * 4) by (nonlinear_arith)
                requires
                    1 <= bpp <= 4,
                    pixel_total >= 0,
            ;
        }
        let need = pixel_total * bpp;
        if need > 0 && (offset > src.len() || src.len() - offset < need) {
            return Err(DecodeError::BufferUnderrun);
        }
        if need == 0 {
            let rgba: Vec<u8> = Vec::new();
            proof {
                assert(rgba@ =~= Seq::<u8>::empty());
                assert(pixel_total == 0) by (nonlinear_arith)
                    requires
                        pixel_total * bpp == 0,
                        bpp >= 1,
                        pixel_total >= 0,
                ;
            }
            return Ok(Canvas { width: w, height: h, rgba });
        }
        proof {
            assert(pixel_total >= 1) by (nonlinear_arith)
                requires
                    pixel_total * bpp > 0,
                    bpp >= 1,
                    pixel_total >= 0,
            ;
            assert(w >= 1 && h >= 1) by (nonlinear_arith)
                requires
                    pixel_total == w * h,
                    pixel_total >= 1,
                    w >= 0,
                    h >= 0,
            ;
        }
        let tile_row = w / tile_w;
        let tile_col = h / tile_h;
        proof {
            lemma_fundamental_div_mod(w as int, tile_w as int);
            lemma_fundamental_div_mod(h as int, tile_h as int);
            assert(w == tile_row * tile_w) by (nonlinear_arith)
                requires
                    w == tile_w * tile_row,
            ;
            assert(h == tile_col * tile_h) by (nonlinear_arith)
                requires
                    h == tile_h * tile_col,
            ;
            assert(tile_row >= 1 && tile_w <= w) by (nonlinear_arith)
                requires
                    w == tile_row * tile_w,
                    w >= 1,
                    tile_w >= 1,
                    tile_row >= 0,
            ;
            assert(tile_col >= 1 && tile_h <= h) by (nonlinear_arith)
                requires
                    h == tile_col * tile_h,
                    h >= 1,
                    tile_h >= 1,
                    tile_col >= 0,
            ;
            assert(tile_row * tile_col <= pixel_total && tile_w * tile_h <= pixel_total)
                by (nonlinear_arith)
                requires
                    1 <= tile_row <= w,
                    1 <= tile_col <= h,
                    1 <= tile_w <= w,
                    1 <= tile_h <= h,
                    pixel_total == w * h,
            ;
        }
        let tile_count = tile_row * tile_col;
        let tile_px = tile_w * tile_h;
        let tile_bytes = tile_px * bpp;
        proof {
            assert(tile_px >= 1) by (nonlinear_arith)
                requires
                    tile_px == tile_w * tile_h,
                    tile_w >= 1,
                    tile_h >= 1,
            ;
            assert(tile_px * bpp <= tile_px * 4) by (nonlinear_arith)
                requires
                    1 <= bpp <= 4,
                    tile_px >= 0,
            ;
            assert(tile_count * tile_bytes == need) by (nonlinear_arith)
                requires
                    tile_count == tile_row * tile_col,
                    tile_bytes == tile_px * bpp,
                    tile_px == tile_w * tile_h,
                    w == tile_row * tile_w,
                    h == tile_col * tile_h,
                    need == pixel_total * bpp,
                    pixel_total == w * h,
            ;
        }
        let data = vstd::slice::slice_subrange(src, offset, offset + need);
        let ghost ospec = fmt.spec_resolved_order(pf.component_order@);
        let ghost tstreams = tile_streams(
            fmt,
            ospec,
            pf.endian,
            ignore_alpha,
            data@,
            tile_bytes as int,
            tile_count as int,
        );
        let mut tiles: Vec<Vec<u8>> = Vec::new();
        let mut t: usize = 0;
        while t < tile_count
            invariant
                t <= tile_count,
                tiles@.len() == t,
                fmt == pf.selected,
                bpp == fmt.spec_bytes_per_pixel(),
                1 <= bpp <= 4,
                fmt.spec_valid_order(lower_seq(pf.component_order@)),
                ospec == fmt.spec_resolved_order(pf.component_order@),
                tile_px >= 1,
                tile_bytes == tile_px * bpp,
                tile_px * 4 <= usize::MAX,
                tile_count * tile_bytes == need,
                need == data@.len(),
                data@.len() <= usize::MAX,
                tstreams == tile_streams(
                    fmt,
                    ospec,
                    pf.endian,
                    ignore_alpha,
                    data@,
                    tile_bytes as int,
                    tile_count as int,
                ),
                forall|j: int| 0 <= j < t ==> (#[trigger] tiles@[j])@ == tstreams[j],
                forall|j: int| 0 <= j < t ==> (#[trigger] tiles@[j])@.len() == tile_px * 4,
            decreases tile_count - t,
        {
            proof {
                assert((t + 1) * tile_bytes <= tile_count * tile_bytes) by (nonlinear_arith)
                    requires
                        t + 1 <= tile_count,
                        tile_bytes >= 0,
                ;
                assert(t * tile_bytes + tile_bytes == (t + 1) * tile_bytes) by (nonlinear_arith);
            }
            let chunk = vstd::slice::slice_subrange(
                data,
                t * tile_bytes,
                t * tile_bytes + tile_bytes,
            );
            let mut tile_rgba = vec![0u8; tile_px * 4];
            proof {
                assert((tile_px * bpp) as int / bpp as int == tile_px) by (nonlinear_arith)
                    requires
                        bpp >= 1,
                        tile_px >= 0,
                ;
            }
            match fill_rgba(pf, ignore_alpha, &mut tile_rgba, chunk) {
                Ok(_) => (),
                Err(e) => {
                    return Err(e);
                },
            }
            tiles.push(tile_rgba);
            t = t + 1;
        }
        proof {
            assert(tile_row == w as int / tile_w as int);
            assert(tile_col == h as int / tile_h as int);
        }
        let rgba = scatter_tiles(&tiles, w, h, tile_w, tile_h);
        proof {
            assert forall|j: int| 0 <= j < tile_count implies #[trigger] tiles.deep_view()[j]
                == tstreams[j] by {
                assert(tiles.deep_view()[j] =~= tiles@[j]@);
            }
            assert(tiles.deep_view() =~~= tstreams);
        }
        Ok(Canvas { width: w, height: h, rgba })
    }

    /// Decodes a stream of fixed-size tiles of palette indices into a `w`
    /// by `h` canvas.
    ///
    /// The color table is decoded once through the pixel codec; each tile's
    /// index stream is then expanded through it and the expanded tiles are
    /// scattered into place, composing the tiled and indexed layouts.
    #[verifier::rlimit(100)]
    pub fn tiled_indexed(
        pf: &PixelFormatState,
        ignore_alpha: bool,
        palette: &PaletteInfo,
        tile: &TileInfo,
        src: &[u8],
        w: usize,
        h: usize,
        offset: usize,
    ) -> (r: Result<Canvas, DecodeError>)
        requires
            w * h * 4 <= usize::MAX,
        ensures
            canvas_matches(
                r,
                spec_tiled_indexed(
                    pf.selected,
                    pf.component_order@,
                    pf.endian,
                    ignore_alpha,
                    *palette,
                    *tile,
                    src@,
                    w as int,
                    h as int,
                    offset as int,
                ),
                w,
                h,
            ),
            r matches Ok(c) ==> c.wf(),
    {
        let fmt = pf.selected;
        let tile_w = match tile.width() {
            Ok(v) => v,
            Err(e) => {
                return Err(e);
            },
        };
        let tile_h = match tile.height() {
            Ok(v) => v,
            Err(e) => {
                return Err(e);
            },
        };
        if tile_w == 0 || tile_h == 0 {
            return Err(DecodeError::ZeroDimension);
        }
        if fmt.valid_order(pf.component_order.as_str()).is_none() {
            return Err(DecodeError::InvalidComponentOrder);
        }
        let palette_offset = match palette.offset() {
            Ok(v) => v,
            Err(e) => {
                return Err(e);
            },
        };
        if w % tile_w != 0 || h % tile_h != 0 {
            return Err(DecodeError::TileMismatch);
        }
        let bpc = fmt.bytes_per_pixel();
        let color_count = palette.color_count();
        let table_bytes = color_count * bpc;
        if palette_offset > src.len() || src.len() - palette_offset < table_bytes {
            return Err(DecodeError::BufferUnderrun);
        }
        let palette_data = vstd::slice::slice_subrange(
            src,
            palette_offset,
            palette_offset + table_bytes,
        );
        let mut palette_rgba = vec![0u8; color_count * 4];
        proof {
            assert((color_count * bpc) as int / bpc as int == color_count) by (nonlinear_arith)
                requires
                    bpc >= 1,
                    color_count >= 0,
            ;
        }
        match fill_rgba(pf, ignore_alpha, &mut palette_rgba, palette_data) {
            Ok(_) => (),
            Err(e) => {
                return Err(e);
            },
        }
        let pixel_total = w * h;
        if pixel_total == 0 {
            let rgba: Vec<u8> = Vec::new();
            proof {
                assert(w == 0 || h == 0) by (nonlinear_arith)
                    requires
                        pixel_total == w * h,
                        pixel_total == 0,
                        w >= 0,
                        h >= 0,
                ;
                let twi = dec_value(tile.width@);
                let thi = dec_value(tile.height@);
                if w == 0 {
                    vstd::arithmetic::div_mod::lemma_basic_div(0, twi);
                } else {
                    vstd::arithmetic::div_mod::lemma_basic_div(0, thi);
                }
                let count = (w as int / twi) * (h as int / thi);
                assert(count == 0) by (nonlinear_arith)
                    requires
                        count == (w as int / twi) * (h as int / thi),
                        w as int / twi == 0 || h as int / thi == 0,
                ;
                let sres = spec_tiled_indexed(
                    fmt,
                    pf.component_order@,
                    pf.endian,
                    ignore_alpha,
                    *palette,
                    *tile,
                    src@,
                    w as int,
                    h as int,
                    offset as int,
                );
                assert(sres is Ok);
                assert(rgba@ =~= sres->Ok_0);
            }
            return Ok(Canvas { width: w, height: h, rgba });
        }
        proof {
            assert(w >= 1 && h >= 1) by (nonlinear_arith)
                requires
                    pixel_total == w * h,
                    pixel_total >= 1,
                    w >= 0,
                    h >= 0,
            ;
        }
        let tile_row = w / tile_w;
        let tile_col = h / tile_h;
        proof {
            lemma_fundamental_div_mod(w as int, tile_w as int);
            lemma_fundamental_div_mod(h as int, tile_h as int);
            assert(w == tile_row * tile_w) by (nonlinear_arith)
                requires
                    w == tile_w * tile_row,
            ;
            assert(h == tile_col * tile_h) by (nonlinear_arith)
                requires
                    h == tile_h * tile_col,
            ;
            assert(tile_row >= 1 && tile_w <= w) by (nonlinear_arith)
                requires
                    w == tile_row * tile_w,
                    w >= 1,
                    tile_w >= 1,
                    tile_row >= 0,
            ;
            assert(tile_col >= 1 && tile_h <= h) by (nonlinear_arith)
                requires
                    h == tile_col * tile_h,
                    h >= 1,
                    tile_h >= 1,
                    tile_col >= 0,
            ;
            assert(tile_row * tile_col <= pixel_total && tile_w * tile_h <= pixel_total)
                by (nonlinear_arith)
                requires
                    1 <= tile_row <= w,
                    1 <= tile_col <= h,
                    1 <= tile_w <= w,
                    1 <= tile_h <= h,
                    pixel_total == w * h,
            ;
        }
        let tile_count = tile_row * tile_col;
        let tile_px = tile_w * tile_h;
        let tile_idx_bytes = match palette.bpp {
            Bpp::Bpp4 => tile_px / 2,
            Bpp::Bpp8 => tile_px,
        };
        proof {
            assert(tile_px >= 1) by (nonlinear_arith)
                requires
                    tile_px == tile_w * tile_h,
                    tile_w >= 1,
                    tile_h >= 1,
            ;
            assert(tile_count * tile_idx_bytes <= tile_count * tile_px) by (nonlinear_arith)
                requires
                    0 <= tile_idx_bytes <= tile_px,
                    tile_count >= 0,
            ;
            assert(tile_count * tile_px == pixel_total) by (nonlinear_arith)
                requires
                    tile_count == tile_row * tile_col,
                    tile_px == tile_w * tile_h,
                    w == tile_row * tile_w,
                    h == tile_col * tile_h,
                    pixel_total == w * h,
            ;
        }
        let total = tile_count * tile_idx_bytes;
        if total > 0 && (offset > src.len() || src.len() - offset < total) {
            return Err(DecodeError::BufferUnderrun);
        }
        let ghost table = palette_rgba@;
        let empty_pixels: Vec<u8> = Vec::new();
        let pixel_data: &[u8] = if total == 0 {
            empty_pixels.as_slice()
        } else {
            vstd::slice::slice_subrange(src, offset, offset + total)
        };
        let ghost idx = if total == 0 {
            Seq::<u8>::empty()
        } else {
            src@.subrange(offset as int, offset as int + total as int)
        };
        let ghost istreams = index_tile_streams(
            table,
            idx,
            palette.bpp,
            tile_px as int,
            tile_idx_bytes as int,
            tile_count as int,
        );
        proof {
            assert(pixel_data@ =~= idx);
        }
        let mut tiles: Vec<Vec<u8>> = Vec::new();
        let mut t: usize = 0;
        while t < tile_count
            invariant
                t <= tile_count,
                tiles@.len() == t,
                tile_px >= 1,
                tile_px * 4 <= usize::MAX,
                palette.bpp == Bpp::Bpp4 ==> table.len() == 64 && tile_idx_bytes == tile_px / 2,
                palette.bpp == Bpp::Bpp8 ==> table.len() == 1024 && tile_idx_bytes == tile_px,
                palette_rgba@ == table,
                tile_count * tile_idx_bytes == total,
                total == pixel_data@.len(),
                pixel_data@ == idx,
                total <= usize::MAX,
                istreams == index_tile_streams(
                    table,
                    idx,
                    palette.bpp,
                    tile_px as int,
                    tile_idx_bytes as int,
                    tile_count as int,
                ),
                forall|j: int| 0 <= j < t ==> (#[trigger] tiles@[j])@ == istreams[j],
                forall|j: int| 0 <= j < t ==> (#[trigger] tiles@[j])@.len() == tile_px * 4,
            decreases tile_count - t,
        {
            proof {
                assert((t + 1) * tile_idx_bytes <= tile_count * tile_idx_bytes)
                    by (nonlinear_arith)
                    requires
                        t + 1 <= tile_count,
                        tile_idx_bytes >= 0,
                ;
                assert(t * tile_idx_bytes + tile_idx_bytes == (t + 1) * tile_idx_bytes)
                    by (nonlinear_arith);
            }
            let chunk = vstd::slice::slice_subrange(
                pixel_data,
                t * tile_idx_bytes,
                t * tile_idx_bytes + tile_idx_bytes,
            );
            let tile_rgba = expand_tile(&palette_rgba, palette.bpp, chunk, tile_px);
            tiles.push(tile_rgba);
            t = t + 1;
        }
        proof {
            assert(tile_row == w as int / tile_w as int);
            assert(tile_col == h as int / tile_h as int);
        }
        let rgba = scatter_tiles(&tiles, w, h, tile_w, tile_h);
        proof {
            assert forall|j: int| 0 <= j < tile_count implies #[trigger] tiles.deep_view()[j]
                == istreams[j] by {
                assert(tiles.deep_view()[j] =~= tiles@[j]@);
            }
            assert(tiles.deep_view() =~~= istreams);
        }
        Ok(Canvas { width: w, height: h, rgba })
    }
}

} // verus!
