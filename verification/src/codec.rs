//! The pixel codec: one fixed-width packed pixel becomes four 8-bit channel
//! bytes in canonical R, G, B, A order, and a packed pixel stream becomes an
//! RGBA byte stream.
//!
//! The 2-byte formats first combine their raw bytes into a 16-bit word per the
//! configured endianness, then extract bit fields and scale each to 8 bits:
//! 4-bit fields by 17 (15 x 17 = 255), 5-bit fields by 8 plus an eighth of the
//! scaled value (31 x 8 + 7 = 255), 6-bit fields by 4 plus a quarter of the
//! scaled value. These exact formulas are part of the contract; pixel-exact
//! consumers depend on them.

use vstd::prelude::*;

use crate::error::DecodeError;
use crate::pixel_format::{first_pos, lemma_first_pos, lower_seq, Endian, PixelFormat,
    PixelFormatState, rgb_order, rgba_order};

verus! {

/// The 16-bit value that the two raw bytes of a 2-byte pixel form.
pub open spec fn word_value(b0: u8, b1: u8, endian: Endian) -> u16 {
    match endian {
        Endian::LE => (b0 + 256 * b1) as u16,
        Endian::BE => (b1 + 256 * b0) as u16,
    }
}

/// One pixel decoded to canonical RGBA, given the resolved channel positions.
///
/// `ri`, `gi`, `bi`, `ai` index the pixel's channel slots (raw bytes for the
/// 8-bit formats, packed fields in bit order for the 2-byte formats); they are
/// ignored by the single-channel formats.
pub open spec fn spec_decode_pixel(
    fmt: PixelFormat,
    ri: int,
    gi: int,
    bi: int,
    ai: int,
    endian: Endian,
    ignore_alpha: bool,
    chunk: Seq<u8>,
) -> Seq<u8> {
    match fmt {
        PixelFormat::RGBA8888 => {
            let a = if ignore_alpha { 255u8 } else { chunk[ai] };
            seq![chunk[ri], chunk[gi], chunk[bi], a]
        },
        PixelFormat::RGB888 => seq![chunk[ri], chunk[gi], chunk[bi], 255u8],
        PixelFormat::RGBA4444 => {
            let w = word_value(chunk[0], chunk[1], endian);
            let color = seq![
                ((w & 0xF) * 17) as u8,
                (((w & 0xF0) >> 4) * 17) as u8,
                (((w & 0xF00) >> 8) * 17) as u8,
                (((w & 0xF000) >> 12) * 17) as u8,
            ];
            let a = if ignore_alpha { 255u8 } else { color[ai] };
            seq![color[ri], color[gi], color[bi], a]
        },
        PixelFormat::RGBA5551 => {
            let w = word_value(chunk[0], chunk[1], endian);
            let f0 = ((w & 0x1F) * 8) as u8;
            let f1 = (((w & 0x3E0) >> 5) * 8) as u8;
            let f2 = (((w & 0x7C00) >> 10) * 8) as u8;
            let f3 = (((w & 0x8000) >> 15) * 255) as u8;
            let color = seq![
                (f0 + f0 / 32) as u8,
                (f1 + f1 / 32) as u8,
                (f2 + f2 / 32) as u8,
                f3,
            ];
            let a = if ignore_alpha { 255u8 } else { color[ai] };
            seq![color[ri], color[gi], color[bi], a]
        },
        PixelFormat::RGB565 => {
            let w = word_value(chunk[0], chunk[1], endian);
            let f0 = ((w & 0x1F) * 8) as u8;
            let f1 = (((w & 0x7E0) >> 5) * 4) as u8;
            let f2 = (((w & 0xF800) >> 11) * 8) as u8;
            let color = seq![
                (f0 + f0 / 32) as u8,
                (f1 + f1 / 64) as u8,
                (f2 + f2 / 32) as u8,
            ];
            seq![color[ri], color[gi], color[bi], 255u8]
        },
        PixelFormat::R8 => seq![chunk[0], 0u8, 0u8, 255u8],
        PixelFormat::G8 => seq![0u8, chunk[0], 0u8, 255u8],
        PixelFormat::B8 => seq![0u8, 0u8, chunk[0], 255u8],
        PixelFormat::L8 => seq![chunk[0], chunk[0], chunk[0], 255u8],
    }
}

/// One pixel decoded to canonical RGBA under a lower-cased component order:
/// each channel's slot is the position of its letter in the order string.
pub open spec fn decoded_pixel(
    fmt: PixelFormat,
    order: Seq<char>,
    endian: Endian,
    ignore_alpha: bool,
    chunk: Seq<u8>,
) -> Seq<u8> {
    spec_decode_pixel(
        fmt,
        first_pos(order, 'r'),
        first_pos(order, 'g'),
        first_pos(order, 'b'),
        first_pos(order, 'a'),
        endian,
        ignore_alpha,
        chunk,
    )
}

/// A whole packed pixel stream decoded to RGBA: pixel `i` of the result is the
/// decode of bytes `i * bpp .. (i + 1) * bpp` of `data`. Trailing bytes that do
/// not fill a pixel are dropped.
pub open spec fn decode_stream(
    fmt: PixelFormat,
    order: Seq<char>,
    endian: Endian,
    ignore_alpha: bool,
    data: Seq<u8>,
) -> Seq<u8> {
    let bpp = fmt.spec_bytes_per_pixel() as int;
    let n = data.len() as int / bpp;
    Seq::new(
        (4 * n) as nat,
        |k: int|
            decoded_pixel(
                fmt,
                order,
                endian,
                ignore_alpha,
                data.subrange((k / 4) * bpp, (k / 4) * bpp + bpp),
            )[k % 4],
    )
}

/// Every bit field a 2-byte format extracts stays within its width.
proof fn lemma_field_bounds(w: u16)
    by (bit_vector)
    ensures
        w & 0xF < 16,
        (w & 0xF0) >> 4 < 16,
        (w & 0xF00) >> 8 < 16,
        (w & 0xF000) >> 12 < 16,
        w & 0x1F < 32,
        (w & 0x3E0) >> 5 < 32,
        (w & 0x7C00) >> 10 < 32,
        (w & 0x8000) >> 15 < 2,
        (w & 0x7E0) >> 5 < 64,
        (w & 0xF800) >> 11 < 32,
{
}

/// Combines the two bytes of a 2-byte pixel per the configured endianness.
fn pixel_word(chunk: &[u8], endian: Endian) -> (w: u16)
    requires
        chunk@.len() == 2,
    ensures
        w == word_value(chunk@[0], chunk@[1], endian),
{
    let b0 = chunk[0];
    let b1 = chunk[1];
    match endian {
        Endian::LE => b0 as u16 + 256 * (b1 as u16),
        Endian::BE => b1 as u16 + 256 * (b0 as u16),
    }
}

/// Decodes one packed pixel into canonical R, G, B, A bytes.
///
/// The positions come from `rgba_order` or `rgb_order` on the resolved order;
/// the single-channel formats ignore them.
pub fn decode_pixel(
    fmt: PixelFormat,
    ri: usize,
    gi: usize,
    bi: usize,
    ai: usize,
    endian: Endian,
    ignore_alpha: bool,
    chunk: &[u8],
) -> (out: [u8; 4])
    requires
        chunk@.len() == fmt.spec_bytes_per_pixel(),
        fmt.spec_channel_count() == 4 ==> ri < 4 && gi < 4 && bi < 4 && ai < 4,
        fmt.spec_channel_count() == 3 ==> ri < 3 && gi < 3 && bi < 3,
    ensures
        out@ =~= spec_decode_pixel(
            fmt,
            ri as int,
            gi as int,
            bi as int,
            ai as int,
            endian,
            ignore_alpha,
            chunk@,
        ),
{
    match fmt {
        PixelFormat::RGBA8888 => {
            let a = if ignore_alpha { 255 } else { chunk[ai] };
            [chunk[ri], chunk[gi], chunk[bi], a]
        },
        PixelFormat::RGB888 => [chunk[ri], chunk[gi], chunk[bi], 255],
        PixelFormat::RGBA4444 => {
            let w = pixel_word(chunk, endian);
            proof {
                lemma_field_bounds(w);
            }
            let c0 = (w & 0xF) as u8 * 17;
            let c1 = ((w & 0xF0) >> 4) as u8 * 17;
            let c2 = ((w & 0xF00) >> 8) as u8 * 17;
            let c3 = ((w & 0xF000) >> 12) as u8 * 17;
            let color = [c0, c1, c2, c3];
            let a = if ignore_alpha { 255 } else { color[ai] };
            [color[ri], color[gi], color[bi], a]
        },
        PixelFormat::RGBA5551 => {
            let w = pixel_word(chunk, endian);
            proof {
                lemma_field_bounds(w);
            }
            let mut c0 = (w & 0x1F) as u8 * 8;
            let mut c1 = ((w & 0x3E0) >> 5) as u8 * 8;
            let mut c2 = ((w & 0x7C00) >> 10) as u8 * 8;
            let c3 = ((w & 0x8000) >> 15) as u8 * 255;
            c0 = c0 + c0 / 32;
            c1 = c1 + c1 / 32;
            c2 = c2 + c2 / 32;
            let color = [c0, c1, c2, c3];
            let a = if ignore_alpha { 255 } else { color[ai] };
            [color[ri], color[gi], color[bi], a]
        },
        PixelFormat::RGB565 => {
            let w = pixel_word(chunk, endian);
            proof {
                lemma_field_bounds(w);
            }
            let mut c0 = (w & 0x1F) as u8 * 8;
            let mut c1 = ((w & 0x7E0) >> 5) as u8 * 4;
            let mut c2 = ((w & 0xF800) >> 11) as u8 * 8;
            c0 = c0 + c0 / 32;
            c1 = c1 + c1 / 64;
            c2 = c2 + c2 / 32;
            let color = [c0, c1, c2];
            [color[ri], color[gi], color[bi], 255]
        },
        PixelFormat::R8 => [chunk[0], 0, 0, 255],
        PixelFormat::G8 => [0, chunk[0], 0, 255],
        PixelFormat::B8 => [0, 0, chunk[0], 255],
        PixelFormat::L8 => [chunk[0], chunk[0], chunk[0], 255],
    }
}

/// Decodes the packed pixel stream `data` into `rgba`, which must hold exactly
/// four bytes per whole pixel of `data`.
///
/// The component order is validated first: an invalid order aborts the decode
/// with `InvalidComponentOrder` and leaves `rgba` untouched; there is no
/// best-effort default. On success `rgba` holds the full decoded stream.
#[verifier::rlimit(100)]
pub fn fill_rgba(
    pf: &PixelFormatState,
    ignore_alpha: bool,
    rgba: &mut Vec<u8>,
    data: &[u8],
) -> (r: Result<(), DecodeError>)
    requires
        old(rgba)@.len() == 4 * (data@.len() as int / pf.selected.spec_bytes_per_pixel() as int),
    ensures
        r is Ok <==> pf.selected.spec_valid_order(lower_seq(pf.component_order@)),
        r is Err ==> r == Err::<(), DecodeError>(DecodeError::InvalidComponentOrder)
            && final(rgba)@ == old(rgba)@,
        r is Ok ==> final(rgba)@ == decode_stream(
            pf.selected,
            pf.selected.spec_resolved_order(pf.component_order@),
            pf.endian,
            ignore_alpha,
            data@,
        ),
{
    let fmt = pf.selected;
    let order = match fmt.valid_order(pf.component_order.as_str()) {
        Some(o) => o,
        None => {
            return Err(DecodeError::InvalidComponentOrder);
        },
    };
    proof {
        lemma_first_pos(order@, 'r');
        lemma_first_pos(order@, 'g');
        lemma_first_pos(order@, 'b');
        lemma_first_pos(order@, 'a');
    }
    let (ri, gi, bi, ai): (usize, usize, usize, usize) = match fmt {
        PixelFormat::RGBA8888 | PixelFormat::RGBA4444 | PixelFormat::RGBA5551 => {
            match rgba_order(&order) {
                Ok(t) => t,
                Err(e) => {
                    return Err(e);
                },
            }
        },
        PixelFormat::RGB888 | PixelFormat::RGB565 => {
            match rgb_order(&order) {
                Ok(t) => (t.0, t.1, t.2, 0),
                Err(e) => {
                    return Err(e);
                },
            }
        },
        _ => (0, 0, 0, 0),
    };
    let ghost ospec = fmt.spec_resolved_order(pf.component_order@);
    let ghost target = decode_stream(fmt, ospec, pf.endian, ignore_alpha, data@);
    let bpp = fmt.bytes_per_pixel();
    let n = data.len() / bpp;
    let rgba_len = rgba.len();
    proof {
        assert(ri == first_pos(ospec, 'r') || fmt.spec_channel_count() == 0);
        vstd::arithmetic::div_mod::lemma_fundamental_div_mod(data@.len() as int, bpp as int);
        assert(rgba_len == 4 * n);
    }
    for i in 0..n
        invariant
            n == data@.len() as int / bpp as int,
            bpp == fmt.spec_bytes_per_pixel(),
            n * bpp <= data@.len(),
            data@.len() <= usize::MAX,
            4 * n <= usize::MAX,
            rgba@.len() == 4 * n,
            target.len() == 4 * n,
            fmt == pf.selected,
            target == decode_stream(fmt, ospec, pf.endian, ignore_alpha, data@),
            ospec == fmt.spec_resolved_order(pf.component_order@),
            fmt.spec_channel_count() == 4 ==> ri < 4 && gi < 4 && bi < 4 && ai < 4 && ri
                == first_pos(ospec, 'r') && gi == first_pos(ospec, 'g') && bi == first_pos(
                ospec,
                'b',
            ) && ai == first_pos(ospec, 'a'),
            fmt.spec_channel_count() == 3 ==> ri < 3 && gi < 3 && bi < 3 && ri == first_pos(
                ospec,
                'r',
            ) && gi == first_pos(ospec, 'g') && bi == first_pos(ospec, 'b'),
            forall|k: int| 0 <= k < 4 * i ==> rgba@[k] == target[k],
        decreases n - i,
    {
        proof {
            assert((i + 1) * bpp <= n * bpp) by (nonlinear_arith)
                requires
                    i + 1 <= n,
                    bpp >= 1,
            ;
            assert(i * bpp + bpp == (i + 1) * bpp) by (nonlinear_arith);
        }
        let chunk = vstd::slice::slice_subrange(data, i * bpp, i * bpp + bpp);
        let out = decode_pixel(fmt, ri, gi, bi, ai, pf.endian, ignore_alpha, chunk);
        rgba.set(4 * i, out[0]);
        rgba.set(4 * i + 1, out[1]);
        rgba.set(4 * i + 2, out[2]);
        rgba.set(4 * i + 3, out[3]);
        proof {
            assert forall|k: int| 0 <= k < 4 * (i + 1) implies rgba@[k] == target[k] by {
                if 4 * i <= k {
                    let j = k % 4;
                    assert(k == 4 * i + j);
                    assert(k / 4 == i);
                    assert(rgba@[k] == out@[j]);
                }
            }
        }
    }
    proof {
        assert(rgba@ =~= target);
    }
    Ok(())
}

/// Decoding a 4x8-bit pixel with the canonical order "rgba" and alpha kept is
/// the identity: the four output bytes equal the four input bytes.
pub proof fn lemma_rgba8888_identity(endian: Endian, chunk: Seq<u8>)
    requires
        chunk.len() == 4,
    ensures
        decoded_pixel(PixelFormat::RGBA8888, seq!['r', 'g', 'b', 'a'], endian, false, chunk)
            =~= chunk,
{
    let s = seq!['r', 'g', 'b', 'a'];
    reveal_with_fuel(first_pos, 5);
    assert(first_pos(s, 'r') == 0);
    assert(s.subrange(1, 4) =~= seq!['g', 'b', 'a']);
    assert(seq!['g', 'b', 'a'].subrange(1, 3) =~= seq!['b', 'a']);
    assert(seq!['b', 'a'].subrange(1, 2) =~= seq!['a']);
    assert(first_pos(s, 'g') == 1);
    assert(first_pos(s, 'b') == 2);
    assert(first_pos(s, 'a') == 3);
}

/// Decoding a whole 4x8-bit stream with the canonical order "rgba" and alpha
/// kept is the identity on the stream.
pub proof fn lemma_rgba8888_stream_identity(endian: Endian, data: Seq<u8>)
    requires
        data.len() % 4 == 0,
    ensures
        decode_stream(PixelFormat::RGBA8888, seq!['r', 'g', 'b', 'a'], endian, false, data)
            =~= data,
{
    let s = decode_stream(PixelFormat::RGBA8888, seq!['r', 'g', 'b', 'a'], endian, false, data);
    vstd::arithmetic::div_mod::lemma_fundamental_div_mod(data.len() as int, 4);
    assert(s.len() == data.len());
    assert forall|k: int| 0 <= k < data.len() implies s[k] == data[k] by {
        let chunk = data.subrange((k / 4) * 4, (k / 4) * 4 + 4);
        lemma_rgba8888_identity(endian, chunk);
        assert(k == (k / 4) * 4 + k % 4);
        assert(chunk[k % 4] == data[k]);
    }
}

} // verus!
