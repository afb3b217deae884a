//! Plain-text PPM serialization of a rendered pixel map.
//!
//! The renderer-facing side of the board: a frame's [`PixelMap`] is laid
//! out as a `P3` image, row by row, one pixel per line, fixed-point
//! colour channels scaled to the `0..=255` range and undrawn pixels
//! black.

use vstd::prelude::*;

use crate::board::{get_pixel, in_key_range, PixelMap};
use crate::shapes::Color;

verus! {

/// The decimal digits of a nonnegative number.
pub open spec fn dec_bytes(n: int) -> Seq<u8>
    decreases n,
{
    if n < 10 {
        seq![(48 + if n >= 0 {
            n
        } else {
            0
        }) as u8]
    } else {
        dec_bytes(n / 10).push((48 + n % 10) as u8)
    }
}

/// A colour channel scaled from fixed-point `0..=1000` to `0..=255`,
/// out-of-band values clamped.
pub open spec fn channel_byte(v: int) -> int {
    let c = if v < 0 {
        0
    } else if v > 1000 {
        1000
    } else {
        v
    };
    (c * 255) / 1000
}

/// The colour serialized for the pixel at `(x, y)`: the drawn colour, or
/// black where nothing was drawn.
pub open spec fn color_at(m: Map<(int, int), Color>, x: int, y: int) -> Color {
    if m.contains_key((x, y)) {
        m[(x, y)]
    } else {
        Color { r: crate::fx::Fx(0), g: crate::fx::Fx(0), b: crate::fx::Fx(0), a: crate::fx::Fx(1000) }
    }
}

/// One serialized pixel: `r g b` and a newline.
pub open spec fn pixel_triple(m: Map<(int, int), Color>, x: int, y: int) -> Seq<u8> {
    let c = color_at(m, x, y);
    dec_bytes(channel_byte(c.r@)) + seq![32u8] + dec_bytes(channel_byte(c.g@)) + seq![32u8]
        + dec_bytes(channel_byte(c.b@)) + seq![10u8]
}

/// The first `w` pixels of row `y`.
pub open spec fn row_bytes(m: Map<(int, int), Color>, y: int, w: int) -> Seq<u8>
    decreases w,
{
    if w <= 0 {
        Seq::empty()
    } else {
        row_bytes(m, y, w - 1) + pixel_triple(m, w - 1, y)
    }
}

/// The first `h` rows, each `w` pixels wide.
pub open spec fn rows_bytes(m: Map<(int, int), Color>, h: int, w: int) -> Seq<u8>
    decreases h,
{
    if h <= 0 {
        Seq::empty()
    } else {
        rows_bytes(m, h - 1, w) + row_bytes(m, h - 1, w)
    }
}

/// The `P3` header: magic, dimensions, and the maximum channel value.
pub open spec fn ppm_header(w: int, h: int) -> Seq<u8> {
    seq![80u8, 51u8, 10u8] + dec_bytes(w) + seq![32u8] + dec_bytes(h) + seq![10u8] + seq![
        50u8,
        53u8,
        53u8,
        10u8,
    ]
}

/// The whole serialized image.
pub open spec fn ppm_spec(m: Map<(int, int), Color>, w: int, h: int) -> Seq<u8> {
    ppm_header(w, h) + rows_bytes(m, h, w)
}

/// Appends the decimal digits of `n`.
fn push_dec(out: &mut Vec<u8>, n: u64)
    ensures
        final(out)@ == old(out)@ + dec_bytes(n as int),
    decreases n,
{
    if n < 10 {
        out.push(48 + (n as u8));
        proof {
            assert(final(out)@ =~= old(out)@ + dec_bytes(n as int));
        }
    } else {
        push_dec(out, n / 10);
        out.push(48 + ((n % 10) as u8));
        proof {
            assert((48 + (n as int) % 10) as u8 == 48 + ((n % 10) as u8));
            assert(final(out)@ =~= old(out)@ + dec_bytes(n as int));
        }
    }
}

/// Scales one fixed-point channel to `0..=255`.
fn channel_of(v: crate::fx::Fx) -> (r: u64)
    ensures
        r as int == channel_byte(v@),
        r <= 255,
{
    let c: i64 = if v.0 < 0 {
        0
    } else if v.0 > 1000 {
        1000
    } else {
        v.0
    };
    let r = ((c as u64) * 255) / 1000;
    proof {
        vstd::arithmetic::div_mod::lemma_div_is_ordered(c * 255, 255000, 1000);
        vstd::arithmetic::div_mod::lemma_fundamental_div_mod_converse(255000, 1000, 255, 0);
        vstd::arithmetic::div_mod::lemma_div_is_ordered(0, c * 255, 1000);
    }
    r
}

/// Appends one serialized pixel.
fn push_pixel(out: &mut Vec<u8>, pixels: &PixelMap, x: i64, y: i64)
    requires
        pixels.wf(),
        in_key_range(x as int, y as int),
    ensures
        final(out)@ == old(out)@ + pixel_triple(pixels@, x as int, y as int),
{
    let c = match get_pixel(pixels, x, y) {
        Some(p) => p.color,
        Option::None => Color {
            r: crate::fx::Fx(0),
            g: crate::fx::Fx(0),
            b: crate::fx::Fx(0),
            a: crate::fx::Fx(1000),
        },
    };
    proof {
        assert(c == color_at(pixels@, x as int, y as int));
    }
    push_dec(out, channel_of(c.r));
    out.push(32);
    push_dec(out, channel_of(c.g));
    out.push(32);
    push_dec(out, channel_of(c.b));
    out.push(10);
    proof {
        assert(final(out)@ =~= old(out)@ + pixel_triple(pixels@, x as int, y as int));
    }
}

/// Serializes a `width` by `height` frame of the pixel map as a plain
/// `P3` PPM image.
pub fn write_ppm_image(pixels: &PixelMap, width: usize, height: usize) -> (r: Vec<u8>)
    requires
        pixels.wf(),
        width <= 1_000_000,
        height <= 1_000_000,
    ensures
        r@ == ppm_spec(pixels@, width as int, height as int),
{
    let mut out: Vec<u8> = Vec::new();
    out.push(80);
    out.push(51);
    out.push(10);
    push_dec(&mut out, width as u64);
    out.push(32);
    push_dec(&mut out, height as u64);
    out.push(10);
    out.push(50);
    out.push(53);
    out.push(53);
    out.push(10);
    proof {
        assert(out@ =~= ppm_header(width as int, height as int));
        assert(out@ =~= ppm_header(width as int, height as int) + rows_bytes(
            pixels@,
            0,
            width as int,
        ));
    }
    let mut y: usize = 0;
    while y < height
        invariant
            pixels.wf(),
            y <= height,
            width <= 1_000_000,
            height <= 1_000_000,
            out@ == ppm_header(width as int, height as int) + rows_bytes(
                pixels@,
                y as int,
                width as int,
            ),
        decreases height - y,
    {
        let mut x: usize = 0;
        proof {
            assert(row_bytes(pixels@, y as int, 0) =~= Seq::<u8>::empty());
            assert(out@ =~= ppm_header(width as int, height as int) + rows_bytes(
                pixels@,
                y as int,
                width as int,
            ) + row_bytes(pixels@, y as int, 0));
        }
        while x < width
            invariant
                pixels.wf(),
                x <= width,
                y < height,
                width <= 1_000_000,
                height <= 1_000_000,
                out@ == ppm_header(width as int, height as int) + rows_bytes(
                    pixels@,
                    y as int,
                    width as int,
                ) + row_bytes(pixels@, y as int, x as int),
            decreases width - x,
        {
            push_pixel(&mut out, pixels, x as i64, y as i64);
            proof {
                assert(out@ =~= ppm_header(width as int, height as int) + rows_bytes(
                    pixels@,
                    y as int,
                    width as int,
                ) + row_bytes(pixels@, y as int, x as int + 1));
            }
            x = x + 1;
        }
        proof {
            assert(out@ =~= ppm_header(width as int, height as int) + rows_bytes(
                pixels@,
                y as int + 1,
                width as int,
            ));
        }
        y = y + 1;
    }
    out
}

} // verus!
