//! The textual image format: a `P3` header, the dimensions, the `255`
//! maximum, then one line of three space-separated decimal channel values
//! per pixel, row-major, top to bottom. `encode` produces exactly the byte
//! sequence `ppm_spec` describes, and `quantize_channel` performs the
//! gamma/clamp/quantize step of the tone-mapping contract.

use vstd::prelude::*;
use crate::fixed::{SCALE, tdiv, fsqrt, fx_sqrt, lemma_tdiv_bound, lemma_tdiv_nonneg};
use vstd::math::abs;
use crate::vec3::Color;

verus! {

/// Channels are clamped just below one whole unit so that quantization
/// yields at most 255.
pub const INTENSITY_MAX: i64 = 65470;

/// The decimal digits of `n`, most significant first, as ASCII bytes.
pub open spec fn dec_spec(n: nat) -> Seq<u8>
    decreases n,
{
    if n < 10 {
        seq![(48 + n) as u8]
    } else {
        dec_spec(n / 10) + seq![(48 + n % 10) as u8]
    }
}

/// One image line: `r g b` followed by a newline.
pub open spec fn pixel_line(p: (u8, u8, u8)) -> Seq<u8> {
    dec_spec(p.0 as nat) + seq![32u8] + dec_spec(p.1 as nat) + seq![32u8]
        + dec_spec(p.2 as nat) + seq![10u8]
}

/// All pixel lines in order.
pub open spec fn lines_spec(pixels: Seq<(u8, u8, u8)>) -> Seq<u8>
    decreases pixels.len(),
{
    if pixels.len() == 0 {
        Seq::empty()
    } else {
        lines_spec(pixels.drop_last()) + pixel_line(pixels.last())
    }
}

/// The whole image: `P3`, the dimensions, `255`, then the pixel lines.
pub open spec fn ppm_spec(w: nat, h: nat, pixels: Seq<(u8, u8, u8)>) -> Seq<u8> {
    seq![80u8, 51u8, 10u8] + dec_spec(w) + seq![32u8] + dec_spec(h) + seq![10u8]
        + seq![50u8, 53u8, 53u8, 10u8] + lines_spec(pixels)
}

/// Append the decimal digits of `n`.
pub(crate) fn push_dec(out: &mut Vec<u8>, n: u32)
    ensures
        final(out)@ == old(out)@ + dec_spec(n as nat),
    decreases n,
{
    if n < 10 {
        out.push((48 + n) as u8);
        proof {
            assert(out@ =~= old(out)@ + dec_spec(n as nat));
        }
    } else {
        push_dec(out, n / 10);
        let d = n % 10;
        out.push((48 + d) as u8);
        proof {
            assert(out@ =~= old(out)@ + dec_spec(n as nat));
        }
    }
}

/// Append one pixel line.
fn push_pixel(out: &mut Vec<u8>, p: (u8, u8, u8))
    ensures
        final(out)@ == old(out)@ + pixel_line(p),
{
    push_dec(out, p.0 as u32);
    out.push(32u8);
    push_dec(out, p.1 as u32);
    out.push(32u8);
    push_dec(out, p.2 as u32);
    out.push(10u8);
    proof {
        assert(out@ =~= old(out)@ + pixel_line(p));
    }
}

/// Encode a row-major pixel buffer; exactly `ppm_spec`.
pub fn encode(width: u32, height: u32, pixels: &Vec<(u8, u8, u8)>) -> (out: Vec<u8>)
    requires
        pixels@.len() == (width as int) * (height as int),
    ensures
        out@ == ppm_spec(width as nat, height as nat, pixels@),
{
    let mut out: Vec<u8> = Vec::new();
    out.push(80u8);
    out.push(51u8);
    out.push(10u8);
    push_dec(&mut out, width);
    out.push(32u8);
    push_dec(&mut out, height);
    out.push(10u8);
    out.push(50u8);
    out.push(53u8);
    out.push(53u8);
    out.push(10u8);
    proof {
        assert(out@ =~= seq![80u8, 51u8, 10u8] + dec_spec(width as nat) + seq![32u8]
            + dec_spec(height as nat) + seq![10u8] + seq![50u8, 53u8, 53u8, 10u8]);
        assert(lines_spec(pixels@.take(0)) =~= Seq::<u8>::empty());
    }
    let ghost header = out@;
    let n = pixels.len();
    let mut k: usize = 0;
    while k < n
        invariant
            n == pixels@.len(),
            0 <= k <= n,
            out@ == header + lines_spec(pixels@.take(k as int)),
        decreases n - k,
    {
        let p = pixels[k];
        push_pixel(&mut out, p);
        proof {
            assert(pixels@.take(k as int + 1).drop_last() =~= pixels@.take(k as int));
            assert(pixels@.take(k as int + 1).last() == pixels@[k as int]);
        }
        k = k + 1;
    }
    proof {
        assert(pixels@.take(n as int) =~= pixels@);
    }
    out
}

/// Gamma correction: the square root of a positive linear channel, zero
/// otherwise.
pub open spec fn gamma_spec(c: int) -> int {
    if c > 0 {
        fsqrt(c)
    } else {
        0
    }
}

/// The quantization contract: gamma, clamp into `[0, INTENSITY_MAX]`,
/// scale by 256 and truncate.
pub open spec fn quantize_spec(c: int) -> int {
    let g = gamma_spec(c);
    let clamped = if g < 0 {
        0
    } else if g > INTENSITY_MAX {
        INTENSITY_MAX as int
    } else {
        g
    };
    tdiv(256 * clamped, SCALE as int)
}

/// Apply gamma correction to one linear channel.
pub fn linear_to_gamma(linear: i64) -> (r: i64)
    ensures
        r == gamma_spec(linear as int),
        0 <= r,
{
    if linear > 0 {
        fx_sqrt(linear)
    } else {
        0
    }
}

/// Quantize one linear channel to a byte; exactly `quantize_spec`.
pub fn quantize_channel(c: i64) -> (r: u8)
    ensures
        r == quantize_spec(c as int),
{
    let g = linear_to_gamma(c);
    let clamped = if g > INTENSITY_MAX {
        INTENSITY_MAX
    } else {
        g
    };
    proof {
        lemma_tdiv_nonneg(256 * (clamped as int), SCALE as int);
        lemma_tdiv_bound(256 * (clamped as int), SCALE as int, 256 * (INTENSITY_MAX as int));
    }
    let q = crate::fixed::div_int(256 * clamped, SCALE);
    proof {
        assert(q == quantize_spec(c as int));
        assert(0 <= q);
        assert((256 * (INTENSITY_MAX as int)) / (abs(SCALE as int) as int) == 255);
        assert(q <= 255);
    }
    q as u8
}

/// Quantize an averaged color to one stored pixel.
pub fn quantize_color(c: &Color) -> (r: (u8, u8, u8))
    ensures
        r.0 == quantize_spec(c.x as int),
        r.1 == quantize_spec(c.y as int),
        r.2 == quantize_spec(c.z as int),
{
    (quantize_channel(c.x), quantize_channel(c.y), quantize_channel(c.z))
}

} // verus!
