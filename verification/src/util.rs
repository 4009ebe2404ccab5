//! Small helpers around the tracer: the per-sample pixel jitter and the
//! frame time seed handed to a parallel compute stage.

use vstd::prelude::*;
use crate::fixed::{SCALE, tdiv, div_int};
use crate::vec3::Vec3;
use crate::rng::random_fixed;
use crate::ppm::dec_spec;

verus! {

/// Completed percentage after scanline `j` of `height`.
pub open spec fn progress_spec(j: int, height: int) -> int {
    tdiv(100 * (j + 1), height)
}

/// The line-overwriting progress indicator: a carriage return, a
/// twenty-five-cell bar, and the percentage right-aligned to three
/// characters.
pub open spec fn progress_line_spec(j: int, height: int) -> Seq<u8> {
    let p = progress_spec(j, height);
    let hashes = tdiv(p, 4);
    seq![13u8, 80u8, 114u8, 111u8, 103u8, 114u8, 101u8, 115u8, 115u8, 58u8, 32u8, 91u8]
        + Seq::new(hashes as nat, |i: int| 35u8)
        + Seq::new((25 - hashes) as nat, |i: int| 45u8)
        + seq![93u8, 32u8]
        + (if p < 10 {
            seq![32u8, 32u8] + dec_spec(p as nat)
        } else if p < 100 {
            seq![32u8] + dec_spec(p as nat)
        } else {
            dec_spec(p as nat)
        })
        + seq![37u8]
}

/// Build the progress indicator for scanline `j` of `height`; exactly
/// `progress_line_spec`. Writing it to a terminal is the caller's affair.
pub fn progress_line(j: i32, height: i32) -> (r: Vec<u8>)
    requires
        0 <= j < height,
    ensures
        r@ == progress_line_spec(j as int, height as int),
{
    proof {
        crate::fixed::lemma_tdiv_nonneg(100 * ((j as int) + 1), height as int);
        crate::fixed::lemma_tdiv_mono(100 * ((j as int) + 1), 100 * (height as int),
            height as int);
        assert(tdiv(100 * (height as int), height as int) == 100) by {
            vstd::arithmetic::div_mod::lemma_div_by_multiple(100, height as int);
        }
    }
    let p = div_int(100 * ((j as i64) + 1), height as i64);
    proof {
        crate::fixed::lemma_tdiv_nonneg(p as int, 4);
        crate::fixed::lemma_tdiv_mono(p as int, 100, 4);
        assert(tdiv(100, 4) == 25) by {
            vstd::arithmetic::div_mod::lemma_div_by_multiple(25, 4);
        }
    }
    let hashes = div_int(p, 4);
    let mut out: Vec<u8> = Vec::new();
    out.push(13u8);
    out.push(80u8);
    out.push(114u8);
    out.push(111u8);
    out.push(103u8);
    out.push(114u8);
    out.push(101u8);
    out.push(115u8);
    out.push(115u8);
    out.push(58u8);
    out.push(32u8);
    out.push(91u8);
    proof {
        assert(out@ =~= seq![13u8, 80u8, 114u8, 111u8, 103u8, 114u8, 101u8, 115u8, 115u8,
            58u8, 32u8, 91u8]);
    }
    let ghost head = out@;
    let mut k: i64 = 0;
    while k < hashes
        invariant
            0 <= k <= hashes,
            out@ == head + Seq::new(k as nat, |i: int| 35u8),
        decreases hashes - k,
    {
        out.push(35u8);
        k = k + 1;
        proof {
            assert(out@ =~= head + Seq::new(k as nat, |i: int| 35u8));
        }
    }
    let ghost head2 = out@;
    let mut m: i64 = 0;
    while m < 25 - hashes
        invariant
            0 <= m <= 25 - hashes,
            0 <= hashes <= 25,
            out@ == head2 + Seq::new(m as nat, |i: int| 45u8),
        decreases 25 - hashes - m,
    {
        out.push(45u8);
        m = m + 1;
        proof {
            assert(out@ =~= head2 + Seq::new(m as nat, |i: int| 45u8));
        }
    }
    out.push(93u8);
    out.push(32u8);
    if p < 10 {
        out.push(32u8);
        out.push(32u8);
    } else if p < 100 {
        out.push(32u8);
    }
    crate::ppm::push_dec(&mut out, p as u32);
    out.push(37u8);
    proof {
        assert(out@ =~= progress_line_spec(j as int, height as int));
    }
    out
}

/// A uniform draw from `[0, 1]` in fixed point.
pub fn random_float() -> (r: i64)
    ensures
        0 <= r <= SCALE,
{
    random_fixed(0, SCALE)
}

/// A uniform draw from `[min, max]` in fixed point.
pub fn random_float_range(min: i64, max: i64) -> (r: i64)
    requires
        min <= max,
    ensures
        min <= r <= max,
{
    random_fixed(min, max)
}

/// The antialiasing jitter: a point of the half-unit square around the
/// pixel center, with zero depth.
pub fn sample_square() -> (r: Vec3)
    ensures
        -SCALE / 2 <= r.x <= SCALE / 2,
        -SCALE / 2 <= r.y <= SCALE / 2,
        r.z == 0,
{
    Vec3 { x: random_fixed(-SCALE / 2, SCALE / 2), y: random_fixed(-SCALE / 2, SCALE / 2), z: 0 }
}

/// The per-frame seed block handed to a parallel compute stage: a
/// microsecond counter padded to sixteen bytes.
pub struct UtilData {
    pub time: u32,
    pub pad0: u32,
    pub pad1: u32,
    pub pad2: u32,
}

impl UtilData {
    pub fn new() -> (r: Self)
        ensures
            r.pad0 == 0 && r.pad1 == 0 && r.pad2 == 0,
    {
        UtilData { time: get_time(), pad0: 0, pad1: 0, pad2: 0 }
    }

    /// Refresh the seed from the clock; the padding is untouched.
    pub fn update(&mut self)
        ensures
            final(self).pad0 == old(self).pad0,
            final(self).pad1 == old(self).pad1,
            final(self).pad2 == old(self).pad2,
    {
        self.time = get_time();
    }

    /// The seed serialized little-endian into sixteen bytes; the twelve
    /// padding bytes are zero.
    pub fn to_bytes(&self) -> (r: [u8; 16])
        ensures
            r[0] == self.time as u8,
            r[1] == (self.time / 0x100) as u8,
            r[2] == (self.time / 0x1_0000) as u8,
            r[3] == (self.time / 0x100_0000) as u8,
            forall|i: int| 4 <= i < 16 ==> r[i] == 0,
    {
        let b0 = (self.time % 0x100) as u8;
        let b1 = ((self.time / 0x100) % 0x100) as u8;
        let b2 = ((self.time / 0x1_0000) % 0x100) as u8;
        let b3 = (self.time / 0x100_0000) as u8;
        let r: [u8; 16] = [b0, b1, b2, b3, 0, 0, 0, 0, 0, 0, 0, 0, 0, 0, 0, 0];
        proof {
            let t = self.time;
            assert((t % 0x100) as u8 == t as u8) by (bit_vector);
            assert(((t / 0x100) % 0x100) as u8 == (t / 0x100) as u8) by (bit_vector);
            assert(((t / 0x1_0000) % 0x100) as u8 == (t / 0x1_0000) as u8) by (bit_vector);
        }
        r
    }
}

/// The current time in microseconds, truncated to 32 bits: an opaque
/// animation seed, refreshed once per frame.
///
/// Relies on `std::time::SystemTime::now` and
/// `SystemTime::duration_since(UNIX_EPOCH)`; a clock before the epoch
/// yields zero. Nothing is assumed about the value.
#[verifier::external_body]
pub fn get_time() -> u32 {
    match std::time::SystemTime::now().duration_since(std::time::UNIX_EPOCH) {
        Ok(dur) => dur.as_micros() as u32,
        Err(_) => 0,
    }
}

} // verus!
