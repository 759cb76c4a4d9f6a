//! The integer side of two-dimensional value noise: the generator seed, and
//! which lattice samples each position blends between at each octave.

use vstd::arithmetic::power2::{lemma2_to64, lemma2_to64_rest, lemma_pow2_strictly_increases, lemma_pow2_unfold, pow2};
use vstd::prelude::*;

verus! {

/// `2^octave`: the distance between the samples an octave blends.
pub open spec fn sample_period(octave: int) -> int {
    pow2(octave as nat) as int
}

/// Byte `k` (0 = least significant) of the little-endian form of `seed`.
pub open spec fn le_byte(seed: i64, k: int) -> u8 {
    (((seed as u64) >> ((8 * k) as u64)) & 0xff) as u8
}

/// The generator seed of a noise seed: its eight little-endian bytes, then
/// zeros.
pub fn perlin_seed(seed: i64) -> (r: [u8; 32])
    ensures
        forall|i: int| 0 <= i < 8 ==> #[trigger] r@[i] == le_byte(seed, i),
        forall|i: int| 8 <= i < 32 ==> #[trigger] r@[i] == 0,
{
    let bits = seed as u64;
    let mut bytes: [u8; 32] = [0; 32];
    let mut i: usize = 0;
    while i < 8
        invariant
            i <= 8,
            bits == seed as u64,
            forall|k: int| 0 <= k < i ==> #[trigger] bytes@[k] == le_byte(seed, k),
            forall|k: int| 8 <= k < 32 ==> #[trigger] bytes@[k] == 0,
        decreases 8 - i,
    {
        let shift: u64 = (8 * i) as u64;
        bytes[i] = ((bits >> shift) & 0xff) as u8;
        i = i + 1;
    }
    bytes
}

/// Where a position falls at one octave: the sample at or before it, the
/// next sample (wrapping round the row), how far past the first it lies, and
/// the distance between the two.
#[derive(Clone, Copy, Debug, PartialEq, Eq, Structural)]
pub struct SampleSpan {
    pub start: usize,
    pub end: usize,
    pub offset: usize,
    pub period: u64,
}

/// The span of position `pos` of a row of `len` samples at `octave`.
pub fn sample_span(pos: u16, len: u16, octave: u8) -> (r: SampleSpan)
    requires
        pos < len,
        octave < 64,
    ensures
        r.period == sample_period(octave as int),
        r.start == pos - (pos as int) % sample_period(octave as int),
        r.offset == (pos as int) % sample_period(octave as int),
        r.end == (r.start + sample_period(octave as int)) % (len as int),
{
    proof {
        lemma2_to64();
        lemma2_to64_rest();
    }
    let mut period: u64 = 1;
    let mut i: u8 = 0;
    while i < octave
        invariant
            i <= octave < 64,
            period == sample_period(i as int),
            pow2(64) == 0x1_0000_0000_0000_0000,
        decreases octave - i,
    {
        proof {
            lemma_pow2_unfold((i + 1) as nat);
            lemma_pow2_strictly_increases((i + 1) as nat, 64);
            lemma2_to64_rest();
        }
        period = period * 2;
        i = i + 1;
    }
    proof {
        vstd::arithmetic::power2::lemma_pow2_pos(octave as nat);
        if octave < 63 {
            lemma_pow2_strictly_increases(octave as nat, 63);
        }
    }
    let p = pos as u64;
    let offset = p % period;
    assert(offset <= p) by (nonlinear_arith)
        requires period > 0, offset == p % period, p >= 0;
    let start = p - offset;
    let end = (start + period) % (len as u64);
    SampleSpan { start: start as usize, end: end as usize, offset: offset as usize, period }
}

/// Position of `(x, y)` in a row-major buffer whose rows are `width` long.
pub fn cell_index(width: usize, x: usize, y: usize) -> (r: usize)
    requires
        x < width,
        y * width + x <= usize::MAX,
    ensures
        r == y * width + x,
{
    proof {
        assert(0 <= y * width) by (nonlinear_arith)
            requires 0 <= y, 0 <= width;
    }
    y * width + x
}

} // verus!
