use vstd::prelude::*;

use crate::sample::{div_1000_toward_zero, saturate, saturate_wide};
use crate::source::SamplesBuffer;

verus! {

/// Rate, in frames per second, of generated noise.
pub const NOISE_RATE: u32 = 44100;

/// Number of noise samples in `ms` milliseconds: whole samples only.
pub open spec fn noise_len(ms: int) -> int {
    ms * 44100 / 1000
}

/// State of the one-pole low-pass filter y(n) = (1 - a) * y(n - 1) + a * x(n),
/// from y(0) = 0, with the coefficient `a` given in thousandths. The state is
/// held in thousandths of a sample unit: z(0) = 0 and
/// z(n) = floor((1000 - a) * z(n - 1) / 1000) + a * x(n - 1).
pub open spec fn filter_state(xs: Seq<i32>, a: int, n: nat) -> int
    decreases n,
{
    if n == 0 {
        0
    } else {
        (1000 - a) * filter_state(xs, a, (n - 1) as nat) / 1000 + a * xs[n - 1]
    }
}

/// The filtered sequence: one output per input, the filter state converted
/// to a whole sample by truncation towards zero, then clamped to 16 bits.
pub open spec fn filtered(xs: Seq<i32>, a: int) -> Seq<i16> {
    Seq::new(
        xs.len(),
        |i: int| saturate(div_1000_toward_zero(filter_state(xs, a, (i + 1) as nat))),
    )
}

/// The filter state, in thousandths, stays within the range of its inputs.
pub proof fn lemma_filter_state_bounded(xs: Seq<i32>, a: int, n: nat)
    requires
        1 <= a <= 1000,
        n <= xs.len(),
    ensures
        -0x8000_0000 * 1000 <= filter_state(xs, a, n) <= 0x7fff_ffff * 1000,
    decreases n,
{
    if n > 0 {
        lemma_filter_state_bounded(xs, a, (n - 1) as nat);
        let z = filter_state(xs, a, (n - 1) as nat);
        let x = xs[n - 1] as int;
        let p = (1000 - a) * z;
        let lo = -0x8000_0000 * (1000 - a);
        let hi = 0x7fff_ffff * (1000 - a);
        assert(lo * 1000 <= p <= hi * 1000 && -0x8000_0000 * a <= a * x <= 0x7fff_ffff * a)
            by (nonlinear_arith)
            requires
                1 <= a <= 1000,
                -0x8000_0000 * 1000 <= z <= 0x7fff_ffff * 1000,
                -0x8000_0000 <= x <= 0x7fff_ffff,
                p == (1000 - a) * z,
                lo == -0x8000_0000 * (1000 - a),
                hi == 0x7fff_ffff * (1000 - a),
        ;
        assert(p / 1000 >= lo) by (nonlinear_arith)
            requires
                p >= lo * 1000,
        ;
        assert(p / 1000 <= hi) by (nonlinear_arith)
            requires
                p <= hi * 1000,
        ;
        assert(filter_state(xs, a, n) == p / 1000 + a * x);
    }
}

/// Rounds `s / 1000` towards negative infinity.
fn floor_div_1000(s: i64) -> (r: i64)
    requires
        -0x10_0000_0000_0000 <= s <= 0x10_0000_0000_0000,
    ensures
        r == s as int / 1000,
{
    let bias: i64 = 0x4000_0000_0000;
    let shifted: u64 = (s + bias * 1000) as u64;
    let q: u64 = shifted / 1000;
    assert(q as int == s as int / 1000 + bias);
    q as i64 - bias
}

/// Rounds `s / 1000` towards zero.
fn trunc_div_1000(s: i64) -> (r: i64)
    requires
        -0x10_0000_0000_0000 <= s <= 0x10_0000_0000_0000,
    ensures
        r == div_1000_toward_zero(s as int),
{
    if s >= 0 {
        (s as u64 / 1000) as i64
    } else {
        -(((-s) as u64 / 1000) as i64)
    }
}

/// Number of samples that `duration_ms` milliseconds of noise take.
pub fn noise_sample_count(duration_ms: u32) -> (r: u64)
    ensures
        r == noise_len(duration_ms as int),
{
    (duration_ms as u64) * 44100 / 1000
}

/// Low-pass filters the first `n` of the Gaussian draws `draws`, with the
/// coefficient `alpha_milli` in thousandths: small values give a deep
/// rumble, 1000 passes the draws through unchanged.
pub fn filter_noise(draws: &Vec<i32>, n: usize, alpha_milli: u32) -> (r: Vec<i16>)
    requires
        1 <= alpha_milli <= 1000,
        n <= draws@.len(),
    ensures
        r@ == filtered(draws@.take(n as int), alpha_milli as int),
{
    let ghost xs = draws@.take(n as int);
    let a: i64 = alpha_milli as i64;
    let mut out: Vec<i16> = Vec::new();
    let mut z: i64 = 0;
    let mut i: usize = 0;
    while i < n
        invariant
            i <= n <= draws@.len(),
            xs == draws@.take(n as int),
            a == alpha_milli as int,
            1 <= a <= 1000,
            z as int == filter_state(xs, a as int, i as nat),
            out@ =~= filtered(xs, a as int).take(i as int),
        decreases n - i,
    {
        proof {
            lemma_filter_state_bounded(xs, a as int, i as nat);
            lemma_filter_state_bounded(xs, a as int, (i + 1) as nat);
        }
        let x: i64 = draws[i] as i64;
        assert(xs[i as int] == draws@[i as int]);
        assert(-0x8000_0000 * 1000 * 1000 <= (1000 - a) * z <= 0x7fff_ffff * 1000 * 1000
            && -0x8000_0000 * 1000 <= a * x <= 0x7fff_ffff * 1000) by (nonlinear_arith)
            requires
                1 <= a <= 1000,
                -0x8000_0000 * 1000 <= z <= 0x7fff_ffff * 1000,
                -0x8000_0000 <= x <= 0x7fff_ffff,
        ;
        let p: i64 = (1000 - a) * z;
        z = floor_div_1000(p) + a * x;
        out.push(saturate_wide(trunc_div_1000(z) as i128));
        i = i + 1;
    }
    out
}

/// A mono noise source of `duration_ms` milliseconds at 44,100 Hz, made by
/// low-pass filtering the Gaussian draws `draws` (the first
/// `noise_sample_count(duration_ms)` of them are used).
pub fn make_noise(duration_ms: u32, alpha_milli: u32, draws: &Vec<i32>) -> (r: SamplesBuffer)
    requires
        1 <= alpha_milli <= 1000,
        draws@.len() >= noise_len(duration_ms as int),
    ensures
        r.wf(),
        r.spec_channels() == 1,
        r.spec_sample_rate() == NOISE_RATE,
        r@ == filtered(draws@.take(noise_len(duration_ms as int)), alpha_milli as int),
{
    let n: u64 = noise_sample_count(duration_ms);
    let len: usize = draws.len();
    assert(n <= len);
    let samples = filter_noise(draws, n as usize, alpha_milli);
    SamplesBuffer::new(1, NOISE_RATE, samples)
}

} // verus!
