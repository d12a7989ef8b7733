use vstd::prelude::*;

verus! {

/// Largest value of a 16-bit sample.
pub const SAMPLE_MAX: i16 = 32767;

/// Smallest value of a 16-bit sample.
pub const SAMPLE_MIN: i16 = -32768;

/// The value `x` clamped into the range of a 16-bit sample.
pub open spec fn saturate(x: int) -> i16 {
    if x > 32767 {
        32767
    } else if x < -32768 {
        -32768i16
    } else {
        x as i16
    }
}

/// Clamps a wide sum into the 16-bit sample range.
pub fn saturate_wide(x: i128) -> (r: i16)
    ensures
        r == saturate(x as int),
{
    if x > 32767 {
        SAMPLE_MAX
    } else if x < -32768 {
        SAMPLE_MIN
    } else {
        x as i16
    }
}

} // verus!

verus! {

/// Unity gain: volumes are given in thousandths.
pub const UNITY_VOLUME: u32 = 1000;

/// `p / 1000` rounded towards zero.
pub open spec fn div_1000_toward_zero(p: int) -> int {
    if p >= 0 {
        p / 1000
    } else {
        -((-p) / 1000)
    }
}

/// A sample multiplied by the volume `v` (in thousandths), rounded towards
/// zero and clamped to 16 bits.
pub open spec fn scaled(s: i16, v: u32) -> i16 {
    saturate(div_1000_toward_zero(s as int * v as int))
}

/// Multiplies a sample by a volume given in thousandths.
pub fn scale_sample(s: i16, v: u32) -> (r: i16)
    ensures
        r == scaled(s, v),
{
    let si: i64 = s as i64;
    let vi: i64 = v as i64;
    assert(-0x8000 * 0xffff_ffff <= si * vi <= 0x7fff * 0xffff_ffff) by (nonlinear_arith)
        requires
            -0x8000 <= si <= 0x7fff,
            0 <= vi <= 0xffff_ffff,
    ;
    let p: i64 = si * vi;
    let q: i64 = if p >= 0 {
        (p as u64 / 1000) as i64
    } else {
        -(((-p) as u64 / 1000) as i64)
    };
    saturate_wide(q as i128)
}

/// Volume is linear: at 0 every sample is silent, at unity every sample is
/// kept, and at one half every magnitude is halved (rounded towards zero).
pub proof fn lemma_volume_linearity(s: i16)
    ensures
        scaled(s, 0) == 0,
        scaled(s, 1000) == s,
        scaled(s, 500) as int == div_1000_toward_zero(s as int * 500),
        s >= 0 ==> scaled(s, 500) as int == s as int / 2,
        s < 0 ==> scaled(s, 500) as int == -((-(s as int)) / 2),
{
}

} // verus!
