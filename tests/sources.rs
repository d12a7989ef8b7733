use playback_core::noise::{filter_noise, make_noise, noise_sample_count, NOISE_RATE};
use playback_core::sample::{saturate_wide, scale_sample};
use playback_core::source::SamplesBuffer;

fn drain(mut b: SamplesBuffer) -> Vec<i16> {
    let mut out = Vec::new();
    while let Some(x) = b.next() {
        out.push(x);
    }
    out
}

#[test]
fn buffer_yields_in_order_then_ends() {
    let mut b = SamplesBuffer::new(1, 44100, vec![5, -6, 7]);
    assert_eq!(b.channels(), 1);
    assert_eq!(b.sample_rate(), 44100);
    assert_eq!(b.current_frame_len(), Some(3));
    assert_eq!(b.next(), Some(5));
    assert_eq!(b.current_frame_len(), Some(2));
    assert_eq!(b.next(), Some(-6));
    assert_eq!(b.next(), Some(7));
    assert!(b.is_exhausted());
    assert_eq!(b.next(), None);
    assert_eq!(b.next(), None);
}

#[test]
fn take_duration_truncates_to_whole_frames() {
    let b = SamplesBuffer::new(1, 44100, vec![1; 44100]);
    let t = b.take_duration_ms(10);
    assert_eq!(t.current_frame_len(), Some(441));
    let s = SamplesBuffer::new(2, 1000, vec![3; 100]);
    let t = s.take_duration_ms(7);
    assert_eq!(t.current_frame_len(), Some(14));
    let short = SamplesBuffer::new(1, 44100, vec![1, 2, 3]);
    assert_eq!(drain(short.take_duration_ms(1000)), vec![1, 2, 3]);
}

#[test]
fn saturation_clamps_to_sample_range() {
    assert_eq!(saturate_wide(40000), 32767);
    assert_eq!(saturate_wide(-40000), -32768);
    assert_eq!(saturate_wide(-123), -123);
}

#[test]
fn volume_scaling_values() {
    assert_eq!(scale_sample(1234, 0), 0);
    assert_eq!(scale_sample(-1234, 1000), -1234);
    assert_eq!(scale_sample(101, 500), 50);
    assert_eq!(scale_sample(-101, 500), -50);
    assert_eq!(scale_sample(30000, 2000), 32767);
    assert_eq!(scale_sample(-30000, 2000), -32768);
}

#[test]
fn noise_count_is_whole_samples_at_44100() {
    assert_eq!(noise_sample_count(100), 4410);
    assert_eq!(noise_sample_count(200), 8820);
    assert_eq!(noise_sample_count(1), 44);
    assert_eq!(noise_sample_count(0), 0);
    assert_eq!(NOISE_RATE, 44100);
}

#[test]
fn filter_at_half_alpha_exact_values() {
    let draws = vec![1000, 1000, -3];
    assert_eq!(filter_noise(&draws, 3, 500), vec![500, 750, 373]);
    assert_eq!(filter_noise(&draws, 2, 500), vec![500, 750]);
    assert_eq!(filter_noise(&vec![-1001], 1, 500), vec![-500]);
}

#[test]
fn filter_state_keeps_fractions() {
    let draws = vec![10; 40];
    let out = filter_noise(&draws, 40, 100);
    assert_eq!(out[..3].to_vec(), vec![1, 1, 2]);
    assert_eq!(out[39], 9);
    assert_eq!(filter_noise(&vec![-1], 1, 300), vec![0]);
    assert_eq!(filter_noise(&vec![1], 1, 300), vec![0]);
}

#[test]
fn filter_at_full_alpha_passes_draws_clamped() {
    let draws = vec![12, -7, 100000, -100000];
    assert_eq!(filter_noise(&draws, 4, 1000), vec![12, -7, 32767, -32768]);
}

#[test]
fn smaller_alpha_smooths_more() {
    let draws = vec![30000, -30000, 30000, -30000, 30000, -30000];
    let rough = filter_noise(&draws, 6, 900);
    let smooth = filter_noise(&draws, 6, 100);
    let swing = |v: &Vec<i16>| -> i64 {
        v.windows(2).map(|w| (w[1] as i64 - w[0] as i64).abs()).sum()
    };
    assert!(swing(&smooth) < swing(&rough));
}

#[test]
fn make_noise_is_mono_at_44100_with_exact_length() {
    let draws: Vec<i32> = (0..5000).map(|i| (i % 7 - 3) * 9000).collect();
    let n = make_noise(100, 500, &draws);
    assert_eq!(n.channels(), 1);
    assert_eq!(n.sample_rate(), 44100);
    assert_eq!(n.current_frame_len(), Some(4410));
    let expected = filter_noise(&draws, 4410, 500);
    assert_eq!(drain(n), expected);
}
