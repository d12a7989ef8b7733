use playback_core::device::negotiate_format;
use playback_core::error::PlaybackError;
use playback_core::mixer::{mixer, DynamicMixer};
use playback_core::source::SamplesBuffer;

fn mono(v: Vec<i16>) -> SamplesBuffer {
    SamplesBuffer::new(1, 44100, v)
}

fn sine(freq: f32, n: usize) -> Vec<i16> {
    (0..n)
        .map(|i| {
            let t = i as f32 / 44100.0;
            ((2.0 * std::f32::consts::PI * freq * t).sin() * 20000.0) as i16
        })
        .collect()
}

fn pull(m: &mut DynamicMixer, n: usize) -> Vec<i16> {
    (0..n).map(|_| m.next_sample()).collect()
}

#[test]
fn mixer_sums_two_sources() {
    let mut m = mixer(1, 44100);
    assert_eq!(m.add(mono(vec![1, 2, 30000])), Ok(()));
    assert_eq!(m.add(mono(vec![10, -20, 30000])), Ok(()));
    assert_eq!(m.active_count(), 2);
    assert_eq!(pull(&mut m, 3), vec![11, -18, 32767]);
    assert_eq!(m.active_count(), 0);
}

#[test]
fn mixer_saturates_negative_sums() {
    let mut m = DynamicMixer::new(1, 44100);
    m.add(mono(vec![-30000])).unwrap();
    m.add(mono(vec![-30000])).unwrap();
    assert_eq!(m.next_sample(), -32768);
}

#[test]
fn idle_mixer_is_silent_and_plays_late_additions() {
    let mut m = mixer(1, 44100);
    assert_eq!(pull(&mut m, 4410), vec![0; 4410]);
    let tone = sine(440.0, 44100);
    m.add(mono(tone.clone())).unwrap();
    assert_eq!(pull(&mut m, 44100), tone);
    assert_eq!(m.next_sample(), 0);
}

#[test]
fn mixer_overlap_of_two_tones() {
    let a = sine(440.0, 44100);
    let b = sine(330.0, 44100);
    let mut m = mixer(1, 44100);
    m.add(mono(a.clone())).unwrap();
    let first = pull(&mut m, 22050);
    assert_eq!(first, a[..22050].to_vec());
    m.add(mono(b.clone())).unwrap();
    let middle = pull(&mut m, 22050);
    for i in 0..22050 {
        let sum = a[22050 + i] as i32 + b[i] as i32;
        assert_eq!(middle[i] as i32, sum.clamp(-32768, 32767));
    }
    let last = pull(&mut m, 22050);
    assert_eq!(last, b[22050..].to_vec());
}

#[test]
fn mixer_refuses_other_formats() {
    let mut m = mixer(1, 44100);
    assert_eq!(m.add(SamplesBuffer::new(2, 44100, vec![1, 2])), Err(PlaybackError::FormatMismatch));
    assert_eq!(m.add(SamplesBuffer::new(1, 48000, vec![1])), Err(PlaybackError::FormatMismatch));
    assert_eq!(m.active_count(), 0);
    assert_eq!(m.channels(), 1);
    assert_eq!(m.sample_rate(), 44100);
}

#[test]
fn format_negotiation() {
    assert_eq!(negotiate_format(1, 44100), Ok(()));
    assert_eq!(negotiate_format(2, 44100), Ok(()));
    assert_eq!(negotiate_format(3, 44100), Err(PlaybackError::UnsupportedFormat));
    assert_eq!(negotiate_format(1, 48000), Err(PlaybackError::UnsupportedFormat));
}
