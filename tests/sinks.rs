use playback_core::error::PlaybackError;
use playback_core::mixer::mixer;
use playback_core::noise::{make_noise, noise_sample_count};
use playback_core::sink::Sink;
use playback_core::source::SamplesBuffer;

fn mono(v: Vec<i16>) -> SamplesBuffer {
    SamplesBuffer::new(1, 44100, v)
}

#[test]
fn appended_sources_play_in_order() {
    let mut s = Sink::new();
    s.append(mono(vec![1, 2]));
    s.append(mono(vec![3]));
    assert_eq!(s.len(), 2);
    assert_eq!(s.next_sample(), Some(1));
    assert_eq!(s.next_sample(), Some(2));
    assert_eq!(s.completed(), 1);
    assert_eq!(s.next_sample(), Some(3));
    assert_eq!(s.next_sample(), None);
    assert!(s.empty());
    assert_eq!(s.completed(), 2);
}

#[test]
fn empty_source_completes_at_once() {
    let mut s = Sink::new();
    s.append(mono(vec![]));
    assert!(s.empty());
    assert_eq!(s.completed(), 1);
    assert_eq!(s.next_sample(), None);
}

#[test]
fn pause_yields_silence_and_resume_continues() {
    let mut s = Sink::new();
    s.append(mono(vec![10, 20, 30]));
    assert_eq!(s.next_sample(), Some(10));
    s.pause();
    assert!(s.is_paused());
    for _ in 0..5 {
        assert_eq!(s.next_sample(), Some(0));
    }
    s.play();
    assert_eq!(s.next_sample(), Some(20));
    assert_eq!(s.next_sample(), Some(30));
}

#[test]
fn stop_empties_and_sink_is_reusable() {
    let mut s = Sink::new();
    s.append(mono(vec![1, 2, 3]));
    s.pause();
    s.stop();
    assert!(s.empty());
    assert!(!s.is_paused());
    assert_eq!(s.next_sample(), None);
    s.play();
    s.append(mono(vec![9]));
    assert_eq!(s.next_sample(), Some(9));
}

#[test]
fn volume_zero_unity_and_half() {
    let mut s = Sink::new();
    assert_eq!(s.volume(), 1000);
    s.append(mono(vec![1000, -1000, 101, 7]));
    assert_eq!(s.next_sample(), Some(1000));
    s.set_volume(0);
    assert_eq!(s.next_sample(), Some(0));
    s.set_volume(500);
    assert_eq!(s.next_sample(), Some(50));
    s.set_volume(1000);
    assert_eq!(s.next_sample(), Some(7));
}

#[test]
fn fill_buffer_pads_with_silence() {
    let mut s = Sink::new();
    s.append(mono(vec![4, 5]));
    assert_eq!(s.fill_buffer(5), vec![4, 5, 0, 0, 0]);
    assert!(s.empty());
}

#[test]
fn device_lost_stops_and_is_reported() {
    let mut s = Sink::new();
    assert_eq!(s.last_error(), None);
    s.append(mono(vec![1, 2]));
    s.device_lost();
    assert!(s.empty());
    assert_eq!(s.last_error(), Some(PlaybackError::DeviceLost));
}

#[test]
fn noise_drains_exactly_its_length() {
    let draws: Vec<i32> = (0..4410).map(|i| (i % 11 - 5) * 4000).collect();
    let mut s = Sink::new();
    s.append(make_noise(100, 500, &draws));
    let mut consumed = 0usize;
    while s.next_sample().is_some() {
        consumed += 1;
    }
    assert_eq!(consumed, 4410);
    assert!(s.empty());
    assert_eq!(s.completed(), 1);
}

#[test]
fn stop_during_noise_cuts_it_short() {
    let n = noise_sample_count(200) as usize;
    let draws: Vec<i32> = vec![20000; n];
    let mut s = Sink::new();
    s.append(make_noise(200, 100, &draws));
    let fifty_ms = noise_sample_count(50) as usize;
    let played = s.fill_buffer(fifty_ms);
    assert_eq!(played.len(), 2205);
    s.stop();
    assert!(s.empty());
    assert_eq!(s.next_sample(), None);
    assert!(fifty_ms < 8820);
}

#[test]
fn mixer_in_sink_plays_after_queue_and_never_ends() {
    let mut s = Sink::new();
    s.append(mono(vec![1, 2]));
    s.append_mixer(mixer(1, 44100));
    assert_eq!(s.mixer_add(mono(vec![100, 200])), Some(Ok(())));
    assert_eq!(s.mixer_add(SamplesBuffer::new(2, 44100, vec![1, 1])), Some(Err(PlaybackError::FormatMismatch)));
    assert_eq!(s.fill_buffer(6), vec![1, 2, 100, 200, 0, 0]);
    assert!(!s.empty());
    s.append(mono(vec![7]));
    assert_eq!(s.next_sample(), Some(0));
    assert_eq!(s.mixer_add(mono(vec![300])), Some(Ok(())));
    s.set_volume(500);
    assert_eq!(s.next_sample(), Some(150));
    s.pause();
    assert_eq!(s.next_sample(), Some(0));
    s.play();
    s.stop();
    assert!(s.empty());
    assert_eq!(s.next_sample(), None);
    assert_eq!(s.mixer_add(mono(vec![1])), None);
}
