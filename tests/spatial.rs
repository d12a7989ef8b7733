use playback_core::source::SamplesBuffer;
use playback_core::spatial::{attenuate, distance_mm, render_frame, Position, SpatialSink};

fn p(x: i32, y: i32, z: i32) -> Position {
    Position { x, y, z }
}

#[test]
fn distances_round_down() {
    assert_eq!(distance_mm(p(0, 0, 0), p(3000, 4000, 0)), 5000);
    assert_eq!(distance_mm(p(1, 1, 1), p(0, 0, 0)), 1);
    assert_eq!(distance_mm(p(i32::MIN, i32::MIN, i32::MIN), p(i32::MAX, i32::MAX, i32::MAX)), 7439101571);
}

#[test]
fn attenuation_by_distance() {
    assert_eq!(attenuate(1000, 0), 1000);
    assert_eq!(attenuate(1000, 1000), 1000);
    assert_eq!(attenuate(1000, 3000), 333);
    assert_eq!(attenuate(-1000, 3000), -333);
    assert_eq!(attenuate(32767, u64::MAX), 0);
}

#[test]
fn symmetric_ears_hear_the_same() {
    let f = render_frame(12345, p(0, 0, 0), p(-1000, 250, 3000), p(1000, -250, -3000));
    assert_eq!(f.0, f.1);
    let mut s = SpatialSink::new(p(0, 0, 0), p(-1000, 0, 0), p(1000, 0, 0));
    s.append(SamplesBuffer::new(1, 44100, vec![500, -700]));
    assert_eq!(s.next_frame(), Some((500, 500)));
    assert_eq!(s.next_frame(), Some((-700, -700)));
    assert_eq!(s.next_frame(), None);
    assert!(s.empty());
}

#[test]
fn circling_emitter_moves_between_ears() {
    // ears at -1 m (left) and +1 m (right) on X; the emitter circles at
    // radius 2 m, one round in two seconds, passing x < 0 at t = 0.5 s
    let mut s = SpatialSink::new(p(0, 2000, 0), p(-1000, 0, 0), p(1000, 0, 0));
    s.append(SamplesBuffer::new(1, 44100, vec![1000; 10]));
    assert_eq!(s.next_frame(), Some((447, 447)));
    s.set_emitter_position(p(-2000, 0, 0));
    let (l, r) = s.next_frame().unwrap();
    assert_eq!((l, r), (1000, 333));
    assert!(l > r);
    s.set_emitter_position(p(0, -2000, 0));
    assert_eq!(s.next_frame(), Some((447, 447)));
    s.set_emitter_position(p(2000, 0, 0));
    let (l, r) = s.next_frame().unwrap();
    assert_eq!((l, r), (333, 1000));
    assert!(r > l);
}

#[test]
fn spatial_sink_plays_a_mixer() {
    let mut s = SpatialSink::new(p(0, 0, 0), p(-1000, 0, 0), p(1000, 0, 0));
    let mut m = playback_core::mixer::mixer(1, 44100);
    m.add(SamplesBuffer::new(1, 44100, vec![40, 50])).unwrap();
    s.append_mixer(m);
    assert_eq!(s.fill_frames(3), vec![40, 40, 50, 50, 0, 0]);
    assert!(!s.empty());
}

#[test]
fn spatial_controls_and_fill() {
    let mut s = SpatialSink::new(p(0, 0, 0), p(-1000, 0, 0), p(1000, 0, 0));
    s.append(SamplesBuffer::new(1, 44100, vec![100, 200, 300]));
    s.set_left_ear_position(p(-3000, 0, 0));
    s.set_right_ear_position(p(1000, 0, 0));
    assert_eq!(s.fill_frames(1), vec![33, 100]);
    s.pause();
    assert_eq!(s.fill_frames(1), vec![0, 0]);
    s.play();
    s.set_volume(500);
    assert_eq!(s.fill_frames(3), vec![33, 100, 50, 150, 0, 0]);
    s.append(SamplesBuffer::new(1, 44100, vec![1]));
    s.stop();
    assert!(s.empty());
}
