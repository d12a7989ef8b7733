use vstd::prelude::*;

use crate::sample::{saturate, saturate_wide, scale_sample, scaled};
use crate::error::PlaybackError;
use crate::mixer::DynamicMixer;
use crate::sink::{lemma_pulls_step, Sink, SinkView};
use crate::source::SamplesBuffer;

verus! {

/// A point in space, in millimetres.
#[derive(Clone, Copy, Debug, PartialEq, Eq, Structural)]
pub struct Position {
    pub x: i32,
    pub y: i32,
    pub z: i32,
}

/// Squared distance between two points, in square millimetres.
pub open spec fn dist_sq(a: Position, b: Position) -> int {
    (a.x - b.x) * (a.x - b.x) + (a.y - b.y) * (a.y - b.y) + (a.z - b.z) * (a.z - b.z)
}

/// `r` is the integer square root of `n`, rounded down.
pub open spec fn is_root(n: int, r: int) -> bool {
    0 <= r && r * r <= n < (r + 1) * (r + 1)
}

/// The integer square root of `n`, rounded down.
pub open spec fn root(n: int) -> int {
    choose|r: int| is_root(n, r)
}

/// `p / m` rounded towards zero.
pub open spec fn div_toward_zero(p: int, m: int) -> int {
    if p >= 0 {
        p / m
    } else {
        -((-p) / m)
    }
}

/// A sample heard at distance `d` millimetres: scaled by 1 / max(d, 1 m),
/// rounded towards zero.
pub open spec fn attenuated(s: i16, d: int) -> i16 {
    saturate(div_toward_zero(s as int * 1000, vstd::math::max(d, 1000)))
}

/// The stereo frame heard from a mono sample `s` sent from `emitter`, at the
/// left ear `l` and the right ear `r`.
pub open spec fn spatial_frame(s: i16, emitter: Position, l: Position, r: Position) -> (i16, i16) {
    (attenuated(s, root(dist_sq(emitter, l))), attenuated(s, root(dist_sq(emitter, r))))
}

/// The frame the device plays for one pull of a spatial sink: silence when
/// the sink has nothing to give.
pub open spec fn frame_or_silence(
    o: Option<i16>,
    e: Position,
    l: Position,
    r: Position,
    volume: u32,
) -> (i16, i16) {
    match o {
        Some(x) => at_volume(spatial_frame(x, e, l, r), volume),
        None => (0i16, 0i16),
    }
}

/// A stereo frame with the volume (in thousandths) applied to each channel.
pub open spec fn at_volume(f: (i16, i16), volume: u32) -> (i16, i16) {
    (scaled(f.0, volume), scaled(f.1, volume))
}

/// The frames for a run of pulls, interleaved left, right, left, right.
pub open spec fn interleaved(
    pulls: Seq<Option<i16>>,
    e: Position,
    l: Position,
    r: Position,
    volume: u32,
) -> Seq<i16> {
    Seq::new(
        2 * pulls.len(),
        |k: int|
            if k % 2 == 0 {
                frame_or_silence(pulls[k / 2], e, l, r, volume).0
            } else {
                frame_or_silence(pulls[k / 2], e, l, r, volume).1
            },
    )
}

/// Integer square roots are unique.
proof fn lemma_root_unique(n: int, r: int)
    requires
        is_root(n, r),
    ensures
        root(n) == r,
{
    let c = root(n);
    assert(is_root(n, c));
    if c < r {
        assert((c + 1) * (c + 1) <= r * r) by (nonlinear_arith)
            requires
                0 <= c < r,
        ;
    } else if r < c {
        assert((r + 1) * (r + 1) <= c * c) by (nonlinear_arith)
            requires
                0 <= r < c,
        ;
    }
}

/// Integer square root by bisection.
fn isqrt(n: u128) -> (r: u64)
    requires
        n < 0x4_0000_0000_0000_0000,
    ensures
        is_root(n as int, r as int),
        r as int == root(n as int),
{
    let mut lo: u128 = 0;
    let mut hi: u128 = 0x2_0000_0000;
    assert(hi * hi == 0x4_0000_0000_0000_0000);
    while hi - lo > 1
        invariant
            lo < hi <= 0x2_0000_0000,
            lo * lo <= n,
            n < hi * hi,
        decreases hi - lo,
    {
        let mid: u128 = lo + (hi - lo) / 2;
        assert(mid * mid <= 0x4_0000_0000_0000_0000) by (nonlinear_arith)
            requires
                mid <= 0x2_0000_0000,
        ;
        if mid * mid <= n {
            lo = mid;
        } else {
            hi = mid;
        }
    }
    assert(hi == lo + 1);
    proof {
        lemma_root_unique(n as int, lo as int);
    }
    lo as u64
}

/// Distance between two points, in millimetres, rounded down.
pub fn distance_mm(a: Position, b: Position) -> (r: u64)
    ensures
        r as int == root(dist_sq(a, b)),
{
    let dx: i64 = a.x as i64 - b.x as i64;
    let dy: i64 = a.y as i64 - b.y as i64;
    let dz: i64 = a.z as i64 - b.z as i64;
    assert(dx * dx <= 0x1_0000_0000_0000_0000 && dy * dy <= 0x1_0000_0000_0000_0000 && dz * dz
        <= 0x1_0000_0000_0000_0000 && dx * dx >= 0 && dy * dy >= 0 && dz * dz >= 0)
        by (nonlinear_arith)
        requires
            -0x1_0000_0000 <= dx <= 0x1_0000_0000,
            -0x1_0000_0000 <= dy <= 0x1_0000_0000,
            -0x1_0000_0000 <= dz <= 0x1_0000_0000,
    ;
    let wx: i128 = dx as i128;
    let wy: i128 = dy as i128;
    let wz: i128 = dz as i128;
    let n: i128 = wx * wx + wy * wy + wz * wz;
    isqrt(n as u128)
}

/// A mono sample heard at distance `d` millimetres.
pub fn attenuate(s: i16, d: u64) -> (r: i16)
    ensures
        r == attenuated(s, d as int),
{
    let m: u64 = if d < 1000 {
        1000
    } else {
        d
    };
    let mag: u64 = if s >= 0 {
        s as u64 * 1000
    } else {
        (-(s as i64)) as u64 * 1000
    };
    let q: u64 = mag / m;
    assert(q <= mag / 1000) by (nonlinear_arith)
        requires
            q == mag / m,
            m >= 1000,
    ;
    let v: i64 = if s >= 0 {
        q as i64
    } else {
        -(q as i64)
    };
    saturate_wide(v as i128)
}

/// The stereo frame heard from a mono sample.
pub fn render_frame(s: i16, emitter: Position, left: Position, right: Position) -> (r: (i16, i16))
    ensures
        r == spatial_frame(s, emitter, left, right),
{
    let dl = distance_mm(emitter, left);
    let dr = distance_mm(emitter, right);
    (attenuate(s, dl), attenuate(s, dr))
}

/// With the emitter at the origin and the ears placed symmetrically about
/// it, both ears hear the same thing.
pub proof fn lemma_spatial_symmetry(s: i16, left: Position, right: Position)
    requires
        right.x == -left.x,
        right.y == -left.y,
        right.z == -left.z,
    ensures
        ({
            let f = spatial_frame(s, Position { x: 0, y: 0, z: 0 }, left, right);
            f.0 == f.1
        }),
{
    let o = Position { x: 0, y: 0, z: 0 };
    assert(dist_sq(o, left) == dist_sq(o, right)) by (nonlinear_arith)
        requires
            right.x == -left.x,
            right.y == -left.y,
            right.z == -left.z,
            o.x == 0 && o.y == 0 && o.z == 0,
    ;
}

/// Every non-negative number has an integer square root.
proof fn lemma_root_exists(n: int)
    requires
        n >= 0,
    ensures
        is_root(n, root(n)),
    decreases n,
{
    if n == 0 {
        assert(is_root(0, 0));
    } else {
        lemma_root_exists(n - 1);
        let r = root(n - 1);
        if (r + 1) * (r + 1) <= n {
            assert(is_root(n, r + 1)) by (nonlinear_arith)
                requires
                    r >= 0,
                    n - 1 < (r + 1) * (r + 1),
                    (r + 1) * (r + 1) <= n,
            ;
        } else {
            assert(is_root(n, r));
        }
    }
}

/// The integer square root grows with its argument.
proof fn lemma_root_monotone(n1: int, n2: int)
    requires
        0 <= n1 <= n2,
    ensures
        root(n1) <= root(n2),
{
    lemma_root_exists(n1);
    lemma_root_exists(n2);
    let r1 = root(n1);
    let r2 = root(n2);
    if r1 > r2 {
        assert((r2 + 1) * (r2 + 1) <= r1 * r1) by (nonlinear_arith)
            requires
                0 <= r2 < r1,
        ;
    }
}

/// The nearer ear hears at least as much: when the emitter is no farther from
/// the left ear than from the right, the left sample is at least as large in
/// magnitude as the right one.
pub proof fn lemma_nearer_ear_louder(s: i16, e: Position, l: Position, r: Position)
    requires
        dist_sq(e, l) <= dist_sq(e, r),
    ensures
        s >= 0 ==> spatial_frame(s, e, l, r).0 >= spatial_frame(s, e, l, r).1,
        s < 0 ==> spatial_frame(s, e, l, r).0 <= spatial_frame(s, e, l, r).1,
{
    assert(dist_sq(e, l) >= 0) by (nonlinear_arith);
    lemma_root_monotone(dist_sq(e, l), dist_sq(e, r));
    let m1 = vstd::math::max(root(dist_sq(e, l)), 1000);
    let m2 = vstd::math::max(root(dist_sq(e, r)), 1000);
    assert(1000 <= m1 <= m2);
    let p = s as int * 1000;
    if s >= 0 {
        vstd::arithmetic::div_mod::lemma_div_is_ordered_by_denominator(p, m1, m2);
    } else {
        vstd::arithmetic::div_mod::lemma_div_is_ordered_by_denominator(-p, m1, m2);
    }
}

/// The abstract state of a spatial sink: that of its queue (kept at unity
/// volume), where the emitter and the two ears are, and the volume applied to
/// each rendered frame.
pub struct SpatialView {
    pub sink: SinkView,
    pub volume: u32,
    pub emitter: Position,
    pub left_ear: Position,
    pub right_ear: Position,
}

/// A sink that renders each mono sample as a stereo frame, from where the
/// emitter stands relative to the listener's two ears.
pub struct SpatialSink {
    sink: Sink,
    volume: u32,
    emitter: Position,
    left_ear: Position,
    right_ear: Position,
}

impl View for SpatialSink {
    type V = SpatialView;

    closed spec fn view(&self) -> SpatialView {
        SpatialView {
            sink: self.sink@,
            volume: self.volume,
            emitter: self.emitter,
            left_ear: self.left_ear,
            right_ear: self.right_ear,
        }
    }
}

impl SpatialSink {
    pub closed spec fn wf(&self) -> bool {
        self.sink.wf() && self.sink@.volume == 1000
    }

    /// An empty spatial sink, playing at unity volume.
    pub fn new(emitter: Position, left_ear: Position, right_ear: Position) -> (r: SpatialSink)
        ensures
            r.wf(),
            r@.sink == (SinkView {
                queue: Seq::empty(),
                mixer: None,
                paused: false,
                volume: 1000,
                completed: 0,
                last_error: None,
            }),
            r@.volume == 1000,
            r@.emitter == emitter,
            r@.left_ear == left_ear,
            r@.right_ear == right_ear,
    {
        SpatialSink { sink: Sink::new(), volume: 1000, emitter, left_ear, right_ear }
    }

    /// Queues a mono source behind those already queued.
    pub fn append(&mut self, source: SamplesBuffer)
        requires
            old(self).wf(),
            source.wf(),
            source.spec_channels() == 1,
        ensures
            final(self).wf(),
            final(self)@ == (SpatialView { sink: old(self)@.sink.appended(source@), ..old(self)@ }),
    {
        self.sink.append(source);
    }

    /// Attaches a mono mixer behind the queued sources.
    pub fn append_mixer(&mut self, m: DynamicMixer)
        requires
            old(self).wf(),
            m.wf(),
            m.spec_channels() == 1,
        ensures
            final(self).wf(),
            final(self)@ == (SpatialView { sink: old(self)@.sink.mixer_appended(m@), ..old(self)@ }),
    {
        self.sink.append_mixer(m);
    }

    pub fn play(&mut self)
        requires
            old(self).wf(),
        ensures
            final(self).wf(),
            final(self)@ == (SpatialView { sink: old(self)@.sink.with_paused(false), ..old(self)@ }),
    {
        self.sink.play();
    }

    pub fn pause(&mut self)
        requires
            old(self).wf(),
        ensures
            final(self).wf(),
            final(self)@ == (SpatialView { sink: old(self)@.sink.with_paused(true), ..old(self)@ }),
    {
        self.sink.pause();
    }

    pub fn stop(&mut self)
        requires
            old(self).wf(),
        ensures
            final(self).wf(),
            final(self)@ == (SpatialView { sink: old(self)@.sink.stopped(), ..old(self)@ }),
    {
        self.sink.stop();
    }

    pub fn set_volume(&mut self, volume: u32)
        requires
            old(self).wf(),
        ensures
            final(self).wf(),
            final(self)@ == (SpatialView { volume, ..old(self)@ }),
    {
        self.volume = volume;
    }

    /// Whether every queued sample has been played.
    pub fn empty(&self) -> (r: bool)
        requires
            self.wf(),
        ensures
            r == (self@.sink.queue.len() == 0 && self@.sink.mixer is None),
    {
        self.sink.empty()
    }

    pub fn is_paused(&self) -> (r: bool)
        ensures
            r == self@.sink.paused,
    {
        self.sink.is_paused()
    }

    pub fn volume(&self) -> (r: u32)
        ensures
            r == self@.volume,
    {
        self.volume
    }

    /// Number of entries played to their end.
    pub fn completed(&self) -> (r: u64)
        ensures
            r == self@.sink.completed,
    {
        self.sink.completed()
    }

    /// Records that the device stream failed: the sink stops, and the error
    /// stays visible through `last_error`.
    pub fn device_lost(&mut self)
        requires
            old(self).wf(),
        ensures
            final(self).wf(),
            final(self)@ == (SpatialView {
                sink: SinkView {
                    last_error: Some(PlaybackError::DeviceLost),
                    ..old(self)@.sink.stopped()
                },
                ..old(self)@
            }),
    {
        self.sink.device_lost();
    }

    pub fn last_error(&self) -> (r: Option<PlaybackError>)
        ensures
            r == self@.sink.last_error,
    {
        self.sink.last_error()
    }

    pub fn emitter_position(&self) -> (r: Position)
        ensures
            r == self@.emitter,
    {
        self.emitter
    }

    pub fn left_ear_position(&self) -> (r: Position)
        ensures
            r == self@.left_ear,
    {
        self.left_ear
    }

    pub fn right_ear_position(&self) -> (r: Position)
        ensures
            r == self@.right_ear,
    {
        self.right_ear
    }

    pub fn set_emitter_position(&mut self, p: Position)
        requires
            old(self).wf(),
        ensures
            final(self).wf(),
            final(self)@ == (SpatialView { emitter: p, ..old(self)@ }),
    {
        self.emitter = p;
    }

    pub fn set_left_ear_position(&mut self, p: Position)
        requires
            old(self).wf(),
        ensures
            final(self).wf(),
            final(self)@ == (SpatialView { left_ear: p, ..old(self)@ }),
    {
        self.left_ear = p;
    }

    pub fn set_right_ear_position(&mut self, p: Position)
        requires
            old(self).wf(),
        ensures
            final(self).wf(),
            final(self)@ == (SpatialView { right_ear: p, ..old(self)@ }),
    {
        self.right_ear = p;
    }

    /// Fills a device buffer with `n` interleaved stereo frames, with silence
    /// once the sink has nothing to give.
    pub fn fill_frames(&mut self, n: usize) -> (r: Vec<i16>)
        requires
            old(self).wf(),
        ensures
            final(self).wf(),
            final(self)@ == (SpatialView { sink: old(self)@.sink.after(n as nat), ..old(self)@ }),
            r@ == interleaved(
                old(self)@.sink.pulls(n as nat),
                old(self)@.emitter,
                old(self)@.left_ear,
                old(self)@.right_ear,
                old(self)@.volume,
            ),
    {
        let ghost v = self@;
        let mut out: Vec<i16> = Vec::new();
        let mut i: usize = 0;
        while i < n
            invariant
                self.wf(),
                i <= n,
                self@ == (SpatialView { sink: v.sink.after(i as nat), ..v }),
                out@ == interleaved(
                    v.sink.pulls(i as nat),
                    v.emitter,
                    v.left_ear,
                    v.right_ear,
                    v.volume,
                ),
            decreases n - i,
        {
            proof {
                lemma_pulls_step(v.sink, i as nat);
            }
            let ghost before = out@;
            let f = self.next_frame();
            match f {
                Some(lr) => {
                    out.push(lr.0);
                    out.push(lr.1);
                },
                None => {
                    out.push(0);
                    out.push(0);
                },
            }
            assert(out@ =~= interleaved(
                v.sink.pulls((i + 1) as nat),
                v.emitter,
                v.left_ear,
                v.right_ear,
                v.volume,
            ));
            i = i + 1;
        }
        out
    }

    /// Pulls the next stereo frame: the sink's next sample (silence while
    /// paused) as heard at each ear from where the emitter stands now, then
    /// at the sink's volume; `None` when nothing is queued.
    pub fn next_frame(&mut self) -> (r: Option<(i16, i16)>)
        requires
            old(self).wf(),
        ensures
            final(self).wf(),
            final(self)@ == (SpatialView { sink: old(self)@.sink.pull().1, ..old(self)@ }),
            old(self)@.sink.pull().0.is_none() ==> r.is_none(),
            forall|x: i16|
                old(self)@.sink.pull().0 == Some(x) ==> r == Some(
                    at_volume(
                        spatial_frame(
                            x,
                            old(self)@.emitter,
                            old(self)@.left_ear,
                            old(self)@.right_ear,
                        ),
                        old(self)@.volume,
                    ),
                ),
    {
        match self.sink.next_sample() {
            Some(x) => {
                let f = render_frame(x, self.emitter, self.left_ear, self.right_ear);
                Some((scale_sample(f.0, self.volume), scale_sample(f.1, self.volume)))
            },
            None => None,
        }
    }
}

} // verus!
