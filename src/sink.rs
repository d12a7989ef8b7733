use vstd::prelude::*;

use crate::error::PlaybackError;
use crate::mixer::{added, lemma_mix_pulls_len, mix_pull, mix_pulls, DynamicMixer};
use crate::sample::{scale_sample, scaled, UNITY_VOLUME};
use crate::source::SamplesBuffer;

verus! {

/// The abstract state of a sink: the samples still to come from each queued
/// entry (head first), the mixer attached behind them if any (what is still
/// to come from each of its sources), the pause flag, the volume in
/// thousandths, the number of entries that have been played to their end, and
/// the last error reported from the device.
pub struct SinkView {
    pub queue: Seq<Seq<i16>>,
    pub mixer: Option<Seq<Seq<i16>>>,
    pub paused: bool,
    pub volume: u32,
    pub completed: u64,
    pub last_error: Option<PlaybackError>,
}

/// A counter after one more event; it stops at its largest value.
pub open spec fn bumped(c: u64) -> u64 {
    if c < u64::MAX {
        (c + 1) as u64
    } else {
        c
    }
}

/// What the device plays for one pull: the sample, or silence when the sink
/// has nothing to give.
pub open spec fn or_silence(o: Option<i16>) -> i16 {
    match o {
        Some(x) => x,
        None => 0,
    }
}

/// Every sample still to come from the queue, in the order they are played.
pub open spec fn flat(q: Seq<Seq<i16>>) -> Seq<i16>
    decreases q.len(),
{
    if q.len() == 0 {
        Seq::empty()
    } else {
        q[0] + flat(q.drop_first())
    }
}

impl SinkView {
    /// No queued entry is already exhausted.
    pub open spec fn entries_nonempty(self) -> bool {
        forall|i: int| 0 <= i < self.queue.len() ==> #[trigger] self.queue[i].len() > 0
    }

    /// The state after appending a source whose samples are `s`: an empty
    /// source is complete at once; behind an attached mixer, which never ends,
    /// a source would never be reached and is not queued.
    pub open spec fn appended(self, s: Seq<i16>) -> SinkView {
        if self.mixer is Some {
            self
        } else if s.len() == 0 {
            SinkView { completed: bumped(self.completed), ..self }
        } else {
            SinkView { queue: self.queue.push(s), ..self }
        }
    }

    /// The state after appending a mixer whose sources hold `m`: it plays once
    /// the queued entries are done, and from then on for good; behind another
    /// mixer it would never be reached and is not attached.
    pub open spec fn mixer_appended(self, m: Seq<Seq<i16>>) -> SinkView {
        if self.mixer is Some {
            self
        } else {
            SinkView { mixer: Some(m), ..self }
        }
    }

    /// The state after `stop`: nothing queued, no mixer, and playing again.
    pub open spec fn stopped(self) -> SinkView {
        SinkView { queue: Seq::empty(), mixer: None, paused: false, ..self }
    }

    pub open spec fn with_paused(self, paused: bool) -> SinkView {
        SinkView { paused, ..self }
    }

    pub open spec fn with_volume(self, volume: u32) -> SinkView {
        SinkView { volume, ..self }
    }

    /// One pull from the output: silence while paused; otherwise the head's
    /// next sample at the current volume, dropping the head once it ends;
    /// once no entry is queued, the attached mixer's next sample at the current
    /// volume; `None` when there is neither.
    pub open spec fn pull(self) -> (Option<i16>, SinkView) {
        if self.paused {
            (Some(0i16), self)
        } else if self.queue.len() == 0 {
            match self.mixer {
                Some(q) => (
                    Some(scaled(mix_pull(q).0, self.volume)),
                    SinkView { mixer: Some(mix_pull(q).1), ..self },
                ),
                None => (None, self),
            }
        } else {
            let head = self.queue[0];
            let out = Some(scaled(head[0], self.volume));
            if head.len() <= 1 {
                (
                    out,
                    SinkView {
                        queue: self.queue.drop_first(),
                        completed: bumped(self.completed),
                        ..self
                    },
                )
            } else {
                (out, SinkView { queue: self.queue.update(0, head.drop_first()), ..self })
            }
        }
    }

    /// The state after `n` pulls.
    pub open spec fn after(self, n: nat) -> SinkView
        decreases n,
    {
        if n == 0 {
            self
        } else {
            self.pull().1.after((n - 1) as nat)
        }
    }

    /// What `n` successive pulls return.
    pub open spec fn pulls(self, n: nat) -> Seq<Option<i16>>
        decreases n,
    {
        if n == 0 {
            Seq::empty()
        } else {
            seq![self.pull().0] + self.pull().1.pulls((n - 1) as nat)
        }
    }
}

/// A queue of sources played one after the other, with pause, stop and
/// volume controls. The device side pulls one sample at a time.
pub struct Sink {
    queue: Vec<SamplesBuffer>,
    mixer: Option<DynamicMixer>,
    paused: bool,
    volume: u32,
    completed: u64,
    last_error: Option<PlaybackError>,
}

impl View for Sink {
    type V = SinkView;

    closed spec fn view(&self) -> SinkView {
        SinkView {
            queue: self.queue@.map_values(|b: SamplesBuffer| b@),
            mixer: match self.mixer {
                Some(m) => Some(m@),
                None => None,
            },
            paused: self.paused,
            volume: self.volume,
            completed: self.completed,
            last_error: self.last_error,
        }
    }
}

impl Sink {
    pub closed spec fn wf(&self) -> bool {
        &&& forall|i: int|
            0 <= i < self.queue@.len() ==> (#[trigger] self.queue@[i]).wf() && self.queue@[i]@.len()
                > 0
        &&& match self.mixer {
            Some(m) => m.wf(),
            None => true,
        }
    }

    /// A well-formed sink queues no exhausted entry.
    pub proof fn lemma_wf_entries(&self)
        requires
            self.wf(),
        ensures
            self@.entries_nonempty(),
    {
        assert forall|i: int| 0 <= i < self@.queue.len() implies #[trigger] self@.queue[i].len()
            > 0 by {
            assert(self@.queue[i] == self.queue@[i]@);
        }
    }

    /// An empty sink, playing, at unity volume.
    pub fn new() -> (r: Sink)
        ensures
            r.wf(),
            r@ == (SinkView {
                queue: Seq::empty(),
                mixer: None,
                paused: false,
                volume: UNITY_VOLUME,
                completed: 0,
                last_error: None,
            }),
    {
        let r = Sink {
            queue: Vec::new(),
            mixer: None,
            paused: false,
            volume: UNITY_VOLUME,
            completed: 0,
            last_error: None,
        };
        assert(r@.queue =~= Seq::empty());
        r
    }

    /// Queues a source behind those already queued.
    pub fn append(&mut self, source: SamplesBuffer)
        requires
            old(self).wf(),
            source.wf(),
        ensures
            final(self).wf(),
            final(self)@ == old(self)@.appended(source@),
    {
        if self.mixer.is_some() {
            return;
        }
        if source.is_exhausted() {
            self.completed = self.completed.saturating_add(1);
        } else {
            self.queue.push(source);
            assert(self@.queue =~= old(self)@.queue.push(source@));
        }
    }

    /// Attaches a mixer behind the queued sources. A mixer never ends, so
    /// anything appended after it is never reached.
    pub fn append_mixer(&mut self, m: DynamicMixer)
        requires
            old(self).wf(),
            m.wf(),
        ensures
            final(self).wf(),
            final(self)@ == old(self)@.mixer_appended(m@),
    {
        if self.mixer.is_none() {
            self.mixer = Some(m);
        }
    }

    /// Channel count and rate of the attached mixer.
    pub closed spec fn spec_mixer_format(&self) -> (u16, u32) {
        match self.mixer {
            Some(m) => (m.spec_channels(), m.spec_sample_rate()),
            None => (0, 0),
        }
    }

    /// Adds a source to the attached mixer: `None` when no mixer is attached,
    /// otherwise what the mixer answers (a source of another format is
    /// refused).
    pub fn mixer_add(&mut self, source: SamplesBuffer) -> (r: Option<Result<(), PlaybackError>>)
        requires
            old(self).wf(),
            source.wf(),
        ensures
            final(self).wf(),
            final(self).spec_mixer_format() == old(self).spec_mixer_format(),
            old(self)@.mixer is None ==> r is None && final(self)@ == old(self)@,
            old(self)@.mixer is Some && !source.same_format(
                old(self).spec_mixer_format().0,
                old(self).spec_mixer_format().1,
            ) ==> r == Some(Err::<(), PlaybackError>(PlaybackError::FormatMismatch)) && final(
                self)@ == old(self)@,
            old(self)@.mixer is Some && source.same_format(
                old(self).spec_mixer_format().0,
                old(self).spec_mixer_format().1,
            ) ==> r == Some(Ok::<(), PlaybackError>(())) && final(self)@ == (SinkView {
                mixer: Some(added(old(self)@.mixer.unwrap(), source@)),
                ..old(self)@
            }),
    {
        match self.mixer.take() {
            Some(m) => {
                let mut m = m;
                let r = m.add(source);
                self.mixer = Some(m);
                Some(r)
            },
            None => None,
        }
    }

    /// Resumes emission.
    pub fn play(&mut self)
        requires
            old(self).wf(),
        ensures
            final(self).wf(),
            final(self)@ == old(self)@.with_paused(false),
    {
        self.paused = false;
    }

    /// Suspends emission without discarding anything queued.
    pub fn pause(&mut self)
        requires
            old(self).wf(),
        ensures
            final(self).wf(),
            final(self)@ == old(self)@.with_paused(true),
    {
        self.paused = true;
    }

    pub fn is_paused(&self) -> (r: bool)
        ensures
            r == self@.paused,
    {
        self.paused
    }

    /// Discards everything queued; the sink stays usable.
    pub fn stop(&mut self)
        requires
            old(self).wf(),
        ensures
            final(self).wf(),
            final(self)@ == old(self)@.stopped(),
    {
        self.queue = Vec::new();
        self.mixer = None;
        self.paused = false;
        assert(self@.queue =~= Seq::empty());
    }

    /// Records that the device stream failed: the sink stops, and the error
    /// stays visible through `last_error`.
    pub fn device_lost(&mut self)
        requires
            old(self).wf(),
        ensures
            final(self).wf(),
            final(self)@ == (SinkView {
                last_error: Some(PlaybackError::DeviceLost),
                ..old(self)@.stopped()
            }),
    {
        self.stop();
        self.last_error = Some(PlaybackError::DeviceLost);
    }

    /// The last error reported from the device, if any.
    pub fn last_error(&self) -> (r: Option<PlaybackError>)
        ensures
            r == self@.last_error,
    {
        self.last_error
    }

    /// Sets the volume, in thousandths (1000 is unity).
    pub fn set_volume(&mut self, volume: u32)
        requires
            old(self).wf(),
        ensures
            final(self).wf(),
            final(self)@ == old(self)@.with_volume(volume),
    {
        self.volume = volume;
    }

    pub fn volume(&self) -> (r: u32)
        ensures
            r == self@.volume,
    {
        self.volume
    }

    /// Number of entries played to their end.
    pub fn completed(&self) -> (r: u64)
        ensures
            r == self@.completed,
    {
        self.completed
    }

    /// Number of entries still queued.
    pub fn len(&self) -> (r: usize)
        ensures
            r == self@.queue.len(),
    {
        self.queue.len()
    }

    /// Whether every queued sample has been played and no mixer is attached.
    pub fn empty(&self) -> (r: bool)
        requires
            self.wf(),
        ensures
            r == (self@.queue.len() == 0 && self@.mixer is None),
            (self@.queue.len() == 0) == (flat(self@.queue).len() == 0),
    {
        proof {
            self.lemma_wf_entries();
            lemma_flat_empty(self@);
        }
        self.queue.len() == 0 && self.mixer.is_none()
    }

    /// Fills a device buffer of `n` samples from the sink, with silence once it
    /// has nothing to give.
    pub fn fill_buffer(&mut self, n: usize) -> (r: Vec<i16>)
        requires
            old(self).wf(),
        ensures
            final(self).wf(),
            final(self)@ == old(self)@.after(n as nat),
            r@ == old(self)@.pulls(n as nat).map_values(|o: Option<i16>| or_silence(o)),
    {
        let ghost v = self@;
        let mut out: Vec<i16> = Vec::new();
        let mut i: usize = 0;
        while i < n
            invariant
                self.wf(),
                i <= n,
                self@ == v.after(i as nat),
                out@ == v.pulls(i as nat).map_values(|o: Option<i16>| or_silence(o)),
            decreases n - i,
        {
            proof {
                lemma_pulls_step(v, i as nat);
            }
            let o = self.next_sample();
            let x: i16 = match o {
                Some(x) => x,
                None => 0,
            };
            out.push(x);
            assert(out@ =~= v.pulls((i + 1) as nat).map_values(|o: Option<i16>| or_silence(o)));
            i = i + 1;
        }
        out
    }

    /// Pulls the next output sample.
    pub fn next_sample(&mut self) -> (r: Option<i16>)
        requires
            old(self).wf(),
        ensures
            final(self).wf(),
            (r, final(self)@) == old(self)@.pull(),
    {
        if self.paused {
            return Some(0);
        }
        if self.queue.len() == 0 {
            match self.mixer.take() {
                Some(m) => {
                    let mut m = m;
                    let x = m.next_sample();
                    self.mixer = Some(m);
                    return Some(scale_sample(x, self.volume));
                },
                None => {
                    return None;
                },
            }
        }
        let ghost v = self@;
        assert(self.queue@[0]@ == v.queue[0]);
        let mut head = self.queue.remove(0);
        let s = head.next();
        let out = match s {
            Some(x) => scale_sample(x, self.volume),
            None => 0,
        };
        if head.is_exhausted() {
            self.completed = self.completed.saturating_add(1);
            assert(self@.queue =~= v.queue.drop_first());
        } else {
            self.queue.insert(0, head);
            assert(self@.queue =~= v.queue.update(0, v.queue[0].drop_first()));
        }
        Some(out)
    }
}

/// One more pull extends the record of pulls by what the pull returns.
pub proof fn lemma_pulls_step(v: SinkView, i: nat)
    ensures
        v.pulls(i + 1) == v.pulls(i).push(v.after(i).pull().0),
        v.after(i + 1) == v.after(i).pull().1,
    decreases i,
{
    if i > 0 {
        lemma_pulls_step(v.pull().1, (i - 1) as nat);
        assert(v.pulls(i + 1) =~= v.pulls(i).push(v.after(i).pull().0));
    } else {
        let w = v.pull().1;
        assert(w.pulls(0) == Seq::<Option<i16>>::empty());
        assert(w.after(0) == w);
        assert(v.after(0) == v);
        assert(v.after(1) == w.after(0));
        assert(v.pulls(0) == Seq::<Option<i16>>::empty());
        assert(v.pulls(1) =~= v.pulls(0).push(v.pull().0));
    }
}

/// An empty queue holds no samples, and a queue of non-empty entries holds
/// samples if it holds an entry.
proof fn lemma_flat_empty(v: SinkView)
    requires
        v.entries_nonempty(),
    ensures
        (flat(v.queue).len() == 0) == (v.queue.len() == 0),
{
    if v.queue.len() > 0 {
        assert(v.queue[0].len() > 0);
    }
}

/// Appending an entry appends its samples to the stream.
pub proof fn lemma_flat_push(q: Seq<Seq<i16>>, s: Seq<i16>)
    ensures
        flat(q.push(s)) == flat(q) + s,
    decreases q.len(),
{
    if q.len() == 0 {
        assert(q.push(s).drop_first() =~= Seq::<Seq<i16>>::empty());
        assert(flat(q.push(s).drop_first()) == Seq::<i16>::empty());
        assert(q.push(s)[0] == s);
        assert(flat(q.push(s)) =~= flat(q) + s);
    } else {
        assert(q.push(s).drop_first() =~= q.drop_first().push(s));
        assert(q.push(s)[0] == q[0]);
        lemma_flat_push(q.drop_first(), s);
        assert(flat(q.push(s)) == q[0] + (flat(q.drop_first()) + s));
        assert(q[0] + (flat(q.drop_first()) + s) =~= (q[0] + flat(q.drop_first())) + s);
    }
}

/// A pull that plays a sample takes the first sample off the stream.
proof fn lemma_pull_advances(v: SinkView)
    requires
        v.entries_nonempty(),
        !v.paused,
        v.queue.len() > 0,
    ensures
        v.pull().1.entries_nonempty(),
        flat(v.pull().1.queue) == flat(v.queue).drop_first(),
        v.pull().0 == Some(scaled(flat(v.queue)[0], v.volume)),
        v.pull().1.paused == v.paused,
        v.pull().1.volume == v.volume,
{
    let head = v.queue[0];
    assert(head.len() > 0);
    assert(flat(v.queue) == head + flat(v.queue.drop_first()));
    let w = v.pull().1;
    if head.len() <= 1 {
        assert(flat(v.queue).drop_first() =~= flat(v.queue.drop_first()));
        assert forall|i: int| 0 <= i < w.queue.len() implies #[trigger] w.queue[i].len() > 0 by {
            assert(w.queue[i] == v.queue[i + 1]);
        }
    } else {
        assert(w.queue.drop_first() =~= v.queue.drop_first());
        assert(flat(v.queue).drop_first() =~= flat(w.queue));
        assert forall|i: int| 0 <= i < w.queue.len() implies #[trigger] w.queue[i].len() > 0 by {
            if i > 0 {
                assert(w.queue[i] == v.queue[i]);
            }
        }
    }
}

/// While playing, the first `k` pulls return the first `k` queued samples, in
/// order, at the sink's volume.
pub proof fn lemma_playing_stream(v: SinkView, k: nat)
    requires
        v.entries_nonempty(),
        !v.paused,
        k <= flat(v.queue).len(),
    ensures
        v.pulls(k) == Seq::new(k, |i: int| Some(scaled(flat(v.queue)[i], v.volume))),
    decreases k,
{
    if k > 0 {
        lemma_flat_empty(v);
        lemma_pull_advances(v);
        let w = v.pull().1;
        lemma_playing_stream(w, (k - 1) as nat);
        assert(v.pulls(k) =~= Seq::new(k, |i: int| Some(scaled(flat(v.queue)[i], v.volume))));
    } else {
        assert(v.pulls(k) =~= Seq::new(k, |i: int| Some(scaled(flat(v.queue)[i], v.volume))));
    }
}

/// Sources play in the order they were appended: after appending `a` and then
/// `b` to a playing sink, its pulls return what was already queued, then every
/// sample of `a`, then every sample of `b`, each at the sink's volume.
pub proof fn lemma_fifo_order(v: SinkView, a: Seq<i16>, b: Seq<i16>)
    requires
        v.entries_nonempty(),
        v.mixer is None,
        !v.paused,
    ensures
        ({
            let w = v.appended(a).appended(b);
            let all = flat(v.queue) + a + b;
            w.pulls(all.len()) == Seq::new(all.len(), |i: int| Some(scaled(all[i], v.volume)))
        }),
{
    let w1 = v.appended(a);
    let w = w1.appended(b);
    if a.len() > 0 {
        lemma_flat_push(v.queue, a);
    } else {
        assert(flat(v.queue) + a =~= flat(v.queue));
    }
    assert(flat(w1.queue) == flat(v.queue) + a);
    if b.len() > 0 {
        lemma_flat_push(w1.queue, b);
    } else {
        assert(flat(w1.queue) + b =~= flat(w1.queue));
    }
    assert(flat(w.queue) == flat(v.queue) + a + b);
    assert forall|i: int| 0 <= i < w.queue.len() implies #[trigger] w.queue[i].len() > 0 by {
        if i < v.queue.len() {
            assert(w.queue[i] == v.queue[i]);
        } else if i == v.queue.len() && a.len() > 0 {
            assert(w.queue[i] == a);
        }
    }
    lemma_playing_stream(w, flat(w.queue).len());
}

/// While paused every pull is silent and consumes nothing, so on resuming the
/// next pull returns what it would have returned at the moment of pausing.
pub proof fn lemma_pause_silence(v: SinkView, n: nat)
    ensures
        v.with_paused(true).pulls(n) == Seq::new(n, |i: int| Some(0i16)),
        v.with_paused(true).after(n) == v.with_paused(true),
        !v.paused ==> v.with_paused(true).after(n).with_paused(false).pull() == v.pull(),
    decreases n,
{
    let p = v.with_paused(true);
    if n > 0 {
        lemma_pause_silence(v, (n - 1) as nat);
        assert(p.pull().1 == p);
    }
    assert(p.pulls(n) =~= Seq::new(n, |i: int| Some(0i16)));
    if !v.paused {
        assert(p.with_paused(false) == v);
    }
}

/// After `stop` nothing is queued and the next pull finds the sink empty.
pub proof fn lemma_stop_empties(v: SinkView)
    ensures
        v.stopped().queue.len() == 0,
        v.stopped().mixer is None,
        flat(v.stopped().queue).len() == 0,
        v.stopped().pull().0 == None::<i16>,
        v.stopped().entries_nonempty(),
{
}

/// At volume 0 a playing sink emits only silence; at unity volume it emits
/// its queued samples unchanged.
pub proof fn lemma_volume_extremes(v: SinkView, k: nat)
    requires
        v.entries_nonempty(),
        !v.paused,
        k <= flat(v.queue).len(),
    ensures
        v.with_volume(0).pulls(k) == Seq::new(k, |i: int| Some(0i16)),
        v.with_volume(1000).pulls(k) == Seq::new(k, |i: int| Some(flat(v.queue)[i])),
{
    lemma_playing_stream(v.with_volume(0), k);
    lemma_playing_stream(v.with_volume(1000), k);
    assert forall|i: int| 0 <= i < k implies scaled(#[trigger] flat(v.queue)[i], 0) == 0
        && scaled(flat(v.queue)[i], 1000) == flat(v.queue)[i] by {
        crate::sample::lemma_volume_linearity(flat(v.queue)[i]);
    }
    assert(v.with_volume(0).pulls(k) =~= Seq::new(k, |i: int| Some(0i16)));
    assert(v.with_volume(1000).pulls(k) =~= Seq::new(k, |i: int| Some(flat(v.queue)[i])));
}

/// Once the queued entries are done, a playing sink emits what its attached
/// mixer emits, at the sink's volume, for as long as it is pulled.
pub proof fn lemma_mixer_stream(v: SinkView, q: Seq<Seq<i16>>, n: nat)
    requires
        v.queue.len() == 0,
        v.mixer == Some(q),
        !v.paused,
    ensures
        v.pulls(n) == Seq::new(n, |i: int| Some(scaled(mix_pulls(q, n)[i], v.volume))),
    decreases n,
{
    if n > 0 {
        let w = v.pull().1;
        assert(v.pull().0 == Some(scaled(mix_pull(q).0, v.volume)));
        assert(w == SinkView { mixer: Some(mix_pull(q).1), ..v });
        lemma_mixer_stream(w, mix_pull(q).1, (n - 1) as nat);
        assert(v.pulls(n) == seq![v.pull().0] + w.pulls((n - 1) as nat));
        assert(mix_pulls(q, n) == seq![mix_pull(q).0] + mix_pulls(mix_pull(q).1, (n - 1) as nat));
        lemma_mix_pulls_len(mix_pull(q).1, (n - 1) as nat);
    } else {
        assert(v.pulls(0) == Seq::<Option<i16>>::empty());
    }
    assert(v.pulls(n) =~= Seq::new(n, |i: int| Some(scaled(mix_pulls(q, n)[i], v.volume))));
}

/// Stopping cuts a source short: a source of `a.len()` samples appended to an
/// idle playing sink and stopped after `k < a.len()` pulls has given exactly
/// its first `k` samples, and every later pull finds the sink empty.
pub proof fn lemma_stop_cuts_short(v: SinkView, a: Seq<i16>, k: nat, m: nat)
    requires
        v.queue.len() == 0,
        v.mixer is None,
        !v.paused,
        k < a.len(),
    ensures
        v.appended(a).pulls(k) == Seq::new(k, |i: int| Some(scaled(a[i], v.volume))),
        v.appended(a).after(k).stopped().pulls(m) == Seq::new(m, |i: int| None::<i16>),
{
    let w = v.appended(a);
    assert(w.queue =~= seq![a]);
    assert(seq![a].drop_first() =~= Seq::<Seq<i16>>::empty());
    assert(flat(Seq::<Seq<i16>>::empty()) == Seq::<i16>::empty());
    assert(seq![a][0] == a);
    assert(flat(seq![a]) == a + flat(Seq::<Seq<i16>>::empty()));
    assert(flat(seq![a]) =~= a);
    assert(w.entries_nonempty());
    lemma_playing_stream(w, k);
    lemma_stopped_silent(w.after(k), m);
}

/// A stopped sink gives nothing, however often it is pulled.
pub proof fn lemma_stopped_silent(v: SinkView, m: nat)
    ensures
        v.stopped().pulls(m) == Seq::new(m, |i: int| None::<i16>),
    decreases m,
{
    let s = v.stopped();
    assert(s.pull() == (None::<i16>, s));
    if m > 0 {
        lemma_stopped_silent(v, (m - 1) as nat);
    }
    assert(s.pulls(m) =~= Seq::new(m, |i: int| None::<i16>));
}

} // verus!
