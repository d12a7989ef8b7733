use vstd::prelude::*;

use crate::error::PlaybackError;
use crate::sample::{saturate, saturate_wide};
use crate::source::SamplesBuffer;

verus! {

/// Sum of the next sample of every active source.
pub open spec fn sum_heads(q: Seq<Seq<i16>>) -> int
    decreases q.len(),
{
    if q.len() == 0 {
        0
    } else {
        sum_heads(q.drop_last()) + q.last()[0] as int
    }
}

/// The active sources after each has given one sample: those that ran out
/// are removed, the others keep their order.
pub open spec fn advanced(q: Seq<Seq<i16>>) -> Seq<Seq<i16>>
    decreases q.len(),
{
    if q.len() == 0 {
        Seq::empty()
    } else {
        let rest = advanced(q.drop_last());
        let t = q.last().drop_first();
        if t.len() > 0 {
            rest.push(t)
        } else {
            rest
        }
    }
}

/// The active set after adding a source: an empty one adds nothing.
pub open spec fn added(q: Seq<Seq<i16>>, s: Seq<i16>) -> Seq<Seq<i16>> {
    if s.len() == 0 {
        q
    } else {
        q.push(s)
    }
}

/// One output sample: the clamped sum of every active source's next sample,
/// silence when none is active; and the active set afterwards.
pub open spec fn mix_pull(q: Seq<Seq<i16>>) -> (i16, Seq<Seq<i16>>) {
    (saturate(sum_heads(q)), advanced(q))
}

/// The active set after `n` output samples.
pub open spec fn mix_after(q: Seq<Seq<i16>>, n: nat) -> Seq<Seq<i16>>
    decreases n,
{
    if n == 0 {
        q
    } else {
        mix_after(mix_pull(q).1, (n - 1) as nat)
    }
}

/// The first `n` output samples.
pub open spec fn mix_pulls(q: Seq<Seq<i16>>, n: nat) -> Seq<i16>
    decreases n,
{
    if n == 0 {
        Seq::empty()
    } else {
        seq![mix_pull(q).0] + mix_pulls(mix_pull(q).1, (n - 1) as nat)
    }
}

/// A source that sums every source added to it. It never ends: with no
/// active source it yields silence, so a source added later is still heard.
pub struct DynamicMixer {
    channels: u16,
    sample_rate: u32,
    sources: Vec<SamplesBuffer>,
}

impl View for DynamicMixer {
    /// What is still to come from each active source.
    type V = Seq<Seq<i16>>;

    closed spec fn view(&self) -> Seq<Seq<i16>> {
        self.sources@.map_values(|b: SamplesBuffer| b@)
    }
}

/// A mixer of the given format with no active source.
pub fn mixer(channels: u16, sample_rate: u32) -> (r: DynamicMixer)
    requires
        1 <= channels <= 2,
        sample_rate > 0,
    ensures
        r.wf(),
        r@ == Seq::<Seq<i16>>::empty(),
        r.spec_channels() == channels,
        r.spec_sample_rate() == sample_rate,
{
    DynamicMixer::new(channels, sample_rate)
}

impl DynamicMixer {
    pub closed spec fn wf(&self) -> bool {
        &&& 1 <= self.channels <= 2
        &&& self.sample_rate > 0
        &&& forall|i: int|
            0 <= i < self.sources@.len() ==> (#[trigger] self.sources@[i]).wf()
                && self.sources@[i]@.len() > 0
                && self.sources@[i].spec_channels() == self.channels
                && self.sources@[i].spec_sample_rate() == self.sample_rate
    }

    pub closed spec fn spec_channels(&self) -> u16 {
        self.channels
    }

    pub closed spec fn spec_sample_rate(&self) -> u32 {
        self.sample_rate
    }

    pub fn new(channels: u16, sample_rate: u32) -> (r: DynamicMixer)
        requires
            1 <= channels <= 2,
            sample_rate > 0,
        ensures
            r.wf(),
            r@ == Seq::<Seq<i16>>::empty(),
            r.spec_channels() == channels,
            r.spec_sample_rate() == sample_rate,
    {
        let r = DynamicMixer { channels, sample_rate, sources: Vec::new() };
        assert(r@ =~= Seq::<Seq<i16>>::empty());
        r
    }

    pub fn channels(&self) -> (r: u16)
        ensures
            r == self.spec_channels(),
    {
        self.channels
    }

    pub fn sample_rate(&self) -> (r: u32)
        ensures
            r == self.spec_sample_rate(),
    {
        self.sample_rate
    }

    /// Number of sources still playing.
    pub fn active_count(&self) -> (r: usize)
        ensures
            r == self@.len(),
    {
        self.sources.len()
    }

    /// Adds a source, which is heard from the next output sample on. A source
    /// of another format is refused.
    pub fn add(&mut self, source: SamplesBuffer) -> (r: Result<(), PlaybackError>)
        requires
            old(self).wf(),
            source.wf(),
        ensures
            final(self).wf(),
            final(self).spec_channels() == old(self).spec_channels(),
            final(self).spec_sample_rate() == old(self).spec_sample_rate(),
            !source.same_format(old(self).spec_channels(), old(self).spec_sample_rate()) ==> r
                == Err::<(), PlaybackError>(PlaybackError::FormatMismatch) && final(self)@ == old(
                self)@,
            source.same_format(old(self).spec_channels(), old(self).spec_sample_rate()) ==> r
                == Ok::<(), PlaybackError>(()) && final(self)@ == added(old(self)@, source@),
    {
        if source.channels() != self.channels || source.sample_rate() != self.sample_rate {
            return Err(PlaybackError::FormatMismatch);
        }
        if !source.is_exhausted() {
            self.sources.push(source);
            assert(self@ =~= old(self)@.push(source@));
        }
        Ok(())
    }

    /// The next output sample. The mixer never ends.
    pub fn next_sample(&mut self) -> (r: i16)
        requires
            old(self).wf(),
        ensures
            final(self).wf(),
            final(self).spec_channels() == old(self).spec_channels(),
            final(self).spec_sample_rate() == old(self).spec_sample_rate(),
            (r, final(self)@) == mix_pull(old(self)@),
    {
        let ghost q = self@;
        let ghost orig = self.sources@;
        let mut pending: Vec<SamplesBuffer> = Vec::new();
        std::mem::swap(&mut self.sources, &mut pending);
        let n: usize = pending.len();
        let mut kept: Vec<SamplesBuffer> = Vec::new();
        let mut acc: i128 = 0;
        let mut i: usize = 0;
        while i < n
            invariant
                n == orig.len(),
                q == orig.map_values(|b: SamplesBuffer| b@),
                pending@ == orig.subrange(i as int, n as int),
                1 <= self.channels <= 2,
                self.sample_rate > 0,
                self.channels == old(self).channels,
                self.sample_rate == old(self).sample_rate,
                forall|j: int|
                    0 <= j < orig.len() ==> (#[trigger] orig[j]).wf() && orig[j]@.len() > 0
                        && orig[j].spec_channels() == self.channels
                        && orig[j].spec_sample_rate() == self.sample_rate,
                i <= n,
                acc as int == sum_heads(q.take(i as int)),
                -0x8000 * i <= acc <= 0x7fff * i,
                kept@.map_values(|b: SamplesBuffer| b@) == advanced(q.take(i as int)),
                forall|j: int|
                    0 <= j < kept@.len() ==> (#[trigger] kept@[j]).wf() && kept@[j]@.len() > 0
                        && kept@[j].spec_channels() == self.channels
                        && kept@[j].spec_sample_rate() == self.sample_rate,
            decreases n - i,
        {
            assert(pending@[0] == orig[i as int]);
            let mut b = pending.remove(0);
            assert(pending@ =~= orig.subrange(i as int + 1, n as int));
            assert(q.take(i as int + 1).drop_last() =~= q.take(i as int));
            assert(q.take(i as int + 1).last() == q[i as int]);
            assert(q[i as int] == orig[i as int]@);
            let s = b.next();
            match s {
                Some(x) => {
                    acc = acc + x as i128;
                },
                None => {},
            }
            if !b.is_exhausted() {
                let ghost before = kept@;
                kept.push(b);
                assert(kept@.map_values(|b: SamplesBuffer| b@) =~= before.map_values(
                    |b: SamplesBuffer| b@,
                ).push(b@));
            }
            i = i + 1;
        }
        assert(q.take(n as int) =~= q);
        self.sources = kept;
        saturate_wide(acc)
    }
}

/// `n` pulls give `n` samples.
pub proof fn lemma_mix_pulls_len(q: Seq<Seq<i16>>, n: nat)
    ensures
        mix_pulls(q, n).len() == n,
    decreases n,
{
    if n > 0 {
        lemma_mix_pulls_len(mix_pull(q).1, (n - 1) as nat);
    }
}

/// A single source added to an idle mixer comes out unchanged.
pub proof fn lemma_mix_single(a: Seq<i16>)
    ensures
        mix_pulls(added(Seq::empty(), a), a.len()) == a,
    decreases a.len(),
{
    let q = added(Seq::empty(), a);
    if a.len() > 0 {
        let e = Seq::<Seq<i16>>::empty();
        assert(q.drop_last() =~= e);
        assert(q.last() == a);
        assert(advanced(e) == e);
        assert(sum_heads(e) == 0);
        assert(sum_heads(q) == a[0]);
        let t = a.drop_first();
        assert(advanced(q) == added(e, t));
        assert(mix_pull(q).1 == added(Seq::empty(), t));
        lemma_mix_single(t);
        assert(mix_pulls(q, a.len()) =~= a);
    } else {
        assert(mix_pulls(q, a.len()) =~= a);
    }
}

/// Two sources of equal length added to an idle mixer come out as the
/// clamped sums of their samples, position by position.
pub proof fn lemma_mix_sum(a: Seq<i16>, b: Seq<i16>)
    requires
        a.len() == b.len(),
    ensures
        mix_pulls(added(added(Seq::empty(), a), b), a.len()) == Seq::new(
            a.len(),
            |i: int| saturate(a[i] + b[i]),
        ),
    decreases a.len(),
{
    let q = added(added(Seq::empty(), a), b);
    let expected = Seq::new(a.len(), |i: int| saturate(a[i] + b[i]));
    if a.len() > 0 {
        let e = Seq::<Seq<i16>>::empty();
        let qa = seq![a];
        assert(q =~= seq![a, b]);
        assert(q.drop_last() =~= qa);
        assert(q.last() == b);
        assert(qa.drop_last() =~= e);
        assert(qa.last() == a);
        assert(sum_heads(e) == 0);
        assert(advanced(e) == e);
        assert(sum_heads(qa) == a[0]);
        assert(sum_heads(q) == a[0] + b[0]);
        let ta = a.drop_first();
        let tb = b.drop_first();
        assert(advanced(qa) == added(e, ta));
        assert(mix_pull(q).1 == added(added(Seq::empty(), ta), tb));
        lemma_mix_sum(ta, tb);
        assert(mix_pulls(q, a.len()) =~= expected);
    } else {
        assert(mix_pulls(q, a.len()) =~= expected);
    }
}

/// An idle mixer yields silence and stays idle for as long as it is pulled,
/// and a source added after any such wait is then heard in full.
pub proof fn lemma_mix_late_addition(n: nat, a: Seq<i16>)
    ensures
        mix_pulls(Seq::empty(), n) == Seq::new(n, |i: int| 0i16),
        mix_after(Seq::empty(), n) == Seq::<Seq<i16>>::empty(),
        mix_pulls(added(mix_after(Seq::empty(), n), a), a.len()) == a,
    decreases n,
{
    let e = Seq::<Seq<i16>>::empty();
    assert(mix_pull(e) == (0i16, e));
    if n > 0 {
        lemma_mix_late_addition((n - 1) as nat, a);
    }
    assert(mix_pulls(e, n) =~= Seq::new(n, |i: int| 0i16));
    lemma_mix_single(a);
}

/// The first `k` samples of a single source in an idle mixer are its own
/// first `k` samples, and the rest of it is left.
pub proof fn lemma_mix_single_prefix(a: Seq<i16>, k: nat)
    requires
        k <= a.len(),
    ensures
        mix_pulls(added(Seq::empty(), a), k) == a.take(k as int),
        mix_after(added(Seq::empty(), a), k) == added(Seq::empty(), a.skip(k as int)),
    decreases k,
{
    let e = Seq::<Seq<i16>>::empty();
    let q = added(e, a);
    if k > 0 {
        assert(q.drop_last() =~= e);
        assert(q.last() == a);
        assert(advanced(e) == e);
        assert(sum_heads(e) == 0);
        assert(sum_heads(q) == a[0]);
        let t = a.drop_first();
        assert(advanced(q) == added(e, t));
        lemma_mix_single_prefix(t, (k - 1) as nat);
        assert(mix_pulls(q, k) =~= a.take(k as int));
        assert(t.skip(k - 1) =~= a.skip(k as int));
    } else {
        assert(mix_pulls(q, k) =~= a.take(k as int));
        assert(a.skip(0) =~= a);
    }
}

/// With two sources in an idle mixer, the first `k` samples, while the shorter
/// lasts, are the clamped sums of theirs, and the rest of each is left.
pub proof fn lemma_mix_pair_prefix(a: Seq<i16>, b: Seq<i16>, k: nat)
    requires
        k <= a.len() <= b.len(),
    ensures
        mix_pulls(added(added(Seq::empty(), a), b), k) == Seq::new(
            k,
            |i: int| saturate(a[i] + b[i]),
        ),
        mix_after(added(added(Seq::empty(), a), b), k) == added(
            added(Seq::empty(), a.skip(k as int)),
            b.skip(k as int),
        ),
    decreases k,
{
    let e = Seq::<Seq<i16>>::empty();
    let q = added(added(e, a), b);
    let expected = Seq::new(k, |i: int| saturate(a[i] + b[i]));
    if k > 0 {
        let qa = seq![a];
        assert(q =~= seq![a, b]);
        assert(q.drop_last() =~= qa);
        assert(q.last() == b);
        assert(qa.drop_last() =~= e);
        assert(qa.last() == a);
        assert(sum_heads(e) == 0);
        assert(advanced(e) == e);
        assert(sum_heads(qa) == a[0]);
        assert(sum_heads(q) == a[0] + b[0]);
        let ta = a.drop_first();
        let tb = b.drop_first();
        assert(advanced(qa) == added(e, ta));
        assert(mix_pull(q).1 == added(added(e, ta), tb));
        lemma_mix_pair_prefix(ta, tb, (k - 1) as nat);
        assert(mix_pulls(q, k) =~= expected);
        assert(ta.skip(k - 1) =~= a.skip(k as int));
        assert(tb.skip(k - 1) =~= b.skip(k as int));
    } else {
        assert(mix_pulls(q, k) =~= expected);
        assert(a.skip(0) =~= a);
        assert(b.skip(0) =~= b);
    }
}

/// Two sources of `2 * h` samples each, the second added `h` samples after the
/// first: for `h` samples only the first is heard, then for `h` samples the
/// clamped sum of both, then for `h` samples only the second, and then the
/// mixer is idle again.
pub proof fn lemma_mix_staggered(a: Seq<i16>, b: Seq<i16>, h: nat)
    requires
        a.len() == 2 * h,
        b.len() == 2 * h,
    ensures
        ({
            let q0 = added(Seq::empty(), a);
            let q1 = added(mix_after(q0, h), b);
            &&& mix_pulls(q0, h) == a.take(h as int)
            &&& mix_pulls(q1, h) == Seq::new(h, |i: int| saturate(a[h + i] + b[i]))
            &&& mix_pulls(mix_after(q1, h), h) == b.skip(h as int)
            &&& mix_after(mix_after(q1, h), h) == Seq::<Seq<i16>>::empty()
        }),
{
    let e = Seq::<Seq<i16>>::empty();
    let q0 = added(e, a);
    lemma_mix_single_prefix(a, h);
    let ra = a.skip(h as int);
    let q1 = added(added(e, ra), b);
    lemma_mix_pair_prefix(ra, b, h);
    assert(Seq::new(h, |i: int| saturate(ra[i] + b[i])) =~= Seq::new(
        h,
        |i: int| saturate(a[h + i] + b[i]),
    ));
    assert(ra.skip(h as int) =~= Seq::<i16>::empty());
    assert(added(e, ra.skip(h as int)) == e);
    let rb = b.skip(h as int);
    lemma_mix_single_prefix(rb, h);
    assert(rb.take(h as int) =~= rb);
    assert(rb.skip(h as int) =~= Seq::<i16>::empty());
}

} // verus!
