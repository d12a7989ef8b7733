use vstd::prelude::*;

verus! {

/// Number of samples that `ms` milliseconds of audio take at `rate` frames per
/// second with `channels` interleaved channels (whole frames only).
pub open spec fn samples_for_ms(ms: int, rate: int, channels: int) -> int {
    (ms * rate / 1000) * channels
}

/// A finite source backed by an owned vector of interleaved samples.
pub struct SamplesBuffer {
    channels: u16,
    sample_rate: u32,
    data: Vec<i16>,
    pos: usize,
}

impl View for SamplesBuffer {
    /// The samples that are still to come, in order.
    type V = Seq<i16>;

    closed spec fn view(&self) -> Seq<i16> {
        self.data@.subrange(self.pos as int, self.data@.len() as int)
    }
}

impl SamplesBuffer {
    /// Internal consistency: the read position lies within the data, and the
    /// format is a valid one.
    pub closed spec fn wf(&self) -> bool {
        &&& self.pos <= self.data@.len()
        &&& 1 <= self.channels <= 2
        &&& self.sample_rate > 0
    }

    pub closed spec fn spec_channels(&self) -> u16 {
        self.channels
    }

    pub closed spec fn spec_sample_rate(&self) -> u32 {
        self.sample_rate
    }

    /// Whether the source has the given channel count and rate.
    pub open spec fn same_format(&self, channels: u16, sample_rate: u32) -> bool {
        self.spec_channels() == channels && self.spec_sample_rate() == sample_rate
    }

    /// A source that yields `data` in order, then ends.
    pub fn new(channels: u16, sample_rate: u32, data: Vec<i16>) -> (r: SamplesBuffer)
        requires
            1 <= channels <= 2,
            sample_rate > 0,
        ensures
            r.wf(),
            r@ == data@,
            r.spec_channels() == channels,
            r.spec_sample_rate() == sample_rate,
    {
        let r = SamplesBuffer { channels, sample_rate, data, pos: 0 };
        assert(r@ =~= r.data@);
        r
    }

    pub fn channels(&self) -> (r: u16)
        ensures
            r == self.spec_channels(),
    {
        self.channels
    }

    pub fn sample_rate(&self) -> (r: u32)
        ensures
            r == self.spec_sample_rate(),
    {
        self.sample_rate
    }

    /// The number of samples left in the current run of unchanged format:
    /// here, all that remain.
    pub fn current_frame_len(&self) -> (r: Option<usize>)
        requires
            self.wf(),
        ensures
            r == Some(self@.len() as usize),
    {
        Some(self.data.len() - self.pos)
    }

    pub fn is_exhausted(&self) -> (r: bool)
        requires
            self.wf(),
        ensures
            r == (self@.len() == 0),
    {
        self.pos >= self.data.len()
    }

    /// Yields the next sample, or `None` once every sample has been yielded;
    /// the end is sticky.
    pub fn next(&mut self) -> (r: Option<i16>)
        requires
            old(self).wf(),
        ensures
            final(self).wf(),
            final(self).spec_channels() == old(self).spec_channels(),
            final(self).spec_sample_rate() == old(self).spec_sample_rate(),
            old(self)@.len() == 0 ==> r.is_none() && final(self)@ == old(self)@,
            old(self)@.len() > 0 ==> r == Some(old(self)@[0]) && final(self)@ == old(
                self,
            )@.drop_first(),
    {
        if self.pos < self.data.len() {
            let s = self.data[self.pos];
            self.pos = self.pos + 1;
            assert(self@ =~= old(self)@.drop_first());
            Some(s)
        } else {
            None
        }
    }

    /// Truncates the source to its first `ms` milliseconds: whole frames at
    /// its own rate.
    pub fn take_duration_ms(self, ms: u64) -> (r: SamplesBuffer)
        requires
            self.wf(),
        ensures
            r.wf(),
            r.spec_channels() == self.spec_channels(),
            r.spec_sample_rate() == self.spec_sample_rate(),
            r@ == self@.take(
                vstd::math::min(
                    samples_for_ms(ms as int, self.spec_sample_rate() as int, self.spec_channels() as int),
                    self@.len() as int,
                ),
            ),
    {
        let mut s = self;
        let m: u128 = ms as u128;
        let rate: u128 = s.sample_rate as u128;
        let ch: u128 = s.channels as u128;
        assert(m * rate <= 0x1_0000_0000_0000_0000_0000_0000) by (nonlinear_arith)
            requires
                m <= 0xffff_ffff_ffff_ffff,
                rate <= 0xffff_ffff,
        ;
        let frames: u128 = m * rate / 1000;
        assert(frames * ch <= 0x2_0000_0000_0000_0000_0000_0000) by (nonlinear_arith)
            requires
                frames <= 0x1_0000_0000_0000_0000_0000_0000,
                ch <= 2,
        ;
        let n: u128 = frames * ch;
        let remaining: usize = s.data.len() - s.pos;
        if n < remaining as u128 {
            let keep: usize = s.pos + n as usize;
            s.data.truncate(keep);
            assert(s@ =~= self@.take(n as int));
        } else {
            assert(s@ =~= self@.take(self@.len() as int));
        }
        s
    }
}

} // verus!
