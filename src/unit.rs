use vstd::prelude::*;

verus! {

/// What a playable unit holds: its format and the samples not yet pulled.
pub struct UnitView {
    pub sample_rate: u32,
    pub channels: u16,
    pub samples: Seq<u32>,
}

/// A playable unit: a self-describing block of decoded samples, pulled one
/// sample at a time by the audio output.
pub struct ByteSource {
    sample_rate: u32,
    channels: u16,
    samples: Vec<u32>,
    next: usize,
}

impl View for ByteSource {
    type V = UnitView;

    closed spec fn view(&self) -> UnitView {
        UnitView {
            sample_rate: self.sample_rate,
            channels: self.channels,
            samples: self.samples@.subrange(self.next as int, self.samples@.len() as int),
        }
    }
}

impl ByteSource {
    /// Sample rate and channel count are positive, and the read position lies
    /// within the samples.
    pub closed spec fn wf(&self) -> bool {
        &&& self.next <= self.samples@.len()
        &&& self.sample_rate > 0
        &&& self.channels > 0
    }

    pub fn new(sample_rate: u32, channels: u16, samples: Vec<u32>) -> (r: ByteSource)
        requires
            sample_rate > 0,
            channels > 0,
        ensures
            r.wf(),
            r@ == (UnitView { sample_rate, channels, samples: samples@ }),
    {
        let r = ByteSource { sample_rate, channels, samples, next: 0 };
        assert(r@.samples =~= samples@);
        r
    }

    /// Pulls the next sample, or `None` once all have been pulled.
    pub fn next_sample(&mut self) -> (r: Option<u32>)
        requires
            old(self).wf(),
        ensures
            final(self).wf(),
            final(self)@.sample_rate == old(self)@.sample_rate,
            final(self)@.channels == old(self)@.channels,
            old(self)@.samples.len() == 0 ==> r.is_none() && final(self)@ == old(self)@,
            old(self)@.samples.len() > 0 ==> r == Some(old(self)@.samples[0])
                && final(self)@.samples == old(self)@.samples.drop_first(),
    {
        if self.next >= self.samples.len() {
            return None;
        }
        let s = self.samples[self.next];
        self.next = self.next + 1;
        assert(self@.samples =~= old(self)@.samples.drop_first());
        Some(s)
    }

    /// The number of samples left to pull.
    pub fn current_frame_len(&self) -> (r: Option<usize>)
        requires
            self.wf(),
        ensures
            r is Some,
            r.unwrap() == self@.samples.len(),
    {
        Some(self.samples.len() - self.next)
    }

    pub fn channels(&self) -> (r: u16)
        ensures
            r == self@.channels,
    {
        self.channels
    }

    pub fn sample_rate(&self) -> (r: u32)
        ensures
            r == self@.sample_rate,
    {
        self.sample_rate
    }
}

} // verus!
