use vstd::prelude::*;
use crate::codec::{bytes_to_samples, decode, leftover, SAMPLE_WIDTH};
use crate::unit::{ByteSource, UnitView};

verus! {

/// What the accumulator holds: the bytes buffered so far, the size at which a
/// unit is due, and the format that its units carry.
pub struct AccumulatorView {
    pub buffered: Seq<u8>,
    pub threshold: nat,
    pub sample_rate: u32,
    pub channels: u16,
}

impl AccumulatorView {
    /// The threshold holds at least one sample, so that every unit drained at
    /// the threshold has samples; the format is positive.
    pub open spec fn wf(&self) -> bool {
        &&& self.threshold >= SAMPLE_WIDTH
        &&& self.sample_rate > 0
        &&& self.channels > 0
    }

    /// The state after a drain: the trailing incomplete group stays buffered.
    pub open spec fn drained(&self) -> AccumulatorView {
        AccumulatorView { buffered: leftover(self.buffered), ..*self }
    }
}

/// Buffers incoming bytes until a threshold size is reached, then hands
/// them out as one playable unit.
pub struct ChunkAccumulator {
    buffer: Vec<u8>,
    threshold: usize,
    sample_rate: u32,
    channels: u16,
}

impl View for ChunkAccumulator {
    type V = AccumulatorView;

    closed spec fn view(&self) -> AccumulatorView {
        AccumulatorView {
            buffered: self.buffer@,
            threshold: self.threshold as nat,
            sample_rate: self.sample_rate,
            channels: self.channels,
        }
    }
}

impl ChunkAccumulator {
    pub fn new(threshold: usize, sample_rate: u32, channels: u16) -> (r: ChunkAccumulator)
        requires
            threshold >= SAMPLE_WIDTH,
            sample_rate > 0,
            channels > 0,
        ensures
            r@ == (AccumulatorView {
                buffered: Seq::empty(),
                threshold: threshold as nat,
                sample_rate,
                channels,
            }),
    {
        ChunkAccumulator { buffer: Vec::new(), threshold, sample_rate, channels }
    }

    /// Appends a chunk to the buffered bytes.
    pub fn push(&mut self, chunk: Vec<u8>)
        ensures
            final(self)@ == (AccumulatorView { buffered: old(self)@.buffered + chunk@, ..old(self)@ }),
    {
        let mut chunk = chunk;
        self.buffer.append(&mut chunk);
    }

    /// Whether enough bytes are buffered for a unit.
    pub fn has_reached_threshold(&self) -> (r: bool)
        ensures
            r == (self@.buffered.len() >= self@.threshold),
    {
        self.buffer.len() >= self.threshold
    }

    /// The number of bytes buffered.
    pub fn buffered_len(&self) -> (r: usize)
        ensures
            r == self@.buffered.len(),
    {
        self.buffer.len()
    }

    /// Decodes all complete samples buffered into one unit; only a trailing
    /// incomplete group stays, to be completed by the next push.
    pub fn drain(&mut self) -> (r: ByteSource)
        requires
            old(self)@.wf(),
        ensures
            final(self)@ == old(self)@.drained(),
            r.wf(),
            r@ == (UnitView {
                sample_rate: old(self)@.sample_rate,
                channels: old(self)@.channels,
                samples: decode(old(self)@.buffered),
            }),
    {
        let (samples, rest) = bytes_to_samples(self.buffer.as_slice());
        self.buffer = rest;
        ByteSource::new(self.sample_rate, self.channels, samples)
    }
}

} // verus!
