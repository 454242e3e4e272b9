use vstd::prelude::*;
use crate::accumulator::{AccumulatorView, ChunkAccumulator};
use crate::codec::{decode, lemma_decode_append, lemma_truncation, SAMPLE_WIDTH};
use crate::scheduler::{after_unit, PlaybackScheduler, SchedulerView};
use crate::unit::{ByteSource, UnitView};

verus! {

/// What the transport hands the ingest loop: a chunk of the response body,
/// its end, or a failure to retrieve the next chunk.
pub enum EventView {
    Chunk(Seq<u8>),
    EndOfStream,
    TransportFailed,
}

/// What the output is to do after one event: append `unit` to its queue (when
/// there is one), then resume playback if `resume`, then block until its
/// queue has drained if `wait_until_drained`.
pub struct IngestStep {
    pub unit: Option<ByteSource>,
    pub resume: bool,
    pub wait_until_drained: bool,
}

pub struct StepView {
    pub unit: Option<UnitView>,
    pub resume: bool,
    pub wait_until_drained: bool,
}

impl View for IngestStep {
    type V = StepView;

    open spec fn view(&self) -> StepView {
        StepView {
            unit: match self.unit {
                Some(u) => Some(u@),
                None => None,
            },
            resume: self.resume,
            wait_until_drained: self.wait_until_drained,
        }
    }
}

/// The state of the ingest loop: `finished` once the stream has ended or
/// failed (before that it is receiving; draining happens within the
/// end-of-stream step).
pub struct IngestView {
    pub finished: bool,
    pub acc: AccumulatorView,
    pub sched: SchedulerView,
}

impl IngestView {
    /// While receiving, fewer bytes than the threshold are buffered between
    /// events.
    pub open spec fn wf(&self) -> bool {
        &&& self.acc.wf()
        &&& !self.finished ==> self.acc.buffered.len() < self.acc.threshold
    }
}

pub open spec fn idle_step() -> StepView {
    StepView { unit: None, resume: false, wait_until_drained: false }
}

/// The unit that a drain of `acc` hands out.
pub open spec fn unit_of(acc: AccumulatorView) -> UnitView {
    UnitView {
        sample_rate: acc.sample_rate,
        channels: acc.channels,
        samples: decode(acc.buffered),
    }
}

/// One step of the ingest loop: the next state and what the output is to do.
pub open spec fn ingest_step(s: IngestView, e: EventView) -> (IngestView, StepView) {
    if s.finished {
        (s, idle_step())
    } else {
        match e {
            EventView::Chunk(c) => {
                let acc = AccumulatorView { buffered: s.acc.buffered + c, ..s.acc };
                if acc.buffered.len() >= acc.threshold {
                    let sched = after_unit(s.sched);
                    (
                        IngestView { finished: false, acc: acc.drained(), sched },
                        StepView {
                            unit: Some(unit_of(acc)),
                            resume: s.sched.paused && !sched.paused,
                            wait_until_drained: false,
                        },
                    )
                } else {
                    (IngestView { acc, ..s }, idle_step())
                }
            },
            EventView::EndOfStream => {
                let unit = unit_of(s.acc);
                let sched = if unit.samples.len() > 0 {
                    after_unit(s.sched)
                } else {
                    s.sched
                };
                (
                    IngestView {
                        finished: true,
                        acc: s.acc.drained(),
                        sched: SchedulerView { paused: false, ..sched },
                    },
                    StepView {
                        unit: if unit.samples.len() > 0 {
                            Some(unit)
                        } else {
                            None
                        },
                        resume: true,
                        wait_until_drained: true,
                    },
                )
            },
            EventView::TransportFailed => (IngestView { finished: true, ..s }, idle_step()),
        }
    }
}

/// Drives the pipeline on the client: feeds chunks to the accumulator, hands
/// each unit to the scheduler, and flushes the remainder at the end.
pub struct IngestLoop {
    acc: ChunkAccumulator,
    sched: PlaybackScheduler,
    finished: bool,
}

impl View for IngestLoop {
    type V = IngestView;

    closed spec fn view(&self) -> IngestView {
        IngestView { finished: self.finished, acc: self.acc@, sched: self.sched@ }
    }
}

impl IngestLoop {
    pub fn new(threshold: usize, sample_rate: u32, channels: u16, warm_up_threshold: u64) -> (r:
        IngestLoop)
        requires
            threshold >= SAMPLE_WIDTH,
            sample_rate > 0,
            channels > 0,
        ensures
            r@.wf(),
            r@ == (IngestView {
                finished: false,
                acc: AccumulatorView {
                    buffered: Seq::empty(),
                    threshold: threshold as nat,
                    sample_rate,
                    channels,
                },
                sched: SchedulerView { units: 0, paused: true, warm_up: warm_up_threshold as nat },
            }),
    {
        IngestLoop {
            acc: ChunkAccumulator::new(threshold, sample_rate, channels),
            sched: PlaybackScheduler::new(warm_up_threshold),
            finished: false,
        }
    }

    /// Whether the stream has ended or failed.
    pub fn is_finished(&self) -> (r: bool)
        ensures
            r == self@.finished,
    {
        self.finished
    }

    /// Whether the output is being held paused.
    pub fn is_paused(&self) -> (r: bool)
        ensures
            r == self@.sched.paused,
    {
        self.sched.is_paused()
    }

    /// The number of units handed to the output so far.
    pub fn units_enqueued(&self) -> (r: u64)
        ensures
            r == self@.sched.units,
    {
        self.sched.units_enqueued()
    }

    /// Takes a chunk of the response body and says what the output is to do.
    pub fn on_chunk(&mut self, chunk: Vec<u8>) -> (r: IngestStep)
        requires
            old(self)@.wf(),
        ensures
            final(self)@.wf(),
            (final(self)@, r@) == ingest_step(old(self)@, EventView::Chunk(chunk@)),
            r.unit is Some ==> r.unit.unwrap().wf(),
    {
        if self.finished {
            return IngestStep { unit: None, resume: false, wait_until_drained: false };
        }
        self.acc.push(chunk);
        if self.acc.has_reached_threshold() {
            proof {
                lemma_truncation(self.acc@.buffered);
            }
            let unit = self.acc.drain();
            let resume = self.sched.on_unit_ready();
            IngestStep { unit: Some(unit), resume, wait_until_drained: false }
        } else {
            IngestStep { unit: None, resume: false, wait_until_drained: false }
        }
    }

    /// Takes the end of the response body: flushes what remains as a last
    /// unit, resumes the output and finishes.
    pub fn on_end_of_stream(&mut self) -> (r: IngestStep)
        requires
            old(self)@.wf(),
        ensures
            final(self)@.wf(),
            (final(self)@, r@) == ingest_step(old(self)@, EventView::EndOfStream),
            r.unit is Some ==> r.unit.unwrap().wf(),
    {
        if self.finished {
            return IngestStep { unit: None, resume: false, wait_until_drained: false };
        }
        let unit = self.acc.drain();
        let n: usize = match unit.current_frame_len() {
            Some(n) => n,
            None => 0,
        };
        let out = if n > 0 {
            self.sched.on_unit_ready();
            Some(unit)
        } else {
            None
        };
        self.sched.force_resume();
        self.finished = true;
        IngestStep { unit: out, resume: true, wait_until_drained: true }
    }

    /// Takes a failure of the transport: the stream is lost, and the loop
    /// finishes without flushing.
    pub fn on_transport_failed(&mut self) -> (r: IngestStep)
        requires
            old(self)@.wf(),
        ensures
            final(self)@.wf(),
            (final(self)@, r@) == ingest_step(old(self)@, EventView::TransportFailed),
    {
        self.finished = true;
        IngestStep { unit: None, resume: false, wait_until_drained: false }
    }
}

/// The bytes of a sequence of chunks, one after the other.
pub open spec fn concat(chunks: Seq<Seq<u8>>) -> Seq<u8>
    decreases chunks.len(),
{
    if chunks.len() == 0 {
        Seq::empty()
    } else {
        concat(chunks.drop_last()) + chunks.last()
    }
}

/// The samples of the units that a sequence of steps hands to the output, in
/// order.
pub open spec fn played(steps: Seq<StepView>) -> Seq<u32>
    decreases steps.len(),
{
    if steps.len() == 0 {
        Seq::empty()
    } else {
        played(steps.drop_last()) + match steps.last().unit {
            Some(u) => u.samples,
            None => Seq::empty(),
        }
    }
}

/// Feeds the chunks in order: the final state and the step of each chunk.
pub open spec fn feed_chunks(s: IngestView, chunks: Seq<Seq<u8>>) -> (IngestView, Seq<StepView>)
    decreases chunks.len(),
{
    if chunks.len() == 0 {
        (s, Seq::empty())
    } else {
        let prev = feed_chunks(s, chunks.drop_last());
        let next = ingest_step(prev.0, EventView::Chunk(chunks.last()));
        (next.0, prev.1.push(next.1))
    }
}

/// While chunks are fed, what has been played and what is buffered together
/// make up the bytes received: the played part is whole samples.
proof fn lemma_feed(s: IngestView, chunks: Seq<Seq<u8>>)
    requires
        s.wf(),
        !s.finished,
        s.acc.buffered.len() == 0,
    ensures
        ({
            let r = feed_chunks(s, chunks);
            let all = concat(chunks);
            let k = all.len() - r.0.acc.buffered.len();
            &&& r.0.wf()
            &&& !r.0.finished
            &&& 0 <= k
            &&& k % 4 == 0
            &&& all == all.subrange(0, k) + r.0.acc.buffered
            &&& played(r.1) == decode(all.subrange(0, k))
        }),
    decreases chunks.len(),
{
    let all = concat(chunks);
    if chunks.len() == 0 {
        assert(all =~= all.subrange(0, 0) + s.acc.buffered);
        assert(decode(all.subrange(0, 0)) =~= Seq::<u32>::empty());
    } else {
        let c = chunks.last();
        let prev = feed_chunks(s, chunks.drop_last());
        lemma_feed(s, chunks.drop_last());
        let before = concat(chunks.drop_last());
        let b = prev.0.acc.buffered;
        let kp = before.len() - b.len();
        let p = before.subrange(0, kp);
        assert(all == before + c);
        assert(all.subrange(0, kp) =~= p);
        let buf = b + c;
        let r = feed_chunks(s, chunks);
        let step = ingest_step(prev.0, EventView::Chunk(c));
        assert(r.1.drop_last() =~= prev.1);
        if buf.len() >= prev.0.acc.threshold {
            lemma_truncation(buf);
            let n = buf.len() - buf.len() % 4;
            let whole = buf.subrange(0, n);
            let k = all.len() - r.0.acc.buffered.len();
            assert(k == kp + n);
            assert(all =~= p + whole + r.0.acc.buffered);
            assert(all.subrange(0, k) =~= p + whole);
            lemma_decode_append(p, whole);
            assert(played(r.1) == played(prev.1) + decode(buf));
            assert((kp + n) % 4 == 0) by (nonlinear_arith)
                requires
                    kp % 4 == 0,
                    n % 4 == 0,
            ;
            assert(n % 4 == 0) by (nonlinear_arith)
                requires
                    n == buf.len() - buf.len() % 4,
            ;
        } else {
            assert(r.0.acc.buffered == buf);
            assert(all =~= p + buf);
            assert(played(r.1) =~= played(prev.1));
        }
    }
}

/// Whatever the chunks, the samples of all units handed to the output, the
/// end-of-stream flush included, are the samples of the bytes received, in
/// the order they arrived.
pub proof fn lemma_order_preserved(s: IngestView, chunks: Seq<Seq<u8>>)
    requires
        s.wf(),
        !s.finished,
        s.acc.buffered.len() == 0,
    ensures
        ({
            let fed = feed_chunks(s, chunks);
            let end = ingest_step(fed.0, EventView::EndOfStream);
            played(fed.1.push(end.1)) == decode(concat(chunks))
        }),
{
    lemma_feed(s, chunks);
    let fed = feed_chunks(s, chunks);
    let end = ingest_step(fed.0, EventView::EndOfStream);
    let all = concat(chunks);
    let b = fed.0.acc.buffered;
    let p = all.subrange(0, all.len() - b.len());
    assert(fed.1.push(end.1).drop_last() =~= fed.1);
    lemma_decode_append(p, b);
    if decode(b).len() == 0 {
        assert(decode(b) =~= Seq::<u32>::empty());
    }
    assert(played(fed.1.push(end.1)) =~= decode(p) + decode(b));
}

/// Fed one byte at a time, the loop hands out no unit before the threshold is
/// reached, and exactly one, holding every sample buffered, on the byte that
/// reaches it.
pub proof fn lemma_threshold_emission(s: IngestView, byte: u8)
    requires
        s.wf(),
        !s.finished,
    ensures
        ({
            let r = ingest_step(s, EventView::Chunk(seq![byte]));
            &&& (r.1.unit is Some) == (s.acc.buffered.len() + 1 == s.acc.threshold)
            &&& r.1.unit is Some ==> r.1.unit.unwrap().samples == decode(s.acc.buffered.push(byte))
                && r.1.unit.unwrap().samples.len() > 0
        }),
{
    let buf = s.acc.buffered + seq![byte];
    assert(buf =~= s.acc.buffered.push(byte));
    assert(buf.len() >= 4 ==> buf.len() / 4 > 0);
}

/// At the end of the stream the remaining bytes become one last unit exactly
/// when they hold a sample; no empty unit is ever handed out. Output resumes
/// whatever the count, and the loop finishes.
pub proof fn lemma_end_of_stream_flush(s: IngestView)
    requires
        s.wf(),
        !s.finished,
    ensures
        ({
            let r = ingest_step(s, EventView::EndOfStream);
            &&& (r.1.unit is Some) == (s.acc.buffered.len() >= SAMPLE_WIDTH)
            &&& r.1.unit is Some ==> r.1.unit.unwrap().samples == decode(s.acc.buffered)
                && r.1.unit.unwrap().samples.len() > 0
            &&& r.1.resume
            &&& r.1.wait_until_drained
            &&& r.0.finished
            &&& !r.0.sched.paused
        }),
{
    let b = s.acc.buffered;
    assert(b.len() >= 4 <==> b.len() / 4 > 0);
}

} // verus!
