use vstd::prelude::*;
use crate::codec::{encode, samples_to_bytes};
use crate::ingest::concat;

verus! {

/// What the producer holds: the encoded bytes not yet handed out, and the
/// size that a chunk must exceed to be handed out.
pub struct ProducerView {
    pub pending: Seq<u8>,
    pub chunk_size: nat,
}

/// One sample pushed: the next state and the chunk handed out, if any.
pub open spec fn push_step(p: ProducerView, sample: u32) -> (ProducerView, Option<Seq<u8>>) {
    let buf = p.pending + encode(seq![sample]);
    if buf.len() > p.chunk_size {
        (ProducerView { pending: Seq::empty(), ..p }, Some(buf))
    } else {
        (ProducerView { pending: buf, ..p }, None)
    }
}

/// Pushes the samples in order: the final state and the chunks handed out.
pub open spec fn push_all(p: ProducerView, samples: Seq<u32>) -> (ProducerView, Seq<Seq<u8>>)
    decreases samples.len(),
{
    if samples.len() == 0 {
        (p, Seq::empty())
    } else {
        let prev = push_all(p, samples.drop_last());
        let next = push_step(prev.0, samples.last());
        match next.1 {
            Some(c) => (next.0, prev.1.push(c)),
            None => (next.0, prev.1),
        }
    }
}

/// The chunks handed out for a whole signal, the last partial one included.
pub open spec fn frames(chunk_size: nat, samples: Seq<u32>) -> Seq<Seq<u8>> {
    let r = push_all(ProducerView { pending: Seq::empty(), chunk_size }, samples);
    if r.0.pending.len() > 0 {
        r.1.push(r.0.pending)
    } else {
        r.1
    }
}

proof fn lemma_encode_push(s: Seq<u32>, x: u32)
    ensures
        encode(s.push(x)) == encode(s) + encode(seq![x]),
{
    let l = encode(s.push(x));
    let r = encode(s) + encode(seq![x]);
    assert forall|j: int| 0 <= j < l.len() implies #[trigger] l[j] == r[j] by {
        if j < 4 * s.len() {
            assert(j / 4 < s.len()) by (nonlinear_arith)
                requires
                    0 <= j < 4 * s.len(),
            ;
        } else {
            let k = j - 4 * s.len();
            assert(j / 4 == s.len() && j % 4 == k && k / 4 == 0 && k % 4 == k) by (nonlinear_arith)
                requires
                    k == j - 4 * s.len(),
                    0 <= k < 4,
                    s.len() >= 0,
            ;
        }
    }
    assert(l =~= r);
}

proof fn lemma_push_all(chunk_size: nat, samples: Seq<u32>)
    ensures
        ({
            let r = push_all(ProducerView { pending: Seq::empty(), chunk_size }, samples);
            &&& r.0.chunk_size == chunk_size
            &&& concat(r.1) + r.0.pending == encode(samples)
            &&& forall|i: int| 0 <= i < r.1.len() ==> #[trigger] r.1[i].len() > chunk_size
        }),
    decreases samples.len(),
{
    let start = ProducerView { pending: Seq::empty(), chunk_size };
    if samples.len() == 0 {
        assert(encode(samples) =~= Seq::<u8>::empty());
        assert(concat(Seq::<Seq<u8>>::empty()) + Seq::<u8>::empty() =~= Seq::<u8>::empty());
    } else {
        lemma_push_all(chunk_size, samples.drop_last());
        lemma_encode_push(samples.drop_last(), samples.last());
        assert(samples.drop_last().push(samples.last()) =~= samples);
        let prev = push_all(start, samples.drop_last());
        let next = push_step(prev.0, samples.last());
        match next.1 {
            Some(c) => {
                let chunks = prev.1.push(c);
                assert(chunks.drop_last() =~= prev.1);
                assert(concat(chunks) + Seq::<u8>::empty() =~= concat(prev.1) + prev.0.pending
                    + encode(seq![samples.last()]));
            },
            None => {
                assert(concat(prev.1) + next.0.pending =~= concat(prev.1) + prev.0.pending
                    + encode(seq![samples.last()]));
            },
        }
    }
}

/// Joined, the chunks handed out for a signal are exactly its encoded
/// samples; every chunk but the last exceeds the chunk size, and none is
/// empty.
pub proof fn lemma_frames(chunk_size: nat, samples: Seq<u32>)
    ensures
        concat(frames(chunk_size, samples)) == encode(samples),
        forall|i: int|
            0 <= i < frames(chunk_size, samples).len() - 1 ==> #[trigger] frames(
                chunk_size,
                samples,
            )[i].len() > chunk_size,
        forall|i: int|
            0 <= i < frames(chunk_size, samples).len() ==> #[trigger] frames(chunk_size, samples)[i].len()
                > 0,
{
    lemma_push_all(chunk_size, samples);
    let r = push_all(ProducerView { pending: Seq::empty(), chunk_size }, samples);
    let f = frames(chunk_size, samples);
    if r.0.pending.len() > 0 {
        assert(f.drop_last() =~= r.1);
    } else {
        assert(r.0.pending =~= Seq::<u8>::empty());
        assert(concat(r.1) + r.0.pending =~= concat(r.1));
    }
}

/// Frames a stream of samples into byte chunks for the response body: each
/// chunk is handed out as soon as it exceeds the chunk size, and the rest at
/// the end of the signal.
pub struct FrameProducer {
    pending: Vec<u8>,
    chunk_size: usize,
}

impl View for FrameProducer {
    type V = ProducerView;

    closed spec fn view(&self) -> ProducerView {
        ProducerView { pending: self.pending@, chunk_size: self.chunk_size as nat }
    }
}

impl FrameProducer {
    pub fn new(chunk_size: usize) -> (r: FrameProducer)
        ensures
            r@ == (ProducerView { pending: Seq::empty(), chunk_size: chunk_size as nat }),
    {
        FrameProducer { pending: Vec::new(), chunk_size }
    }

    /// Encodes one more sample; hands out the pending bytes once they exceed
    /// the chunk size.
    pub fn push_sample(&mut self, sample: u32) -> (r: Option<Vec<u8>>)
        ensures
            final(self)@ == push_step(old(self)@, sample).0,
            r is Some == push_step(old(self)@, sample).1 is Some,
            r is Some ==> push_step(old(self)@, sample).1 == Some(r.unwrap()@),
    {
        let one: Vec<u32> = vec![sample];
        let mut bytes = samples_to_bytes(one.as_slice());
        assert(one@ =~= seq![sample]);
        self.pending.append(&mut bytes);
        if self.pending.len() > self.chunk_size {
            let mut chunk: Vec<u8> = Vec::new();
            std::mem::swap(&mut chunk, &mut self.pending);
            Some(chunk)
        } else {
            None
        }
    }

    /// At the end of the signal, hands out what is pending, if anything.
    pub fn finish(&mut self) -> (r: Option<Vec<u8>>)
        ensures
            final(self)@ == (ProducerView { pending: Seq::empty(), ..old(self)@ }),
            old(self)@.pending.len() > 0 ==> r is Some && r.unwrap()@ == old(self)@.pending,
            old(self)@.pending.len() == 0 ==> r is None,
    {
        if self.pending.len() > 0 {
            let mut chunk: Vec<u8> = Vec::new();
            std::mem::swap(&mut chunk, &mut self.pending);
            Some(chunk)
        } else {
            assert(self.pending@ =~= Seq::<u8>::empty());
            None
        }
    }
}

} // verus!
