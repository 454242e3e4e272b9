use vstd::prelude::*;

verus! {

/// The width of one sample on the wire, in bytes.
pub const SAMPLE_WIDTH: usize = 4;

/// The sample stored big-endian in the four bytes `b0 b1 b2 b3`.
pub open spec fn word_of(b0: u8, b1: u8, b2: u8, b3: u8) -> u32 {
    ((b0 as u32) << 24u32) | ((b1 as u32) << 16u32) | ((b2 as u32) << 8u32) | (b3 as u32)
}

/// Byte `k` (0 is the most significant) of the big-endian form of `w`.
pub open spec fn byte_of(w: u32, k: int) -> u8 {
    if k == 0 {
        (w >> 24u32) as u8
    } else if k == 1 {
        (w >> 16u32) as u8
    } else if k == 2 {
        (w >> 8u32) as u8
    } else {
        w as u8
    }
}

/// The wire form of a sequence of samples: four big-endian bytes per sample.
pub open spec fn encode(s: Seq<u32>) -> Seq<u8> {
    Seq::new(4 * s.len(), |j: int| byte_of(s[j / 4], j % 4))
}

/// The samples of a byte sequence: one for each complete group of four bytes,
/// in order.
pub open spec fn decode(b: Seq<u8>) -> Seq<u32> {
    Seq::new(b.len() / 4, |i: int| word_of(b[4 * i], b[4 * i + 1], b[4 * i + 2], b[4 * i + 3]))
}

/// The trailing incomplete group of a byte sequence, left for the next chunk.
pub open spec fn leftover(b: Seq<u8>) -> Seq<u8> {
    b.subrange(4 * (b.len() / 4) as int, b.len() as int)
}

proof fn lemma_word_bytes(w: u32)
    ensures
        word_of(byte_of(w, 0), byte_of(w, 1), byte_of(w, 2), byte_of(w, 3)) == w,
{
    assert(((((w >> 24u32) as u8) as u32) << 24u32) | ((((w >> 16u32) as u8) as u32) << 16u32)
        | ((((w >> 8u32) as u8) as u32) << 8u32) | ((w as u8) as u32) == w) by (bit_vector);
}

proof fn lemma_div_mod_4(i: int, k: int)
    requires
        0 <= i,
        0 <= k < 4,
    ensures
        (4 * i + k) / 4 == i,
        (4 * i + k) % 4 == k,
{
    assert((4 * i + k) / 4 == i && (4 * i + k) % 4 == k) by (nonlinear_arith)
        requires
            0 <= i,
            0 <= k < 4,
    ;
}

/// Decoding the wire form of any samples gives the samples back, with no
/// leftover bytes.
pub proof fn lemma_round_trip(s: Seq<u32>)
    ensures
        decode(encode(s)) == s,
        leftover(encode(s)) == Seq::<u8>::empty(),
{
    let e = encode(s);
    assert(e.len() / 4 == s.len()) by (nonlinear_arith)
        requires
            e.len() == 4 * s.len(),
    ;
    assert forall|i: int| 0 <= i < s.len() implies #[trigger] decode(e)[i] == s[i] by {
        lemma_div_mod_4(i, 0);
        lemma_div_mod_4(i, 1);
        lemma_div_mod_4(i, 2);
        lemma_div_mod_4(i, 3);
        assert(4 * i + 3 < 4 * s.len()) by (nonlinear_arith)
            requires
                0 <= i < s.len(),
        ;
        lemma_word_bytes(s[i]);
    }
    assert(decode(e) =~= s);
    assert(leftover(e) =~= Seq::<u8>::empty());
}

/// A byte sequence of any length decodes to the samples of its complete
/// leading groups, in order; exactly `len % 4` trailing bytes are left over,
/// and they never become a sample.
pub proof fn lemma_truncation(b: Seq<u8>)
    ensures
        decode(b).len() == b.len() / 4,
        leftover(b).len() == b.len() % 4,
        decode(b) == decode(b.subrange(0, b.len() - b.len() % 4)),
        b == b.subrange(0, b.len() - b.len() % 4) + leftover(b),
{
    let n = b.len() - b.len() % 4;
    assert(n == 4 * (b.len() / 4)) by (nonlinear_arith)
        requires
            n == b.len() - b.len() % 4,
    ;
    let p = b.subrange(0, n);
    assert(p.len() / 4 == b.len() / 4) by (nonlinear_arith)
        requires
            p.len() == 4 * (b.len() / 4),
    ;
    assert forall|i: int| 0 <= i < b.len() / 4 implies #[trigger] decode(b)[i] == decode(p)[i] by {
        assert(4 * i + 3 < 4 * (b.len() / 4)) by (nonlinear_arith)
            requires
                0 <= i < b.len() / 4,
        ;
    }
    assert(decode(b) =~= decode(p));
    assert(b =~= p + leftover(b));
}

/// Decoding a concatenation whose first part is whole groups decodes the parts
/// one after the other.
pub proof fn lemma_decode_append(a: Seq<u8>, b: Seq<u8>)
    requires
        a.len() % 4 == 0,
    ensures
        decode(a + b) == decode(a) + decode(b),
{
    let ab = a + b;
    let na = a.len() / 4;
    assert(a.len() == 4 * na) by (nonlinear_arith)
        requires
            a.len() % 4 == 0,
            na == a.len() / 4,
    ;
    assert(ab.len() / 4 == na + b.len() / 4) by (nonlinear_arith)
        requires
            ab.len() == 4 * na + b.len(),
    ;
    assert forall|i: int| 0 <= i < ab.len() / 4 implies #[trigger] decode(ab)[i] == (decode(a)
        + decode(b))[i] by {
        if i < na {
            assert(4 * i + 3 < 4 * na) by (nonlinear_arith)
                requires
                    0 <= i < na,
            ;
        } else {
            let j = i - na;
            assert(4 * i == 4 * na + 4 * j) by (nonlinear_arith)
                requires
                    j == i - na,
            ;
            assert(4 * j + 3 < b.len()) by (nonlinear_arith)
                requires
                    0 <= j < b.len() / 4,
            ;
        }
    }
    assert(decode(ab) =~= decode(a) + decode(b));
}

/// Reads one big-endian sample from four bytes.
pub fn word_from_be(b0: u8, b1: u8, b2: u8, b3: u8) -> (r: u32)
    ensures
        r == word_of(b0, b1, b2, b3),
{
    ((b0 as u32) << 24u32) | ((b1 as u32) << 16u32) | ((b2 as u32) << 8u32) | (b3 as u32)
}

/// Splits a raw byte sequence into its samples and the trailing incomplete
/// group. Never fails: a partial group is returned, not interpreted.
pub fn bytes_to_samples(bytes: &[u8]) -> (r: (Vec<u32>, Vec<u8>))
    ensures
        r.0@ == decode(bytes@),
        r.1@ == leftover(bytes@),
{
    let n: usize = bytes.len() / SAMPLE_WIDTH;
    let mut samples: Vec<u32> = Vec::new();
    let mut i: usize = 0;
    let mut pos: usize = 0;
    while i < n
        invariant
            n == bytes@.len() / 4,
            i <= n,
            pos == 4 * i,
            samples@ == decode(bytes@).subrange(0, i as int),
        decreases n - i,
    {
        assert(4 * i + 4 <= bytes@.len()) by (nonlinear_arith)
            requires
                i < n,
                n == bytes@.len() / 4,
        ;
        let w = word_from_be(bytes[pos], bytes[pos + 1], bytes[pos + 2], bytes[pos + 3]);
        samples.push(w);
        i = i + 1;
        pos = pos + 4;
        assert(samples@ =~= decode(bytes@).subrange(0, i as int));
    }
    let mut rest: Vec<u8> = Vec::new();
    let mut k: usize = pos;
    assert(pos == 4 * (bytes@.len() / 4));
    assert(pos <= bytes@.len()) by (nonlinear_arith)
        requires
            pos == 4 * (bytes@.len() / 4),
    ;
    while k < bytes.len()
        invariant
            pos <= k <= bytes@.len(),
            pos == 4 * (bytes@.len() / 4),
            rest@ == bytes@.subrange(pos as int, k as int),
        decreases bytes@.len() - k,
    {
        rest.push(bytes[k]);
        k = k + 1;
        assert(rest@ =~= bytes@.subrange(pos as int, k as int));
    }
    assert(samples@ =~= decode(bytes@));
    (samples, rest)
}

/// Writes samples in their wire form: four big-endian bytes each.
pub fn samples_to_bytes(samples: &[u32]) -> (r: Vec<u8>)
    ensures
        r@ == encode(samples@),
{
    let mut out: Vec<u8> = Vec::new();
    let mut i: usize = 0;
    while i < samples.len()
        invariant
            i <= samples@.len(),
            out@ == encode(samples@.subrange(0, i as int)),
        decreases samples@.len() - i,
    {
        let w = samples[i];
        proof {
            let t = samples@.subrange(0, i as int + 1);
            assert forall|j: int| 0 <= j < 4 * i + 4 implies #[trigger] encode(t)[j] == (out@ + seq![
                byte_of(w, 0),
                byte_of(w, 1),
                byte_of(w, 2),
                byte_of(w, 3),
            ])[j] by {
                if j >= 4 * i {
                    lemma_div_mod_4(i as int, j - 4 * i);
                } else {
                    assert(j / 4 < i) by (nonlinear_arith)
                        requires
                            0 <= j < 4 * i,
                    ;
                }
            }
        }
        out.push((w >> 24u32) as u8);
        out.push((w >> 16u32) as u8);
        out.push((w >> 8u32) as u8);
        out.push(w as u8);
        i = i + 1;
        assert(out@ =~= encode(samples@.subrange(0, i as int)));
    }
    assert(samples@.subrange(0, i as int) =~= samples@);
    out
}

/// Pops the last four bytes of `bits`, the last one first; leaves `bits`
/// untouched when it holds fewer than four.
pub fn take_byte(bits: &mut Vec<u8>) -> (r: Option<[u8; 4]>)
    ensures
        old(bits)@.len() < 4 ==> r.is_none() && final(bits)@ == old(bits)@,
        old(bits)@.len() >= 4 ==> r.is_some() && final(bits)@ == old(bits)@.subrange(
            0,
            old(bits)@.len() - 4,
        ) && r.unwrap()@ == seq![
            old(bits)@[old(bits)@.len() - 1],
            old(bits)@[old(bits)@.len() - 2],
            old(bits)@[old(bits)@.len() - 3],
            old(bits)@[old(bits)@.len() - 4],
        ],
{
    if bits.len() < SAMPLE_WIDTH {
        return None;
    }
    let a = bits.pop().unwrap();
    let b = bits.pop().unwrap();
    let c = bits.pop().unwrap();
    let d = bits.pop().unwrap();
    let group: [u8; 4] = [a, b, c, d];
    assert(group@ =~= seq![a, b, c, d]);
    Some(group)
}

} // verus!
