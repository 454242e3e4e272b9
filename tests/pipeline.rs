use pcm_stream::{
    bytes_to_samples, samples_to_bytes, take_byte, ByteSource, ChunkAccumulator, FrameProducer,
    IngestLoop, IngestStep, PlaybackScheduler, SAMPLE_WIDTH,
};

fn drain_samples(mut unit: ByteSource) -> Vec<u32> {
    let mut out = Vec::new();
    while let Some(s) = unit.next_sample() {
        out.push(s);
    }
    out
}

fn step_samples(step: IngestStep) -> Option<Vec<u32>> {
    step.unit.map(drain_samples)
}

#[test]
fn encodes_big_endian() {
    let bytes = samples_to_bytes(&[1.0f32.to_bits(), 0xdead_beef]);
    assert_eq!(bytes, vec![0x3f, 0x80, 0x00, 0x00, 0xde, 0xad, 0xbe, 0xef]);
}

#[test]
fn decodes_big_endian() {
    let (samples, rest) = bytes_to_samples(&[0xbf, 0x80, 0x00, 0x00, 0x00, 0x00, 0x00, 0x01]);
    assert_eq!(samples, vec![(-1.0f32).to_bits(), 1]);
    assert!(rest.is_empty());
    assert_eq!(f32::from_bits(samples[0]), -1.0);
}

#[test]
fn codec_round_trip() {
    let s = vec![0u32, 1, 0x8000_0000, 0xffff_ffff, 0.25f32.to_bits(), 12345678];
    let (back, rest) = bytes_to_samples(&samples_to_bytes(&s));
    assert_eq!(back, s);
    assert!(rest.is_empty());
}

#[test]
fn codec_round_trip_empty() {
    let bytes = samples_to_bytes(&[]);
    assert!(bytes.is_empty());
    let (back, rest) = bytes_to_samples(&bytes);
    assert!(back.is_empty());
    assert!(rest.is_empty());
}

#[test]
fn truncation_keeps_partial_group() {
    let bytes = [0u8, 0, 0, 7, 1, 2, 3, 4, 9, 8];
    let (samples, rest) = bytes_to_samples(&bytes);
    assert_eq!(samples, vec![7, 0x0102_0304]);
    assert_eq!(rest, vec![9, 8]);
    assert_eq!(rest.len(), bytes.len() % SAMPLE_WIDTH);
}

#[test]
fn truncation_short_input() {
    let (samples, rest) = bytes_to_samples(&[5, 6, 7]);
    assert!(samples.is_empty());
    assert_eq!(rest, vec![5, 6, 7]);
}

#[test]
fn take_byte_pops_last_four_reversed() {
    let mut v = vec![1u8, 2, 3, 4, 5];
    assert_eq!(take_byte(&mut v), Some([5, 4, 3, 2]));
    assert_eq!(v, vec![1]);
    assert_eq!(take_byte(&mut v), None);
    assert_eq!(v, vec![1]);
}

#[test]
fn unit_pulls_in_order() {
    let mut unit = ByteSource::new(44100, 2, vec![3, 1, 2]);
    assert_eq!(unit.channels(), 2);
    assert_eq!(unit.sample_rate(), 44100);
    assert_eq!(unit.current_frame_len(), Some(3));
    assert_eq!(unit.next_sample(), Some(3));
    assert_eq!(unit.current_frame_len(), Some(2));
    assert_eq!(unit.next_sample(), Some(1));
    assert_eq!(unit.next_sample(), Some(2));
    assert_eq!(unit.next_sample(), None);
    assert_eq!(unit.current_frame_len(), Some(0));
}

#[test]
fn accumulator_threshold_and_drain() {
    let mut acc = ChunkAccumulator::new(8, 44100, 2);
    acc.push(vec![0, 0, 0, 1, 0, 0]);
    assert!(!acc.has_reached_threshold());
    acc.push(vec![0, 2, 0, 0, 0]);
    assert!(acc.has_reached_threshold());
    assert_eq!(acc.buffered_len(), 11);
    let unit = acc.drain();
    assert_eq!(unit.channels(), 2);
    assert_eq!(drain_samples(unit), vec![1, 2]);
    assert_eq!(acc.buffered_len(), 3);
    assert!(!acc.has_reached_threshold());
}

#[test]
fn threshold_emission_one_byte_at_a_time() {
    let mut ingest = IngestLoop::new(8, 44100, 2, 5);
    let data: Vec<u8> = (1..=20).collect();
    let mut emitted_at = Vec::new();
    for (i, b) in data.iter().enumerate() {
        let step = ingest.on_chunk(vec![*b]);
        if let Some(unit) = step.unit {
            emitted_at.push(i + 1);
            assert_eq!(unit.current_frame_len(), Some(2));
        }
    }
    assert_eq!(emitted_at, vec![8, 16]);
}

#[test]
fn scheduler_warm_up_three() {
    let mut sched = PlaybackScheduler::new(3);
    assert!(sched.is_paused());
    assert!(!sched.on_unit_ready());
    assert!(!sched.on_unit_ready());
    assert!(!sched.on_unit_ready());
    assert!(sched.is_paused());
    assert!(sched.on_unit_ready());
    assert!(!sched.is_paused());
    assert!(!sched.on_unit_ready());
    assert!(!sched.is_paused());
    assert_eq!(sched.units_enqueued(), 5);
    assert_eq!(sched.warm_up_threshold(), 3);
}

#[test]
fn scheduler_warm_up_zero() {
    let mut sched = PlaybackScheduler::new(0);
    assert!(sched.is_paused());
    assert!(sched.on_unit_ready());
    assert!(!sched.is_paused());
}

#[test]
fn scheduler_force_resume() {
    let mut sched = PlaybackScheduler::new(10);
    assert!(sched.force_resume());
    assert!(!sched.is_paused());
    assert!(!sched.force_resume());
}

#[test]
fn scenario_warm_up_one() {
    let mut ingest = IngestLoop::new(8, 44100, 2, 1);
    let mut played = Vec::new();

    let s = ingest.on_chunk(vec![0, 0, 0, 1]);
    assert!(s.unit.is_none() && !s.resume);
    let s = ingest.on_chunk(vec![0, 0, 0, 2]);
    assert!(!s.resume);
    let unit1 = step_samples(s).unwrap();
    assert_eq!(unit1.len(), 2);
    assert!(ingest.is_paused());
    played.extend(unit1);

    let s = ingest.on_chunk(vec![0, 0, 0, 3]);
    assert!(s.unit.is_none());
    let s = ingest.on_chunk(vec![0, 0, 0, 4]);
    assert!(s.resume);
    let unit2 = step_samples(s).unwrap();
    assert_eq!(unit2.len(), 2);
    assert!(!ingest.is_paused());
    played.extend(unit2);

    let s = ingest.on_chunk(vec![9, 9]);
    assert!(s.unit.is_none());
    let s = ingest.on_end_of_stream();
    assert!(s.wait_until_drained);
    assert!(step_samples(s).is_none());
    assert!(ingest.is_finished());
    assert_eq!(ingest.units_enqueued(), 2);
    assert_eq!(played, vec![1, 2, 3, 4]);
}

#[test]
fn order_preserved_across_uneven_chunks() {
    let samples: Vec<u32> = (0..25u32).map(|i| i.wrapping_mul(0x0101_0103)).collect();
    let bytes = samples_to_bytes(&samples);
    let mut ingest = IngestLoop::new(12, 48000, 1, 2);
    let mut played = Vec::new();
    let mut start = 0usize;
    let mut size = 1usize;
    while start < bytes.len() {
        let end = (start + size).min(bytes.len());
        if let Some(u) = step_samples(ingest.on_chunk(bytes[start..end].to_vec())) {
            played.extend(u);
        }
        start = end;
        size = size % 7 + 3;
    }
    if let Some(u) = step_samples(ingest.on_end_of_stream()) {
        played.extend(u);
    }
    assert_eq!(played, samples);
}

#[test]
fn end_of_stream_flushes_remainder() {
    let mut ingest = IngestLoop::new(8, 44100, 2, 3);
    assert!(ingest.on_chunk(vec![0, 0, 0, 1]).unit.is_none());
    assert_eq!(step_samples(ingest.on_chunk(vec![0, 0, 0, 2])), Some(vec![1, 2]));
    assert!(ingest.on_chunk(vec![0, 0, 0, 3]).unit.is_none());
    assert!(ingest.is_paused());
    let s = ingest.on_end_of_stream();
    assert!(s.resume);
    assert!(s.wait_until_drained);
    assert_eq!(step_samples(s), Some(vec![3]));
    assert!(!ingest.is_paused());
    assert_eq!(ingest.units_enqueued(), 2);
}

#[test]
fn end_of_stream_exact_multiple_has_no_extra_unit() {
    let mut ingest = IngestLoop::new(8, 44100, 2, 0);
    let s = ingest.on_chunk(vec![0; 16]);
    assert!(s.resume);
    assert_eq!(step_samples(s), Some(vec![0, 0, 0, 0]));
    let s = ingest.on_end_of_stream();
    assert!(s.unit.is_none());
    assert_eq!(ingest.units_enqueued(), 1);
}

#[test]
fn transport_failure_finishes_without_flush() {
    let mut ingest = IngestLoop::new(8, 44100, 2, 0);
    assert!(ingest.on_chunk(vec![0, 0, 0, 1]).unit.is_none());
    let s = ingest.on_transport_failed();
    assert!(s.unit.is_none() && !s.resume && !s.wait_until_drained);
    assert!(ingest.is_finished());
    assert!(ingest.on_chunk(vec![0; 8]).unit.is_none());
    assert!(ingest.on_end_of_stream().unit.is_none());
    assert_eq!(ingest.units_enqueued(), 0);
}

#[test]
fn producer_frames_and_flushes() {
    let mut p = FrameProducer::new(8);
    assert_eq!(p.push_sample(0x0102_0304), None);
    assert_eq!(p.push_sample(0x0506_0708), None);
    assert_eq!(
        p.push_sample(0x090a_0b0c),
        Some(vec![1, 2, 3, 4, 5, 6, 7, 8, 9, 10, 11, 12])
    );
    assert_eq!(p.push_sample(0xff00_00ff), None);
    assert_eq!(p.finish(), Some(vec![0xff, 0, 0, 0xff]));
    assert_eq!(p.finish(), None);
}

#[test]
fn producer_output_feeds_ingest() {
    let samples: Vec<u32> = (0..40u32).map(|i| (i * 7919) ^ 0x5a5a_0000).collect();
    let mut p = FrameProducer::new(20);
    let mut chunks = Vec::new();
    for s in &samples {
        if let Some(c) = p.push_sample(*s) {
            assert!(c.len() > 20);
            chunks.push(c);
        }
    }
    if let Some(c) = p.finish() {
        chunks.push(c);
    }
    let mut ingest = IngestLoop::new(16, 48000, 1, 1);
    let mut played = Vec::new();
    for c in chunks {
        if let Some(u) = step_samples(ingest.on_chunk(c)) {
            played.extend(u);
        }
    }
    if let Some(u) = step_samples(ingest.on_end_of_stream()) {
        played.extend(u);
    }
    assert_eq!(played, samples);
}
