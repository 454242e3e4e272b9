//! A streaming PCM playback pipeline: the wire codec for raw big-endian
//! samples, the client-side chunk accumulator and playback scheduler, the
//! ingest state machine that drives them, and the server-side frame producer.
//!
//! A sample travels as the 32-bit pattern of a big-endian float; this crate
//! handles it as that `u32` pattern and leaves the floating-point reading to
//! the audio device glue.

pub mod codec;
pub mod unit;
pub mod accumulator;
pub mod scheduler;
pub mod ingest;
pub mod producer;

pub use codec::{bytes_to_samples, samples_to_bytes, take_byte, SAMPLE_WIDTH};
pub use unit::{ByteSource, UnitView};
pub use accumulator::{AccumulatorView, ChunkAccumulator};
pub use scheduler::{PlaybackScheduler, SchedulerView};
pub use ingest::{EventView, IngestLoop, IngestStep, IngestView, StepView};
pub use producer::{FrameProducer, ProducerView};
