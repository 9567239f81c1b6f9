//! Multi-channel sample buffering for audio pipelines.

mod laws;
mod queue;
mod resampler;
mod sample;

pub use queue::{
    after_pop, count_error, front_padded, interleaved_read, interleaved_rest, sample_at, slots_of,
    AudioQueue, QueueError,
};
pub use resampler::{Error, Resampler};
pub use sample::SampleType;
pub use laws::{
    lemma_channel_isolation, lemma_interleave_matches_planar, lemma_read_returns_sent,
    lemma_reads_in_order, lemma_send_keeps_order, lemma_underrun_pads_with_silence,
};
