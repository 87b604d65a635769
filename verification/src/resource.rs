//! The acoustic resource: the parameters that fix the audio format and the
//! shape of the analysis pipeline for the lifetime of an engine.

use vstd::prelude::*;
use crate::frame::MAX_FRAME_LEN;

verus! {

/// Largest feature dimension that a resource may ask for.
pub const MAX_FEATURE_DIM: usize = 1024;

/// The audio format that an engine requires of its callers.
#[derive(Debug, Clone, Copy, PartialEq, Eq, Structural)]
pub struct SampleFormat {
    /// Samples per second and channel.
    pub sample_rate: i32,
    /// Interleaved channels per chunk.
    pub num_channels: i32,
    /// Bits per sample of the native PCM encoding.
    pub bits_per_sample: i32,
}

/// The acoustic resource that an engine is built from.
#[derive(Debug, Clone, Copy, PartialEq, Eq, Structural)]
pub struct Resource {
    /// The audio format that callers must deliver.
    pub format: SampleFormat,
    /// Length of an analysis frame, in mono samples.
    pub frame_len: usize,
    /// Distance between the starts of two successive frames, in mono samples.
    pub hop: usize,
    /// Number of features extracted from every frame.
    pub feature_dim: usize,
    /// Mean amplitude from which on a frame counts as speech, at least 1: a
    /// frame of zeros never counts as speech.
    pub vad_level: i32,
    /// Number of silent frames after speech that still count as speech.
    pub vad_hangover: u32,
}

impl Resource {
    /// Whether the resource describes a pipeline that an engine can run.
    pub open spec fn valid(self) -> bool {
        &&& self.format.sample_rate >= 1
        &&& self.format.num_channels >= 1
        &&& (self.format.bits_per_sample == 8 || self.format.bits_per_sample == 16
            || self.format.bits_per_sample == 32)
        &&& 1 <= self.hop <= self.frame_len <= MAX_FRAME_LEN
        &&& 1 <= self.feature_dim <= self.frame_len
        &&& self.feature_dim <= MAX_FEATURE_DIM
        &&& 1 <= self.vad_level <= 32768
    }

    /// Checks whether the resource describes a pipeline that an engine can run.
    pub fn is_valid(&self) -> (ok: bool)
        ensures
            ok == self.valid(),
    {
        self.format.sample_rate >= 1 && self.format.num_channels >= 1 && (
        self.format.bits_per_sample == 8 || self.format.bits_per_sample == 16
            || self.format.bits_per_sample == 32) && 1 <= self.hop && self.hop <= self.frame_len
            && self.frame_len <= MAX_FRAME_LEN && 1 <= self.feature_dim && self.feature_dim
            <= self.frame_len && self.feature_dim <= MAX_FEATURE_DIM && 1 <= self.vad_level
            && self.vad_level <= 32768
    }
}

} // verus!
