//! What is prepared of audio for an encoder.
use vstd::prelude::*;

verus! {

/// A run of samples.
#[derive(Clone, Copy, Debug, PartialEq, Eq, Structural)]
pub struct PreparedAudioChunk {
    pub start_sample: usize,
    pub sample_count: usize,
}

/// A window of features: `mel_bins` rows of `padded_frames` values each.
#[derive(Debug)]
pub struct PreparedAudioFeatureWindow<T> {
    pub start_frame: usize,
    pub valid_frames: usize,
    pub padded_frames: usize,
    pub mel_bins: usize,
    pub data_mel_major: Vec<T>,
}

/// The frames of a window.
#[derive(Clone, Copy, Debug, PartialEq, Eq, Structural)]
pub struct PreparedAudioFeatureWindowPlan {
    pub start_frame: usize,
    pub valid_frames: usize,
    pub padded_frames: usize,
}

} // verus!
