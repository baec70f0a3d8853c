//! What audio is decoded to and what features are made of it.
use crate::bits::finite_positive_bits;
use crate::text::{decimal, Text};
use vstd::prelude::*;

verus! {

/// The limits of decoding, and the rate that samples are decoded to.
#[derive(Clone, Copy, Debug, PartialEq, Eq, Structural)]
pub struct AudioDecodeConfig {
    pub target_sample_rate: u32,
    pub max_output_samples: usize,
    pub chunk_size_samples: usize,
    pub max_file_bytes: usize,
    pub max_channels: u16,
    pub max_source_sample_rate: u32,
}

/// The features that are made of samples.
#[derive(Clone, Copy, Debug, PartialEq, Eq, Structural)]
pub struct WhisperLogMelConfig {
    pub sample_rate: u32,
    pub fft_length: usize,
    pub window_length: usize,
    pub hop_length: usize,
    pub mel_bins: usize,
    /// The bit pattern of the smallest energy of a bin.
    pub mel_floor: u32,
    pub max_window_frames: usize,
    pub frame_chunk_size: usize,
}

/// Decoding and features.
#[derive(Clone, Copy, Debug, PartialEq, Eq, Structural)]
pub struct AudioPreprocessConfig {
    pub decode: AudioDecodeConfig,
    pub features: WhisperLogMelConfig,
}

/// What is wrong with a configuration.
#[derive(Clone, Copy, Debug, PartialEq, Eq, Structural)]
pub enum AudioConfigError {
    TargetSampleRate,
    MaxOutputSamples,
    ChunkSize,
    MaxFileBytes,
    MaxChannels,
    MaxSourceSampleRate,
    RateMismatch { features: u32, target: u32 },
    FeatureSampleRate,
    FftLength,
    WindowLength,
    HopLength,
    MelBins,
    MelFloor,
    MaxWindowFrames,
    FrameChunkSize,
}

impl AudioConfigError {
    /// The message text of the error.
    pub open spec fn text(self) -> Seq<char> {
        match self {
            AudioConfigError::TargetSampleRate => "audio target_sample_rate must be > 0"@,
            AudioConfigError::MaxOutputSamples => "audio max_output_samples must be > 0"@,
            AudioConfigError::ChunkSize => "audio chunk_size_samples must be > 0"@,
            AudioConfigError::MaxFileBytes => "audio max_file_bytes must be at least 12"@,
            AudioConfigError::MaxChannels => "audio max_channels must be > 0"@,
            AudioConfigError::MaxSourceSampleRate =>
                "audio max_source_sample_rate must be > 0"@,
            AudioConfigError::RateMismatch { features, target } =>
                "audio feature sample rate "@ + decimal(features as nat)
                    + " does not match decode target "@ + decimal(target as nat),
            AudioConfigError::FeatureSampleRate => "audio feature sample_rate must be > 0"@,
            AudioConfigError::FftLength =>
                "audio fft_length must be even and within 2..=4096"@,
            AudioConfigError::WindowLength =>
                "audio window_length must be within 1..=fft_length"@,
            AudioConfigError::HopLength => "audio hop_length must be > 0"@,
            AudioConfigError::MelBins => "audio mel_bins must be > 0"@,
            AudioConfigError::MelFloor => "audio mel_floor must be finite and > 0"@,
            AudioConfigError::MaxWindowFrames => "audio max_window_frames must be > 0"@,
            AudioConfigError::FrameChunkSize => "audio frame_chunk_size must be > 0"@,
        }
    }

    /// The message text of the error.
    pub fn message(self) -> (message: String)
        ensures
            message@ == self.text(),
    {
        match self {
            AudioConfigError::TargetSampleRate => Text::start(
                "audio target_sample_rate must be > 0",
            ).finish(),
            AudioConfigError::MaxOutputSamples => Text::start(
                "audio max_output_samples must be > 0",
            ).finish(),
            AudioConfigError::ChunkSize => Text::start(
                "audio chunk_size_samples must be > 0",
            ).finish(),
            AudioConfigError::MaxFileBytes => Text::start(
                "audio max_file_bytes must be at least 12",
            ).finish(),
            AudioConfigError::MaxChannels => Text::start("audio max_channels must be > 0").finish(),
            AudioConfigError::MaxSourceSampleRate => Text::start(
                "audio max_source_sample_rate must be > 0",
            ).finish(),
            AudioConfigError::RateMismatch { features, target } => Text::start(
                "audio feature sample rate ",
            ).number(features as u64).text(" does not match decode target ").number(
                target as u64,
            ).finish(),
            AudioConfigError::FeatureSampleRate => Text::start(
                "audio feature sample_rate must be > 0",
            ).finish(),
            AudioConfigError::FftLength => Text::start(
                "audio fft_length must be even and within 2..=4096",
            ).finish(),
            AudioConfigError::WindowLength => Text::start(
                "audio window_length must be within 1..=fft_length",
            ).finish(),
            AudioConfigError::HopLength => Text::start("audio hop_length must be > 0").finish(),
            AudioConfigError::MelBins => Text::start("audio mel_bins must be > 0").finish(),
            AudioConfigError::MelFloor => Text::start(
                "audio mel_floor must be finite and > 0",
            ).finish(),
            AudioConfigError::MaxWindowFrames => Text::start(
                "audio max_window_frames must be > 0",
            ).finish(),
            AudioConfigError::FrameChunkSize => Text::start(
                "audio frame_chunk_size must be > 0",
            ).finish(),
        }
    }
}

/// The first thing that is wrong with decoding and its match with the features, if anything is.
pub open spec fn decode_problem(config: AudioPreprocessConfig) -> Option<AudioConfigError> {
    let decode = config.decode;
    if decode.target_sample_rate == 0 {
        Some(AudioConfigError::TargetSampleRate)
    } else if decode.max_output_samples == 0 {
        Some(AudioConfigError::MaxOutputSamples)
    } else if decode.chunk_size_samples == 0 {
        Some(AudioConfigError::ChunkSize)
    } else if decode.max_file_bytes < 12 {
        Some(AudioConfigError::MaxFileBytes)
    } else if decode.max_channels == 0 {
        Some(AudioConfigError::MaxChannels)
    } else if decode.max_source_sample_rate == 0 {
        Some(AudioConfigError::MaxSourceSampleRate)
    } else if config.features.sample_rate != decode.target_sample_rate {
        Some(
            AudioConfigError::RateMismatch {
                features: config.features.sample_rate,
                target: decode.target_sample_rate,
            },
        )
    } else {
        None
    }
}

/// Checks decoding and its match with the features.
pub fn validate_config(config: AudioPreprocessConfig) -> (result: Result<(), AudioConfigError>)
    ensures
        match result {
            Ok(_) => decode_problem(config) is None,
            Err(error) => decode_problem(config) == Some(error),
        },
{
    let decode = config.decode;
    if decode.target_sample_rate == 0 {
        return Err(AudioConfigError::TargetSampleRate);
    }
    if decode.max_output_samples == 0 {
        return Err(AudioConfigError::MaxOutputSamples);
    }
    if decode.chunk_size_samples == 0 {
        return Err(AudioConfigError::ChunkSize);
    }
    if decode.max_file_bytes < 12 {
        return Err(AudioConfigError::MaxFileBytes);
    }
    if decode.max_channels == 0 {
        return Err(AudioConfigError::MaxChannels);
    }
    if decode.max_source_sample_rate == 0 {
        return Err(AudioConfigError::MaxSourceSampleRate);
    }
    if config.features.sample_rate != decode.target_sample_rate {
        return Err(
            AudioConfigError::RateMismatch {
                features: config.features.sample_rate,
                target: decode.target_sample_rate,
            },
        );
    }
    Ok(())
}

/// The first thing that is wrong with the features, if anything is.
pub open spec fn features_problem(config: WhisperLogMelConfig) -> Option<AudioConfigError> {
    if config.sample_rate == 0 {
        Some(AudioConfigError::FeatureSampleRate)
    } else if config.fft_length < 2 || config.fft_length % 2 != 0 || config.fft_length > 4096 {
        Some(AudioConfigError::FftLength)
    } else if config.window_length == 0 || config.window_length > config.fft_length {
        Some(AudioConfigError::WindowLength)
    } else if config.hop_length == 0 {
        Some(AudioConfigError::HopLength)
    } else if config.mel_bins == 0 {
        Some(AudioConfigError::MelBins)
    } else if !(0 < config.mel_floor < crate::bits::INFINITY_BITS) {
        Some(AudioConfigError::MelFloor)
    } else if config.max_window_frames == 0 {
        Some(AudioConfigError::MaxWindowFrames)
    } else if config.frame_chunk_size == 0 {
        Some(AudioConfigError::FrameChunkSize)
    } else {
        None
    }
}

/// Checks the features.
pub fn validate_features(config: WhisperLogMelConfig) -> (result: Result<(), AudioConfigError>)
    ensures
        match result {
            Ok(_) => features_problem(config) is None,
            Err(error) => features_problem(config) == Some(error),
        },
{
    if config.sample_rate == 0 {
        return Err(AudioConfigError::FeatureSampleRate);
    }
    if config.fft_length < 2 || config.fft_length % 2 != 0 || config.fft_length > 4096 {
        return Err(AudioConfigError::FftLength);
    }
    if config.window_length == 0 || config.window_length > config.fft_length {
        return Err(AudioConfigError::WindowLength);
    }
    if config.hop_length == 0 {
        return Err(AudioConfigError::HopLength);
    }
    if config.mel_bins == 0 {
        return Err(AudioConfigError::MelBins);
    }
    if !finite_positive_bits(config.mel_floor) {
        return Err(AudioConfigError::MelFloor);
    }
    if config.max_window_frames == 0 {
        return Err(AudioConfigError::MaxWindowFrames);
    }
    if config.frame_chunk_size == 0 {
        return Err(AudioConfigError::FrameChunkSize);
    }
    Ok(())
}

/// Decoding is accepted exactly where all its limits allow something, a file may hold at least a
/// file header, and the features are made for the rate that is decoded to.
pub proof fn decoding_is_accepted_where_limits_are_set(config: AudioPreprocessConfig)
    ensures
        decode_problem(config) is None <==> {
            &&& config.decode.target_sample_rate > 0
            &&& config.decode.max_output_samples > 0
            &&& config.decode.chunk_size_samples > 0
            &&& config.decode.max_file_bytes >= 12
            &&& config.decode.max_channels > 0
            &&& config.decode.max_source_sample_rate > 0
            &&& config.features.sample_rate == config.decode.target_sample_rate
        },
{
}

/// Features are accepted exactly where the transform has an even length of at most 4096, the window
/// fits into it, and every step and count is positive.
pub proof fn features_are_accepted_where_steps_are_set(config: WhisperLogMelConfig)
    ensures
        features_problem(config) is None <==> {
            &&& config.sample_rate > 0
            &&& 2 <= config.fft_length <= 4096
            &&& config.fft_length % 2 == 0
            &&& 1 <= config.window_length <= config.fft_length
            &&& config.hop_length > 0
            &&& config.mel_bins > 0
            &&& 0 < config.mel_floor < 0x7f80_0000
            &&& config.max_window_frames > 0
            &&& config.frame_chunk_size > 0
        },
{
}

} // verus!
