//! What a file will be decoded to, known from its bytes before any sample is decoded.
use super::config::{
    decode_problem, validate_config, AudioConfigError, AudioDecodeConfig, AudioPreprocessConfig,
    WhisperLogMelConfig,
};
use super::features::{plan_whisper_log_mel_windows, sample_windows, FeatureError};
use super::prepared::PreparedAudioFeatureWindowPlan;
use super::samples::{
    checked_output_sample_count, resampled, resampled_length_is_nearest, SampleError,
};
use super::wave::{parse_wave_chunks, wave_outcome, PcmWaveFormat, WaveError};
use crate::text::{decimal, Text};
use vstd::prelude::*;

verus! {

/// Why a file is not accepted.
#[derive(Clone, Copy, Debug, PartialEq, Eq, Structural)]
pub enum AudioFileError {
    Config(AudioConfigError),
    TooLarge { len: usize, limit: usize },
    Wave(WaveError),
    Samples(SampleError),
    Features(FeatureError),
}

impl AudioFileError {
    /// The message text of the error, for the file at a path.
    pub open spec fn text(self, path: Seq<char>) -> Seq<char> {
        match self {
            AudioFileError::Config(error) => error.text(),
            AudioFileError::TooLarge { len, limit } => "audio file '"@ + path
                + "' is too large: "@ + decimal(len as nat) + " bytes exceeds limit "@ + decimal(
                limit as nat,
            ),
            AudioFileError::Wave(error) => "cannot decode audio file '"@ + path + "': "@
                + error.text(),
            AudioFileError::Samples(error) => error.text(path),
            AudioFileError::Features(error) => "cannot plan audio features for '"@ + path + "': "@
                + error.text(),
        }
    }

    /// The message text of the error, for the file at a path.
    pub fn message(self, path: &str) -> (message: String)
        ensures
            message@ == self.text(path@),
    {
        match self {
            AudioFileError::Config(error) => error.message(),
            AudioFileError::TooLarge { len, limit } => Text::start("audio file '").text(path).text(
                "' is too large: ",
            ).size(len).text(" bytes exceeds limit ").size(limit).finish(),
            AudioFileError::Wave(error) => Text::start("cannot decode audio file '").text(
                path,
            ).text("': ").text(error.message().as_str()).finish(),
            AudioFileError::Samples(error) => error.message(path),
            AudioFileError::Features(error) => Text::start(
                "cannot plan audio features for '",
            ).text(path).text("': ").text(error.message().as_str()).finish(),
        }
    }
}

/// Checks the length of a file before it is read.
pub fn check_file_len(len: usize, config: AudioDecodeConfig) -> (result: Result<
    (),
    AudioFileError,
>)
    ensures
        result == if len > config.max_file_bytes {
            Err::<(), AudioFileError>(
                AudioFileError::TooLarge { len, limit: config.max_file_bytes },
            )
        } else {
            Ok(())
        },
{
    if len > config.max_file_bytes {
        return Err(AudioFileError::TooLarge { len, limit: config.max_file_bytes });
    }
    Ok(())
}

/// What a file is decoded from and to.
#[derive(Clone, Copy, Debug, PartialEq, Eq, Structural)]
pub struct DecodePlan {
    pub format: PcmWaveFormat,
    pub data_start: usize,
    pub data_end: usize,
    pub frame_count: usize,
    pub output_len: usize,
}

/// What a file is decoded from and to, or why it is not accepted.
pub open spec fn decode_outcome(bytes: Seq<u8>, config: AudioDecodeConfig) -> Result<
    DecodePlan,
    AudioFileError,
> {
    match wave_outcome(bytes, config) {
        Err(error) => Err(AudioFileError::Wave(error)),
        Ok((format, data_start, data_end)) => {
            let frames = (data_end - data_start) / format.block_align as int;
            let len = resampled(
                frames,
                format.sample_rate as int,
                config.target_sample_rate as int,
            );
            if len > usize::MAX {
                Err(AudioFileError::Samples(SampleError::TooLong))
            } else if len > config.max_output_samples {
                Err(
                    AudioFileError::Samples(
                        SampleError::LimitExceeded {
                            samples: len as usize,
                            limit: config.max_output_samples,
                        },
                    ),
                )
            } else {
                Ok(
                    DecodePlan {
                        format,
                        data_start,
                        data_end,
                        frame_count: frames as usize,
                        output_len: len as usize,
                    },
                )
            }
        },
    }
}

/// Plans the decoding of a file: its format, where its samples are, and how many there will be.
pub fn plan_decode(bytes: &[u8], config: AudioDecodeConfig) -> (result: Result<
    DecodePlan,
    AudioFileError,
>)
    ensures
        result == decode_outcome(bytes@, config),
        result matches Ok(plan) ==> plan.format.wf() && plan.data_start < plan.data_end
            <= bytes@.len(),
{
    let (format, data_start, data_end) = match parse_wave_chunks(bytes, config) {
        Ok(found) => found,
        Err(error) => return Err(AudioFileError::Wave(error)),
    };
    proof {
        assert(format.block_align > 0) by (nonlinear_arith)
            requires
                format.block_align == format.channels * (format.bits_per_sample as int / 8),
                format.channels > 0,
                format.bits_per_sample as int / 8 > 0,
        ;
    }
    let frame_count: usize = (data_end - data_start) / format.block_align as usize;
    match checked_output_sample_count(frame_count, format.sample_rate, config) {
        Ok(output_len) => Ok(
            DecodePlan { format, data_start, data_end, frame_count, output_len },
        ),
        Err(error) => Err(AudioFileError::Samples(error)),
    }
}

/// Checks the limits of decoding alone: the features then match by themselves.
pub fn validate_decode_config(decode: AudioDecodeConfig) -> (result: Result<(), AudioFileError>)
    ensures
        ({
            let features = decode_only_features(decode);
            match decode_problem(AudioPreprocessConfig { decode, features }) {
                Some(error) => result == Err::<(), AudioFileError>(AudioFileError::Config(error)),
                None => result == Ok::<(), AudioFileError>(()),
            }
        }),
{
    let features = WhisperLogMelConfig {
        sample_rate: decode.target_sample_rate,
        fft_length: 400,
        window_length: 400,
        hop_length: 160,
        mel_bins: 1,
        mel_floor: 0x0080_0000,
        max_window_frames: 1,
        frame_chunk_size: 1,
    };
    match validate_config(AudioPreprocessConfig { decode, features }) {
        Ok(_) => Ok(()),
        Err(error) => Err(AudioFileError::Config(error)),
    }
}

/// Features that stand in where a file is only decoded.
pub open spec fn decode_only_features(decode: AudioDecodeConfig) -> WhisperLogMelConfig {
    WhisperLogMelConfig {
        sample_rate: decode.target_sample_rate,
        fft_length: 400,
        window_length: 400,
        hop_length: 160,
        mel_bins: 1,
        mel_floor: 0x0080_0000,
        max_window_frames: 1,
        frame_chunk_size: 1,
    }
}

/// What a file will be prepared to.
#[derive(Debug)]
pub struct PreparedAudioInputPlan {
    pub path: String,
    pub source_sample_rate: u32,
    pub source_channels: u16,
    pub target_sample_rate: u32,
    pub target_sample_count: usize,
    pub feature_windows: Vec<PreparedAudioFeatureWindowPlan>,
}

/// Probes a file: what it will be prepared to, without decoding its samples.
pub fn probe_one(path: &str, bytes: &[u8], config: AudioPreprocessConfig) -> (result: Result<
    PreparedAudioInputPlan,
    AudioFileError,
>)
    ensures
        match decode_outcome(bytes@, config.decode) {
            Err(error) => result == Err::<PreparedAudioInputPlan, AudioFileError>(error),
            Ok(decoded) => match sample_windows(decoded.output_len, config.features) {
                Err(error) => result == Err::<PreparedAudioInputPlan, AudioFileError>(
                    AudioFileError::Features(error),
                ),
                Ok(windows) => result matches Ok(plan) && {
                    &&& plan.path@ == path@
                    &&& plan.source_sample_rate == decoded.format.sample_rate
                    &&& plan.source_channels == decoded.format.channels
                    &&& plan.target_sample_rate == config.decode.target_sample_rate
                    &&& plan.target_sample_count == decoded.output_len
                    &&& plan.feature_windows@ == windows
                },
            },
        },
{
    let decoded = match plan_decode(bytes, config.decode) {
        Ok(decoded) => decoded,
        Err(error) => return Err(error),
    };
    match plan_whisper_log_mel_windows(decoded.output_len, config.features) {
        Err(error) => Err(AudioFileError::Features(error)),
        Ok(feature_windows) => Ok(
            PreparedAudioInputPlan {
                path: path.to_owned(),
                source_sample_rate: decoded.format.sample_rate,
                source_channels: decoded.format.channels,
                target_sample_rate: config.decode.target_sample_rate,
                target_sample_count: decoded.output_len,
                feature_windows,
            },
        ),
    }
}

/// The plan of a file in a sound format covers all whole frames of its samples, and the output has
/// the number of samples nearest to as long a time at the target rate, within the limit.
pub proof fn plans_cover_the_samples(bytes: Seq<u8>, config: AudioDecodeConfig)
    requires
        bytes.len() <= usize::MAX,
    ensures
        decode_outcome(bytes, config) matches Ok(plan) ==> {
            &&& wave_outcome(bytes, config) == Ok::<(PcmWaveFormat, usize, usize), WaveError>(
                (plan.format, plan.data_start, plan.data_end),
            )
            &&& plan.format.wf() && plan.data_start < plan.data_end ==> plan.frame_count
                * plan.format.block_align <= plan.data_end - plan.data_start < (plan.frame_count
                + 1) * plan.format.block_align
            &&& plan.format.wf() && plan.data_start < plan.data_end && plan.output_len > 1 ==> -(
            plan.format.sample_rate as int) <= 2 * (plan.output_len * plan.format.sample_rate
                - plan.frame_count * config.target_sample_rate) <= plan.format.sample_rate
            &&& plan.output_len <= config.max_output_samples
        },
{
    match wave_outcome(bytes, config) {
        Ok((format, start, end)) => {
            let len = end - start;
            let frame = format.block_align as int;
            if format.wf() && start < end {
                assert(frame > 0) by (nonlinear_arith)
                    requires
                        frame == format.channels * (format.bits_per_sample as int / 8),
                        format.channels > 0,
                        format.bits_per_sample as int / 8 > 0,
                ;
                vstd::arithmetic::div_mod::lemma_fundamental_div_mod(len, frame);
                vstd::arithmetic::div_mod::lemma_div_pos_is_pos(len, frame);
                assert((len / frame) * frame == frame * (len / frame)) by (nonlinear_arith);
                assert((len / frame + 1) * frame == frame * (len / frame) + frame)
                    by (nonlinear_arith);
                assert(len / frame <= len) by (nonlinear_arith)
                    requires
                        len >= frame * (len / frame),
                        frame >= 1,
                        len / frame >= 0,
                ;
                resampled_length_is_nearest(
                    len / frame,
                    format.sample_rate as int,
                    config.target_sample_rate as int,
                );
            }
        },
        Err(_) => {},
    }
}

} // verus!
