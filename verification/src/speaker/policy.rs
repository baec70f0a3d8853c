//! The policy of a speaker model: its dimensions, durations and thresholds.
use crate::audio::config::AudioDecodeConfig;
use crate::audio::prepared::PreparedAudioFeatureWindowPlan;
use crate::bits::{
    exponent_of, finite_bits, finite_positive_bits, is_finite_bits, is_less, less_bits,
    mantissa_of, order_key, order_of, round_even, INFINITY_BITS,
};
use crate::text::{decimal, Text};
use vstd::arithmetic::div_mod::lemma_fundamental_div_mod;
use vstd::arithmetic::power2::{
    lemma2_to64, lemma_pow2_adds, lemma_pow2_pos, lemma_pow2_unfold, pow2,
};
use vstd::prelude::*;
use vstd::string::*;

verus! {

pub const MAX_SPEAKER_AUDIO_FILE_BYTES: usize = 1073741824;

pub const MAX_SPEAKER_AUDIO_CHANNELS: u16 = 64;

pub const MAX_SPEAKER_SOURCE_SAMPLE_RATE: u32 = 384_000;

pub const MAX_SPEAKER_FFT_LENGTH: usize = 4_096;

pub const MAX_SPEAKER_MEL_BINS: usize = 1_024;

pub const MAX_SPEAKER_FEATURE_WINDOW_ELEMENTS: usize = 67108864;

pub const MAX_SPEAKER_EMBEDDING_DIMENSION: usize = 8_192;

/// The bit pattern of one.
pub const ONE_BITS: u32 = 0x3f80_0000;

/// The bit pattern of two.
pub const TWO_BITS: u32 = 0x4000_0000;

/// Similarities from which a decision is taken, by their bit patterns.
#[derive(Clone, Copy, Debug, PartialEq, Eq, Structural)]
pub struct SpeakerThresholdPolicy {
    pub verification: u32,
    pub identification_margin: u32,
    pub enrollment: u32,
    pub auto_learning: u32,
    pub diarization_cluster: u32,
}

/// A layer over frames in context.
#[derive(Debug)]
pub struct SpeakerTdnnLayerPolicy {
    pub weight_name: String,
    pub bias_name: String,
    pub contexts: Vec<isize>,
}

/// A layer over the statistics of all frames.
#[derive(Debug)]
pub struct SpeakerSegmentLayerPolicy {
    pub weight_name: String,
    pub bias_name: String,
    pub apply_relu: bool,
}

/// What a model says of itself. Numbers that are not whole are given by their bit patterns.
#[derive(Debug)]
pub struct SpeakerModelPolicy {
    pub architecture: String,
    pub model_name: String,
    pub sample_rate: u32,
    pub fft_length: usize,
    pub window_length: usize,
    pub hop_length: usize,
    pub mel_bins: usize,
    pub mel_floor: u32,
    pub max_window_frames: usize,
    pub min_audio_seconds: u32,
    pub max_audio_seconds: u32,
    pub tdnn_layers: Vec<SpeakerTdnnLayerPolicy>,
    pub segment_layers: Vec<SpeakerSegmentLayerPolicy>,
    pub thresholds: SpeakerThresholdPolicy,
}

/// A product rounded to the precision of a double.
pub open spec fn rounded53(p: int) -> int {
    if p < 0x20_0000_0000_0000 {
        p
    } else if p < 0x40_0000_0000_0000 {
        round_even(p, 2) * 2
    } else if p < 0x80_0000_0000_0000 {
        round_even(p, 4) * 4
    } else {
        round_even(p, 8) * 8
    }
}

/// The largest number of samples as a double: it is rounded up where addresses have 64 bits.
pub open spec fn most_samples() -> int {
    if usize::MAX > 0xffff_ffff {
        0x1_0000_0000_0000_0000
    } else {
        0xffff_ffff
    }
}

/// The significand and the exponent of a finite positive single-precision pattern.
pub open spec fn significand_of(b: u32) -> int {
    if exponent_of(b) == 0 {
        mantissa_of(b)
    } else {
        0x80_0000 + mantissa_of(b)
    }
}

/// The power of two that a significand counts.
pub open spec fn scale_of(b: u32) -> int {
    (if exponent_of(b) == 0 {
        1
    } else {
        exponent_of(b)
    }) - 150
}

/// The number of samples of a duration at a rate: the product as a double, rounded up. None where
/// it is less than one or more than a machine number.
pub open spec fn samples_of(seconds: u32, rate: u32) -> Option<int> {
    let product = rounded53(significand_of(seconds) * rate);
    let x = scale_of(seconds);
    if seconds >= INFINITY_BITS {
        None
    } else if x >= 0 {
        let value = product * pow2(x as nat);
        if value < 1 || value > most_samples() {
            None
        } else if value > usize::MAX {
            Some(usize::MAX as int)
        } else {
            Some(value)
        }
    } else {
        let unit = pow2((-x) as nat) as int;
        if product < unit || product > most_samples() * unit {
            None
        } else {
            Some((product + unit - 1) / unit)
        }
    }
}

fn divide_to_even(p: u64, d: u64) -> (q: u64)
    requires
        d == 2 || d == 4 || d == 8,
        p < 0x100_0000_0000_0000,
    ensures
        q == round_even(p as int, d as int),
        q * d <= 0x100_0000_0000_0000,
{
    let q: u64 = p / d;
    let r: u64 = p % d;
    if 2 * r > d || (2 * r == d && q % 2 == 1) {
        q + 1
    } else {
        q
    }
}

fn round_product(p: u64) -> (rounded: u64)
    requires
        p < 0x100_0000_0000_0000,
    ensures
        rounded == rounded53(p as int),
        rounded <= 0x100_0000_0000_0000,
{
    if p < 0x20_0000_0000_0000 {
        p
    } else if p < 0x40_0000_0000_0000 {
        divide_to_even(p, 2) * 2
    } else if p < 0x80_0000_0000_0000 {
        divide_to_even(p, 4) * 4
    } else {
        divide_to_even(p, 8) * 8
    }
}

fn wide_power(k: u32) -> (d: u128)
    requires
        k <= 64,
    ensures
        d == pow2(k as nat),
        0 < d <= 0x1_0000_0000_0000_0000,
{
    let mut d: u128 = 1;
    let mut i: u32 = 0;
    proof {
        lemma2_to64();
    }
    while i < k
        invariant
            i <= k <= 64,
            d == pow2(i as nat),
            0 < d <= 0x1_0000_0000_0000_0000,
        decreases k - i,
    {
        proof {
            lemma_pow2_unfold((i + 1) as nat);
            lemma2_to64();
            if i + 1 < 64 {
                vstd::arithmetic::power2::lemma_pow2_strictly_increases((i + 1) as nat, 64);
            }
        }
        d = d * 2;
        i = i + 1;
    }
    d
}

/// The number of samples of a duration at a rate.
pub fn seconds_to_samples(seconds: u32, sample_rate: u32) -> (samples: Option<usize>)
    ensures
        match samples {
            Some(n) => samples_of(seconds, sample_rate) == Some(n as int),
            None => samples_of(seconds, sample_rate) is None,
        },
{
    if seconds >= INFINITY_BITS {
        return None;
    }
    let e: u32 = seconds / 8388608 % 256;
    let m: u32 = seconds % 8388608;
    let significand: u64 = if e == 0 {
        m as u64
    } else {
        0x80_0000 + m as u64
    };
    proof {
        assert(0 <= significand * sample_rate < 0x100_0000_0000_0000) by (nonlinear_arith)
            requires
                0 <= significand < 0x100_0000,
                0 <= sample_rate <= 0xffff_ffff,
        ;
    }
    let product: u64 = round_product(significand * sample_rate as u64);
    let biased: u32 = if e == 0 {
        1
    } else {
        e
    };
    let most: u128 = if usize::MAX as u128 > 0xffff_ffff {
        0x1_0000_0000_0000_0000
    } else {
        0xffff_ffff
    };
    assert(most == most_samples());
    if biased >= 150 {
        let x: u32 = biased - 150;
        proof {
            lemma_pow2_pos(x as nat);
            lemma2_to64();
        }
        if product == 0 {
            assert(product * pow2(x as nat) == 0) by (nonlinear_arith)
                requires
                    product == 0,
            ;
            return None;
        }
        if x > 64 {
            proof {
                vstd::arithmetic::power2::lemma_pow2_strictly_increases(64, x as nat);
                assert(product * pow2(x as nat) >= pow2(x as nat)) by (nonlinear_arith)
                    requires
                        product >= 1,
                        pow2(x as nat) > 0,
                ;
            }
            return None;
        }
        let power: u128 = wide_power(x);
        proof {
            assert(0 < product * power <= 0x100_0000_0000_0000 * 0x1_0000_0000_0000_0000)
                by (nonlinear_arith)
                requires
                    0 < product <= 0x100_0000_0000_0000,
                    0 < power <= 0x1_0000_0000_0000_0000,
            ;
        }
        let value: u128 = product as u128 * power;
        if value > most {
            return None;
        }
        if value > usize::MAX as u128 {
            return Some(usize::MAX);
        }
        Some(value as usize)
    } else {
        let k: u32 = 150 - biased;
        proof {
            lemma_pow2_pos(k as nat);
            lemma2_to64();
            if k > 64 {
                vstd::arithmetic::power2::lemma_pow2_strictly_increases(64, k as nat);
            }
        }
        if k > 64 {
            return None;
        }
        let unit: u128 = wide_power(k);
        proof {
            assert(0 <= most * unit <= 0x1_0000_0000_0000_0000 * 0x1_0000_0000_0000_0000)
                by (nonlinear_arith)
                requires
                    0 <= most <= 0x1_0000_0000_0000_0000,
                    0 < unit <= 0x1_0000_0000_0000_0000,
            ;
        }
        if (product as u128) < unit {
            return None;
        }
        let too_many: bool = product as u128 / most >= unit && (product as u128 / most > unit
            || product as u128 % most > 0);
        proof {
            let q = product as int / most as int;
            let r = product as int % most as int;
            vstd::arithmetic::div_mod::lemma_fundamental_div_mod(product as int, most as int);
            assert(too_many == (product > most * unit)) by (nonlinear_arith)
                requires
                    product == most * q + r,
                    0 <= r < most,
                    too_many == (q >= unit && (q > unit || r > 0)),
                    most > 0,
            ;
        }
        if too_many {
            return None;
        }
        let samples: u128 = (product as u128 + unit - 1) / unit;
        proof {
            let top = product + unit - 1;
            let s = samples as int;
            vstd::arithmetic::div_mod::lemma_fundamental_div_mod(top as int, unit as int);
            assert(s <= most) by (nonlinear_arith)
                requires
                    top == unit * s + top % unit as int,
                    top % unit as int >= 0,
                    top == product + unit - 1,
                    product <= most * unit,
                    unit > 0,
            ;
            assert(s <= product) by (nonlinear_arith)
                requires
                    top == unit * s + top % unit as int,
                    top % unit as int >= 0,
                    top == product + unit - 1,
                    unit > 0,
                    product >= unit,
            ;
        }
        Some(samples as usize)
    }
}

/// The number of frames of a duration, at least one.
pub open spec fn frames_of_seconds(seconds: u32, rate: u32, hop: int) -> Option<int> {
    match samples_of(seconds, rate) {
        None => None,
        Some(samples) => {
            let frames = (samples + hop - 1) / hop;
            Some(
                if frames < 1 {
                    1
                } else {
                    frames
                },
            )
        },
    }
}

/// The number of frames of a duration.
pub fn seconds_to_frames(seconds: u32, sample_rate: u32, hop_length: usize) -> (frames: Option<
    usize,
>)
    requires
        hop_length > 0,
    ensures
        match frames {
            Some(n) => frames_of_seconds(seconds, sample_rate, hop_length as int) == Some(n as int),
            None => frames_of_seconds(seconds, sample_rate, hop_length as int) is None,
        },
{
    match seconds_to_samples(seconds, sample_rate) {
        None => None,
        Some(samples) => {
            let q: usize = samples / hop_length;
            let r: usize = samples % hop_length;
            proof {
                let hop = hop_length as int;
                vstd::arithmetic::div_mod::lemma_fundamental_div_mod(samples as int, hop);
                assert(hop * q == q * hop && (q + 1) * hop == q * hop + hop) by (nonlinear_arith);
                if r == 0 {
                    vstd::arithmetic::div_mod::lemma_fundamental_div_mod_converse(
                        samples + hop - 1,
                        hop,
                        q as int,
                        hop - 1,
                    );
                } else {
                    vstd::arithmetic::div_mod::lemma_fundamental_div_mod_converse(
                        samples + hop - 1,
                        hop,
                        q + 1,
                        r - 1,
                    );
                    assert(q < samples) by (nonlinear_arith)
                        requires
                            samples == hop * q + r,
                            r > 0,
                            hop >= 1,
                            q >= 0,
                    ;
                }
            }
            let frames: usize = if r == 0 {
                q
            } else {
                q + 1
            };
            if frames < 1 {
                Some(1)
            } else {
                Some(frames)
            }
        },
    }
}

/// Which threshold is out of range.
#[derive(Clone, Copy, Debug, PartialEq, Eq, Structural)]
pub enum Threshold {
    Verification,
    Enrollment,
    AutoLearning,
    DiarizationCluster,
}

/// What is wrong with a policy.
#[derive(Clone, Copy, Debug, PartialEq, Eq, Structural)]
pub enum PolicyError {
    FeatureDimensions,
    FftWindow,
    MelFloor,
    Durations,
    WindowOverflow,
    WindowElements(usize),
    MinimumDuration,
    MaximumDuration,
    MinimumFrames { frames: usize, window: usize },
    NoLayers,
    EmptyContexts,
    OutOfRange(Threshold),
    Margin,
    AutoLearning,
}

/// The name of a threshold.
pub open spec fn threshold_name(threshold: Threshold) -> Seq<char> {
    match threshold {
        Threshold::Verification => "verification"@,
        Threshold::Enrollment => "enrollment"@,
        Threshold::AutoLearning => "auto learning"@,
        Threshold::DiarizationCluster => "diarization cluster"@,
    }
}

fn name_of_threshold(threshold: Threshold) -> (name: &'static str)
    ensures
        name@ == threshold_name(threshold),
{
    match threshold {
        Threshold::Verification => "verification",
        Threshold::Enrollment => "enrollment",
        Threshold::AutoLearning => "auto learning",
        Threshold::DiarizationCluster => "diarization cluster",
    }
}

impl PolicyError {
    /// The message text of the error.
    pub open spec fn text(self) -> Seq<char> {
        match self {
            PolicyError::FeatureDimensions =>
                "speaker model contains invalid feature dimensions"@,
            PolicyError::FftWindow => "speaker model FFT/window configuration is invalid"@,
            PolicyError::MelFloor => "speaker model mel floor must be finite and positive"@,
            PolicyError::Durations => "speaker model audio-duration limits are invalid"@,
            PolicyError::WindowOverflow => "speaker model feature-window shape overflow"@,
            PolicyError::WindowElements(got) => "speaker model feature window has "@ + decimal(
                got as nat,
            ) + " elements, exceeding 67108864"@,
            PolicyError::MinimumDuration =>
                "speaker minimum audio duration does not fit this platform"@,
            PolicyError::MaximumDuration =>
                "speaker maximum audio duration does not fit this platform"@,
            PolicyError::MinimumFrames { frames, window } =>
                "speaker model minimum duration needs "@ + decimal(frames as nat)
                    + " frames, exceeding its "@ + decimal(window as nat) + "-frame window"@,
            PolicyError::NoLayers => "speaker model requires TDNN and segment layers"@,
            PolicyError::EmptyContexts => "speaker TDNN contexts must not be empty"@,
            PolicyError::OutOfRange(threshold) => "speaker model "@ + threshold_name(threshold)
                + " threshold must be within -1..=1"@,
            PolicyError::Margin => "speaker model identification margin must be within 0..=2"@,
            PolicyError::AutoLearning =>
                "speaker model auto-learning threshold must be at least the verification threshold"@,
        }
    }

    /// The message text of the error.
    pub fn message(self) -> (message: String)
        ensures
            message@ == self.text(),
    {
        match self {
            PolicyError::FeatureDimensions => Text::start(
                "speaker model contains invalid feature dimensions",
            ).finish(),
            PolicyError::FftWindow => Text::start(
                "speaker model FFT/window configuration is invalid",
            ).finish(),
            PolicyError::MelFloor => Text::start(
                "speaker model mel floor must be finite and positive",
            ).finish(),
            PolicyError::Durations => Text::start(
                "speaker model audio-duration limits are invalid",
            ).finish(),
            PolicyError::WindowOverflow => Text::start(
                "speaker model feature-window shape overflow",
            ).finish(),
            PolicyError::WindowElements(got) => Text::start(
                "speaker model feature window has ",
            ).size(got).text(" elements, exceeding 67108864").finish(),
            PolicyError::MinimumDuration => Text::start(
                "speaker minimum audio duration does not fit this platform",
            ).finish(),
            PolicyError::MaximumDuration => Text::start(
                "speaker maximum audio duration does not fit this platform",
            ).finish(),
            PolicyError::MinimumFrames { frames, window } => Text::start(
                "speaker model minimum duration needs ",
            ).size(frames).text(" frames, exceeding its ").size(window).text(
                "-frame window",
            ).finish(),
            PolicyError::NoLayers => Text::start(
                "speaker model requires TDNN and segment layers",
            ).finish(),
            PolicyError::EmptyContexts => Text::start(
                "speaker TDNN contexts must not be empty",
            ).finish(),
            PolicyError::OutOfRange(threshold) => Text::start("speaker model ").text(
                name_of_threshold(threshold),
            ).text(" threshold must be within -1..=1").finish(),
            PolicyError::Margin => Text::start(
                "speaker model identification margin must be within 0..=2",
            ).finish(),
            PolicyError::AutoLearning => Text::start(
                "speaker model auto-learning threshold must be at least the verification threshold",
            ).finish(),
        }
    }
}

/// Whether a threshold is finite and from minus one to one.
pub open spec fn threshold_ok(b: u32) -> bool {
    is_finite_bits(b) && -(ONE_BITS as int) <= order_of(b) <= ONE_BITS
}

fn check_threshold(b: u32) -> (ok: bool)
    ensures
        ok == threshold_ok(b),
{
    finite_bits(b) && order_key(b) >= -(ONE_BITS as i64) && order_key(b) <= ONE_BITS as i64
}

/// The first thing that is wrong with thresholds, if anything is.
pub open spec fn thresholds_problem(t: SpeakerThresholdPolicy) -> Option<PolicyError> {
    if !threshold_ok(t.verification) {
        Some(PolicyError::OutOfRange(Threshold::Verification))
    } else if !threshold_ok(t.enrollment) {
        Some(PolicyError::OutOfRange(Threshold::Enrollment))
    } else if !threshold_ok(t.auto_learning) {
        Some(PolicyError::OutOfRange(Threshold::AutoLearning))
    } else if !threshold_ok(t.diarization_cluster) {
        Some(PolicyError::OutOfRange(Threshold::DiarizationCluster))
    } else if !(is_finite_bits(t.identification_margin) && 0 <= order_of(
        t.identification_margin,
    ) <= TWO_BITS) {
        Some(PolicyError::Margin)
    } else if is_less(t.auto_learning, t.verification) {
        Some(PolicyError::AutoLearning)
    } else {
        None
    }
}

/// The first thing that is wrong with the dimensions of a policy, if anything is.
pub open spec fn dimensions_problem(p: SpeakerModelPolicy) -> Option<PolicyError> {
    let elements = p.mel_bins * p.max_window_frames;
    let frames = frames_of_seconds(p.min_audio_seconds, p.sample_rate, p.hop_length as int);
    if p.sample_rate == 0 || p.sample_rate > MAX_SPEAKER_SOURCE_SAMPLE_RATE || p.fft_length < 2
        || p.fft_length > MAX_SPEAKER_FFT_LENGTH || p.window_length == 0 || p.hop_length == 0
        || p.mel_bins == 0 || p.mel_bins > MAX_SPEAKER_MEL_BINS || p.max_window_frames == 0 {
        Some(PolicyError::FeatureDimensions)
    } else if p.window_length > p.fft_length || p.fft_length % 2 != 0 {
        Some(PolicyError::FftWindow)
    } else if !(0 < p.mel_floor < INFINITY_BITS) {
        Some(PolicyError::MelFloor)
    } else if !(0 < p.min_audio_seconds < INFINITY_BITS) || !is_finite_bits(p.max_audio_seconds)
        || is_less(p.max_audio_seconds, p.min_audio_seconds) {
        Some(PolicyError::Durations)
    } else if elements > usize::MAX {
        Some(PolicyError::WindowOverflow)
    } else if elements > MAX_SPEAKER_FEATURE_WINDOW_ELEMENTS {
        Some(PolicyError::WindowElements(elements as usize))
    } else if frames is None {
        Some(PolicyError::MinimumDuration)
    } else if frames->Some_0 > p.max_window_frames {
        Some(
            PolicyError::MinimumFrames {
                frames: frames->Some_0 as usize,
                window: p.max_window_frames,
            },
        )
    } else {
        None
    }
}

/// Whether every layer over frames has a context.
pub open spec fn contexts_given(layers: Seq<SpeakerTdnnLayerPolicy>) -> bool {
    forall|i: int| 0 <= i < layers.len() ==> (#[trigger] layers[i]).contexts@.len() > 0
}

/// The first thing that is wrong with a policy, if anything is.
pub open spec fn policy_problem(p: SpeakerModelPolicy) -> Option<PolicyError> {
    match dimensions_problem(p) {
        Some(error) => Some(error),
        None => if p.tdnn_layers@.len() == 0 || p.segment_layers@.len() == 0 {
            Some(PolicyError::NoLayers)
        } else if !contexts_given(p.tdnn_layers@) {
            Some(PolicyError::EmptyContexts)
        } else {
            thresholds_problem(p.thresholds)
        },
    }
}

fn check_thresholds(t: SpeakerThresholdPolicy) -> (problem: Option<PolicyError>)
    ensures
        problem == thresholds_problem(t),
{
    if !check_threshold(t.verification) {
        return Some(PolicyError::OutOfRange(Threshold::Verification));
    }
    if !check_threshold(t.enrollment) {
        return Some(PolicyError::OutOfRange(Threshold::Enrollment));
    }
    if !check_threshold(t.auto_learning) {
        return Some(PolicyError::OutOfRange(Threshold::AutoLearning));
    }
    if !check_threshold(t.diarization_cluster) {
        return Some(PolicyError::OutOfRange(Threshold::DiarizationCluster));
    }
    let margin: i64 = order_key(t.identification_margin);
    if !finite_bits(t.identification_margin) || margin < 0 || margin > TWO_BITS as i64 {
        return Some(PolicyError::Margin);
    }
    if less_bits(t.auto_learning, t.verification) {
        return Some(PolicyError::AutoLearning);
    }
    None
}

fn check_dimensions(p: &SpeakerModelPolicy) -> (problem: Option<PolicyError>)
    ensures
        problem == dimensions_problem(*p),
{
    if p.sample_rate == 0 || p.sample_rate > MAX_SPEAKER_SOURCE_SAMPLE_RATE || p.fft_length < 2
        || p.fft_length > MAX_SPEAKER_FFT_LENGTH || p.window_length == 0 || p.hop_length == 0
        || p.mel_bins == 0 || p.mel_bins > MAX_SPEAKER_MEL_BINS || p.max_window_frames == 0 {
        return Some(PolicyError::FeatureDimensions);
    }
    if p.window_length > p.fft_length || p.fft_length % 2 != 0 {
        return Some(PolicyError::FftWindow);
    }
    if !finite_positive_bits(p.mel_floor) {
        return Some(PolicyError::MelFloor);
    }
    if !finite_positive_bits(p.min_audio_seconds) || !finite_bits(p.max_audio_seconds)
        || less_bits(p.max_audio_seconds, p.min_audio_seconds) {
        return Some(PolicyError::Durations);
    }
    let elements: usize = match p.mel_bins.checked_mul(p.max_window_frames) {
        Some(n) => n,
        None => return Some(PolicyError::WindowOverflow),
    };
    if elements > MAX_SPEAKER_FEATURE_WINDOW_ELEMENTS {
        return Some(PolicyError::WindowElements(elements));
    }
    let frames: usize = match seconds_to_frames(
        p.min_audio_seconds,
        p.sample_rate,
        p.hop_length,
    ) {
        Some(n) => n,
        None => return Some(PolicyError::MinimumDuration),
    };
    if frames > p.max_window_frames {
        return Some(PolicyError::MinimumFrames { frames, window: p.max_window_frames });
    }
    None
}

/// Checks a policy.
pub fn validate_policy(policy: &SpeakerModelPolicy) -> (result: Result<(), PolicyError>)
    ensures
        match result {
            Ok(_) => policy_problem(*policy) is None,
            Err(error) => policy_problem(*policy) == Some(error),
        },
{
    match check_dimensions(policy) {
        Some(error) => return Err(error),
        None => {},
    }
    if policy.tdnn_layers.len() == 0 || policy.segment_layers.len() == 0 {
        return Err(PolicyError::NoLayers);
    }
    let mut i: usize = 0;
    while i < policy.tdnn_layers.len()
        invariant
            i <= policy.tdnn_layers@.len(),
            dimensions_problem(*policy) is None,
            policy.tdnn_layers@.len() > 0,
            policy.segment_layers@.len() > 0,
            forall|j: int|
                0 <= j < i ==> (#[trigger] policy.tdnn_layers@[j]).contexts@.len() > 0,
        decreases policy.tdnn_layers.len() - i,
    {
        if policy.tdnn_layers[i].contexts.len() == 0 {
            assert(policy.tdnn_layers@[i as int].contexts@.len() == 0);
            return Err(PolicyError::EmptyContexts);
        }
        i = i + 1;
    }
    match check_thresholds(policy.thresholds) {
        Some(error) => Err(error),
        None => Ok(()),
    }
}

/// The limits under which the audio of a speaker is decoded.
pub fn speaker_decode_config(policy: &SpeakerModelPolicy) -> (result: Result<
    AudioDecodeConfig,
    PolicyError,
>)
    ensures
        match samples_of(policy.max_audio_seconds, policy.sample_rate) {
            None => result == Err::<AudioDecodeConfig, PolicyError>(PolicyError::MaximumDuration),
            Some(samples) => result == Ok::<AudioDecodeConfig, PolicyError>(
                AudioDecodeConfig {
                    target_sample_rate: policy.sample_rate,
                    max_output_samples: samples as usize,
                    chunk_size_samples: samples as usize,
                    max_file_bytes: MAX_SPEAKER_AUDIO_FILE_BYTES,
                    max_channels: MAX_SPEAKER_AUDIO_CHANNELS,
                    max_source_sample_rate: MAX_SPEAKER_SOURCE_SAMPLE_RATE,
                },
            ),
        },
{
    match seconds_to_samples(policy.max_audio_seconds, policy.sample_rate) {
        None => Err(PolicyError::MaximumDuration),
        Some(samples) => Ok(
            AudioDecodeConfig {
                target_sample_rate: policy.sample_rate,
                max_output_samples: samples,
                chunk_size_samples: samples,
                max_file_bytes: MAX_SPEAKER_AUDIO_FILE_BYTES,
                max_channels: MAX_SPEAKER_AUDIO_CHANNELS,
                max_source_sample_rate: MAX_SPEAKER_SOURCE_SAMPLE_RATE,
            },
        ),
    }
}

/// The places of windows that are long enough.
pub open spec fn long_enough(
    windows: Seq<PreparedAudioFeatureWindowPlan>,
    minimum: usize,
    k: nat,
) -> Seq<usize>
    decreases k,
{
    if k == 0 {
        Seq::empty()
    } else if windows[k - 1].valid_frames < minimum {
        long_enough(windows, minimum, (k - 1) as nat)
    } else {
        long_enough(windows, minimum, (k - 1) as nat).push((k - 1) as usize)
    }
}

/// The places of windows that are long enough to be embedded.
pub fn usable_windows(windows: &[PreparedAudioFeatureWindowPlan], minimum_frames: usize) -> (
    usable: Vec<usize>)
    ensures
        usable@ == long_enough(windows@, minimum_frames, windows@.len()),
{
    let mut usable: Vec<usize> = Vec::new();
    let mut k: usize = 0;
    while k < windows.len()
        invariant
            k <= windows@.len(),
            usable@ == long_enough(windows@, minimum_frames, k as nat),
        decreases windows.len() - k,
    {
        if windows[k].valid_frames >= minimum_frames {
            usable.push(k);
        }
        k = k + 1;
    }
    usable
}

/// What is measured of audio, by bit patterns.
#[derive(Clone, Copy, Debug, PartialEq, Eq, Structural)]
pub struct SpeakerAudioQuality {
    pub duration_seconds: u32,
    pub rms: u32,
    pub clipping_fraction: u32,
    pub active_fraction: u32,
    pub score: u32,
}

/// Why audio is not good enough.
#[derive(Clone, Copy, Debug, PartialEq, Eq, Structural)]
pub enum QualityProblem {
    TooShort,
    Silent,
    Clipped,
    Inactive,
}

/// The bit pattern of 0.0001.
pub const QUIET_BITS: u32 = 0x38d1_b717;

/// The bit pattern of 0.2.
pub const CLIPPED_BITS: u32 = 0x3e4c_cccd;

/// The bit pattern of 0.1.
pub const INACTIVE_BITS: u32 = 0x3dcc_cccd;

/// Checks that audio is long and loud enough, not clipped and not mostly silent.
pub fn validate_quality(quality: &SpeakerAudioQuality, min_seconds: u32) -> (problem: Option<
    QualityProblem,
>)
    ensures
        problem == if is_less(quality.duration_seconds, min_seconds) {
            Some(QualityProblem::TooShort)
        } else if is_less(quality.rms, QUIET_BITS) {
            Some(QualityProblem::Silent)
        } else if is_less(CLIPPED_BITS, quality.clipping_fraction) {
            Some(QualityProblem::Clipped)
        } else if is_less(quality.active_fraction, INACTIVE_BITS) {
            Some(QualityProblem::Inactive)
        } else {
            None
        },
{
    if less_bits(quality.duration_seconds, min_seconds) {
        Some(QualityProblem::TooShort)
    } else if less_bits(quality.rms, QUIET_BITS) {
        Some(QualityProblem::Silent)
    } else if less_bits(CLIPPED_BITS, quality.clipping_fraction) {
        Some(QualityProblem::Clipped)
    } else if less_bits(quality.active_fraction, INACTIVE_BITS) {
        Some(QualityProblem::Inactive)
    } else {
        None
    }
}

/// The text of embeddings that cannot be compared.
pub open spec fn dimension_text(left: int, right: int) -> Seq<char> {
    "speaker embedding dimension mismatch: left="@ + decimal(left as nat) + ", right="@ + decimal(
        right as nat,
    )
}

/// Checks that two embeddings can be compared, or gives the text of the mismatch.
pub fn check_same_dimension(left: usize, right: usize) -> (result: Result<(), String>)
    ensures
        match result {
            Ok(_) => left == right && left > 0,
            Err(text) => !(left == right && left > 0) && text@ == dimension_text(
                left as int,
                right as int,
            ),
        },
{
    if left != right || left == 0 {
        return Err(
            Text::start("speaker embedding dimension mismatch: left=").size(left).text(
                ", right=",
            ).size(right).finish(),
        );
    }
    Ok(())
}

/// The hash of the first `k` bytes.
pub open spec fn hashed(bytes: Seq<u8>, k: nat) -> u64
    decreases k,
{
    if k == 0 {
        0xcbf2_9ce4_8422_2325
    } else {
        let mixed = hashed(bytes, (k - 1) as nat) ^ (bytes[k - 1] as u64);
        ((mixed * 0x100_0000_01b3) % 0x1_0000_0000_0000_0000) as u64
    }
}

/// A lower-case hexadecimal digit.
pub open spec fn low_hex(value: int) -> Seq<char> {
    if value < 10 {
        crate::text::digit_text(value)
    } else if value == 10 {
        "a"@
    } else if value == 11 {
        "b"@
    } else if value == 12 {
        "c"@
    } else if value == 13 {
        "d"@
    } else if value == 14 {
        "e"@
    } else {
        "f"@
    }
}

/// The last `digits` hexadecimal digits of a number.
pub open spec fn hex_text(value: int, digits: nat) -> Seq<char>
    decreases digits,
{
    if digits == 0 {
        Seq::empty()
    } else {
        hex_text(value / 16, (digits - 1) as nat) + low_hex(value % 16)
    }
}

fn low_digit(value: u64) -> (text: &'static str)
    requires
        value < 16,
    ensures
        text@ == low_hex(value as int),
{
    match value {
        0 => "0",
        1 => "1",
        2 => "2",
        3 => "3",
        4 => "4",
        5 => "5",
        6 => "6",
        7 => "7",
        8 => "8",
        9 => "9",
        10 => "a",
        11 => "b",
        12 => "c",
        13 => "d",
        14 => "e",
        _ => "f",
    }
}

fn push_hex(out: &mut String, value: u64, digits: u32)
    ensures
        final(out)@ == old(out)@ + hex_text(value as int, digits as nat),
    decreases digits,
{
    if digits > 0 {
        push_hex(out, value / 16, digits - 1);
        out.append(low_digit(value % 16));
        assert(out@ =~= old(out)@ + hex_text(value as int, digits as nat));
    } else {
        assert(out@ =~= old(out)@ + hex_text(value as int, 0));
    }
}

/// The fingerprint of a model: the hash of its bytes and their number.
pub open spec fn fingerprint_text(bytes: Seq<u8>) -> Seq<char> {
    "fnv1a64:"@ + hex_text(hashed(bytes, bytes.len()) as int, 16) + ":"@ + decimal(bytes.len())
}

/// The fingerprint of a model.
pub fn model_fingerprint(bytes: &[u8]) -> (fingerprint: String)
    ensures
        fingerprint@ == fingerprint_text(bytes@),
{
    let mut hash: u64 = 0xcbf2_9ce4_8422_2325;
    let mut k: usize = 0;
    while k < bytes.len()
        invariant
            k <= bytes@.len(),
            hash == hashed(bytes@, k as nat),
        decreases bytes.len() - k,
    {
        let mixed: u64 = hash ^ (bytes[k] as u64);
        hash = mixed.wrapping_mul(0x100_0000_01b3);
        k = k + 1;
    }
    let mut text: String = "fnv1a64:".to_owned();
    push_hex(&mut text, hash, 16);
    Text::start(text.as_str()).text(":").size(bytes.len()).finish()
}

proof fn lemma_mixing_keeps_apart(x: u64, y: u64)
    requires
        (x * 0x100_0000_01b3) % 0x1_0000_0000_0000_0000 == (y * 0x100_0000_01b3)
            % 0x1_0000_0000_0000_0000,
    ensures
        x == y,
{
    let p = 0x100_0000_01b3int;
    let m = 0x1_0000_0000_0000_0000int;
    let q = 0xce965057aff6957bint;
    let k = 0xce9650590fint;
    let a = (x * p) / m;
    let b = (y * p) / m;
    let d = x - y;
    lemma_fundamental_div_mod(x * p, m);
    lemma_fundamental_div_mod(y * p, m);
    assert(d * p == m * (a - b)) by (nonlinear_arith)
        requires
            x * p == m * a + (x * p) % m,
            y * p == m * b + (x * p) % m,
            d == x - y,
    ;
    assert(p * q == 1 + k * m);
    let z = (a - b) * q - k * d;
    assert(d == m * z) by (nonlinear_arith)
        requires
            d * p == m * (a - b),
            p * q == 1 + k * m,
            z == (a - b) * q - k * d,
    ;
    assert(z == 0) by (nonlinear_arith)
        requires
            d == m * z,
            -m < d < m,
            m > 0,
    ;
}

proof fn lemma_same_start(a: Seq<u8>, b: Seq<u8>, k: nat)
    requires
        forall|j: int| 0 <= j < k ==> a[j] == b[j],
    ensures
        hashed(a, k) == hashed(b, k),
    decreases k,
{
    if k > 0 {
        lemma_same_start(a, b, (k - 1) as nat);
    }
}

proof fn lemma_hash_keeps_apart(a: Seq<u8>, b: Seq<u8>, i: int, k: nat)
    requires
        a.len() == b.len(),
        0 <= i < k <= a.len(),
        a[i] != b[i],
        forall|j: int| 0 <= j < a.len() && j != i ==> a[j] == b[j],
    ensures
        hashed(a, k) != hashed(b, k),
    decreases k,
{
    let last = k - 1;
    let ha = hashed(a, last as nat);
    let hb = hashed(b, last as nat);
    let ca = a[last] as u64;
    let cb = b[last] as u64;
    if i < last {
        lemma_hash_keeps_apart(a, b, i, last as nat);
        assert(ha != hb && ca == cb ==> (ha ^ ca) != (hb ^ cb)) by (bit_vector);
    } else {
        lemma_same_start(a, b, last as nat);
        assert(ca != cb && ha == hb ==> (ha ^ ca) != (hb ^ cb)) by (bit_vector);
    }
    if hashed(a, k) == hashed(b, k) {
        lemma_mixing_keeps_apart(ha ^ ca, hb ^ cb);
    }
}

proof fn lemma_digit_keeps_apart(x: int, y: int)
    requires
        0 <= x < 16,
        0 <= y < 16,
    ensures
        low_hex(x).len() == 1,
        low_hex(x) == low_hex(y) ==> x == y,
{
    reveal_strlit("0");
    reveal_strlit("1");
    reveal_strlit("2");
    reveal_strlit("3");
    reveal_strlit("4");
    reveal_strlit("5");
    reveal_strlit("6");
    reveal_strlit("7");
    reveal_strlit("8");
    reveal_strlit("9");
    reveal_strlit("a");
    reveal_strlit("b");
    reveal_strlit("c");
    reveal_strlit("d");
    reveal_strlit("e");
    reveal_strlit("f");
    if low_hex(x) == low_hex(y) {
        assert(low_hex(x)[0] == low_hex(y)[0]);
    }
}

proof fn lemma_hex_keeps_apart(x: int, y: int, digits: nat)
    requires
        0 <= x < pow2(4 * digits),
        0 <= y < pow2(4 * digits),
    ensures
        hex_text(x, digits).len() == digits,
        hex_text(y, digits).len() == digits,
        hex_text(x, digits) == hex_text(y, digits) ==> x == y,
    decreases digits,
{
    lemma2_to64();
    if digits > 0 {
        let less = (digits - 1) as nat;
        lemma_pow2_adds(4, 4 * less);
        assert(4 * digits == 4 + 4 * less);
        lemma_hex_keeps_apart(x / 16, y / 16, less);
        lemma_digit_keeps_apart(x % 16, y % 16);
        lemma_digit_keeps_apart(y % 16, x % 16);
        let hx = hex_text(x, digits);
        let hy = hex_text(y, digits);
        if hx == hy {
            assert(hx.take(less as int) =~= hex_text(x / 16, less));
            assert(hy.take(less as int) =~= hex_text(y / 16, less));
            assert(hx.skip(less as int) =~= low_hex(x % 16));
            assert(hy.skip(less as int) =~= low_hex(y % 16));
        }
    }
}

/// The fingerprint is sensitive to content: models of the same length that differ in one byte
/// have different fingerprints.
pub proof fn a_changed_byte_changes_the_fingerprint(a: Seq<u8>, b: Seq<u8>, i: int)
    requires
        a.len() == b.len(),
        0 <= i < a.len(),
        a[i] != b[i],
        forall|j: int| 0 <= j < a.len() && j != i ==> a[j] == b[j],
    ensures
        fingerprint_text(a) != fingerprint_text(b),
{
    lemma_hash_keeps_apart(a, b, i, a.len());
    let x = hashed(a, a.len()) as int;
    let y = hashed(b, b.len()) as int;
    lemma2_to64();
    lemma_hex_keeps_apart(x, y, 16);
    let n = "fnv1a64:"@.len() as int;
    let fa = fingerprint_text(a);
    let fb = fingerprint_text(b);
    if fa == fb {
        assert(fa.subrange(n, n + 16) =~= hex_text(x, 16));
        assert(fb.subrange(n, n + 16) =~= hex_text(y, 16));
    }
}

/// A duration takes the smallest number of samples that lasts as long, where the number of its parts
/// is exact; one that does not last a sample takes none.
pub proof fn samples_last_as_long(seconds: u32, rate: u32)
    requires
        0x0080_0000 <= seconds < 0x4b00_0000,
        (0x80_0000 + seconds as int % 8388608) * rate < 0x20_0000_0000_0000,
    ensures
        ({
            let unit = pow2((150 - seconds as int / 8388608) as nat) as int;
            let parts = (0x80_0000 + seconds as int % 8388608) * rate;
            match samples_of(seconds, rate) {
                Some(n) => 1 <= n && (n - 1) * unit < parts <= n * unit,
                None => parts < unit || parts > most_samples() * unit,
            }
        }),
{
    let unit = pow2((150 - seconds as int / 8388608) as nat) as int;
    let parts = (0x80_0000 + seconds as int % 8388608) * rate;
    lemma_pow2_pos((150 - seconds as int / 8388608) as nat);
    assert(parts >= 0) by (nonlinear_arith)
        requires
            parts == (0x80_0000 + seconds as int % 8388608) * rate,
    ;
    if let Some(n) = samples_of(seconds, rate) {
        let top = parts + unit - 1;
        lemma_fundamental_div_mod(top, unit);
        assert(n == top / unit);
        assert((n - 1) * unit < parts <= n * unit && n >= 1) by (nonlinear_arith)
            requires
                top == unit * n + top % unit,
                0 <= top % unit < unit,
                top == parts + unit - 1,
                parts >= unit,
                unit > 0,
        ;
    }
}

/// A duration takes the smallest number of frames that holds its samples, and at least one.
pub proof fn frames_hold_the_samples(seconds: u32, rate: u32, hop: int)
    requires
        hop > 0,
    ensures
        match (samples_of(seconds, rate), frames_of_seconds(seconds, rate, hop)) {
            (Some(samples), Some(frames)) => frames >= 1 && (samples >= 1 ==> (frames - 1) * hop
                < samples <= frames * hop),
            (None, None) => true,
            _ => false,
        },
{
    if let Some(samples) = samples_of(seconds, rate) {
        let top = samples + hop - 1;
        lemma_fundamental_div_mod(top, hop);
        let frames = top / hop;
        if samples >= 1 {
            assert((frames - 1) * hop < samples <= frames * hop && frames >= 1) by (nonlinear_arith)
                requires
                    top == hop * frames + top % hop,
                    0 <= top % hop < hop,
                    top == samples + hop - 1,
                    samples >= 1,
                    hop > 0,
            ;
        }
    }
}

/// Exactly the windows with enough frames are used, in their order.
pub proof fn windows_with_enough_frames_are_used(
    windows: Seq<PreparedAudioFeatureWindowPlan>,
    minimum: usize,
    k: nat,
)
    requires
        k <= windows.len() <= usize::MAX,
    ensures
        forall|i: int|
            0 <= i < k ==> ((#[trigger] windows[i]).valid_frames >= minimum <==> long_enough(
                windows,
                minimum,
                k,
            ).contains(i as usize)),
        forall|i: int|
            0 <= i < long_enough(windows, minimum, k).len() ==> #[trigger] long_enough(
                windows,
                minimum,
                k,
            )[i] < k,
        forall|i: int, j: int|
            0 <= i < j < long_enough(windows, minimum, k).len() ==> #[trigger] long_enough(
                windows,
                minimum,
                k,
            )[i] < #[trigger] long_enough(windows, minimum, k)[j],
    decreases k,
{
    if k > 0 {
        let m = (k - 1) as nat;
        windows_with_enough_frames_are_used(windows, minimum, m);
        let front = long_enough(windows, minimum, m);
        let all = long_enough(windows, minimum, k);
        assert forall|i: int| 0 <= i < all.len() implies #[trigger] all[i] < k by {
            if i < front.len() {
                assert(front[i] < m);
            }
        }
        assert forall|i: int, j: int| 0 <= i < j < all.len() implies #[trigger] all[i]
            < #[trigger] all[j] by {
            assert(front[i] < m);
            if j < front.len() {
                assert(front[i] < front[j]);
            }
        }
        assert forall|i: int| 0 <= i < k implies ((#[trigger] windows[i]).valid_frames >= minimum
            <==> all.contains(i as usize)) by {
            if front.contains(i as usize) {
                let x = choose|x: int| 0 <= x < front.len() && front[x] == i as usize;
                assert(front[x] < m);
                assert(all[x] == i as usize);
            }
            if all.contains(i as usize) {
                let x = choose|x: int| 0 <= x < all.len() && all[x] == i as usize;
                if x < front.len() {
                    assert(front[x] == i as usize);
                    assert(front[x] < m);
                }
            }
            if i == m && windows[i].valid_frames >= minimum {
                assert(all[front.len() as int] == i as usize);
            }
        }
    }
}

/// The hash starts from its fixed number, and each byte is mixed in before the hash is multiplied.
pub proof fn bytes_are_mixed_in_one_by_one(bytes: Seq<u8>, k: nat)
    ensures
        hashed(bytes, 0) == 0xcbf2_9ce4_8422_2325,
        hashed(bytes, k + 1) == ((hashed(bytes, k) ^ (bytes[k as int] as u64)) * 0x100_0000_01b3)
            % 0x1_0000_0000_0000_0000,
{
    let mixed = hashed(bytes, k) ^ (bytes[k as int] as u64);
    assert(hashed(bytes, k + 1) == ((mixed * 0x100_0000_01b3) % 0x1_0000_0000_0000_0000) as u64);
}

/// A policy is accepted exactly where its sizes are within their limits, its transform is even and
/// holds the window, its floor and durations are finite and in order, the shortest audio fills no
/// more than a window, every layer over frames has a context, and its thresholds are within minus
/// one and one, the margin within zero and two, and learning asks for no less than verification.
pub proof fn policies_are_accepted_where_sound(p: SpeakerModelPolicy)
    ensures
        policy_problem(p) is None <==> {
            let t = p.thresholds;
            &&& 0 < p.sample_rate <= MAX_SPEAKER_SOURCE_SAMPLE_RATE
            &&& 2 <= p.fft_length <= MAX_SPEAKER_FFT_LENGTH
            &&& p.fft_length % 2 == 0
            &&& 0 < p.window_length <= p.fft_length
            &&& p.hop_length > 0
            &&& 0 < p.mel_bins <= MAX_SPEAKER_MEL_BINS
            &&& p.max_window_frames > 0
            &&& p.mel_bins * p.max_window_frames <= MAX_SPEAKER_FEATURE_WINDOW_ELEMENTS
            &&& 0 < p.mel_floor < 0x7f80_0000
            &&& 0 < p.min_audio_seconds <= p.max_audio_seconds < 0x7f80_0000
            &&& frames_of_seconds(
                p.min_audio_seconds,
                p.sample_rate,
                p.hop_length as int,
            ) matches Some(frames) && frames <= p.max_window_frames
            &&& p.tdnn_layers@.len() > 0
            &&& p.segment_layers@.len() > 0
            &&& forall|i: int|
                0 <= i < p.tdnn_layers@.len() ==> (#[trigger] p.tdnn_layers@[i]).contexts@.len() > 0
            &&& t.verification % 0x8000_0000 <= 0x3f80_0000
            &&& t.enrollment % 0x8000_0000 <= 0x3f80_0000
            &&& t.auto_learning % 0x8000_0000 <= 0x3f80_0000
            &&& t.diarization_cluster % 0x8000_0000 <= 0x3f80_0000
            &&& t.identification_margin <= 0x4000_0000 || t.identification_margin == 0x8000_0000
            &&& order_of(t.verification) <= order_of(t.auto_learning)
        },
{
}

} // verus!
