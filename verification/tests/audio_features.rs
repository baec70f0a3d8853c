use inference_engine::audio::config::{AudioConfigError, WhisperLogMelConfig};
use inference_engine::audio::features::{
    fft_layout, leaf_table_index, mel_filter_span, plan_extraction, plan_feature_windows,
    plan_whisper_log_mel_windows, reflect_pad, split_feature_windows, FeatureError, FftLayout,
    MelFilterSpan,
};
use inference_engine::audio::prepared::PreparedAudioFeatureWindow;
use std::f64::consts::PI;

fn config() -> WhisperLogMelConfig {
    WhisperLogMelConfig {
        sample_rate: 16_000,
        fft_length: 400,
        window_length: 400,
        hop_length: 160,
        mel_bins: 128,
        mel_floor: 5.960_464_5e-8f32.to_bits(),
        max_window_frames: 800,
        frame_chunk_size: 100,
    }
}

#[derive(Clone, Copy, Debug, Default)]
struct Complex32 {
    re: f32,
    im: f32,
}

fn periodic_hann(length: usize) -> Vec<f32> {
    (0..length)
        .map(|index| {
            let angle = (2.0 * PI * index as f64 / length as f64) as f32;
            (0.5f64 * (1.0 - f64::from(angle.cos()))) as f32
        })
        .collect()
}

const MIN_LOG_HZ: f64 = 1000.0;
const LINEAR_SLOPE: f64 = 3.0 / 200.0;
const MIN_LOG_MEL: f64 = MIN_LOG_HZ * LINEAR_SLOPE;

fn slaney_hz_to_mel(frequency_hz: f64) -> f64 {
    let log_step = 6.4f64.ln() / 27.0;
    if frequency_hz < MIN_LOG_HZ {
        frequency_hz * LINEAR_SLOPE
    } else {
        MIN_LOG_MEL + (frequency_hz / MIN_LOG_HZ).ln() / log_step
    }
}

fn slaney_mel_to_hz(mel: f64) -> f64 {
    let log_step = 6.4f64.ln() / 27.0;
    if mel < MIN_LOG_MEL {
        mel / LINEAR_SLOPE
    } else {
        MIN_LOG_HZ * ((mel - MIN_LOG_MEL) * log_step).exp()
    }
}

fn build_slaney_mel_filters(
    config: WhisperLogMelConfig,
    fft_bins: usize,
    element_count: usize,
) -> Vec<f32> {
    let mel_min = slaney_hz_to_mel(0.0);
    let mel_max = slaney_hz_to_mel(f64::from(config.sample_rate) / 2.0);
    let hz_points = (0..config.mel_bins + 2)
        .map(|index| {
            let part = index as f64 / (config.mel_bins + 1) as f64;
            slaney_mel_to_hz(mel_min + (mel_max - mel_min) * part)
        })
        .collect::<Vec<_>>();
    let mut filters = vec![0.0; element_count];
    let bin_hz_step = f64::from(config.sample_rate) / config.fft_length as f64;
    for (mel_index, row) in filters.chunks_exact_mut(fft_bins).enumerate() {
        let left = hz_points[mel_index];
        let center = hz_points[mel_index + 1];
        let right = hz_points[mel_index + 2];
        let left_width = (center - left).max(1e-30);
        let right_width = (right - center).max(1e-30);
        let area_normalization = 2.0 / (right - left).max(1e-30);
        for (bin, filter) in row.iter_mut().enumerate() {
            let frequency = bin as f64 * bin_hz_step;
            let weight = if frequency >= left && frequency <= center {
                (frequency - left) / left_width
            } else if frequency > center && frequency <= right {
                (right - frequency) / right_width
            } else {
                0.0
            };
            *filter = (weight * area_normalization) as f32;
        }
    }
    filters
}

struct FftPlan {
    length: usize,
    layout: FftLayout,
    sin_values: Vec<f32>,
    cos_values: Vec<f32>,
    leaf_cos: Vec<f32>,
    leaf_sin: Vec<f32>,
}

impl FftPlan {
    fn new(length: usize) -> Self {
        let angles = (0..length)
            .map(|index| (2.0 * PI * index as f64 / length as f64) as f32)
            .collect::<Vec<_>>();
        let sin_values = angles.iter().map(|angle| angle.sin()).collect::<Vec<_>>();
        let cos_values = angles.iter().map(|angle| angle.cos()).collect::<Vec<_>>();
        let layout = fft_layout(length);
        let leaf_length = layout.leaf_length;
        let mut leaf_cos = vec![0.0f32; leaf_length * leaf_length];
        let mut leaf_sin = vec![0.0f32; leaf_length * leaf_length];
        for frequency in 0..leaf_length {
            for sample in 0..leaf_length {
                let index = leaf_table_index(frequency, sample, leaf_length, length);
                leaf_cos[frequency * leaf_length + sample] = cos_values[index];
                leaf_sin[frequency * leaf_length + sample] = sin_values[index];
            }
        }
        Self { length, layout, sin_values, cos_values, leaf_cos, leaf_sin }
    }
}

struct FftScratch {
    windowed: Vec<f32>,
    power: Vec<f32>,
    primary: Vec<Complex32>,
    secondary: Vec<Complex32>,
}

impl FftScratch {
    fn new(plan: &FftPlan, fft_bins: usize) -> Self {
        Self {
            windowed: vec![0.0f32; plan.length],
            power: vec![0.0f32; fft_bins],
            primary: vec![Complex32::default(); plan.length],
            secondary: vec![Complex32::default(); plan.length],
        }
    }

    fn transform(&mut self, plan: &FftPlan) {
        let leaf_length = plan.layout.leaf_length;
        for (block, offset) in plan.layout.leaf_offsets.iter().copied().enumerate() {
            let output = &mut self.primary[block * leaf_length..(block + 1) * leaf_length];
            if leaf_length == 1 {
                output[0] = Complex32 { re: self.windowed[offset], im: 0.0 };
                continue;
            }
            for (frequency, value) in output.iter_mut().enumerate() {
                let table_row = frequency * leaf_length;
                let (mut re, mut im) = (0.0f32, 0.0f32);
                for sample_index in 0..leaf_length {
                    let sample = self.windowed[offset + sample_index * plan.layout.leaf_count];
                    re += sample * plan.leaf_cos[table_row + sample_index];
                    im -= sample * plan.leaf_sin[table_row + sample_index];
                }
                *value = Complex32 { re, im };
            }
        }
        let mut half = leaf_length;
        for _ in 0..plan.layout.levels {
            let size = half * 2;
            let table_step = plan.length / size;
            for (source, destination) in self
                .primary
                .chunks_exact(size)
                .zip(self.secondary.chunks_exact_mut(size))
            {
                let (even, odd) = source.split_at(half);
                for frequency in 0..half {
                    let twiddle_re = plan.cos_values[frequency * table_step];
                    let twiddle_im = -plan.sin_values[frequency * table_step];
                    destination[frequency] = Complex32 {
                        re: even[frequency].re + twiddle_re * odd[frequency].re
                            - twiddle_im * odd[frequency].im,
                        im: even[frequency].im
                            + twiddle_re * odd[frequency].im
                            + twiddle_im * odd[frequency].re,
                    };
                    destination[frequency + half] = Complex32 {
                        re: even[frequency].re - twiddle_re * odd[frequency].re
                            + twiddle_im * odd[frequency].im,
                        im: even[frequency].im
                            - twiddle_re * odd[frequency].im
                            - twiddle_im * odd[frequency].re,
                    };
                }
            }
            std::mem::swap(&mut self.primary, &mut self.secondary);
            half = size;
        }
    }
}

fn extract_whisper_log_mel_windows(
    samples: &[f32],
    config: WhisperLogMelConfig,
) -> Result<Vec<PreparedAudioFeatureWindow<f32>>, String> {
    if samples.len().checked_add(config.fft_length).is_none() {
        return Err("audio feature frame count overflow".to_string());
    }
    let patterns = samples.iter().map(|sample| sample.to_bits()).collect::<Vec<_>>();
    let sizes = plan_extraction(&patterns, config).map_err(|error| error.message())?;
    let padded = reflect_pad(samples, sizes.pad, 0.0f32);
    let mut hann = vec![0.0; config.fft_length];
    hann[sizes.window_offset..sizes.window_offset + config.window_length]
        .copy_from_slice(&periodic_hann(config.window_length));
    let fft_bins = sizes.fft_bins;
    let filters = build_slaney_mel_filters(config, fft_bins, sizes.filter_count);
    let spans = filters
        .chunks_exact(fft_bins)
        .map(|row| {
            let weights = row.iter().map(|weight| weight.to_bits()).collect::<Vec<_>>();
            mel_filter_span(&weights)
        })
        .collect::<Vec<MelFilterSpan>>();
    let plan = FftPlan::new(config.fft_length);
    let mel_floor = f64::from(f32::from_bits(config.mel_floor));

    let mut frame_major = vec![0.0f32; sizes.element_count];
    let mut scratch = FftScratch::new(&plan, fft_bins);
    for (frame, mel_row) in frame_major.chunks_mut(config.mel_bins).enumerate() {
        let offset = frame * config.hop_length;
        for index in 0..config.fft_length {
            scratch.windowed[index] = padded[offset + index] * hann[index];
        }
        scratch.transform(&plan);
        for (power, value) in scratch.power.iter_mut().zip(&scratch.primary) {
            *power = value.re * value.re + value.im * value.im;
        }
        for (mel, output) in mel_row.iter_mut().enumerate() {
            let row = &filters[mel * fft_bins..(mel + 1) * fft_bins];
            let power = &scratch.power;
            let mut sum = 0.0f64;
            for group in spans[mel].group_start..spans[mel].group_end {
                let bin = group * 4;
                let group_sum = power[bin] * row[bin]
                    + power[bin + 1] * row[bin + 1]
                    + power[bin + 2] * row[bin + 2]
                    + power[bin + 3] * row[bin + 3];
                sum += f64::from(group_sum);
            }
            for bin in spans[mel].tail_start..spans[mel].tail_end {
                sum += f64::from(power[bin] * row[bin]);
            }
            *output = sum.max(mel_floor).log10() as f32;
        }
    }

    let max_log_mel = frame_major
        .iter()
        .map(|value| f64::from(*value))
        .fold(f64::NEG_INFINITY, f64::max);
    let dynamic_floor = max_log_mel - 8.0;
    frame_major.iter_mut().for_each(|value| {
        *value = ((f64::from(*value).max(dynamic_floor) + 4.0) / 4.0) as f32;
    });

    split_feature_windows(
        &frame_major,
        config.mel_bins,
        sizes.frame_count,
        config.max_window_frames,
        config.frame_chunk_size,
        0.0f32,
    )
    .map_err(|error| error.message())
}

#[test]
fn reflection_padding_matches_qwen3_asr_edge_order() {
    assert_eq!(
        reflect_pad(&[1.0f32, 2.0, 3.0, 4.0], 2, 0.0),
        vec![3.0, 2.0, 1.0, 2.0, 3.0, 4.0, 3.0, 2.0]
    );
}

#[test]
fn short_samples_reflect_as_far_as_they_reach() {
    assert_eq!(reflect_pad(&[5u32, 6], 3, 0), vec![0, 0, 6, 5, 6, 5, 0, 0]);
    assert_eq!(reflect_pad::<u32>(&[], 1, 9), vec![9, 9]);
}

#[test]
fn short_audio_is_padded_to_one_hundred_frames() {
    let windows = extract_whisper_log_mel_windows(&vec![0.0; 160], config()).unwrap();
    assert_eq!(windows.len(), 1);
    assert_eq!(windows[0].start_frame, 0);
    assert_eq!(windows[0].valid_frames, 2);
    assert_eq!(windows[0].padded_frames, 100);
    assert_eq!(windows[0].mel_bins, 128);
    assert_eq!(windows[0].data_mel_major.len(), 12_800);
    let expected_silence = (f32::from_bits(config().mel_floor).log10() + 4.0) / 4.0;
    assert!((windows[0].data_mel_major[0] - expected_silence).abs() < 1e-5);
    assert_eq!(windows[0].data_mel_major[2], 0.0);
}

#[test]
fn window_split_uses_eight_hundred_frames_and_hundred_frame_padding() {
    let mel_bins = 2;
    let frame_count = 851;
    // Frame-major input that carries the value `mel * frame_count + frame`.
    let mut mel = vec![0.0f32; mel_bins * frame_count];
    for frame in 0..frame_count {
        for (mel_index, cell) in mel[frame * mel_bins..(frame + 1) * mel_bins]
            .iter_mut()
            .enumerate()
        {
            *cell = (mel_index * frame_count + frame) as f32;
        }
    }
    let windows = split_feature_windows(&mel, mel_bins, frame_count, 800, 100, 0.0).unwrap();
    assert_eq!(windows.len(), 2);
    assert_eq!((windows[0].start_frame, windows[0].valid_frames), (0, 800));
    assert_eq!(windows[0].padded_frames, 800);
    assert_eq!((windows[1].start_frame, windows[1].valid_frames), (800, 51));
    assert_eq!(windows[1].padded_frames, 100);
    assert_eq!(windows[1].data_mel_major[0], 800.0);
    assert_eq!(windows[1].data_mel_major[50], 850.0);
    assert_eq!(windows[1].data_mel_major[51], 0.0);
    assert_eq!(windows[1].data_mel_major[100], 1651.0);
}

#[test]
fn feature_plan_matches_extracted_window_shapes() {
    let samples = vec![0.0; 128_000];
    let plan = plan_whisper_log_mel_windows(samples.len(), config()).unwrap();
    let windows = extract_whisper_log_mel_windows(&samples, config()).unwrap();

    assert_eq!(plan.len(), windows.len());
    for (planned, actual) in plan.iter().zip(&windows) {
        assert_eq!(planned.start_frame, actual.start_frame);
        assert_eq!(planned.valid_frames, actual.valid_frames);
        assert_eq!(planned.padded_frames, actual.padded_frames);
    }
}

#[test]
fn feature_extraction_is_deterministic_for_non_silent_input() {
    let samples = (0..640)
        .map(|index| ((index as f32 * 0.03125).sin() * 0.5).clamp(-1.0, 1.0))
        .collect::<Vec<_>>();
    let first = extract_whisper_log_mel_windows(&samples, config()).unwrap();
    let second = extract_whisper_log_mel_windows(&samples, config()).unwrap();
    assert_eq!(first[0].valid_frames, 5);
    assert_eq!(first[0].data_mel_major, second[0].data_mel_major);
    assert!(first[0].data_mel_major.iter().all(|value| value.is_finite()));
}

#[test]
fn long_fixture_matches_pinned_llama_cpp_qwen3_asr_features() {
    let samples = (0usize..128_000)
        .map(|index| {
            let raw = ((index * 73 + (index / 97) * 19) % 2001) as i32 - 1000;
            raw as f32 / 1000.0
        })
        .collect::<Vec<_>>();
    let windows = extract_whisper_log_mel_windows(&samples, config()).unwrap();
    assert_eq!(windows.len(), 2);
    assert_eq!(
        (
            windows[0].start_frame,
            windows[0].valid_frames,
            windows[0].padded_frames,
        ),
        (0, 800, 800)
    );
    assert_eq!(
        (
            windows[1].start_frame,
            windows[1].valid_frames,
            windows[1].padded_frames,
        ),
        (800, 1, 100)
    );

    let golden = [
        (0, 0, 0, 0x3f80_ed67),
        (0, 0, 1, 0x3f06_3fac),
        (0, 0, 799, 0x3e9b_d808),
        (0, 17, 0, 0x3f8e_d1f3),
        (0, 57, 724, 0x3948_8000),
        (0, 57, 785, 0xbedd_25b4),
        (0, 64, 399, 0x3f8d_c854),
        (0, 127, 799, 0x3f4f_394c),
        (1, 0, 0, 0x3f20_1800),
        (1, 0, 1, 0x0000_0000),
        (1, 127, 0, 0x3f5c_5380),
        (1, 127, 1, 0x0000_0000),
    ];
    for (window, mel, frame, expected_bits) in golden {
        let actual = windows[window].data_mel_major[mel * windows[window].padded_frames + frame];
        let expected = f32::from_bits(expected_bits);
        assert!(
            (actual - expected).abs() <= 3.0e-5,
            "feature mismatch at window={window}, mel={mel}, frame={frame}: actual={actual}, expected={expected}"
        );
    }
}

#[test]
fn windows_hold_every_frame_once() {
    let windows = plan_feature_windows(851, 300, 100).unwrap();
    let mut next = 0;
    for window in &windows {
        assert_eq!(window.start_frame, next);
        assert!(window.padded_frames >= window.valid_frames);
        assert_eq!(window.padded_frames % 100, 0);
        next += window.valid_frames;
    }
    assert_eq!(next, 851);
    assert!(plan_feature_windows(0, 300, 100).unwrap().is_empty());
    assert_eq!(
        plan_feature_windows(usize::MAX, usize::MAX, usize::MAX - 1).unwrap_err(),
        FeatureError::PaddedOverflow
    );
}

#[test]
fn samples_are_refused_for_the_first_thing_wrong() {
    let mut bad = config();
    bad.hop_length = 0;
    assert_eq!(
        plan_extraction(&[], bad).unwrap_err(),
        FeatureError::Config(AudioConfigError::HopLength)
    );
    assert_eq!(
        plan_whisper_log_mel_windows(5, bad).unwrap_err().message(),
        "audio hop_length must be > 0"
    );
    assert_eq!(plan_extraction(&[], config()).unwrap_err(), FeatureError::EmptyBuffer);
    assert_eq!(
        plan_whisper_log_mel_windows(0, config()).unwrap_err(),
        FeatureError::NoSamples
    );
    for value in [f32::NAN, f32::INFINITY, f32::NEG_INFINITY] {
        let samples = [0.0f32.to_bits(), value.to_bits(), 1.0f32.to_bits()];
        assert_eq!(plan_extraction(&samples, config()).unwrap_err(), FeatureError::NonFinite);
    }
    let mut wide = config();
    wide.mel_bins = usize::MAX;
    assert_eq!(
        plan_extraction(&[0; 200], wide).unwrap_err(),
        FeatureError::LogMelOverflow
    );
    assert_eq!(plan_extraction(&[0; 5], wide).unwrap_err(), FeatureError::FilterOverflow);
    let sizes = plan_extraction(&[0; 320], config()).unwrap();
    assert_eq!(
        (sizes.pad, sizes.frame_count, sizes.element_count, sizes.window_offset),
        (200, 3, 384, 0)
    );
    assert_eq!((sizes.fft_bins, sizes.filter_count), (201, 25_728));
}

#[test]
fn splitting_reports_what_does_not_fit() {
    let values = vec![0u32; 10];
    assert_eq!(
        split_feature_windows(&values, 2, 6, 4, 2, 0).unwrap_err(),
        FeatureError::OutOfBuffer
    );
    assert_eq!(
        split_feature_windows(&values, usize::MAX, 6, 4, 2, 0).unwrap_err(),
        FeatureError::WindowOverflow
    );
}

#[test]
fn filter_spans_cover_the_weights() {
    let one = 1.0f32.to_bits();
    let minus_zero = (-0.0f32).to_bits();
    assert_eq!(
        mel_filter_span(&[0, 0, 0, 0, 0, one, one, 0, 0, minus_zero]),
        MelFilterSpan { group_start: 1, group_end: 2, tail_start: 8, tail_end: 8 }
    );
    assert_eq!(
        mel_filter_span(&[0, 0, 0, one, 0, 0, 0, 0, one, 0]),
        MelFilterSpan { group_start: 0, group_end: 2, tail_start: 8, tail_end: 9 }
    );
    assert_eq!(
        mel_filter_span(&[0, minus_zero, 0]),
        MelFilterSpan { group_start: 0, group_end: 0, tail_start: 0, tail_end: 0 }
    );
}

#[test]
fn transforms_split_into_odd_blocks() {
    let layout = fft_layout(400);
    assert_eq!((layout.leaf_length, layout.levels, layout.leaf_count), (25, 4, 16));
    assert_eq!(
        layout.leaf_offsets,
        vec![0, 8, 4, 12, 2, 10, 6, 14, 1, 9, 5, 13, 3, 11, 7, 15]
    );
    let mut sorted = layout.leaf_offsets.clone();
    sorted.sort();
    assert_eq!(sorted, (0..16).collect::<Vec<_>>());
    let odd = fft_layout(25);
    assert_eq!((odd.leaf_length, odd.levels, odd.leaf_offsets), (25, 0, vec![0]));
    assert_eq!(leaf_table_index(7, 9, 25, 400), 13 * 16);
}
