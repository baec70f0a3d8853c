use inference_engine::audio::prepared::PreparedAudioFeatureWindowPlan;
use inference_engine::gguf::{Gguftensor, QuantizedTensor, TensorDirectory};
use inference_engine::speaker::encoder::{
    check_feature_window, load_float_tensor, matrix_shape, quantized_tensor, tdnn_context,
    tdnn_output_len, tensor_element_count, EmbeddingError, SpeakerEncoder, SpeakerError, SpeakerTensorProblem,
};
use inference_engine::speaker::policy::{
    check_same_dimension, model_fingerprint, seconds_to_frames, seconds_to_samples,
    speaker_decode_config, usable_windows, validate_policy, validate_quality, PolicyError,
    QualityProblem, SpeakerAudioQuality, SpeakerModelPolicy, SpeakerSegmentLayerPolicy,
    SpeakerTdnnLayerPolicy, SpeakerThresholdPolicy, Threshold,
};
use inference_engine::tensors::Loaded;

fn policy() -> SpeakerModelPolicy {
    SpeakerModelPolicy {
        architecture: "speaker_xvector".to_string(),
        model_name: "synthetic".to_string(),
        sample_rate: 16_000,
        fft_length: 400,
        window_length: 400,
        hop_length: 160,
        mel_bins: 2,
        mel_floor: 1e-8f32.to_bits(),
        max_window_frames: 100,
        min_audio_seconds: 0.01f32.to_bits(),
        max_audio_seconds: 10.0f32.to_bits(),
        tdnn_layers: vec![SpeakerTdnnLayerPolicy {
            weight_name: "speaker.tdnn.0.weight".to_string(),
            bias_name: "speaker.tdnn.0.bias".to_string(),
            contexts: vec![0],
        }],
        segment_layers: vec![SpeakerSegmentLayerPolicy {
            weight_name: "speaker.segment.0.weight".to_string(),
            bias_name: "speaker.segment.0.bias".to_string(),
            apply_relu: false,
        }],
        thresholds: SpeakerThresholdPolicy {
            verification: 0.6f32.to_bits(),
            identification_margin: 0.05f32.to_bits(),
            enrollment: 0.4f32.to_bits(),
            auto_learning: 0.8f32.to_bits(),
            diarization_cluster: 0.5f32.to_bits(),
        },
    }
}

fn synthetic_bytes() -> Vec<u8> {
    let tensors_data = [
        1.0f32, 0.0, 0.0, 1.0, // TDNN identity weight.
        0.0, 0.0, // TDNN bias.
        1.0, 0.0, 0.0, 0.0, // Segment row 0 selects mean channel 0.
        0.0, 0.0, 1.0, 0.0, // Segment row 1 selects std channel 0.
        0.0, 0.0, // Segment bias.
    ];
    tensors_data.iter().flat_map(|value| value.to_le_bytes()).collect()
}

fn synthetic_directory() -> TensorDirectory {
    let specifications = [
        ("speaker.tdnn.0.weight", 2, [2, 2, 1, 1], 0),
        ("speaker.tdnn.0.bias", 1, [2, 1, 1, 1], 16),
        ("speaker.segment.0.weight", 2, [4, 2, 1, 1], 24),
        ("speaker.segment.0.bias", 1, [2, 1, 1, 1], 56),
    ];
    let tensors = specifications
        .iter()
        .map(|(name, n_dims, ne, offset)| Gguftensor {
            name: (*name).to_string(),
            n_dims: *n_dims,
            ne: *ne,
            ttype: 0,
            data_offset: *offset,
            block_size: 1,
            type_size: 4,
        })
        .collect::<Vec<_>>();
    TensorDirectory { tensors, mapped_len: synthetic_bytes().len() }
}

fn floats(bytes: &[u8], start: usize, count: usize) -> Vec<f32> {
    bytes[start..start + 4 * count]
        .chunks_exact(4)
        .map(|b| f32::from_le_bytes([b[0], b[1], b[2], b[3]]))
        .collect()
}

fn bias(loaded: Loaded, bytes: &[u8]) -> Vec<f32> {
    match loaded {
        Loaded::Floats { data_offset, elements, .. } => floats(bytes, data_offset, elements),
        _ => unreachable!(),
    }
}

fn product(weight: &QuantizedTensor, x: &[f32], bytes: &[u8]) -> Vec<f32> {
    floats(bytes, weight.data_offset, weight.rows * weight.cols)
        .chunks_exact(weight.cols)
        .map(|row| row.iter().zip(x).map(|(a, b)| a * b).sum())
        .collect()
}

/// Embeds one window of features with the layers of an encoder.
fn embed(encoder: &SpeakerEncoder, mel_major: &[f32], frames: usize, padded: usize) -> Vec<f32> {
    let bytes = synthetic_bytes();
    let bins = encoder.policy.mel_bins;
    let elements = check_feature_window(mel_major.len(), bins, frames, padded).unwrap();
    let mut activations = vec![0.0f32; elements];
    for mel in 0..bins {
        let source = &mel_major[mel * padded..mel * padded + frames];
        let mean = source.iter().sum::<f32>() / frames as f32;
        for frame in 0..frames {
            activations[frame * bins + mel] = source[frame] - mean;
        }
    }
    let mut channels = bins;
    for (layer, stage) in encoder.tdnn_layers.iter().zip(&encoder.policy.tdnn_layers) {
        let context = tdnn_context(&activations, frames, channels, &stage.contexts).unwrap();
        let shift = bias(layer.bias, &bytes);
        activations = context
            .chunks_exact(channels * stage.contexts.len())
            .flat_map(|row| product(&layer.weight, row, &bytes))
            .collect();
        channels = layer.weight.rows;
        for row in activations.chunks_mut(channels) {
            for (value, term) in row.iter_mut().zip(&shift) {
                *value = (*value + *term).max(0.0);
            }
        }
    }
    let mut vector = vec![0.0f32; channels * 2];
    for channel in 0..channels {
        let column: Vec<f32> =
            activations.chunks_exact(channels).map(|row| row[channel]).collect();
        let mean = column.iter().sum::<f32>() / frames as f32;
        let variance =
            column.iter().map(|value| (value - mean) * (value - mean)).sum::<f32>() / frames as f32;
        vector[channel] = mean;
        vector[channels + channel] = (variance + 1e-7).sqrt();
    }
    for layer in &encoder.segment_layers {
        let shift = bias(layer.bias, &bytes);
        vector = product(&layer.weight, &vector, &bytes);
        vector.iter_mut().zip(shift).for_each(|(value, term)| *value += term);
    }
    let norm = vector.iter().map(|value| value * value).sum::<f32>().sqrt();
    vector.iter().map(|value| value / norm).collect()
}

/// The cosine of unit vectors, within its range.
fn cosine_similarity(left: &[f32], right: &[f32]) -> Result<f32, String> {
    check_same_dimension(left.len(), right.len())?;
    let score = left.iter().zip(right).map(|(a, b)| a * b).sum::<f32>();
    Ok(score.clamp(-1.0, 1.0))
}

#[test]
fn cosine_similarity_handles_normalized_vectors() {
    assert!((cosine_similarity(&[1.0, 0.0], &[1.0, 0.0]).unwrap() - 1.0).abs() < 1e-6);
    assert!((cosine_similarity(&[1.0, 0.0], &[0.0, 1.0]).unwrap()).abs() < 1e-6);
    assert!(cosine_similarity(&[1.0], &[1.0, 0.0]).is_err());
}

#[test]
fn fingerprint_is_stable_and_content_sensitive() {
    assert_eq!(model_fingerprint(b"speaker"), model_fingerprint(b"speaker"));
    assert_ne!(model_fingerprint(b"speaker"), model_fingerprint(b"speakeq"));
}

#[test]
fn fingerprints_are_known_hashes() {
    assert_eq!(model_fingerprint(b""), "fnv1a64:cbf29ce484222325:0");
    assert_eq!(model_fingerprint(b"a"), "fnv1a64:af63dc4c8601ec8c:1");
    assert_eq!(model_fingerprint(b"foobar"), "fnv1a64:85944171f73967e8:6");
}

fn quality(duration: f32, rms: f32, clipping: f32, active: f32) -> SpeakerAudioQuality {
    SpeakerAudioQuality {
        duration_seconds: duration.to_bits(),
        rms: rms.to_bits(),
        clipping_fraction: clipping.to_bits(),
        active_fraction: active.to_bits(),
        score: 1.0f32.to_bits(),
    }
}

#[test]
fn quality_rejects_short_and_silent_audio() {
    let one = 1.0f32.to_bits();
    let short = quality(0.2, 0.1, 0.0, 1.0);
    assert_eq!(validate_quality(&short, one), Some(QualityProblem::TooShort));
    let silent = quality(2.0, 0.0, 0.0, 0.0);
    assert_eq!(validate_quality(&silent, one), Some(QualityProblem::Silent));
}

#[test]
fn quality_rejects_clipped_and_inactive_audio() {
    let one = 1.0f32.to_bits();
    assert_eq!(validate_quality(&quality(1.0, 0.1, 0.2, 0.1), one), None);
    assert_eq!(
        validate_quality(&quality(1.0, 0.1, 0.21, 1.0), one),
        Some(QualityProblem::Clipped)
    );
    assert_eq!(
        validate_quality(&quality(1.0, 0.1, 0.0, 0.099), one),
        Some(QualityProblem::Inactive)
    );
}

#[test]
fn synthetic_xvector_runs_tdnn_stats_pooling_and_projection() {
    let encoder =
        SpeakerEncoder::new(&synthetic_directory(), &synthetic_bytes(), policy()).unwrap();
    let embedding = embed(&encoder, &[1.0, 3.0, 2.0, 2.0], 2, 2);
    assert_eq!(embedding.len(), 2);
    assert!((embedding[0] - std::f32::consts::FRAC_1_SQRT_2).abs() < 1e-5);
    assert!((embedding[1] - std::f32::consts::FRAC_1_SQRT_2).abs() < 1e-5);
    assert_eq!(encoder.embedding_dim(), 2);
    assert_eq!(encoder.model_name(), "synthetic");
    assert_eq!(encoder.architecture(), "speaker_xvector");
    assert_eq!(encoder.fingerprint(), model_fingerprint(&synthetic_bytes()));
    assert_eq!(encoder.min_audio_seconds(), 0.01f32.to_bits());
    assert_eq!(encoder.thresholds().verification, 0.6f32.to_bits());
}

#[test]
fn dimensions_must_match_and_be_positive() {
    assert!(check_same_dimension(2, 2).is_ok());
    assert_eq!(
        check_same_dimension(1, 2).unwrap_err(),
        "speaker embedding dimension mismatch: left=1, right=2"
    );
    assert!(check_same_dimension(0, 0).is_err());
}

#[test]
fn durations_become_samples_rounded_up() {
    for seconds in [0.01f32, 0.1, 0.3, 1.0, 1.5, 2.9999, 1e-3, 1e4, 16_777_217.0] {
        for rate in [1u32, 3, 8_000, 16_000, 44_100, 384_000] {
            let samples = f64::from(seconds) * f64::from(rate);
            let expected = if samples < 1.0 { None } else { Some(samples.ceil() as usize) };
            assert_eq!(seconds_to_samples(seconds.to_bits(), rate), expected);
        }
    }
    assert_eq!(seconds_to_samples(f32::MAX.to_bits(), 16_000), None);
    assert_eq!(seconds_to_samples(f32::INFINITY.to_bits(), 16_000), None);
    assert_eq!(seconds_to_frames(0.01f32.to_bits(), 16_000, 160), Some(1));
    assert_eq!(seconds_to_frames(0.0101f32.to_bits(), 16_000, 160), Some(2));
}

fn policy_error(change: fn(&mut SpeakerModelPolicy)) -> PolicyError {
    let mut changed = policy();
    change(&mut changed);
    validate_policy(&changed).unwrap_err()
}

#[test]
fn policies_are_refused_for_the_first_thing_wrong() {
    assert!(validate_policy(&policy()).is_ok());
    assert_eq!(policy_error(|p| p.mel_bins = 1_025), PolicyError::FeatureDimensions);
    assert_eq!(policy_error(|p| p.fft_length = 399), PolicyError::FftWindow);
    assert_eq!(policy_error(|p| p.mel_floor = 0), PolicyError::MelFloor);
    assert_eq!(
        policy_error(|p| p.max_audio_seconds = 0.001f32.to_bits()),
        PolicyError::Durations
    );
    assert_eq!(
        policy_error(|p| p.max_window_frames = usize::MAX),
        PolicyError::WindowOverflow
    );
    assert_eq!(
        policy_error(|p| p.max_window_frames = 40_000_000),
        PolicyError::WindowElements(80_000_000)
    );
    assert_eq!(
        policy_error(|p| p.min_audio_seconds = 1e-6f32.to_bits()),
        PolicyError::MinimumDuration
    );
    assert_eq!(
        policy_error(|p| p.min_audio_seconds = 2.0f32.to_bits()),
        PolicyError::MinimumFrames { frames: 200, window: 100 }
    );
    assert_eq!(policy_error(|p| p.segment_layers.clear()), PolicyError::NoLayers);
    assert_eq!(
        policy_error(|p| p.tdnn_layers[0].contexts.clear()),
        PolicyError::EmptyContexts
    );
    assert_eq!(
        policy_error(|p| p.thresholds.enrollment = 1.01f32.to_bits()),
        PolicyError::OutOfRange(Threshold::Enrollment)
    );
    assert_eq!(
        policy_error(|p| p.thresholds.identification_margin = (-0.1f32).to_bits()),
        PolicyError::Margin
    );
    assert_eq!(
        policy_error(|p| p.thresholds.auto_learning = 0.5f32.to_bits()).message(),
        "speaker model auto-learning threshold must be at least the verification threshold"
    );
}

#[test]
fn decoding_limits_come_from_the_policy() {
    let config = speaker_decode_config(&policy()).unwrap();
    assert_eq!(config.target_sample_rate, 16_000);
    assert_eq!(config.max_output_samples, 160_000);
    assert_eq!(config.max_channels, 64);
    let window = |valid_frames: usize| PreparedAudioFeatureWindowPlan {
        start_frame: 0,
        valid_frames,
        padded_frames: 100,
    };
    assert_eq!(usable_windows(&[window(5), window(2), window(9)], 5), vec![0, 2]);
}

#[test]
fn speaker_tensors_must_fit_together() {
    let bytes = synthetic_bytes();
    let refused = |change: fn(&mut TensorDirectory)| {
        let mut directory = synthetic_directory();
        change(&mut directory);
        SpeakerEncoder::new(&directory, &synthetic_bytes(), policy()).unwrap_err()
    };
    assert!(matches!(
        refused(|d| {
            d.tensors.remove(1);
        }),
        SpeakerError::Tensor { name, problem: SpeakerTensorProblem::NotFound }
            if name == "speaker.tdnn.0.bias"
    ));
    assert!(matches!(
        refused(|d| d.tensors[0].n_dims = 3),
        SpeakerError::Tensor { problem: SpeakerTensorProblem::Rank(3), .. }
    ));
    assert!(matches!(
        refused(|d| d.tensors[0].ne[0] = 3),
        SpeakerError::TdnnInput { index: 0, cols: 3, wanted: 2, .. }
    ));
    assert!(matches!(
        refused(|d| d.tensors[2].ne[0] = 5),
        SpeakerError::SegmentInput { index: 0, cols: 5, wanted: 4, .. }
    ));
    assert!(matches!(
        refused(|d| d.tensors[1].ne[0] = 3),
        SpeakerError::Tensor {
            problem: SpeakerTensorProblem::ElementCount { got: 3, wanted: 2 },
            ..
        }
    ));
    assert!(matches!(
        refused(|d| d.tensors[1].type_size = 0),
        SpeakerError::Tensor { problem: SpeakerTensorProblem::Type(0), .. }
    ));
    assert!(matches!(
        refused(|d| d.tensors[3].data_offset = 57),
        SpeakerError::Tensor { problem: SpeakerTensorProblem::OutOfBounds, .. }
    ));
    let directory = synthetic_directory();
    assert_eq!(matrix_shape(&directory.tensors[2], "t").unwrap(), (2, 4));
    assert_eq!(quantized_tensor(&directory.tensors[2], 2, 4).data_offset, 24);
    assert_eq!(tensor_element_count(&directory.tensors[2]), Some(8));
    assert!(matches!(
        load_float_tensor(&directory, &"speaker.segment.0.bias".to_string(), None).unwrap(),
        Loaded::Floats { data_offset: 56, byte_len: 8, .. }
    ));
    assert_eq!(bytes.len(), 64);
}

#[test]
fn frames_are_taken_with_their_context() {
    let frames = vec![1u32, 2, 3, 4, 5, 6];
    assert_eq!(
        tdnn_context(&frames, 3, 2, &vec![-1, 0, 2]).unwrap(),
        vec![1, 2, 1, 2, 5, 6, 1, 2, 3, 4, 5, 6, 3, 4, 5, 6, 5, 6]
    );
    assert_eq!(check_feature_window(8, 2, 3, 4).unwrap(), 6);
    assert_eq!(check_feature_window(7, 2, 3, 4).unwrap_err(), EmbeddingError::WindowShape);
    assert_eq!(
        check_feature_window(7, usize::MAX, 3, 4).unwrap_err(),
        EmbeddingError::WindowOverflow
    );
}

#[test]
fn a_frame_alone_is_its_own_context() {
    let frames = vec![1u32, 2, 3, 4, 5, 6];
    assert_eq!(tdnn_context(&frames, 2, 3, &vec![0]).unwrap(), frames);
}

#[test]
fn layer_outputs_have_a_length_that_can_be_counted() {
    assert_eq!(tdnn_output_len(3, 512).unwrap(), 1536);
    assert_eq!(tdnn_output_len(0, 512).unwrap(), 0);
    assert_eq!(tdnn_output_len(usize::MAX / 2 + 1, 2).unwrap_err(), EmbeddingError::OutputOverflow);
    assert_eq!(
        EmbeddingError::OutputOverflow.message(),
        "speaker TDNN output-buffer shape overflow"
    );
}
