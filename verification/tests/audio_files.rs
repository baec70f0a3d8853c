use inference_engine::audio::config::{
    validate_config, validate_features, AudioConfigError, AudioDecodeConfig,
    AudioPreprocessConfig, WhisperLogMelConfig,
};
use inference_engine::audio::prepared::PreparedAudioChunk;
use inference_engine::audio::probe::{
    check_file_len, plan_decode, probe_one, validate_decode_config, AudioFileError,
};
use inference_engine::audio::samples::{
    checked_output_sample_count, decode_float_sample, decode_integer_sample, decode_samples,
    greatest_common_divisor, load_audio_chunk_samples, narrow_double, plan_chunks,
    resample_schedule, resampled_length, SampleError,
};
use inference_engine::audio::wave::{
    parse_extensible_sample_format, parse_pcm_format, parse_wave_chunks, read_u16_le, read_u32_le,
    PcmSampleFormat, WaveError, WAVE_FORMAT_EXTENSIBLE, WAVE_FORMAT_IEEE_FLOAT, WAVE_FORMAT_PCM,
};

const SUBFORMAT_GUID_TAIL: [u8; 14] = [
    0x00, 0x00, 0x00, 0x00, 0x10, 0x00, 0x80, 0x00, 0x00, 0xaa, 0x00, 0x38, 0x9b, 0x71,
];

/// Byte offset of the `data` chunk size field in a canonical 44-byte header.
const DATA_SIZE_OFFSET: usize = 40;

fn test_config() -> AudioPreprocessConfig {
    AudioPreprocessConfig {
        decode: AudioDecodeConfig {
            target_sample_rate: 16_000,
            max_output_samples: 64_000,
            chunk_size_samples: 3,
            max_file_bytes: 1_000_000,
            max_channels: 8,
            max_source_sample_rate: 192_000,
        },
        features: WhisperLogMelConfig {
            sample_rate: 16_000,
            fft_length: 400,
            window_length: 400,
            hop_length: 160,
            mel_bins: 128,
            mel_floor: 5.960_464_5e-8f32.to_bits(),
            max_window_frames: 800,
            frame_chunk_size: 100,
        },
    }
}

fn pcm16_wave(sample_rate: u32, channels: u16, interleaved: &[i16]) -> Vec<u8> {
    assert_eq!(interleaved.len() % usize::from(channels), 0);
    let data_len = interleaved.len() * 2;
    let block_align = channels * 2;
    let mut bytes = Vec::new();
    bytes.extend_from_slice(b"RIFF");
    bytes.extend_from_slice(&(36u32 + data_len as u32).to_le_bytes());
    bytes.extend_from_slice(b"WAVEfmt ");
    bytes.extend_from_slice(&16u32.to_le_bytes());
    bytes.extend_from_slice(&1u16.to_le_bytes());
    bytes.extend_from_slice(&channels.to_le_bytes());
    bytes.extend_from_slice(&sample_rate.to_le_bytes());
    bytes.extend_from_slice(&(sample_rate * u32::from(block_align)).to_le_bytes());
    bytes.extend_from_slice(&block_align.to_le_bytes());
    bytes.extend_from_slice(&16u16.to_le_bytes());
    bytes.extend_from_slice(b"data");
    bytes.extend_from_slice(&(data_len as u32).to_le_bytes());
    for sample in interleaved {
        bytes.extend_from_slice(&sample.to_le_bytes());
    }
    bytes
}

/// The header that writers emit for more than two channels or more than 16 bits.
fn extensible_wave(
    sample_rate: u32,
    channels: u16,
    bits_per_sample: u16,
    sub_format: u16,
    guid_tail: [u8; 14],
    payload: &[u8],
) -> Vec<u8> {
    let block_align = channels * (bits_per_sample / 8);
    let mut bytes = Vec::new();
    bytes.extend_from_slice(b"RIFF");
    bytes.extend_from_slice(&(60u32 + payload.len() as u32).to_le_bytes());
    bytes.extend_from_slice(b"WAVEfmt ");
    bytes.extend_from_slice(&40u32.to_le_bytes());
    bytes.extend_from_slice(&WAVE_FORMAT_EXTENSIBLE.to_le_bytes());
    bytes.extend_from_slice(&channels.to_le_bytes());
    bytes.extend_from_slice(&sample_rate.to_le_bytes());
    bytes.extend_from_slice(&(sample_rate * u32::from(block_align)).to_le_bytes());
    bytes.extend_from_slice(&block_align.to_le_bytes());
    bytes.extend_from_slice(&bits_per_sample.to_le_bytes());
    bytes.extend_from_slice(&22u16.to_le_bytes());
    bytes.extend_from_slice(&bits_per_sample.to_le_bytes());
    bytes.extend_from_slice(&3u32.to_le_bytes());
    bytes.extend_from_slice(&sub_format.to_le_bytes());
    bytes.extend_from_slice(&guid_tail);
    bytes.extend_from_slice(b"data");
    bytes.extend_from_slice(&(payload.len() as u32).to_le_bytes());
    bytes.extend_from_slice(payload);
    bytes
}

fn float32_wave(sample_rate: u32, channels: u16, interleaved: &[f32]) -> Vec<u8> {
    let payload = interleaved
        .iter()
        .flat_map(|sample| sample.to_le_bytes())
        .collect::<Vec<_>>();
    let block_align = channels * 4;
    let mut bytes = Vec::new();
    bytes.extend_from_slice(b"RIFF");
    bytes.extend_from_slice(&(36u32 + payload.len() as u32).to_le_bytes());
    bytes.extend_from_slice(b"WAVEfmt ");
    bytes.extend_from_slice(&16u32.to_le_bytes());
    bytes.extend_from_slice(&WAVE_FORMAT_IEEE_FLOAT.to_le_bytes());
    bytes.extend_from_slice(&channels.to_le_bytes());
    bytes.extend_from_slice(&sample_rate.to_le_bytes());
    bytes.extend_from_slice(&(sample_rate * u32::from(block_align)).to_le_bytes());
    bytes.extend_from_slice(&block_align.to_le_bytes());
    bytes.extend_from_slice(&32u16.to_le_bytes());
    bytes.extend_from_slice(b"data");
    bytes.extend_from_slice(&(payload.len() as u32).to_le_bytes());
    bytes.extend_from_slice(&payload);
    bytes
}

/// Decodes a file and takes the mean of its channels.
fn mono(bytes: &[u8], config: AudioDecodeConfig) -> Vec<f32> {
    let plan = plan_decode(bytes, config).unwrap();
    decode_samples(&bytes[plan.data_start..plan.data_end], plan.format)
        .chunks_exact(usize::from(plan.format.channels))
        .map(|frame| {
            let sum: f64 = frame.iter().map(|bits| f64::from(f32::from_bits(*bits))).sum();
            (sum / f64::from(plan.format.channels)) as f32
        })
        .collect()
}

#[derive(Clone, Copy)]
struct Biquad {
    b0: f32,
    b1: f32,
    b2: f32,
    a1: f32,
    a2: f32,
    r1: f32,
    r2: f32,
}

fn biquad(sample_rate: f64, cutoff_frequency: f64, q: f64) -> Biquad {
    let w = 2.0 * std::f64::consts::PI * cutoff_frequency / sample_rate;
    let (sin, cos) = (w.sin(), w.cos());
    let alpha = sin / (2.0 * q);
    let a0 = 1.0 + alpha;
    Biquad {
        b0: (((1.0 - cos) / 2.0) / a0) as f32,
        b1: ((1.0 - cos) / a0) as f32,
        b2: (((1.0 - cos) / 2.0) / a0) as f32,
        a1: ((-2.0 * cos) / a0) as f32,
        a2: ((1.0 - alpha) / a0) as f32,
        r1: 0.0,
        r2: 0.0,
    }
}

fn low_pass(sections: &mut [Biquad; 2], input: f32) -> f32 {
    let mut value = input;
    for s in sections.iter_mut() {
        let output = s.b0 * value + s.r1;
        s.r1 = s.b1 * value - s.a1 * output + s.r2;
        s.r2 = s.b2 * value - s.a2 * output;
        value = output;
    }
    value
}

/// Filters and interpolates along the schedule of the library.
fn resample(input: &[f32], source_rate: u32, target_rate: u32, output_len: usize) -> Vec<f32> {
    if source_rate == target_rate {
        return input.to_vec();
    }
    let divisor = greatest_common_divisor(source_rate, target_rate);
    let (rate_in, rate_out) = (source_rate / divisor, target_rate / divisor);
    let rate = f64::from(rate_in.max(rate_out));
    let cutoff = f64::from(rate_in.min(rate_out)) * 0.5;
    let mut sections = [1.0f64, 3.0].map(|k| {
        let angle = k * std::f64::consts::PI / 8.0;
        biquad(rate, cutoff, 1.0 / (2.0 * angle.cos()))
    });
    let (mut previous, mut next, mut read) = (0.0f32, 0.0f32, 0usize);
    let mut output = Vec::new();
    for step in resample_schedule(input.len(), source_rate, target_rate, output_len) {
        while read < step.inputs_read {
            previous = next;
            next = input[read];
            read += 1;
            if rate_in > rate_out {
                next = low_pass(&mut sections, next);
            }
        }
        let fraction = step.fraction as f32 / rate_out as f32;
        let mut value = previous + (next - previous) * fraction;
        if rate_in <= rate_out {
            value = low_pass(&mut sections, value);
        }
        output.push(value);
    }
    output
}

#[test]
fn integer_pcm_scaling_covers_supported_bit_depths() {
    let decode = |data: &[u8], bits: u16| f32::from_bits(decode_integer_sample(data, 0, bits));
    assert_eq!(decode(&[0], 8), -1.0);
    assert_eq!(decode(&[128], 8), 0.0);
    assert_eq!(decode(&[0x00, 0x80], 16), -1.0);
    assert_eq!(decode(&[0x00, 0x00, 0x80], 24), -1.0);
    assert_eq!(decode(&[0x00, 0x00, 0x00, 0x80], 32), -1.0);
    assert!((decode(&[0xff, 0xff, 0x7f], 24) - 1.0).abs() < 1e-6);
}

#[test]
fn integer_samples_round_as_the_machine_does() {
    for value in [i32::MIN, i32::MIN + 1, -3, -1, 0, 1, 2, 77, 0x00ff_ffff, 0x0100_0001, i32::MAX] {
        let expected = value as f32 / 2_147_483_648.0;
        let bits = decode_integer_sample(&value.to_le_bytes(), 0, 32);
        assert_eq!(f32::from_bits(bits), expected);
    }
    for value in [i16::MIN, -1, 0, 1, 12345, i16::MAX] {
        let bits = decode_integer_sample(&value.to_le_bytes(), 0, 16);
        assert_eq!(f32::from_bits(bits), f32::from(value) / 32_768.0);
    }
    for value in 0..=255u8 {
        let bits = decode_integer_sample(&[value], 0, 8);
        assert_eq!(f32::from_bits(bits), (f32::from(value) - 128.0) / 128.0);
    }
}

#[test]
fn doubles_narrow_as_the_machine_does() {
    let values = [
        0.0f64,
        -0.0,
        1.0,
        -0.75,
        0.1,
        1.0 / 3.0,
        1e-40,
        -1e-46,
        7.0e-46,
        3.4e38,
        3.5e38,
        1e300,
        -1e300,
        f64::INFINITY,
        f64::NEG_INFINITY,
        f64::MIN_POSITIVE,
        1.000_000_059_604_644_775_390_625,
        1.000_000_178_813_934_326_171_875,
        f64::from(f32::MAX),
        f64::from(f32::MIN_POSITIVE),
    ];
    for value in values {
        assert_eq!(narrow_double(value.to_bits()), (value as f32).to_bits(), "{value}");
        let bits = decode_float_sample(&value.to_le_bytes(), 0, 64);
        assert_eq!(bits, (value as f32).to_bits());
    }
    assert!(f32::from_bits(narrow_double(f64::NAN.to_bits())).is_nan());
    assert_eq!(decode_float_sample(&0.3f32.to_le_bytes(), 0, 32), 0.3f32.to_bits());
}

#[test]
fn downsampling_matches_miniaudio_linear_lpf4_reference() {
    let mut input = vec![0.0f32; 18];
    input[0] = 1.0;

    let output = resample(&input, 48_000, 16_000, 6);

    let expected = [
        0.0,
        0.310_407_88,
        0.039_493_32,
        -0.019_835_327,
        0.008_888_276,
        -0.003_842_225,
    ];
    assert_eq!(output.len(), 6);
    for (actual, expected) in output.iter().zip(expected) {
        assert!((actual - expected).abs() < 1e-6, "{actual} != {expected}");
    }
}

#[test]
fn decodes_downmixes_resamples_and_chunks_pcm_wav() {
    let wave = pcm16_wave(8_000, 2, &[16_384, 0, 0, -16_384, 32_767, 32_767]);
    let config = test_config();
    let plan = plan_decode(&wave, config.decode).unwrap();
    let source = mono(&wave, config.decode);
    let samples = resample(
        &source,
        plan.format.sample_rate,
        config.decode.target_sample_rate,
        plan.output_len,
    );
    let chunks = plan_chunks(samples.len(), config.decode.chunk_size_samples);
    assert_eq!(plan.format.sample_rate, 8_000);
    assert_eq!(plan.format.channels, 2);
    assert_eq!(config.decode.target_sample_rate, 16_000);
    assert_eq!(samples.len(), 6);
    assert_eq!(chunks.len(), 2);
    let expected = [
        0.0,
        0.011_747_607,
        0.070_485_644,
        0.158_756_82,
        0.130_208_45,
        -0.030_378_915,
    ];
    for (actual, expected) in samples.iter().zip(expected) {
        assert!((actual - expected).abs() < 1e-6, "{actual} != {expected}");
    }
    assert_eq!(load_audio_chunk_samples(&samples, &chunks, 0).unwrap().len(), 3);
    assert_eq!(load_audio_chunk_samples(&samples, &chunks, 1).unwrap().len(), 3);
    let probed = probe_one("stereo-8k.wav", &wave, config).unwrap();
    assert_eq!(probed.feature_windows.len(), 1);
}

#[test]
fn probe_predicts_resampled_shape_and_feature_windows_before_decode() {
    let wave = pcm16_wave(8_000, 2, &[16_384, 0, 0, -16_384, 32_767, 32_767]);
    let plan = probe_one("stereo-8k.wav", &wave, test_config()).unwrap();
    assert_eq!(plan.path, "stereo-8k.wav");
    assert_eq!(plan.source_sample_rate, 8_000);
    assert_eq!(plan.source_channels, 2);
    assert_eq!(plan.target_sample_rate, 16_000);
    assert_eq!(plan.target_sample_count, 6);
    assert_eq!(plan.feature_windows.len(), 1);
    assert_eq!(plan.feature_windows[0].valid_frames, 1);
    assert_eq!(plan.feature_windows[0].padded_frames, 100);
}

#[test]
fn rejects_unsupported_wav_encoding_with_a_conversion_hint() {
    let mut wave = pcm16_wave(16_000, 1, &[0, 1]);
    wave[20..22].copy_from_slice(&6u16.to_le_bytes());
    let error = plan_decode(&wave, test_config().decode).unwrap_err().message("alaw.wav");
    assert!(error.contains("unsupported WAV encoding 6"), "{error}");
    assert!(error.contains("ffmpeg"), "{error}");
    assert!(error.contains("alaw.wav"), "{error}");
}

#[test]
fn decodes_extensible_integer_pcm_wav() {
    let payload = [0x00u8, 0x40, 0x00, 0xc0];
    let wave =
        extensible_wave(16_000, 1, 16, WAVE_FORMAT_PCM, SUBFORMAT_GUID_TAIL, &payload);
    let plan = plan_decode(&wave, test_config().decode).unwrap();
    assert_eq!(plan.output_len, 2);
    assert_eq!(plan.format.sample_rate, 16_000);
    assert_eq!(mono(&wave, test_config().decode), vec![0.5, -0.5]);
}

#[test]
fn rejects_extensible_wav_with_a_foreign_sub_format_guid() {
    let mut guid_tail = SUBFORMAT_GUID_TAIL;
    guid_tail[13] = 0x00;
    let wave =
        extensible_wave(16_000, 1, 16, WAVE_FORMAT_PCM, guid_tail, &[0x00, 0x40, 0x00, 0xc0]);
    let error = plan_decode(&wave, test_config().decode).unwrap_err().message("foreign-guid.wav");
    assert!(error.contains("sub-format GUID"), "{error}");
}

#[test]
fn decodes_ieee_float_wav_at_its_stored_amplitude() {
    let wave = float32_wave(16_000, 2, &[0.25, 0.75, -1.0, -0.5]);
    let plan = plan_decode(&wave, test_config().decode).unwrap();
    assert_eq!(plan.format.channels, 2);
    assert_eq!(mono(&wave, test_config().decode), vec![0.5, -0.75]);
}

#[test]
fn decodes_streamed_wav_with_unknown_chunk_sizes() {
    let mut wave = pcm16_wave(16_000, 1, &[16_384, -16_384, 0]);
    // A writer that cannot seek back leaves both sizes unknown.
    wave[4..8].copy_from_slice(&u32::MAX.to_le_bytes());
    wave[DATA_SIZE_OFFSET..DATA_SIZE_OFFSET + 4].copy_from_slice(&u32::MAX.to_le_bytes());
    // A partial trailing frame, as an interrupted writer leaves it.
    wave.push(0x11);
    let plan = plan_decode(&wave, test_config().decode).unwrap();
    assert_eq!(plan.output_len, 3);
    assert_eq!(mono(&wave, test_config().decode)[0], 0.5);
}

#[test]
fn rejects_misaligned_data_when_the_declared_size_fits() {
    let mut wave = pcm16_wave(16_000, 2, &[1, 2, 3, 4]);
    wave[DATA_SIZE_OFFSET..DATA_SIZE_OFFSET + 4].copy_from_slice(&6u32.to_le_bytes());
    let error = plan_decode(&wave, test_config().decode).unwrap_err().message("misaligned.wav");
    assert!(error.contains("complete sample frames"), "{error}");
}

#[test]
fn rejects_output_beyond_sample_limit_before_resampling() {
    let wave = pcm16_wave(8_000, 1, &[0; 8]);
    let mut config = test_config();
    config.decode.max_output_samples = 15;
    let error = plan_decode(&wave, config.decode).unwrap_err().message("long.wav");
    assert!(error.contains("exceeds limit 15"));
    assert_eq!(
        error,
        "audio file 'long.wav' is too long after resampling: 16 samples exceeds limit 15"
    );
}

#[test]
fn rejects_mismatched_decode_and_feature_rates() {
    let mut config = test_config();
    config.features.sample_rate = 8_000;
    let error = validate_config(config).unwrap_err().message();
    assert!(error.contains("does not match decode target"));
    assert_eq!(error, "audio feature sample rate 8000 does not match decode target 16000");
}

#[test]
fn each_decode_limit_is_checked() {
    let good = test_config();
    assert!(validate_config(good).is_ok());
    assert!(validate_decode_config(good.decode).is_ok());
    let mut config = good;
    config.decode.target_sample_rate = 0;
    assert_eq!(validate_config(config).unwrap_err(), AudioConfigError::TargetSampleRate);
    let mut config = good;
    config.decode.max_output_samples = 0;
    assert_eq!(validate_config(config).unwrap_err(), AudioConfigError::MaxOutputSamples);
    let mut config = good;
    config.decode.chunk_size_samples = 0;
    assert_eq!(validate_config(config).unwrap_err(), AudioConfigError::ChunkSize);
    let mut config = good;
    config.decode.max_file_bytes = 11;
    assert_eq!(validate_config(config).unwrap_err(), AudioConfigError::MaxFileBytes);
    let mut config = good;
    config.decode.max_channels = 0;
    assert_eq!(validate_config(config).unwrap_err(), AudioConfigError::MaxChannels);
    let mut config = good;
    config.decode.max_source_sample_rate = 0;
    assert_eq!(
        validate_decode_config(config.decode).unwrap_err(),
        AudioFileError::Config(AudioConfigError::MaxSourceSampleRate)
    );
}

#[test]
fn each_feature_limit_is_checked() {
    let good = test_config().features;
    assert!(validate_features(good).is_ok());
    let mut config = good;
    config.sample_rate = 0;
    assert_eq!(validate_features(config).unwrap_err(), AudioConfigError::FeatureSampleRate);
    for length in [0, 1, 401, 4098] {
        let mut config = good;
        config.fft_length = length;
        assert_eq!(validate_features(config).unwrap_err(), AudioConfigError::FftLength);
    }
    let mut config = good;
    config.window_length = 401;
    assert_eq!(validate_features(config).unwrap_err(), AudioConfigError::WindowLength);
    let mut config = good;
    config.hop_length = 0;
    assert_eq!(validate_features(config).unwrap_err(), AudioConfigError::HopLength);
    let mut config = good;
    config.mel_bins = 0;
    assert_eq!(validate_features(config).unwrap_err(), AudioConfigError::MelBins);
    for floor in [0.0f32, -0.0, -1.0, f32::NAN, f32::INFINITY] {
        let mut config = good;
        config.mel_floor = floor.to_bits();
        assert_eq!(validate_features(config).unwrap_err(), AudioConfigError::MelFloor);
    }
    let mut config = good;
    config.max_window_frames = 0;
    assert_eq!(validate_features(config).unwrap_err(), AudioConfigError::MaxWindowFrames);
    let mut config = good;
    config.frame_chunk_size = 0;
    assert_eq!(
        validate_features(config).unwrap_err().message(),
        "audio frame_chunk_size must be > 0"
    );
}

#[test]
fn long_files_are_refused_by_their_length() {
    let config = test_config().decode;
    assert!(check_file_len(1_000_000, config).is_ok());
    assert_eq!(
        check_file_len(1_000_001, config).unwrap_err().message("x.wav"),
        "audio file 'x.wav' is too large: 1000001 bytes exceeds limit 1000000"
    );
}

fn wave_error(bytes: &[u8]) -> WaveError {
    parse_wave_chunks(bytes, test_config().decode).unwrap_err()
}

#[test]
fn wave_headers_are_refused_for_the_first_thing_wrong() {
    let good = pcm16_wave(16_000, 2, &[1, 2, 3, 4]);
    assert_eq!(wave_error(b"RIFFxxxxWAV"), WaveError::Container);
    assert_eq!(wave_error(b"RIFX\0\0\0\0WAVE"), WaveError::Container);
    assert_eq!(wave_error(&good[..12]), WaveError::NoFormat);
    assert_eq!(wave_error(&good[..36]), WaveError::NoData);
    let set16 = |at: usize, value: u16| {
        let mut bytes = good.clone();
        bytes[at..at + 2].copy_from_slice(&value.to_le_bytes());
        bytes
    };
    assert_eq!(wave_error(&set16(22, 0)), WaveError::Channels { got: 0, limit: 8 });
    assert_eq!(wave_error(&set16(22, 9)), WaveError::Channels { got: 9, limit: 8 });
    assert_eq!(wave_error(&set16(34, 12)), WaveError::IntegerDepth(12));
    assert_eq!(wave_error(&set16(32, 3)), WaveError::Alignment { got: 3, limit: 4 });
    let set32 = |at: usize, value: u32| {
        let mut bytes = good.clone();
        bytes[at..at + 4].copy_from_slice(&value.to_le_bytes());
        bytes
    };
    assert_eq!(
        wave_error(&set32(24, 200_000)),
        WaveError::SampleRate { rate: 200_000, rate_limit: 192_000 }
    );
    assert_eq!(
        wave_error(&set32(28, 1)),
        WaveError::ByteRate { rate: 1, rate_limit: 64_000 }
    );
    assert_eq!(wave_error(&set32(DATA_SIZE_OFFSET, 0)), WaveError::Empty);
    let mut float = float32_wave(16_000, 1, &[0.5]);
    float[34..36].copy_from_slice(&16u16.to_le_bytes());
    assert_eq!(wave_error(&float), WaveError::FloatDepth(16));
}

#[test]
fn extensible_formats_are_refused_for_the_first_thing_wrong() {
    let wave = extensible_wave(16_000, 1, 16, 3, SUBFORMAT_GUID_TAIL, &[0, 0]);
    let format = &wave[20..60];
    assert_eq!(parse_extensible_sample_format(format).unwrap(), PcmSampleFormat::Float);
    assert_eq!(
        parse_extensible_sample_format(&format[..39]).unwrap_err(),
        WaveError::ExtensibleLen(39)
    );
    let mut short = format.to_vec();
    short[16] = 21;
    assert_eq!(
        parse_extensible_sample_format(&short).unwrap_err(),
        WaveError::ExtensionSize(21)
    );
    let mut packed = format.to_vec();
    packed[18] = 12;
    assert_eq!(
        parse_extensible_sample_format(&packed).unwrap_err(),
        WaveError::Packing { valid: 12, container: 16 }
    );
    let mut other = format.to_vec();
    other[24] = 7;
    assert_eq!(
        parse_extensible_sample_format(&other).unwrap_err().message(),
        "unsupported WAVE_FORMAT_EXTENSIBLE sub-format 7; expected PCM (1) or IEEE float (3)"
    );
    assert_eq!(
        parse_pcm_format(&format[..15], test_config().decode).unwrap_err(),
        WaveError::FormatLen
    );
}

#[test]
fn fields_beyond_the_end_are_named() {
    assert_eq!(read_u16_le(&[1, 2, 3], 1, "depth").unwrap(), 0x0302);
    assert!(read_u16_le(&[1, 2, 3], 2, "depth").unwrap_err().contains("depth"));
    assert_eq!(read_u32_le(&[1, 2, 3, 4], 0, "rate").unwrap(), 0x0403_0201);
    assert!(read_u32_le(&[1, 2, 3], 0, "rate").unwrap_err().contains("rate"));
    assert!(read_u32_le(&[1, 2, 3], usize::MAX, "rate").is_err());
}

#[test]
fn resampled_lengths_round_to_the_nearest() {
    assert_eq!(resampled_length(3, 8_000, 16_000).unwrap(), 6);
    assert_eq!(resampled_length(4, 48_000, 16_000).unwrap(), 1);
    assert_eq!(resampled_length(5, 48_000, 16_000).unwrap(), 2);
    assert_eq!(resampled_length(0, 48_000, 16_000).unwrap(), 1);
    assert_eq!(resampled_length(usize::MAX, 1, 2).unwrap_err(), SampleError::TooLong);
    assert_eq!(
        checked_output_sample_count(64_001, 16_000, test_config().decode).unwrap_err(),
        SampleError::LimitExceeded { samples: 64_001, limit: 64_000 }
    );
}

#[test]
fn the_schedule_fills_the_planned_length() {
    for (len, source, target) in [(441usize, 44_100u32, 16_000u32), (7, 8_000, 48_000), (100, 3, 2)] {
        let wanted = resampled_length(len, source, target).unwrap();
        let steps = resample_schedule(len, source, target, wanted);
        assert_eq!(steps.len(), wanted);
        assert_eq!(steps[0].inputs_read, 1);
        assert!(steps.iter().all(|step| step.inputs_read <= len));
    }
    assert_eq!(greatest_common_divisor(44_100, 16_000), 100);
    assert_eq!(greatest_common_divisor(0, 5), 5);
}

#[test]
fn chunks_cover_the_samples() {
    let samples: Vec<u32> = (0..10).collect();
    let chunks = plan_chunks(samples.len(), 4);
    let mut joined = Vec::new();
    for index in 0..chunks.len() {
        joined.extend(load_audio_chunk_samples(&samples, &chunks, index).unwrap());
    }
    assert_eq!(joined, samples);
    assert_eq!(
        load_audio_chunk_samples(&samples, &chunks, 3).unwrap_err().message("x"),
        "audio chunk index out of range: 3"
    );
    let outside = [
        PreparedAudioChunk { start_sample: 8, sample_count: 3 },
        PreparedAudioChunk { start_sample: usize::MAX, sample_count: 1 },
    ];
    assert_eq!(
        load_audio_chunk_samples(&samples, &outside, 0).unwrap_err(),
        SampleError::ChunkBounds { end: 11, total: 10 }
    );
    assert_eq!(
        load_audio_chunk_samples(&samples, &outside, 1).unwrap_err(),
        SampleError::ChunkOverflow
    );
}
