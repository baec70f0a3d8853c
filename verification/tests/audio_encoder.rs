use inference_engine::audio::prepared::{
    PreparedAudioFeatureWindow, PreparedAudioFeatureWindowPlan,
};
use inference_engine::bits::{
    bf16_to_fp32, f32_to_f16_bits, fp16_to_fp32, round_to_bf16, round_to_f16,
};
use inference_engine::gguf::{Gguftensor, QuantizedTensor, TensorDirectory};
use inference_engine::multimodal::encoders::{
    build_audio_encoder_from_mmproj, AudioEncoderBackend,
};
use inference_engine::multimodal::expansion::MediaEmbeddingSequence;
use inference_engine::multimodal::qwen3_asr::{
    audio_key_values, conv_output_size, parse_metadata, positive_metadata_usize,
    quantized_matrix, AsrError, AudioKeys, AudioMetadata, Qwen3AsrAudioConfig,
    Qwen3AsrAudioEncoder, GGML_TYPE_BF16, GGML_TYPE_F16, GGML_TYPE_F32, TENSORS_PER_LAYER,
};
use inference_engine::multimodal::qwen3_asr_graph::{
    check_chunk_tokens, check_post_norm, checked_feature_map_len, conv_output_tokens,
    convolution_activations, convolution_patches, feature_map_from_window, first_non_finite,
    flatten_conv_features, heads_to_tokens, narrow_activations, plan_chunk_positions,
    plan_convolution, plan_projection, plan_projector, plan_transformer, split_rows,
    tensor_element_count, weight_range, AudioEncoderFrontendOutput, ConvFeatureMap,
    ConvolutionShape, GraphError, ProjectorShape,
};
use inference_engine::tensors::{Loaded, Shape};
use rayon::prelude::{IndexedParallelIterator, ParallelIterator, ParallelSliceMut};

/// Reading and multiplying stored weights.
trait TensorKernels: Sync {
    /// Elements per storage block, zero for a type that is not supported.
    fn block_size(&self, ttype: i32) -> usize;

    /// Bytes per storage block, zero for a type that is not supported.
    fn type_size(&self, ttype: i32) -> usize;

    fn dequantize(&self, bytes: &[u8], count: usize, ttype: i32) -> Result<Vec<f32>, String>;

    /// `out = weight * x` for the rows that `out` has room for.
    fn matmul(
        &self,
        out: &mut [f32],
        x: &[f32],
        weight: &QuantizedTensor,
        mapped: &[u8],
    ) -> Result<(), String> {
        let block = self.block_size(weight.ttype).max(1);
        let row_bytes = weight.cols / block * self.type_size(weight.ttype);
        for (row, value) in out.iter_mut().enumerate() {
            let start = weight.data_offset + row * row_bytes;
            let bytes = mapped
                .get(start..start + row_bytes)
                .ok_or_else(|| "matrix row exceeds the mapped file".to_string())?;
            *value = dot(&self.dequantize(bytes, weight.cols, weight.ttype)?, x);
        }
        Ok(())
    }
}

/// The types that are stored as plain values.
#[derive(Clone, Copy, Debug, Default)]
struct FloatKernels;

impl TensorKernels for FloatKernels {
    fn block_size(&self, ttype: i32) -> usize {
        usize::from(self.type_size(ttype) > 0)
    }

    fn type_size(&self, ttype: i32) -> usize {
        match ttype {
            GGML_TYPE_F32 => 4,
            GGML_TYPE_F16 | GGML_TYPE_BF16 => 2,
            _ => 0,
        }
    }

    fn dequantize(&self, bytes: &[u8], count: usize, ttype: i32) -> Result<Vec<f32>, String> {
        let pairs = || bytes.chunks_exact(2).map(|pair| u16::from_le_bytes([pair[0], pair[1]]));
        let values: Vec<f32> = match ttype {
            GGML_TYPE_F32 => bytes
                .chunks_exact(4)
                .map(|b| f32::from_le_bytes([b[0], b[1], b[2], b[3]]))
                .collect(),
            GGML_TYPE_F16 => pairs().map(|half| f32::from_bits(fp16_to_fp32(half))).collect(),
            GGML_TYPE_BF16 => pairs().map(|half| f32::from_bits(bf16_to_fp32(half))).collect(),
            _ => return Err(format!("unsupported GGML type {ttype}")),
        };
        if values.len() == count {
            Ok(values)
        } else {
            Err(format!("expected {count} values, got {}", values.len()))
        }
    }
}

fn dot(x: &[f32], y: &[f32]) -> f32 {
    x.iter().zip(y).map(|(a, b)| a * b).sum()
}

fn axpy_inplace(destination: &mut [f32], factor: f32, source: &[f32]) {
    for (value, term) in destination.iter_mut().zip(source) {
        *value += factor * *term;
    }
}

fn scale_slice_inplace(values: &mut [f32], factor: f32) {
    for value in values {
        *value *= factor;
    }
}

fn layer_norm_affine(dst: &mut [f32], src: &[f32], w: &[f32], b: &[f32], eps: f32) {
    let mean = src.iter().sum::<f32>() / src.len() as f32;
    let variance =
        src.iter().map(|value| (value - mean) * (value - mean)).sum::<f32>() / src.len() as f32;
    let scale = 1.0 / (variance + eps).sqrt();
    for i in 0..src.len() {
        dst[i] = ((src[i] - mean) * scale) * w[i] + b[i];
    }
}

fn add_bias(values: &mut [f32], bias: &[f32]) {
    axpy_inplace(values, 1.0, bias);
}

/// The error function, by its power series.
fn erf(x: f64) -> f64 {
    if x.abs() > 5.0 {
        return x.signum();
    }
    let mut term = x;
    let mut sum = x;
    for n in 1..200 {
        term *= -x * x / f64::from(n);
        sum += term / f64::from(2 * n + 1);
    }
    sum * 2.0 / std::f64::consts::PI.sqrt()
}

fn gelu_erf(value: f32) -> f32 {
    let scaled = value * std::f32::consts::FRAC_1_SQRT_2;
    0.5 * value * (1.0 + erf(f64::from(scaled)) as f32)
}

struct Conv2dLayerWeights {
    kernel: Vec<f32>,
    bias: Vec<f32>,
    input_channels: usize,
    output_channels: usize,
    kernel_type: i32,
}

/// A matrix and the bias that is added to its products.
struct Affine {
    weight: QuantizedTensor,
    bias: Vec<f32>,
}

struct LayerNorm {
    weight: Vec<f32>,
    bias: Vec<f32>,
}

struct AudioTransformerLayer {
    ln1: LayerNorm,
    ln2: LayerNorm,
    query: Affine,
    key: Affine,
    value: Affine,
    output: Affine,
    feed_forward_up: Affine,
    feed_forward_down: Affine,
}

/// The weights of the whole encoder.
struct AudioWeights {
    convolutions: Vec<Conv2dLayerWeights>,
    output_projection: QuantizedTensor,
    position_embeddings: Vec<f32>,
    layers: Vec<AudioTransformerLayer>,
    post_norm: LayerNorm,
    projector_up: Affine,
    projector_down: Affine,
}

fn bits(values: &[f32]) -> Vec<u32> {
    values.iter().map(|value| value.to_bits()).collect()
}

fn floats(patterns: Vec<u32>) -> Vec<f32> {
    patterns.into_iter().map(f32::from_bits).collect()
}

fn matmul_with_ggml_activation_type<K: TensorKernels>(
    kernels: &K,
    output: &mut [f32],
    input: &[f32],
    weight: &QuantizedTensor,
    mapped: &[u8],
) -> Result<(), String> {
    let narrowed = floats(narrow_activations(&bits(input), weight.ttype));
    kernels.matmul(output, &narrowed, weight, mapped)
}

/// Reads a stored tensor; an absent one is all zeros.
fn values<K: TensorKernels>(
    kernels: &K,
    name: &str,
    tensor: Loaded,
    absent_len: usize,
    mapped: &[u8],
) -> Result<Vec<f32>, String> {
    match tensor {
        Loaded::Weight { data_offset, ttype, shape } => {
            let (count, end) = weight_range(
                name,
                shape,
                data_offset,
                kernels.block_size(ttype),
                kernels.type_size(ttype),
                mapped.len(),
            )?;
            kernels.dequantize(&mapped[data_offset..end], count, ttype)
        }
        _ => Ok(vec![0.0; absent_len]),
    }
}

fn load_audio_weights<K: TensorKernels>(
    kernels: &K,
    encoder: &Qwen3AsrAudioEncoder,
    mapped: &[u8],
) -> Result<AudioWeights, String> {
    let config = encoder.config;
    let dim = config.embedding_dim;
    let ff_dim = config.feed_forward_dim;
    let channels = config.convolution_channel_count;
    let tensors = &encoder.tensors;
    let read = |index: usize, name: &str, len: usize| {
        values(kernels, name, tensors[index], len, mapped)
    };
    let affine = |index: usize, name: &str, rows: usize, cols: usize| -> Result<Affine, String> {
        Ok(Affine {
            weight: quantized_matrix(name, tensors[index], rows, cols)?,
            bias: read(index + 1, name, rows)?,
        })
    };
    let norm = |index: usize, name: &str| -> Result<LayerNorm, String> {
        Ok(LayerNorm { weight: read(index, name, dim)?, bias: read(index + 1, name, dim)? })
    };
    let mut convolutions = Vec::new();
    for layer in 0..3 {
        let name = format!("a.conv2d.{}.weight", layer + 1);
        convolutions.push(Conv2dLayerWeights {
            kernel: read(1 + layer, &name, 0)?,
            bias: read(4 + layer, &name, channels)?,
            input_channels: if layer == 0 { 1 } else { channels },
            output_channels: channels,
            kernel_type: match tensors[1 + layer] {
                Loaded::Weight { ttype, .. } => ttype,
                _ => 0,
            },
        });
    }
    let flattened_dim = match tensors[7] {
        Loaded::Weight { shape, .. } => shape.d0,
        _ => 0,
    };
    let mut layers = Vec::new();
    for layer in 0..config.layer_count {
        let at = 8 + layer * TENSORS_PER_LAYER;
        let name = |part: &str| format!("a.blk.{layer}.{part}.weight");
        layers.push(AudioTransformerLayer {
            ln1: norm(at, &name("ln1"))?,
            ln2: norm(at + 2, &name("ln2"))?,
            query: affine(at + 4, &name("attn_q"), dim, dim)?,
            key: affine(at + 6, &name("attn_k"), dim, dim)?,
            value: affine(at + 8, &name("attn_v"), dim, dim)?,
            output: affine(at + 10, &name("attn_out"), dim, dim)?,
            feed_forward_up: affine(at + 12, &name("ffn_up"), ff_dim, dim)?,
            feed_forward_down: affine(at + 14, &name("ffn_down"), dim, ff_dim)?,
        });
    }
    let last = 8 + config.layer_count * TENSORS_PER_LAYER;
    let hidden = config.projector_hidden_dim;
    Ok(AudioWeights {
        convolutions,
        output_projection: quantized_matrix("a.conv_out.weight", tensors[7], dim, flattened_dim)?,
        position_embeddings: read(0, "a.position_embd.weight", 0)?,
        layers,
        post_norm: norm(last, "a.post_ln.weight")?,
        projector_up: affine(last + 2, "mm.a.mlp.1.weight", hidden, dim)?,
        projector_down: affine(last + 4, "mm.a.mlp.2.weight", config.projection_dim, hidden)?,
    })
}

fn conv2d_stride2_gelu_erf(
    input: &ConvFeatureMap<f32>,
    weights: &Conv2dLayerWeights,
) -> Result<ConvFeatureMap<f32>, String> {
    let shape = ConvolutionShape {
        input_channels: weights.input_channels,
        output_channels: weights.output_channels,
        kernel_len: weights.kernel.len(),
        bias_len: weights.bias.len(),
    };
    let plan = plan_convolution(input, shape).map_err(|error| error.message())?;
    let rounded = ConvFeatureMap {
        batch_count: input.batch_count,
        width: input.width,
        height: input.height,
        channels: input.channels,
        data: floats(convolution_activations(&bits(&input.data), weights.kernel_type)),
    };
    let patches = convolution_patches(&rounded, plan, 0.0f32)
        .ok_or_else(|| "qwen3_asr convolution patch size overflow".to_string())?;
    let mut output = vec![0.0f32; plan.output_len];
    output.par_chunks_mut(weights.output_channels).enumerate().for_each(|(index, row)| {
        let patch = &patches[index * plan.kernel_elements..(index + 1) * plan.kernel_elements];
        for ((value, kernel), bias) in row
            .iter_mut()
            .zip(weights.kernel.chunks_exact(plan.kernel_elements))
            .zip(&weights.bias)
        {
            *value = gelu_erf(dot(patch, kernel) + bias);
        }
    });
    Ok(ConvFeatureMap {
        batch_count: input.batch_count,
        width: plan.output_width,
        height: plan.output_height,
        channels: weights.output_channels,
        data: output,
    })
}

fn project_conv_features<K: TensorKernels>(
    kernels: &K,
    features: &ConvFeatureMap<f32>,
    projection: &QuantizedTensor,
    mapped: &[u8],
) -> Result<AudioEncoderFrontendOutput<f32>, String> {
    let (flattened, token_count, output_len) =
        plan_projection(features, *projection).map_err(|error| error.message())?;
    let mut data_token_major = vec![0.0f32; output_len];
    for (output, input) in data_token_major
        .chunks_exact_mut(projection.rows)
        .zip(flattened.chunks_exact(projection.cols))
    {
        matmul_with_ggml_activation_type(kernels, output, input, projection, mapped)?;
    }
    Ok(AudioEncoderFrontendOutput {
        token_count,
        embedding_dim: projection.rows,
        data_token_major,
    })
}

fn add_chunk_position_embeddings(
    output: &mut AudioEncoderFrontendOutput<f32>,
    position_embeddings: &Vec<f32>,
    position_count: usize,
) -> Result<(), String> {
    let rows = plan_chunk_positions(output, position_embeddings, position_count)
        .map_err(|error| error.message())?;
    let dim = output.embedding_dim;
    for (token, row) in output.data_token_major.chunks_exact_mut(dim).zip(rows) {
        axpy_inplace(token, 1.0, &position_embeddings[row * dim..(row + 1) * dim]);
    }
    Ok(())
}

fn affine_rows<K: TensorKernels>(
    kernels: &K,
    affine: &Affine,
    input: &[f32],
    mapped: &[u8],
) -> Result<Vec<f32>, String> {
    let (rows, cols) = (affine.weight.rows, affine.weight.cols);
    let mut output = vec![0.0f32; input.len() / cols * rows];
    output.par_chunks_mut(rows).enumerate().try_for_each(|(token, row)| {
        let source = &input[token * cols..(token + 1) * cols];
        matmul_with_ggml_activation_type(kernels, row, source, &affine.weight, mapped)?;
        add_bias(row, &affine.bias);
        Ok::<(), String>(())
    })?;
    Ok(output)
}

fn normalized(input: &[f32], norm: &LayerNorm, epsilon: f32) -> Vec<f32> {
    let dim = norm.weight.len();
    let mut output = vec![0.0f32; input.len()];
    output.par_chunks_mut(dim).enumerate().for_each(|(token, row)| {
        let source = &input[token * dim..(token + 1) * dim];
        layer_norm_affine(row, source, &norm.weight, &norm.bias, epsilon);
    });
    output
}

fn require_finite(values: &[f32], stage: &str, place: &str) -> Result<(), String> {
    match first_non_finite(&bits(values)) {
        Some(index) => Err(format!(
            "qwen3_asr {stage} produced non-finite value {} at flat {place} {index}",
            values[index]
        )),
        None => Ok(()),
    }
}

fn run_audio_transformer<K: TensorKernels>(
    kernels: &K,
    output: &mut AudioEncoderFrontendOutput<f32>,
    layers: &[AudioTransformerLayer],
    config: &Qwen3AsrAudioConfig,
    mapped: &[u8],
    mut layer_outputs: Option<&mut Vec<Vec<f32>>>,
) -> Result<(), String> {
    let (_, _, attention_values) =
        plan_transformer(output, layers.len(), config).map_err(|error| error.message())?;
    let tokens = output.token_count;
    let (dim, head_dim) = (config.embedding_dim, config.head_dim);
    let epsilon = f32::from_bits(config.layer_norm_epsilon);
    let scale = 1.0 / (head_dim as f32).sqrt();
    for layer in layers {
        let source = normalized(&output.data_token_major, &layer.ln1, epsilon);
        let query = affine_rows(kernels, &layer.query, &source, mapped)?;
        let key = affine_rows(kernels, &layer.key, &source, mapped)?;
        let value = affine_rows(kernels, &layer.value, &source, mapped)?;
        let mut by_head = vec![0.0f32; attention_values];
        by_head.par_chunks_mut(head_dim).enumerate().for_each(|(row, destination)| {
            let head = row / tokens * head_dim;
            let part = |values: &'_ [f32], token: usize| {
                let at = token * dim + head;
                values[at..at + head_dim].to_vec()
            };
            let query_values = part(&query, row % tokens);
            let mut maximum = f32::NEG_INFINITY;
            let mut sum = 0.0f32;
            for token in 0..tokens {
                let score = dot(&query_values, &part(&key, token)) * scale;
                if score > maximum {
                    if sum > 0.0 {
                        let rescale = (maximum - score).exp();
                        scale_slice_inplace(destination, rescale);
                        sum *= rescale;
                    }
                    maximum = score;
                }
                let weight = (score - maximum).exp();
                sum += weight;
                axpy_inplace(destination, weight, &part(&value, token));
            }
            if sum > 0.0 {
                scale_slice_inplace(destination, 1.0 / sum);
            }
        });
        let attended = heads_to_tokens(&by_head, tokens, config.head_count, head_dim);
        let projected = affine_rows(kernels, &layer.output, &attended, mapped)?;
        axpy_inplace(&mut output.data_token_major, 1.0, &projected);
        let source = normalized(&output.data_token_major, &layer.ln2, epsilon);
        let mut hidden = affine_rows(kernels, &layer.feed_forward_up, &source, mapped)?;
        for value in &mut hidden {
            *value = gelu_erf(*value);
        }
        let fed = affine_rows(kernels, &layer.feed_forward_down, &hidden, mapped)?;
        axpy_inplace(&mut output.data_token_major, 1.0, &fed);
        if let Some(outputs) = layer_outputs.as_mut() {
            outputs.push(output.data_token_major.clone());
        }
    }
    require_finite(&output.data_token_major, "transformer", "index")
}

fn apply_post_layer_norm(
    output: &mut AudioEncoderFrontendOutput<f32>,
    norm: &LayerNorm,
    epsilon: f32,
) -> Result<(), String> {
    check_post_norm(output, norm.weight.len(), norm.bias.len())
        .map_err(|error| error.message())?;
    output.data_token_major = normalized(&output.data_token_major, norm, epsilon);
    require_finite(&output.data_token_major, "post-layer norm", "index")
}

fn project_to_language_embeddings<K: TensorKernels>(
    kernels: &K,
    frontend: &AudioEncoderFrontendOutput<f32>,
    up: &Affine,
    down: &Affine,
    expected_input_dim: usize,
    mapped: &[u8],
) -> Result<MediaEmbeddingSequence<f32>, String> {
    let shape = ProjectorShape {
        up: up.weight,
        up_bias_len: up.bias.len(),
        down: down.weight,
        down_bias_len: down.bias.len(),
    };
    plan_projector(frontend, shape, expected_input_dim).map_err(|error| error.message())?;
    let mut hidden = affine_rows(kernels, up, &frontend.data_token_major, mapped)?;
    for value in &mut hidden {
        *value = gelu_erf(*value);
    }
    let projected = affine_rows(kernels, down, &hidden, mapped)?;
    require_finite(&projected, "projector", "output index")?;
    Ok(MediaEmbeddingSequence { tokens: split_rows(&projected, down.weight.rows), grid: None })
}

/// An encoder with its weights.
struct AudioGraph<'a, K> {
    kernels: K,
    config: Qwen3AsrAudioConfig,
    weights: AudioWeights,
    mapped: &'a [u8],
}

impl<'a, K: TensorKernels> AudioGraph<'a, K> {
    fn encode_conv_frontend(
        &self,
        window: &PreparedAudioFeatureWindow<f32>,
    ) -> Result<AudioEncoderFrontendOutput<f32>, String> {
        let mut features = feature_map_from_window(window, self.config.mel_bin_count)
            .map_err(|error| error.message())?;
        for layer in &self.weights.convolutions {
            features = conv2d_stride2_gelu_erf(&features, layer)?;
        }
        check_chunk_tokens(&features).map_err(|error| error.message())?;
        let projection = &self.weights.output_projection;
        project_conv_features(&self.kernels, &features, projection, self.mapped)
    }

    fn transform_conv_frontend(
        &self,
        mut output: AudioEncoderFrontendOutput<f32>,
        layer_outputs: Option<&mut Vec<Vec<f32>>>,
    ) -> Result<AudioEncoderFrontendOutput<f32>, String> {
        let weights = &self.weights;
        let positions = self.config.position_count;
        add_chunk_position_embeddings(&mut output, &weights.position_embeddings, positions)?;
        run_audio_transformer(
            &self.kernels,
            &mut output,
            &weights.layers,
            &self.config,
            self.mapped,
            layer_outputs,
        )?;
        let epsilon = f32::from_bits(self.config.layer_norm_epsilon);
        apply_post_layer_norm(&mut output, &weights.post_norm, epsilon)?;
        Ok(output)
    }

    fn encode_transformer_frontend(
        &self,
        window: &PreparedAudioFeatureWindow<f32>,
    ) -> Result<AudioEncoderFrontendOutput<f32>, String> {
        self.transform_conv_frontend(self.encode_conv_frontend(window)?, None)
    }

    fn project(
        &self,
        frontend: &AudioEncoderFrontendOutput<f32>,
    ) -> Result<MediaEmbeddingSequence<f32>, String> {
        project_to_language_embeddings(
            &self.kernels,
            frontend,
            &self.weights.projector_up,
            &self.weights.projector_down,
            self.config.embedding_dim,
            self.mapped,
        )
    }

    fn encode_feature_window(
        &self,
        window: &PreparedAudioFeatureWindow<f32>,
    ) -> Result<MediaEmbeddingSequence<f32>, String> {
        self.project(&self.encode_transformer_frontend(window)?)
    }

    #[allow(clippy::type_complexity)]
    fn encode_from_conv_output_with_layers(
        &self,
        data_token_major: Vec<f32>,
    ) -> Result<
        (Vec<Vec<f32>>, AudioEncoderFrontendOutput<f32>, MediaEmbeddingSequence<f32>),
        String,
    > {
        let dim = self.config.embedding_dim;
        let token_count =
            conv_output_tokens(data_token_major.len(), dim).map_err(|error| error.message())?;
        let input =
            AudioEncoderFrontendOutput { token_count, embedding_dim: dim, data_token_major };
        let mut layer_outputs = Vec::new();
        let output = self.transform_conv_frontend(input, Some(&mut layer_outputs))?;
        let projected = self.project(&output)?;
        Ok((layer_outputs, output, projected))
    }

    fn encode_from_conv_output(
        &self,
        data_token_major: Vec<f32>,
    ) -> Result<(AudioEncoderFrontendOutput<f32>, MediaEmbeddingSequence<f32>), String> {
        let (_, output, projected) = self.encode_from_conv_output_with_layers(data_token_major)?;
        Ok((output, projected))
    }
}

fn add_tensor(tensors: &mut Vec<Gguftensor>, name: impl Into<String>, shape: &[u64]) {
    let mut ne = [1u64; 4];
    ne[..shape.len()].copy_from_slice(shape);
    tensors.push(Gguftensor {
        name: name.into(),
        n_dims: shape.len() as u32,
        ne,
        ttype: GGML_TYPE_F16,
        data_offset: 0,
        block_size: 1,
        type_size: 2,
    });
}

const DIM: u64 = 8;
const CONV_CHANNELS: u64 = 6;
const FF_DIM: u64 = 16;
const OUTPUT_DIM: u64 = 12;
const PROJECTOR_HIDDEN: u64 = 10;

fn synthetic_metadata() -> AudioMetadata {
    AudioMetadata {
        architecture: "clip".to_string(),
        has_audio_encoder: true,
        projector_type: "qwen3a".to_string(),
        embedding_length: DIM as i64,
        feed_forward_length: FF_DIM as i64,
        block_count: 2,
        head_count: 2,
        num_mel_bins: 128,
        projection_dim: OUTPUT_DIM as i64,
        layer_norm_epsilon: 1e-5f32.to_bits(),
    }
}

fn synthetic_qwen3_asr_gguf() -> TensorDirectory {
    let mut tensors = Vec::new();
    add_tensor(&mut tensors, "a.position_embd.weight", &[DIM, 32]);
    add_tensor(&mut tensors, "a.conv2d.1.weight", &[3, 3, 1, CONV_CHANNELS]);
    add_tensor(&mut tensors, "a.conv2d.1.bias", &[1, 1, CONV_CHANNELS]);
    for layer in 2..=3 {
        add_tensor(
            &mut tensors,
            format!("a.conv2d.{layer}.weight"),
            &[3, 3, CONV_CHANNELS, CONV_CHANNELS],
        );
        add_tensor(&mut tensors, format!("a.conv2d.{layer}.bias"), &[1, 1, CONV_CHANNELS]);
    }
    add_tensor(&mut tensors, "a.conv_out.weight", &[CONV_CHANNELS * 16, DIM]);
    for layer in 0..2 {
        let prefix = format!("a.blk.{layer}");
        add_tensor(&mut tensors, format!("{prefix}.ln1.weight"), &[DIM]);
        add_tensor(&mut tensors, format!("{prefix}.ln2.weight"), &[DIM]);
        for projection in ["attn_q", "attn_k", "attn_v", "attn_out"] {
            add_tensor(&mut tensors, format!("{prefix}.{projection}.weight"), &[DIM, DIM]);
        }
        add_tensor(&mut tensors, format!("{prefix}.ffn_up.weight"), &[DIM, FF_DIM]);
        add_tensor(&mut tensors, format!("{prefix}.ffn_down.weight"), &[FF_DIM, DIM]);
    }
    add_tensor(&mut tensors, "a.post_ln.weight", &[DIM]);
    add_tensor(&mut tensors, "a.post_ln.bias", &[DIM]);
    add_tensor(&mut tensors, "mm.a.mlp.1.weight", &[DIM, PROJECTOR_HIDDEN]);
    add_tensor(&mut tensors, "mm.a.mlp.1.bias", &[PROJECTOR_HIDDEN]);
    add_tensor(&mut tensors, "mm.a.mlp.2.weight", &[PROJECTOR_HIDDEN, OUTPUT_DIM]);
    add_tensor(&mut tensors, "mm.a.mlp.2.bias", &[OUTPUT_DIM]);
    TensorDirectory { tensors, mapped_len: 16 * 1024 }
}

const MAPPED: [u8; 16 * 1024] = [0; 16 * 1024];

fn synthetic_encoder() -> Qwen3AsrAudioEncoder {
    Qwen3AsrAudioEncoder::new(&synthetic_metadata(), &synthetic_qwen3_asr_gguf(), 12).unwrap()
}

fn synthetic_graph() -> AudioGraph<'static, FloatKernels> {
    let encoder = synthetic_encoder();
    AudioGraph {
        kernels: FloatKernels,
        config: encoder.config,
        weights: load_audio_weights(&FloatKernels, &encoder, &MAPPED).unwrap(),
        mapped: &MAPPED,
    }
}

fn synthetic_window() -> PreparedAudioFeatureWindow<f32> {
    PreparedAudioFeatureWindow {
        start_frame: 0,
        valid_frames: 137,
        padded_frames: 200,
        mel_bins: 128,
        data_mel_major: vec![0.25; 128 * 200],
    }
}

fn rejection(change: impl Fn(&mut Gguftensor), name: &str) -> String {
    let mut gguf = synthetic_qwen3_asr_gguf();
    let index = gguf.tensors.iter().position(|tensor| tensor.name == name).unwrap();
    change(&mut gguf.tensors[index]);
    Qwen3AsrAudioEncoder::new(&synthetic_metadata(), &gguf, 12).unwrap_err().message()
}

#[test]
fn loads_and_types_complete_qwen3_asr_weight_contract() {
    let encoder = synthetic_encoder();
    let config = encoder.config;

    assert_eq!(config.embedding_dim, 8);
    assert_eq!(config.convolution_channel_count, 6);
    assert_eq!(config.head_dim, 4);
    assert_eq!(config.position_count, 32);
    assert_eq!(config.projector_hidden_dim, 10);
    assert!(encoder.contract_summary().contains("output_dim=12"));
}

#[test]
fn f16_rounding_matches_known_ieee_values() {
    assert_eq!(f32_to_f16_bits(0.0f32.to_bits()), 0x0000);
    assert_eq!(f32_to_f16_bits((-0.0f32).to_bits()), 0x8000);
    assert_eq!(f32_to_f16_bits(1.0f32.to_bits()), 0x3c00);
    assert_eq!(f32_to_f16_bits((-2.0f32).to_bits()), 0xc000);
    assert_eq!(f32_to_f16_bits(65_504.0f32.to_bits()), 0x7bff);
    assert_eq!(f32_to_f16_bits(f32::INFINITY.to_bits()), 0x7c00);
}

#[test]
fn bf16_activation_rounding_matches_ggml_ties_to_even() {
    assert_eq!(round_to_bf16(0x3f80_8000), 0x3f80_0000);
    assert_eq!(round_to_bf16(0x3f81_8000), 0x3f82_0000);
    assert_eq!(round_to_bf16(0x3f80_8001), 0x3f81_0000);
    assert!(f32::from_bits(round_to_bf16(f32::NAN.to_bits())).is_nan());
}

fn one_by_one(ttype: i32) -> QuantizedTensor {
    QuantizedTensor { data_offset: 0, ttype, rows: 1, cols: 1 }
}

fn product(ttype: i32, input: u32, stored: u16) -> u32 {
    let input = [f32::from_bits(input)];
    let mut output = [0.0f32];
    matmul_with_ggml_activation_type(
        &FloatKernels,
        &mut output,
        &input,
        &one_by_one(ttype),
        &stored.to_le_bytes(),
    )
    .unwrap();
    output[0].to_bits()
}

#[test]
fn bf16_matmul_rounds_activations_before_the_dot_product() {
    assert_eq!(product(GGML_TYPE_BF16, 0x3f80_8001, 0x3f80), 0x3f81_0000);
}

#[test]
fn f16_encoder_fallback_rounds_activation_to_matrix_dot_type() {
    assert_eq!(product(GGML_TYPE_F16, 0x3f80_1000, 0x3c00), 1.0f32.to_bits());
    assert_eq!(round_to_f16(0x3f80_1000), 1.0f32.to_bits());
}

#[test]
fn bf16_encoder_fallback_rounds_activation_to_matrix_dot_type() {
    assert_eq!(product(GGML_TYPE_BF16, 0x3f80_8001, 0x3f80), 0x3f81_0000);
    assert_eq!(narrow_activations(&[0x3f80_8001], GGML_TYPE_BF16), vec![0x3f81_0000]);
}

#[test]
fn other_types_keep_their_activations() {
    let exact = 0x3f80_8001;
    assert_eq!(narrow_activations(&[exact], GGML_TYPE_F32), vec![exact]);
    assert_eq!(convolution_activations(&[exact], GGML_TYPE_BF16), vec![exact]);
    assert_eq!(convolution_activations(&[0x3f80_1000], GGML_TYPE_F32), vec![0x3f80_0000]);
}

#[test]
fn convolution_uses_ggml_kernel_order_stride_and_padding() {
    let input = ConvFeatureMap {
        batch_count: 1,
        width: 3,
        height: 3,
        channels: 1,
        data: (1..=9).map(|value| value as f32).collect(),
    };
    let mut kernel = vec![0.0f32; 9];
    kernel[0] = 1.0;
    let weights = Conv2dLayerWeights {
        kernel,
        bias: vec![0.0],
        input_channels: 1,
        output_channels: 1,
        kernel_type: GGML_TYPE_F32,
    };

    let output = conv2d_stride2_gelu_erf(&input, &weights).unwrap();

    assert_eq!((output.batch_count, output.width, output.height), (1, 2, 2));
    assert_eq!(output.data[..3], [0.0, 0.0, 0.0]);
    assert!((output.data[3] - gelu_erf(5.0)).abs() < 1e-6);
}

#[test]
fn patches_surround_their_centre() {
    let map = ConvFeatureMap {
        batch_count: 1,
        width: 3,
        height: 2,
        channels: 2,
        data: (0..12u32).map(|value| 10 + value).collect(),
    };
    let shape = ConvolutionShape {
        input_channels: 2,
        output_channels: 1,
        kernel_len: 18,
        bias_len: 1,
    };
    let plan = plan_convolution(&map, shape).unwrap();
    assert_eq!(
        (plan.output_width, plan.output_height, plan.output_len, plan.kernel_elements),
        (2, 1, 2, 18)
    );
    let patches = convolution_patches(&map, plan, 0).unwrap();
    assert_eq!(
        patches[..18],
        [0, 0, 0, 0, 10, 12, 0, 16, 18, 0, 0, 0, 0, 11, 13, 0, 17, 19]
    );
    assert_eq!(
        patches[18..],
        [0, 0, 0, 12, 14, 0, 18, 20, 0, 0, 0, 0, 13, 15, 0, 19, 21, 0]
    );
}

#[test]
fn flattening_matches_qwen3_asr_channel_then_frequency_order() {
    let mut data = Vec::new();
    for batch in 0..2 {
        for y in 0..2 {
            for x in 0..2 {
                for channel in 0..2 {
                    data.push((batch * 100 + y * 10 + x * 2 + channel) as f32);
                }
            }
        }
    }
    let features = ConvFeatureMap { batch_count: 2, width: 2, height: 2, channels: 2, data };

    let flattened = flatten_conv_features(&features).unwrap();

    assert_eq!(
        flattened,
        [
            0.0, 10.0, 1.0, 11.0, 2.0, 12.0, 3.0, 13.0, 100.0, 110.0, 101.0, 111.0, 102.0, 112.0,
            103.0, 113.0,
        ]
    );
}

#[test]
fn convolution_frontend_emits_thirteen_tokens_per_padded_chunk() {
    let output = synthetic_graph().encode_conv_frontend(&synthetic_window()).unwrap();

    assert_eq!(output.token_count, 26);
    assert_eq!(output.embedding_dim, 8);
    assert_eq!(output.data_token_major.len(), 26 * 8);
    assert!(output.data_token_major.iter().all(|value| *value == 0.0));
}

#[test]
fn positional_embeddings_reset_for_each_hundred_frame_chunk() {
    let mut position_embeddings = Vec::new();
    for position in 0..16 {
        position_embeddings.push(position as f32);
        position_embeddings.push(-(position as f32));
    }
    let mut output = AudioEncoderFrontendOutput {
        token_count: 26,
        embedding_dim: 2,
        data_token_major: vec![0.0; 52],
    };

    add_chunk_position_embeddings(&mut output, &position_embeddings, 16).unwrap();

    assert_eq!(&output.data_token_major[0..2], [0.0, 0.0]);
    assert_eq!(&output.data_token_major[24..26], [12.0, -12.0]);
    assert_eq!(&output.data_token_major[26..28], [0.0, 0.0]);
    assert_eq!(&output.data_token_major[50..52], [12.0, -12.0]);
}

#[test]
fn zero_transformer_branches_preserve_the_residual_stream() {
    let graph = synthetic_graph();
    let original = (0..24).map(|index| index as f32 * 0.125 - 1.0).collect::<Vec<_>>();
    let mut output = AudioEncoderFrontendOutput {
        token_count: 3,
        embedding_dim: 8,
        data_token_major: original.clone(),
    };

    run_audio_transformer(
        &graph.kernels,
        &mut output,
        &graph.weights.layers,
        &graph.config,
        graph.mapped,
        None,
    )
    .unwrap();

    assert_eq!(output.data_token_major, original);
}

#[test]
fn transformer_attention_is_bidirectional_across_the_full_window() {
    let identity = [1.0f32, 0.0, 0.0, 1.0];
    let zeros = [0.0f32; 4];
    let mut mapped = Vec::new();
    for value in identity.into_iter().chain(zeros) {
        mapped.extend_from_slice(&value.to_le_bytes());
    }
    let affine = |data_offset: usize| Affine {
        weight: QuantizedTensor { data_offset, ttype: GGML_TYPE_F32, rows: 2, cols: 2 },
        bias: vec![0.0, 0.0],
    };
    let norm = || LayerNorm { weight: vec![1.0, 1.0], bias: vec![0.0, 0.0] };
    let layer = AudioTransformerLayer {
        ln1: norm(),
        ln2: norm(),
        query: affine(0),
        key: affine(0),
        value: affine(0),
        output: affine(0),
        feed_forward_up: affine(16),
        feed_forward_down: affine(16),
    };
    let config = Qwen3AsrAudioConfig {
        embedding_dim: 2,
        convolution_channel_count: 1,
        feed_forward_dim: 2,
        layer_count: 1,
        head_count: 1,
        head_dim: 2,
        layer_norm_epsilon: 1e-5f32.to_bits(),
        mel_bin_count: 128,
        projection_dim: 2,
        position_count: 13,
        projector_hidden_dim: 2,
    };
    let mut output = AudioEncoderFrontendOutput {
        token_count: 2,
        embedding_dim: 2,
        data_token_major: vec![1.0, -1.0, -1.0, 1.0],
    };

    run_audio_transformer(&FloatKernels, &mut output, &[layer], &config, &mapped, None).unwrap();

    let normalized_amplitude =
        1.0 / (1.0f32 + f32::from_bits(config.layer_norm_epsilon)).sqrt();
    let score = std::f32::consts::SQRT_2 * normalized_amplitude * normalized_amplitude;
    let context = normalized_amplitude * score.tanh();
    let expected = [1.0 + context, -1.0 - context, -1.0 - context, 1.0 + context];
    for (actual, expected) in output.data_token_major.iter().zip(expected) {
        assert!((actual - expected).abs() < 1e-5, "{actual} != {expected}");
    }
}

#[test]
fn transformer_frontend_keeps_chunk_token_shape() {
    let output = synthetic_graph().encode_transformer_frontend(&synthetic_window()).unwrap();

    assert_eq!(output.token_count, 26);
    assert_eq!(output.embedding_dim, 8);
    assert_eq!(output.data_token_major.len(), 26 * 8);
    assert!(output.data_token_major.iter().all(|value| *value == 0.0));
}

#[test]
fn projector_applies_up_gelu_down_with_ggml_matrix_orientation() {
    let up = [1.0f32, 0.0, 0.0, 1.0];
    let down = [1.0f32, 0.0, 0.0, 1.0, 1.0, -1.0];
    let mut mapped = Vec::new();
    for value in up.into_iter().chain(down) {
        mapped.extend_from_slice(&value.to_le_bytes());
    }
    let up = Affine {
        weight: QuantizedTensor { data_offset: 0, ttype: GGML_TYPE_F32, rows: 2, cols: 2 },
        bias: vec![0.5, 0.25],
    };
    let down = Affine {
        weight: QuantizedTensor { data_offset: 16, ttype: GGML_TYPE_F32, rows: 3, cols: 2 },
        bias: vec![0.1, -0.2, 0.3],
    };
    let frontend = AudioEncoderFrontendOutput {
        token_count: 1,
        embedding_dim: 2,
        data_token_major: vec![1.0, -2.0],
    };

    let output =
        project_to_language_embeddings(&FloatKernels, &frontend, &up, &down, 2, &mapped).unwrap();

    let hidden_up = gelu_erf(1.5);
    let hidden_down = gelu_erf(-1.75);
    let expected = [hidden_up + 0.1, hidden_down - 0.2, hidden_up - hidden_down + 0.3];
    assert_eq!(output.tokens.len(), 1);
    for (actual, expected) in output.tokens[0].iter().zip(expected) {
        assert!((actual - expected).abs() < 1e-6, "{actual} != {expected}");
    }
}

#[test]
fn complete_audio_sidecar_graph_emits_language_space_tokens() {
    let output = synthetic_graph().encode_feature_window(&synthetic_window()).unwrap();

    assert_eq!(output.tokens.len(), 26);
    assert!(output.tokens.iter().all(|token| token.len() == 12));
    assert!(output.tokens.iter().flatten().all(|value| *value == 0.0));
}

#[test]
fn convolution_outputs_can_be_encoded_alone() {
    let graph = synthetic_graph();
    let (layers, output, projected) =
        graph.encode_from_conv_output_with_layers(vec![0.5; 13 * 8]).unwrap();
    assert_eq!(layers.len(), 2);
    assert_eq!(layers[1], vec![0.5; 13 * 8]);
    assert_eq!(output.token_count, 13);
    assert_eq!(projected.tokens.len(), 13);
    assert_eq!(
        graph.encode_from_conv_output(vec![0.5; 12 * 8]).unwrap_err(),
        "qwen3_asr convolution-output fixture has 12 tokens; expected a multiple of 13"
    );
    assert_eq!(
        conv_output_tokens(9, 8).unwrap_err(),
        GraphError::FixtureValues { got: 9, dim: 8 }
    );
}

#[test]
fn planned_embedding_count_matches_thirteen_tokens_per_padded_chunk() {
    let encoder = synthetic_encoder();
    let windows = [
        PreparedAudioFeatureWindowPlan { start_frame: 0, valid_frames: 800, padded_frames: 800 },
        PreparedAudioFeatureWindowPlan { start_frame: 800, valid_frames: 1, padded_frames: 100 },
    ];

    assert_eq!(encoder.planned_embedding_token_count(&windows), Ok(9 * 13));
    assert_eq!(encoder.planned_embedding_token_count(&[]), Err(GraphError::NoWindows));
    let odd =
        [PreparedAudioFeatureWindowPlan { start_frame: 4, valid_frames: 9, padded_frames: 101 }];
    assert_eq!(
        encoder.planned_embedding_token_count(&odd),
        Err(GraphError::WindowPlan { start_frame: 4, valid: 9, padded: 101 })
    );
}

#[test]
fn rejects_qwen3_asr_convolution_shape_mismatch() {
    let error = rejection(|tensor| tensor.ne[2] = 7, "a.conv2d.2.weight");
    assert!(error.contains("a.conv2d.2.weight shape mismatch"));
}

#[test]
fn rejects_qwen3_asr_projector_discontinuity() {
    let error = rejection(|tensor| tensor.ne[0] = 9, "mm.a.mlp.2.weight");
    assert!(error.contains("projector continuity"));
}

#[test]
fn rejects_unsupported_qwen3_asr_tensor_type() {
    let error = rejection(
        |tensor| {
            tensor.ttype = 999;
            tensor.block_size = 0;
            tensor.type_size = 0;
        },
        "a.position_embd.weight",
    );
    assert!(error.contains("unsupported GGML type 999"));
}

#[test]
fn rejects_misaligned_quantized_qwen3_asr_tensor_rows() {
    let error = rejection(
        |tensor| {
            tensor.ttype = 2;
            tensor.block_size = 32;
            tensor.type_size = 18;
        },
        "a.blk.0.attn_q.weight",
    );
    assert!(error.contains("not divisible by GGML block size 32"));
}

fn metadata_error(change: impl Fn(&mut AudioMetadata)) -> AsrError {
    let mut meta = synthetic_metadata();
    change(&mut meta);
    parse_metadata(&meta, 12).unwrap_err()
}

#[test]
fn missing_audio_keys_are_empty() {
    let meta = audio_key_values(AudioKeys {
        architecture: None,
        has_audio_encoder: None,
        projector_type: Some("qwen3a".to_string()),
        embedding_length: Some(8),
        feed_forward_length: None,
        block_count: None,
        head_count: None,
        num_mel_bins: None,
        projection_dim: None,
        layer_norm_epsilon: None,
    });
    assert_eq!((meta.architecture.as_str(), meta.projector_type.as_str()), ("", "qwen3a"));
    assert!(!meta.has_audio_encoder);
    assert_eq!((meta.embedding_length, meta.block_count), (8, 0));
    assert_eq!((meta.feed_forward_length, meta.head_count), (0, 0));
    assert_eq!((meta.num_mel_bins, meta.projection_dim, meta.layer_norm_epsilon), (0, 0, 0));
}

#[test]
fn metadata_is_refused_for_the_first_thing_wrong() {
    assert!(parse_metadata(&synthetic_metadata(), 12).is_ok());
    assert!(matches!(
        metadata_error(|meta| meta.architecture = "llama".to_string()),
        AsrError::Architecture(name) if name == "llama"
    ));
    assert!(matches!(
        metadata_error(|meta| meta.has_audio_encoder = false),
        AsrError::NoAudioEncoder
    ));
    assert!(matches!(
        metadata_error(|meta| meta.projector_type = "other".to_string()),
        AsrError::Projector(name) if name == "other"
    ));
    assert!(matches!(
        metadata_error(|meta| meta.block_count = 0),
        AsrError::MissingMetadata(key) if key == "clip.audio.block_count"
    ));
    assert!(matches!(
        metadata_error(|meta| meta.projection_dim = 13),
        AsrError::ProjectionMismatch { got: 13, wanted: 12 }
    ));
    assert_eq!(positive_metadata_usize(5, "k").unwrap(), 5);
    assert!(positive_metadata_usize(-5, "k").is_err());
}

#[test]
fn audio_encoders_are_built_for_their_backend() {
    let encoder = build_audio_encoder_from_mmproj(
        AudioEncoderBackend::Qwen3Asr,
        12,
        &synthetic_metadata(),
        &synthetic_qwen3_asr_gguf(),
    )
    .unwrap();
    assert_eq!(encoder.backend(), AudioEncoderBackend::Qwen3Asr);
    assert!(encoder.execution_ready());
    assert!(encoder.contract_summary().starts_with("qwen3_asr(dim=8,"));
}

#[test]
fn graph_shapes_are_checked() {
    let mut window = synthetic_window();
    window.mel_bins = 80;
    assert_eq!(
        feature_map_from_window(&window, 128).unwrap_err(),
        GraphError::MelBins { start_frame: 0, got: 80, wanted: 128 }
    );
    let mut window = synthetic_window();
    window.padded_frames = 150;
    assert_eq!(
        feature_map_from_window(&window, 128).unwrap_err(),
        GraphError::PaddedFrames { start_frame: 0, got: 150 }
    );
    let mut window = synthetic_window();
    window.valid_frames = 201;
    assert_eq!(
        feature_map_from_window(&window, 128).unwrap_err(),
        GraphError::ValidFrames { start_frame: 0, valid: 201, padded: 200 }
    );
    let mut window = synthetic_window();
    window.data_mel_major.pop();
    assert_eq!(
        feature_map_from_window(&window, 128).unwrap_err(),
        GraphError::WindowValues { start_frame: 0, got: 25_599, wanted: 25_600 }
    );
    assert_eq!(checked_feature_map_len(2, 3, 4, 5).unwrap(), 120);
    assert_eq!(
        checked_feature_map_len(usize::MAX, 3, 4, 5).unwrap_err(),
        GraphError::MapOverflow
    );
    assert_eq!(conv_output_size(100).unwrap(), 50);
    assert_eq!(conv_output_size(25).unwrap(), 13);
    assert!(conv_output_size(0).is_err());
    assert_eq!(first_non_finite(&bits(&[1.0, f32::NAN, f32::INFINITY])), Some(1));
    assert_eq!(split_rows(&[1u32, 2, 3, 4, 5], 2), vec![vec![1, 2], vec![3, 4]]);
    assert_eq!(
        heads_to_tokens(&vec![1u32, 2, 3, 4, 5, 6, 7, 8], 2, 2, 2),
        vec![1, 2, 5, 6, 3, 4, 7, 8]
    );
    assert_eq!(tensor_element_count("t", Shape::two(3, 4)).unwrap(), 12);
    assert!(tensor_element_count("t", Shape::two(usize::MAX, 4)).is_err());
    assert_eq!(
        weight_range("t", Shape::one(4), 6, 1, 2, 13).unwrap_err(),
        "qwen3_asr tensor t exceeds mapped sidecar bounds"
    );
}
