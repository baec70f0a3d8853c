//! The audio sidecar of a speech recognition model: its metadata and its tensors.
use super::vision::or_default;
use crate::bits::finite_positive_bits;
use crate::gguf::{find_by_name, Gguftensor, QuantizedTensor, TensorDirectory};
use crate::tensors::{
    ask, asked, counts_elements, load_more, loaded_tensors_follow_their_rules, no_counts, outcome,
    with_tensors, Loaded, Requirement, Rule, Shape, TensorError, TensorProblem,
};
use crate::text::{decimal, signed_decimal, Text};
use vstd::prelude::*;

verus! {

pub const CONV_KERNEL: usize = 3;

pub const CONV_STRIDE: usize = 2;

pub const CONV_PADDING: usize = 1;

pub const MEL_FRAMES_PER_CHUNK: usize = 100;

pub const TOKENS_PER_CHUNK: usize = 13;

pub const GGML_TYPE_F32: i32 = 0;

pub const GGML_TYPE_F16: i32 = 1;

pub const GGML_TYPE_BF16: i32 = 30;

/// The number of tensors of each transformer layer.
pub const TENSORS_PER_LAYER: usize = 16;

/// What the sidecar's metadata says of the audio encoder; a missing text is empty, a missing
/// number zero.
#[derive(Debug)]
pub struct AudioMetadata {
    pub architecture: String,
    pub has_audio_encoder: bool,
    pub projector_type: String,
    pub embedding_length: i64,
    pub feed_forward_length: i64,
    pub block_count: i64,
    pub head_count: i64,
    pub num_mel_bins: i64,
    pub projection_dim: i64,
    /// The bit pattern of the layer norm epsilon.
    pub layer_norm_epsilon: u32,
}

/// The values of the keys of a sidecar that describe its audio encoder, where they are there.
#[derive(Debug)]
pub struct AudioKeys {
    /// `general.architecture`
    pub architecture: Option<String>,
    /// `clip.has_audio_encoder`
    pub has_audio_encoder: Option<bool>,
    /// `clip.audio.projector_type`
    pub projector_type: Option<String>,
    /// `clip.audio.embedding_length`
    pub embedding_length: Option<i64>,
    /// `clip.audio.feed_forward_length`
    pub feed_forward_length: Option<i64>,
    /// `clip.audio.block_count`
    pub block_count: Option<i64>,
    /// `clip.audio.attention.head_count`
    pub head_count: Option<i64>,
    /// `clip.audio.num_mel_bins`
    pub num_mel_bins: Option<i64>,
    /// `clip.audio.projection_dim`
    pub projection_dim: Option<i64>,
    /// The bit pattern of `clip.audio.attention.layer_norm_epsilon`
    pub layer_norm_epsilon: Option<u32>,
}

/// A text, or the empty one where it is not there.
pub open spec fn or_empty(value: Option<String>) -> Seq<char> {
    match value {
        Some(text) => text@,
        None => Seq::empty(),
    }
}

fn text_or_empty(value: Option<String>) -> (text: String)
    ensures
        text@ == or_empty(value),
{
    match value {
        Some(text) => text,
        None => {
            proof {
                reveal_strlit("");
            }
            assert(""@ =~= Seq::empty());
            "".to_owned()
        },
    }
}

/// The metadata of a sidecar from its keys: a missing text is empty, a missing number zero, and a
/// missing audio encoder is none.
pub fn audio_key_values(keys: AudioKeys) -> (meta: AudioMetadata)
    ensures
        meta.architecture@ == or_empty(keys.architecture),
        meta.has_audio_encoder == or_default(keys.has_audio_encoder, false),
        meta.projector_type@ == or_empty(keys.projector_type),
        meta.embedding_length == or_default(keys.embedding_length, 0),
        meta.feed_forward_length == or_default(keys.feed_forward_length, 0),
        meta.block_count == or_default(keys.block_count, 0),
        meta.head_count == or_default(keys.head_count, 0),
        meta.num_mel_bins == or_default(keys.num_mel_bins, 0),
        meta.projection_dim == or_default(keys.projection_dim, 0),
        meta.layer_norm_epsilon == or_default(keys.layer_norm_epsilon, 0),
{
    AudioMetadata {
        architecture: text_or_empty(keys.architecture),
        has_audio_encoder: keys.has_audio_encoder.unwrap_or(false),
        projector_type: text_or_empty(keys.projector_type),
        embedding_length: keys.embedding_length.unwrap_or(0),
        feed_forward_length: keys.feed_forward_length.unwrap_or(0),
        block_count: keys.block_count.unwrap_or(0),
        head_count: keys.head_count.unwrap_or(0),
        num_mel_bins: keys.num_mel_bins.unwrap_or(0),
        projection_dim: keys.projection_dim.unwrap_or(0),
        layer_norm_epsilon: keys.layer_norm_epsilon.unwrap_or(0),
    }
}

/// The dimensions of the audio encoder.
#[derive(Clone, Copy, Debug, PartialEq, Eq, Structural)]
pub struct Qwen3AsrAudioConfig {
    pub embedding_dim: usize,
    pub convolution_channel_count: usize,
    pub feed_forward_dim: usize,
    pub layer_count: usize,
    pub head_count: usize,
    pub head_dim: usize,
    /// The bit pattern of the layer norm epsilon.
    pub layer_norm_epsilon: u32,
    pub mel_bin_count: usize,
    pub projection_dim: usize,
    pub position_count: usize,
    pub projector_hidden_dim: usize,
}

/// Why a sidecar is not accepted.
#[derive(Debug)]
pub enum AsrError {
    Architecture(String),
    NoAudioEncoder,
    Projector(String),
    MissingMetadata(String),
    ProjectionMismatch { got: usize, wanted: usize },
    MelBins(usize),
    AttentionShape { embedding_dim: usize, head_count: usize },
    Epsilon,
    Tensor(TensorError),
    FlattenedOverflow,
    ProjectorInput { got: usize, dim: usize },
    ProjectorHiddenZero,
    ProjectorDown { shape: Shape, wanted_shape: Shape },
    ConvolutionType { name: String, ttype: i32 },
}

/// The text of an unsupported convolution type.
pub open spec fn convolution_type_text(name: Seq<char>, ttype: i32) -> Seq<char> {
    "qwen3_asr convolution tensor "@ + name + " uses unsupported GGML type "@ + signed_decimal(
        ttype as int,
    ) + "; expected F16, F32, or BF16"@
}

/// The text of a missing or unusable metadata key.
pub open spec fn missing_text(key: Seq<char>) -> Seq<char> {
    "qwen3_asr mmproj is missing required positive metadata '"@ + key + "'"@
}

impl AsrError {
    /// The message text of the error.
    pub open spec fn text(self) -> Seq<char> {
        match self {
            AsrError::Architecture(got) => "unsupported qwen3_asr sidecar architecture '"@ + got@
                + "'; expected 'clip'"@,
            AsrError::NoAudioEncoder =>
                "qwen3_asr sidecar is missing clip.has_audio_encoder=true"@,
            AsrError::Projector(got) => "unsupported audio projector '"@ + got@
                + "'; expected 'qwen3a'"@,
            AsrError::MissingMetadata(key) => missing_text(key@),
            AsrError::ProjectionMismatch { got, wanted } =>
                "qwen3_asr projection mismatch: sidecar outputs "@ + decimal(got as nat)
                    + ", text model expects "@ + decimal(wanted as nat),
            AsrError::MelBins(got) => "unsupported qwen3_asr mel-bin count "@ + decimal(got as nat)
                + "; expected 128"@,
            AsrError::AttentionShape { embedding_dim, head_count } =>
                "invalid qwen3_asr attention shape: embedding_dim="@ + decimal(
                    embedding_dim as nat,
                ) + " is not divisible by head_count="@ + decimal(head_count as nat),
            AsrError::Epsilon =>
                "qwen3_asr sidecar has invalid clip.audio.attention.layer_norm_epsilon"@,
            AsrError::Tensor(error) => error.problem.text(error.name@),
            AsrError::FlattenedOverflow =>
                "qwen3_asr flattened convolution dimension overflow"@,
            AsrError::ProjectorInput { got, dim } =>
                "qwen3_asr tensor mm.a.mlp.1.weight input mismatch: got "@ + decimal(got as nat)
                    + ", expected audio embedding dim "@ + decimal(dim as nat),
            AsrError::ProjectorHiddenZero => "qwen3_asr projector hidden dimension is zero"@,
            AsrError::ProjectorDown { shape, wanted_shape } =>
                "qwen3_asr tensor mm.a.mlp.2.weight shape mismatch: got "@ + shape.text()
                    + ", expected "@ + wanted_shape.text()
                    + " (projector continuity and text output dimension)"@,
            AsrError::ConvolutionType { name, ttype } => convolution_type_text(name@, ttype),
        }
    }

    /// The message text of the error.
    pub fn message(&self) -> (message: String)
        ensures
            message@ == self.text(),
    {
        match self {
            AsrError::Architecture(got) => Text::start(
                "unsupported qwen3_asr sidecar architecture '",
            ).text(got.as_str()).text("'; expected 'clip'").finish(),
            AsrError::NoAudioEncoder => Text::start(
                "qwen3_asr sidecar is missing clip.has_audio_encoder=true",
            ).finish(),
            AsrError::Projector(got) => Text::start("unsupported audio projector '").text(
                got.as_str(),
            ).text("'; expected 'qwen3a'").finish(),
            AsrError::MissingMetadata(key) => Text::start(
                "qwen3_asr mmproj is missing required positive metadata '",
            ).text(key.as_str()).text("'").finish(),
            AsrError::ProjectionMismatch { got, wanted } => Text::start(
                "qwen3_asr projection mismatch: sidecar outputs ",
            ).size(*got).text(", text model expects ").size(*wanted).finish(),
            AsrError::MelBins(got) => Text::start("unsupported qwen3_asr mel-bin count ").size(
                *got,
            ).text("; expected 128").finish(),
            AsrError::AttentionShape { embedding_dim, head_count } => Text::start(
                "invalid qwen3_asr attention shape: embedding_dim=",
            ).size(*embedding_dim).text(" is not divisible by head_count=").size(
                *head_count,
            ).finish(),
            AsrError::Epsilon => Text::start(
                "qwen3_asr sidecar has invalid clip.audio.attention.layer_norm_epsilon",
            ).finish(),
            AsrError::Tensor(error) => error.message(),
            AsrError::FlattenedOverflow => Text::start(
                "qwen3_asr flattened convolution dimension overflow",
            ).finish(),
            AsrError::ProjectorInput { got, dim } => Text::start(
                "qwen3_asr tensor mm.a.mlp.1.weight input mismatch: got ",
            ).size(*got).text(", expected audio embedding dim ").size(*dim).finish(),
            AsrError::ProjectorHiddenZero => Text::start(
                "qwen3_asr projector hidden dimension is zero",
            ).finish(),
            AsrError::ProjectorDown { shape, wanted_shape } => Text::start(
                "qwen3_asr tensor mm.a.mlp.2.weight shape mismatch: got ",
            ).text(shape.message().as_str()).text(", expected ").text(
                wanted_shape.message().as_str(),
            ).text(" (projector continuity and text output dimension)").finish(),
            AsrError::ConvolutionType { name, ttype } => Text::start(
                "qwen3_asr convolution tensor ",
            ).text(name.as_str()).text(" uses unsupported GGML type ").signed(
                *ttype as i64,
            ).text("; expected F16, F32, or BF16").finish(),
        }
    }
}

/// A metadata number that must be positive and fit the machine.
pub fn positive_metadata_usize(value: i64, key: &str) -> (result: Result<usize, AsrError>)
    ensures
        match result {
            Ok(n) => 0 < value <= usize::MAX && n == value,
            Err(error) => !(0 < value <= usize::MAX) && error.text() == missing_text(key@),
        },
{
    if value > 0 && value as u64 <= usize::MAX as u64 {
        Ok(value as usize)
    } else {
        Err(AsrError::MissingMetadata(key.to_owned()))
    }
}

/// Whether a metadata number is positive and fits the machine.
pub open spec fn positive(value: i64) -> bool {
    0 < value <= usize::MAX
}

/// What the metadata of a sidecar gives: the dimensions of the encoder as far as metadata says
/// them, or the text of the first thing that is wrong.
pub open spec fn metadata_outcome(meta: AudioMetadata, expected_projection_dim: usize) -> Result<
    Qwen3AsrAudioConfig,
    Seq<char>,
> {
    if meta.architecture@ != "clip"@ {
        Err(AsrError::Architecture(meta.architecture).text())
    } else if !meta.has_audio_encoder {
        Err(AsrError::NoAudioEncoder.text())
    } else if meta.projector_type@ != "qwen3a"@ {
        Err(AsrError::Projector(meta.projector_type).text())
    } else if !positive(meta.embedding_length) {
        Err(missing_text("clip.audio.embedding_length"@))
    } else if !positive(meta.feed_forward_length) {
        Err(missing_text("clip.audio.feed_forward_length"@))
    } else if !positive(meta.block_count) {
        Err(missing_text("clip.audio.block_count"@))
    } else if !positive(meta.head_count) {
        Err(missing_text("clip.audio.attention.head_count"@))
    } else if !positive(meta.num_mel_bins) {
        Err(missing_text("clip.audio.num_mel_bins"@))
    } else if !positive(meta.projection_dim) {
        Err(missing_text("clip.audio.projection_dim"@))
    } else if meta.projection_dim != expected_projection_dim {
        Err(
            AsrError::ProjectionMismatch {
                got: meta.projection_dim as usize,
                wanted: expected_projection_dim,
            }.text(),
        )
    } else if meta.num_mel_bins != 128 {
        Err(AsrError::MelBins(meta.num_mel_bins as usize).text())
    } else if meta.embedding_length as int % meta.head_count as int != 0 {
        Err(
            AsrError::AttentionShape {
                embedding_dim: meta.embedding_length as usize,
                head_count: meta.head_count as usize,
            }.text(),
        )
    } else if !(0 < meta.layer_norm_epsilon < crate::bits::INFINITY_BITS) {
        Err(AsrError::Epsilon.text())
    } else {
        Ok(
            Qwen3AsrAudioConfig {
                embedding_dim: meta.embedding_length as usize,
                convolution_channel_count: 0,
                feed_forward_dim: meta.feed_forward_length as usize,
                layer_count: meta.block_count as usize,
                head_count: meta.head_count as usize,
                head_dim: (meta.embedding_length as int / meta.head_count as int) as usize,
                layer_norm_epsilon: meta.layer_norm_epsilon,
                mel_bin_count: meta.num_mel_bins as usize,
                projection_dim: meta.projection_dim as usize,
                position_count: 0,
                projector_hidden_dim: 0,
            },
        )
    }
}

/// Whether a result is the given one, an error by its text.
pub open spec fn same_outcome<T>(result: Result<T, AsrError>, wanted: Result<T, Seq<char>>) -> bool {
    match result {
        Ok(value) => wanted == Ok::<T, Seq<char>>(value),
        Err(error) => wanted == Err::<T, Seq<char>>(error.text()),
    }
}

fn same_text(a: &String, b: &str) -> (same: bool)
    ensures
        same == (a@ == b@),
{
    let other: String = b.to_owned();
    *a == other
}

/// Reads the metadata of a sidecar.
pub fn parse_metadata(meta: &AudioMetadata, expected_projection_dim: usize) -> (result: Result<
    Qwen3AsrAudioConfig,
    AsrError,
>)
    ensures
        same_outcome(result, metadata_outcome(*meta, expected_projection_dim)),
{
    if !same_text(&meta.architecture, "clip") {
        return Err(AsrError::Architecture(meta.architecture.clone()));
    }
    if !meta.has_audio_encoder {
        return Err(AsrError::NoAudioEncoder);
    }
    if !same_text(&meta.projector_type, "qwen3a") {
        return Err(AsrError::Projector(meta.projector_type.clone()));
    }
    let embedding_dim: usize = match positive_metadata_usize(
        meta.embedding_length,
        "clip.audio.embedding_length",
    ) {
        Ok(n) => n,
        Err(error) => return Err(error),
    };
    let feed_forward_dim: usize = match positive_metadata_usize(
        meta.feed_forward_length,
        "clip.audio.feed_forward_length",
    ) {
        Ok(n) => n,
        Err(error) => return Err(error),
    };
    let layer_count: usize = match positive_metadata_usize(
        meta.block_count,
        "clip.audio.block_count",
    ) {
        Ok(n) => n,
        Err(error) => return Err(error),
    };
    let head_count: usize = match positive_metadata_usize(
        meta.head_count,
        "clip.audio.attention.head_count",
    ) {
        Ok(n) => n,
        Err(error) => return Err(error),
    };
    let mel_bin_count: usize = match positive_metadata_usize(
        meta.num_mel_bins,
        "clip.audio.num_mel_bins",
    ) {
        Ok(n) => n,
        Err(error) => return Err(error),
    };
    let projection_dim: usize = match positive_metadata_usize(
        meta.projection_dim,
        "clip.audio.projection_dim",
    ) {
        Ok(n) => n,
        Err(error) => return Err(error),
    };
    if projection_dim != expected_projection_dim {
        return Err(
            AsrError::ProjectionMismatch { got: projection_dim, wanted: expected_projection_dim },
        );
    }
    if mel_bin_count != 128 {
        return Err(AsrError::MelBins(mel_bin_count));
    }
    if embedding_dim % head_count != 0 {
        return Err(AsrError::AttentionShape { embedding_dim, head_count });
    }
    if !finite_positive_bits(meta.layer_norm_epsilon) {
        return Err(AsrError::Epsilon);
    }
    Ok(
        Qwen3AsrAudioConfig {
            embedding_dim,
            convolution_channel_count: 0,
            feed_forward_dim,
            layer_count,
            head_count,
            head_dim: embedding_dim / head_count,
            layer_norm_epsilon: meta.layer_norm_epsilon,
            mel_bin_count,
            projection_dim,
            position_count: 0,
            projector_hidden_dim: 0,
        },
    )
}

/// The output size of one convolution.
pub open spec fn conv_size(input: int) -> int {
    (input + 2 - 3) / 2 + 1
}

/// Why a convolution cannot be sized.
#[derive(Clone, Copy, Debug, PartialEq, Eq, Structural)]
pub struct ConvolutionInputError(pub usize);

impl ConvolutionInputError {
    /// The message text of the error.
    pub open spec fn text(self) -> Seq<char> {
        "invalid qwen3_asr convolution input size "@ + decimal(self.0 as nat)
    }

    /// The message text of the error.
    pub fn message(self) -> (message: String)
        ensures
            message@ == self.text(),
    {
        Text::start("invalid qwen3_asr convolution input size ").size(self.0).finish()
    }
}

/// The output size of one convolution. An empty input is too small for the kernel, and padding
/// must not overflow.
pub fn conv_output_size(input: usize) -> (result: Result<usize, ConvolutionInputError>)
    ensures
        match result {
            Ok(size) => 1 <= input <= usize::MAX - 2 && size == conv_size(input as int),
            Err(error) => (input == 0 || input > usize::MAX - 2) && error
                == ConvolutionInputError(input),
        },
{
    let padded: usize = match input.checked_add(CONV_PADDING * 2) {
        Some(padded) => padded,
        None => return Err(ConvolutionInputError(input)),
    };
    match padded.checked_sub(CONV_KERNEL) {
        Some(room) => Ok(room / CONV_STRIDE + 1),
        None => Err(ConvolutionInputError(input)),
    }
}

/// The tensors that come before the number of channels is known.
pub open spec fn first_asked(dim: usize) -> Seq<(Seq<char>, Rule)> {
    seq![
        ("a.position_embd.weight"@, Rule::AtLeast { dim, minimum: TOKENS_PER_CHUNK }),
        ("a.conv2d.1.weight"@, Rule::FirstKernel { side: CONV_KERNEL }),
    ]
}

/// The other convolutions and the biases.
pub open spec fn convolutions_asked(channels: usize) -> Seq<(Seq<char>, Rule)> {
    let kernel = Rule::Exact(Shape::four_spec(CONV_KERNEL, CONV_KERNEL, channels, channels));
    let bias = Rule::Exact(Shape::three_spec(1, 1, channels));
    seq![
        ("a.conv2d.2.weight"@, kernel),
        ("a.conv2d.3.weight"@, kernel),
        ("a.conv2d.1.bias"@, bias),
        ("a.conv2d.2.bias"@, bias),
        ("a.conv2d.3.bias"@, bias),
    ]
}

/// The name of a tensor of a layer.
pub open spec fn layer_name(layer: int, suffix: Seq<char>) -> Seq<char> {
    "a.blk."@ + decimal(layer as nat) + suffix
}

/// The tensors of a transformer layer.
pub open spec fn layer_asked(layer: int, dim: usize, ff_dim: usize) -> Seq<(Seq<char>, Rule)> {
    let vector = Shape::one_spec(dim);
    let square = Rule::Exact(Shape::two_spec(dim, dim));
    seq![
        (layer_name(layer, ".ln1.weight"@), Rule::Exact(vector)),
        (layer_name(layer, ".ln1.bias"@), Rule::Optional(vector)),
        (layer_name(layer, ".ln2.weight"@), Rule::Exact(vector)),
        (layer_name(layer, ".ln2.bias"@), Rule::Optional(vector)),
        (layer_name(layer, ".attn_q.weight"@), square),
        (layer_name(layer, ".attn_q.bias"@), Rule::Optional(vector)),
        (layer_name(layer, ".attn_k.weight"@), square),
        (layer_name(layer, ".attn_k.bias"@), Rule::Optional(vector)),
        (layer_name(layer, ".attn_v.weight"@), square),
        (layer_name(layer, ".attn_v.bias"@), Rule::Optional(vector)),
        (layer_name(layer, ".attn_out.weight"@), square),
        (layer_name(layer, ".attn_out.bias"@), Rule::Optional(vector)),
        (layer_name(layer, ".ffn_up.weight"@), Rule::Exact(Shape::two_spec(dim, ff_dim))),
        (layer_name(layer, ".ffn_up.bias"@), Rule::Optional(Shape::one_spec(ff_dim))),
        (layer_name(layer, ".ffn_down.weight"@), Rule::Exact(Shape::two_spec(ff_dim, dim))),
        (layer_name(layer, ".ffn_down.bias"@), Rule::Optional(vector)),
    ]
}

/// The tensors of the first `k` layers.
pub open spec fn layers_asked(k: nat, dim: usize, ff_dim: usize) -> Seq<(Seq<char>, Rule)>
    decreases k,
{
    if k == 0 {
        Seq::empty()
    } else {
        layers_asked((k - 1) as nat, dim, ff_dim) + layer_asked(k - 1, dim, ff_dim)
    }
}

/// The projection of the convolutions, the layers, the last norm and the first matrix of the
/// projector.
pub open spec fn body_asked(config: Qwen3AsrAudioConfig, flattened: usize) -> Seq<
    (Seq<char>, Rule),
> {
    let dim = config.embedding_dim;
    seq![("a.conv_out.weight"@, Rule::Exact(Shape::two_spec(flattened, dim)))] + layers_asked(
        config.layer_count as nat,
        dim,
        config.feed_forward_dim,
    ) + seq![
        ("a.post_ln.weight"@, Rule::Exact(Shape::one_spec(dim))),
        ("a.post_ln.bias"@, Rule::Exact(Shape::one_spec(dim))),
        ("mm.a.mlp.1.weight"@, Rule::AnyMatrix),
    ]
}

/// The rest of the projector up to its second matrix.
pub open spec fn projector_asked(hidden: usize) -> Seq<(Seq<char>, Rule)> {
    seq![
        ("mm.a.mlp.1.bias"@, Rule::Exact(Shape::one_spec(hidden))),
        ("mm.a.mlp.2.weight"@, Rule::AnyMatrix),
    ]
}

/// The last tensor.
pub open spec fn last_asked(projection_dim: usize) -> Seq<(Seq<char>, Rule)> {
    seq![("mm.a.mlp.2.bias"@, Rule::Exact(Shape::one_spec(projection_dim)))]
}

/// The shape of a loaded weight.
pub open spec fn shape_of(tensor: Loaded) -> Shape {
    match tensor {
        Loaded::Weight { shape, .. } => shape,
        _ => Shape { rank: 0, d0: 0, d1: 0, d2: 0, d3: 0 },
    }
}

/// The type of a loaded weight.
pub open spec fn type_of(tensor: Loaded) -> i32 {
    match tensor {
        Loaded::Weight { ttype, .. } => ttype,
        _ => 0,
    }
}

/// The number of mel bins that three convolutions leave of those of a window.
pub open spec fn reduced_mel_bins(mel_bins: int) -> int {
    conv_size(conv_size(conv_size(mel_bins)))
}

/// Whether a convolution can be computed on kernels of a type.
pub open spec fn convolution_type(ttype: i32) -> bool {
    ttype == GGML_TYPE_F16 || ttype == GGML_TYPE_F32 || ttype == GGML_TYPE_BF16
}

/// The encoder of a sidecar: its dimensions and its tensors in order.
#[verifier::ext_equal]
pub struct EncoderView {
    pub config: Qwen3AsrAudioConfig,
    pub tensors: Seq<Loaded>,
}

/// The outcome after all tensors but the types of the convolutions were checked.
pub open spec fn projector_outcome(
    gguf: TensorDirectory,
    config: Qwen3AsrAudioConfig,
    so_far: Seq<Loaded>,
) -> Result<EncoderView, Seq<char>> {
    let tensors = gguf.tensors@;
    let mapped = gguf.mapped_len;
    let up = shape_of(so_far.last());
    let hidden = up.d1;
    let wanted = Shape::two_spec(hidden, config.projection_dim);
    if up.d0 != config.embedding_dim {
        Err(AsrError::ProjectorInput { got: up.d0, dim: config.embedding_dim }.text())
    } else if hidden == 0 {
        Err(AsrError::ProjectorHiddenZero.text())
    } else {
        match with_tensors(tensors, mapped, so_far, projector_asked(hidden)) {
            Err(text) => Err(text),
            Ok(most) => if shape_of(most.last()) != wanted {
                Err(AsrError::ProjectorDown { shape: shape_of(most.last()), wanted_shape: wanted }.text())
            } else {
                match with_tensors(tensors, mapped, most, last_asked(config.projection_dim)) {
                    Err(text) => Err(text),
                    Ok(all) => if !convolution_type(type_of(all[1])) {
                        Err(convolution_type_text("a.conv2d.1.weight"@, type_of(all[1])))
                    } else if !convolution_type(type_of(all[2])) {
                        Err(convolution_type_text("a.conv2d.2.weight"@, type_of(all[2])))
                    } else if !convolution_type(type_of(all[3])) {
                        Err(convolution_type_text("a.conv2d.3.weight"@, type_of(all[3])))
                    } else {
                        Ok(
                            EncoderView {
                                config: Qwen3AsrAudioConfig {
                                    projector_hidden_dim: hidden,
                                    ..config
                                },
                                tensors: all,
                            },
                        )
                    },
                }
            },
        }
    }
}

/// The outcome after the first tensors were loaded.
pub open spec fn body_outcome(
    gguf: TensorDirectory,
    config: Qwen3AsrAudioConfig,
    so_far: Seq<Loaded>,
) -> Result<EncoderView, Seq<char>> {
    let tensors = gguf.tensors@;
    let mapped = gguf.mapped_len;
    let channels = config.convolution_channel_count;
    let flattened = channels * reduced_mel_bins(config.mel_bin_count as int);
    match with_tensors(tensors, mapped, so_far, convolutions_asked(channels)) {
        Err(text) => Err(text),
        Ok(front) => if flattened > usize::MAX {
            Err(AsrError::FlattenedOverflow.text())
        } else {
            match with_tensors(tensors, mapped, front, body_asked(config, flattened as usize)) {
                Err(text) => Err(text),
                Ok(body) => projector_outcome(gguf, config, body),
            }
        },
    }
}

/// The encoder of a sidecar, or the text of the first thing that is wrong with it.
pub open spec fn encoder_outcome(
    meta: AudioMetadata,
    gguf: TensorDirectory,
    expected_projection_dim: usize,
) -> Result<EncoderView, Seq<char>> {
    match metadata_outcome(meta, expected_projection_dim) {
        Err(text) => Err(text),
        Ok(config) => match with_tensors(
            gguf.tensors@,
            gguf.mapped_len,
            Seq::empty(),
            first_asked(config.embedding_dim),
        ) {
            Err(text) => Err(text),
            Ok(first) => body_outcome(
                gguf,
                Qwen3AsrAudioConfig {
                    position_count: shape_of(first[0]).d1,
                    convolution_channel_count: shape_of(first[1]).d3,
                    ..config
                },
                first,
            ),
        },
    }
}

/// The audio encoder: its dimensions and its tensors. The tensors are the position table, the
/// kernels and biases of the three convolutions, their projection, those of the layers, the
/// weight and bias of the last norm, and the matrices and biases of the projector.
#[derive(Debug)]
pub struct Qwen3AsrAudioEncoder {
    pub config: Qwen3AsrAudioConfig,
    pub tensors: Vec<Loaded>,
}

impl View for Qwen3AsrAudioEncoder {
    type V = EncoderView;

    open spec fn view(&self) -> EncoderView {
        EncoderView { config: self.config, tensors: self.tensors@ }
    }
}

fn ask_layer(list: &mut Vec<Requirement>, layer: usize, suffix: &str, rule: Rule)
    ensures
        asked(final(list)@) == asked(old(list)@).push((layer_name(layer as int, suffix@), rule)),
        final(list)@.len() == old(list)@.len() + 1,
        !counts_elements(rule) && no_counts(old(list)@) ==> no_counts(final(list)@),
{
    let name: String = Text::start("a.blk.").size(layer).text(suffix).finish();
    ask(list, name.as_str(), rule);
}

fn ask_whole_layer(list: &mut Vec<Requirement>, layer: usize, dim: usize, ff_dim: usize)
    requires
        no_counts(old(list)@),
    ensures
        asked(final(list)@) == asked(old(list)@) + layer_asked(layer as int, dim, ff_dim),
        final(list)@.len() == old(list)@.len() + TENSORS_PER_LAYER,
        no_counts(final(list)@),
{
    let vector = Shape::one(dim);
    let square = Rule::Exact(Shape::two(dim, dim));
    ask_layer(list, layer, ".ln1.weight", Rule::Exact(vector));
    ask_layer(list, layer, ".ln1.bias", Rule::Optional(vector));
    ask_layer(list, layer, ".ln2.weight", Rule::Exact(vector));
    ask_layer(list, layer, ".ln2.bias", Rule::Optional(vector));
    ask_layer(list, layer, ".attn_q.weight", square);
    ask_layer(list, layer, ".attn_q.bias", Rule::Optional(vector));
    ask_layer(list, layer, ".attn_k.weight", square);
    ask_layer(list, layer, ".attn_k.bias", Rule::Optional(vector));
    ask_layer(list, layer, ".attn_v.weight", square);
    ask_layer(list, layer, ".attn_v.bias", Rule::Optional(vector));
    ask_layer(list, layer, ".attn_out.weight", square);
    ask_layer(list, layer, ".attn_out.bias", Rule::Optional(vector));
    ask_layer(list, layer, ".ffn_up.weight", Rule::Exact(Shape::two(dim, ff_dim)));
    ask_layer(list, layer, ".ffn_up.bias", Rule::Optional(Shape::one(ff_dim)));
    ask_layer(list, layer, ".ffn_down.weight", Rule::Exact(Shape::two(ff_dim, dim)));
    ask_layer(list, layer, ".ffn_down.bias", Rule::Optional(vector));
    assert(asked(list@) =~= asked(old(list)@) + layer_asked(layer as int, dim, ff_dim));
}

fn weight_shape(tensor: Loaded) -> (shape: Shape)
    ensures
        shape == shape_of(tensor),
{
    match tensor {
        Loaded::Weight { shape, .. } => shape,
        _ => Shape { rank: 0, d0: 0, d1: 0, d2: 0, d3: 0 },
    }
}

fn weight_type(tensor: Loaded) -> (ttype: i32)
    ensures
        ttype == type_of(tensor),
{
    match tensor {
        Loaded::Weight { ttype, .. } => ttype,
        _ => 0,
    }
}

fn check_convolution_type(name: &str, tensor: Loaded) -> (result: Result<(), AsrError>)
    ensures
        match result {
            Ok(_) => convolution_type(type_of(tensor)),
            Err(error) => !convolution_type(type_of(tensor)) && error.text()
                == convolution_type_text(name@, type_of(tensor)),
        },
{
    let ttype: i32 = weight_type(tensor);
    if ttype == GGML_TYPE_F16 || ttype == GGML_TYPE_F32 || ttype == GGML_TYPE_BF16 {
        Ok(())
    } else {
        Err(AsrError::ConvolutionType { name: name.to_owned(), ttype })
    }
}

fn load_projector(gguf: &TensorDirectory, config: Qwen3AsrAudioConfig, mut loaded: Vec<Loaded>)
    -> (result: Result<Qwen3AsrAudioEncoder, AsrError>)
    requires
        loaded@.len() >= 4,
    ensures
        match result {
            Ok(encoder) => projector_outcome(*gguf, config, loaded@) == Ok::<
                EncoderView,
                Seq<char>,
            >(encoder@),
            Err(error) => projector_outcome(*gguf, config, loaded@) == Err::<
                EncoderView,
                Seq<char>,
            >(error.text()),
        },
{
    let up = weight_shape(loaded[loaded.len() - 1]);
    if up.d0 != config.embedding_dim {
        return Err(AsrError::ProjectorInput { got: up.d0, dim: config.embedding_dim });
    }
    let hidden: usize = up.d1;
    if hidden == 0 {
        return Err(AsrError::ProjectorHiddenZero);
    }
    let mut list: Vec<Requirement> = Vec::new();
    ask(&mut list, "mm.a.mlp.1.bias", Rule::Exact(Shape::one(hidden)));
    ask(&mut list, "mm.a.mlp.2.weight", Rule::AnyMatrix);
    assert(asked(list@) =~= projector_asked(hidden));
    match load_more(gguf, &list, &mut loaded) {
        Ok(_) => {},
        Err(error) => return Err(AsrError::Tensor(error)),
    }
    let down = weight_shape(loaded[loaded.len() - 1]);
    let wanted = Shape::two(hidden, config.projection_dim);
    if down != wanted {
        return Err(AsrError::ProjectorDown { shape: down, wanted_shape: wanted });
    }
    let mut last: Vec<Requirement> = Vec::new();
    ask(&mut last, "mm.a.mlp.2.bias", Rule::Exact(Shape::one(config.projection_dim)));
    assert(asked(last@) =~= last_asked(config.projection_dim));
    match load_more(gguf, &last, &mut loaded) {
        Ok(_) => {},
        Err(error) => return Err(AsrError::Tensor(error)),
    }
    match check_convolution_type("a.conv2d.1.weight", loaded[1]) {
        Ok(_) => {},
        Err(error) => return Err(error),
    }
    match check_convolution_type("a.conv2d.2.weight", loaded[2]) {
        Ok(_) => {},
        Err(error) => return Err(error),
    }
    match check_convolution_type("a.conv2d.3.weight", loaded[3]) {
        Ok(_) => {},
        Err(error) => return Err(error),
    }
    Ok(
        Qwen3AsrAudioEncoder {
            config: Qwen3AsrAudioConfig { projector_hidden_dim: hidden, ..config },
            tensors: loaded,
        },
    )
}

fn ask_body(config: Qwen3AsrAudioConfig, flattened: usize) -> (list: Vec<Requirement>)
    ensures
        asked(list@) == body_asked(config, flattened),
        no_counts(list@),
{
    let dim: usize = config.embedding_dim;
    let ff_dim: usize = config.feed_forward_dim;
    let mut list: Vec<Requirement> = Vec::new();
    ask(&mut list, "a.conv_out.weight", Rule::Exact(Shape::two(flattened, dim)));
    let ghost front = asked(list@);
    assert(front =~= seq![
        ("a.conv_out.weight"@, Rule::Exact(Shape::two_spec(flattened, dim))),
    ]);
    let mut layer: usize = 0;
    assert(asked(list@) =~= front + layers_asked(0, dim, ff_dim));
    while layer < config.layer_count
        invariant
            layer <= config.layer_count,
            no_counts(list@),
            asked(list@) == front + layers_asked(layer as nat, dim, ff_dim),
        decreases config.layer_count - layer,
    {
        ask_whole_layer(&mut list, layer, dim, ff_dim);
        assert(asked(list@) =~= front + layers_asked((layer + 1) as nat, dim, ff_dim));
        layer = layer + 1;
    }
    ask(&mut list, "a.post_ln.weight", Rule::Exact(Shape::one(dim)));
    ask(&mut list, "a.post_ln.bias", Rule::Exact(Shape::one(dim)));
    ask(&mut list, "mm.a.mlp.1.weight", Rule::AnyMatrix);
    assert(asked(list@) =~= body_asked(config, flattened));
    list
}

impl Qwen3AsrAudioEncoder {
    /// The encoder of a sidecar.
    pub fn new(meta: &AudioMetadata, gguf: &TensorDirectory, expected_projection_dim: usize)
        -> (result: Result<Qwen3AsrAudioEncoder, AsrError>)
        ensures
            match result {
                Ok(encoder) => encoder_outcome(*meta, *gguf, expected_projection_dim) == Ok::<
                    EncoderView,
                    Seq<char>,
                >(encoder@),
                Err(error) => encoder_outcome(*meta, *gguf, expected_projection_dim) == Err::<
                    EncoderView,
                    Seq<char>,
                >(error.text()),
            },
    {
        let config = match parse_metadata(meta, expected_projection_dim) {
            Ok(config) => config,
            Err(error) => return Err(error),
        };
        let mut list: Vec<Requirement> = Vec::new();
        ask(
            &mut list,
            "a.position_embd.weight",
            Rule::AtLeast { dim: config.embedding_dim, minimum: TOKENS_PER_CHUNK },
        );
        ask(&mut list, "a.conv2d.1.weight", Rule::FirstKernel { side: CONV_KERNEL });
        assert(asked(list@) =~= first_asked(config.embedding_dim));
        let mut loaded: Vec<Loaded> = Vec::new();
        match load_more(gguf, &list, &mut loaded) {
            Ok(_) => {},
            Err(error) => return Err(AsrError::Tensor(error)),
        }
        assert(Seq::<Loaded>::empty() + loaded@ =~= loaded@);
        let channels: usize = weight_shape(loaded[1]).d3;
        let config = Qwen3AsrAudioConfig {
            position_count: weight_shape(loaded[0]).d1,
            convolution_channel_count: channels,
            ..config
        };
        let kernel = Rule::Exact(Shape::four(CONV_KERNEL, CONV_KERNEL, channels, channels));
        let bias = Rule::Exact(Shape::three(1, 1, channels));
        let mut rest: Vec<Requirement> = Vec::new();
        ask(&mut rest, "a.conv2d.2.weight", kernel);
        ask(&mut rest, "a.conv2d.3.weight", kernel);
        ask(&mut rest, "a.conv2d.1.bias", bias);
        ask(&mut rest, "a.conv2d.2.bias", bias);
        ask(&mut rest, "a.conv2d.3.bias", bias);
        assert(asked(rest@) =~= convolutions_asked(channels));
        match load_more(gguf, &rest, &mut loaded) {
            Ok(_) => {},
            Err(error) => return Err(AsrError::Tensor(error)),
        }
        let reduced: usize = 16;
        assert(reduced == reduced_mel_bins(config.mel_bin_count as int)) by {
            assert(conv_size(128) == 64 && conv_size(64) == 32 && conv_size(32) == 16);
        }
        let flattened: usize = match channels.checked_mul(reduced) {
            Some(flattened) => flattened,
            None => return Err(AsrError::FlattenedOverflow),
        };
        let body = ask_body(config, flattened);
        match load_more(gguf, &body, &mut loaded) {
            Ok(_) => {},
            Err(error) => return Err(AsrError::Tensor(error)),
        }
        load_projector(gguf, config, loaded)
    }

    /// A summary of the encoder's dimensions.
    pub open spec fn summary(&self) -> Seq<char> {
        "qwen3_asr(dim="@ + decimal(self.config.embedding_dim as nat) + ", conv_channels="@
            + decimal(self.config.convolution_channel_count as nat) + ", ff="@ + decimal(
            self.config.feed_forward_dim as nat,
        ) + ", layers="@ + decimal(self.config.layer_count as nat) + ", heads="@ + decimal(
            self.config.head_count as nat,
        ) + ", mel_bins="@ + decimal(self.config.mel_bin_count as nat) + ", positions="@ + decimal(
            self.config.position_count as nat,
        ) + ", projector_hidden="@ + decimal(self.config.projector_hidden_dim as nat)
            + ", output_dim="@ + decimal(self.config.projection_dim as nat) + ")"@
    }

    /// A summary of the encoder's dimensions.
    pub fn contract_summary(&self) -> (summary: String)
        ensures
            summary@ == self.summary(),
    {
        Text::start("qwen3_asr(dim=").size(self.config.embedding_dim).text(
            ", conv_channels=",
        ).size(self.config.convolution_channel_count).text(", ff=").size(
            self.config.feed_forward_dim,
        ).text(", layers=").size(self.config.layer_count).text(", heads=").size(
            self.config.head_count,
        ).text(", mel_bins=").size(self.config.mel_bin_count).text(", positions=").size(
            self.config.position_count,
        ).text(", projector_hidden=").size(self.config.projector_hidden_dim).text(
            ", output_dim=",
        ).size(self.config.projection_dim).text(")").finish()
    }
}

/// What reading a weight as a matrix gives.
pub open spec fn matrix_outcome(weight: Loaded, rows: usize, cols: usize) -> Option<
    QuantizedTensor,
> {
    match weight {
        Loaded::Weight { data_offset, ttype, shape } => if shape == Shape::two_spec(cols, rows) {
            Some(QuantizedTensor { data_offset, ttype, rows, cols })
        } else {
            None
        },
        _ => None,
    }
}

/// The text of a weight that is not the matrix it is read as.
pub open spec fn matrix_mismatch_text(name: Seq<char>, got: Shape, rows: usize, cols: usize) -> Seq<
    char,
> {
    "qwen3_asr tensor "@ + name + " runtime matrix shape mismatch: got "@ + got.text()
        + ", expected "@ + Shape::two_spec(cols, rows).text()
}

/// Reads a weight as a matrix, or gives the text of the mismatch.
pub fn quantized_matrix(name: &str, weight: Loaded, rows: usize, cols: usize) -> (result: Result<
    QuantizedTensor,
    String,
>)
    ensures
        match result {
            Ok(matrix) => matrix_outcome(weight, rows, cols) == Some(matrix),
            Err(text) => matrix_outcome(weight, rows, cols) is None && text@
                == matrix_mismatch_text(name@, shape_of(weight), rows, cols),
        },
{
    let wanted = Shape::two(cols, rows);
    if let Loaded::Weight { data_offset, ttype, shape } = weight {
        if shape == wanted {
            return Ok(QuantizedTensor { data_offset, ttype, rows, cols });
        }
    }
    Err(
        Text::start("qwen3_asr tensor ").text(name).text(
            " runtime matrix shape mismatch: got ",
        ).text(weight_shape(weight).message().as_str()).text(", expected ").text(
            wanted.message().as_str(),
        ).finish(),
    )
}

/// A weight that was loaded with the shape of a matrix can be read as that matrix.
pub proof fn exact_matrices_can_be_read(
    tensors: Seq<Gguftensor>,
    mapped_len: usize,
    name: Seq<char>,
    rows: usize,
    cols: usize,
)
    ensures
        outcome(tensors, mapped_len, name, Rule::Exact(Shape::two_spec(cols, rows))) matches Ok(
            weight,
        ) ==> matrix_outcome(weight, rows, cols) is Some,
{
    match find_by_name(tensors, name) {
        Some(tensor) => {},
        None => {},
    }
}

/// A convolution has an output for every other place of its input, from the first on.
pub proof fn convolutions_take_every_other_place(input: int)
    requires
        input >= 1,
    ensures
        2 * (conv_size(input) - 1) < input <= 2 * conv_size(input),
{
}

/// Metadata is accepted exactly where it describes an audio encoder of the supported kind, with
/// positive dimensions, the wanted projection and heads of equal width. The encoder has these
/// dimensions.
pub proof fn metadata_gives_the_dimensions(meta: AudioMetadata, expected_projection_dim: usize)
    ensures
        metadata_outcome(meta, expected_projection_dim) is Ok <==> {
            &&& meta.architecture@ == "clip"@
            &&& meta.has_audio_encoder
            &&& meta.projector_type@ == "qwen3a"@
            &&& 0 < meta.embedding_length <= usize::MAX
            &&& 0 < meta.feed_forward_length <= usize::MAX
            &&& 0 < meta.block_count <= usize::MAX
            &&& 0 < meta.head_count <= usize::MAX
            &&& meta.num_mel_bins == 128
            &&& 0 < meta.projection_dim
            &&& meta.projection_dim == expected_projection_dim
            &&& meta.embedding_length as int % meta.head_count as int == 0
            &&& 0 < meta.layer_norm_epsilon < 0x7f80_0000
        },
        metadata_outcome(meta, expected_projection_dim) matches Ok(config) ==> {
            &&& config.embedding_dim == meta.embedding_length
            &&& config.feed_forward_dim == meta.feed_forward_length
            &&& config.layer_count == meta.block_count
            &&& config.head_count == meta.head_count
            &&& config.head_dim * config.head_count == meta.embedding_length
            &&& config.layer_norm_epsilon == meta.layer_norm_epsilon
            &&& config.mel_bin_count == 128
            &&& config.projection_dim == expected_projection_dim
        },
{
    if meta.embedding_length > 0 && meta.head_count > 0 {
        let len = meta.embedding_length as int;
        let heads = meta.head_count as int;
        vstd::arithmetic::div_mod::lemma_fundamental_div_mod(len, heads);
        vstd::arithmetic::div_mod::lemma_div_pos_is_pos(len, heads);
        vstd::arithmetic::div_mod::lemma_div_is_ordered_by_denominator(len, 1, heads);
        assert((len / heads) * heads == heads * (len / heads)) by (nonlinear_arith);
    }
}

proof fn lemma_with_tensors(
    tensors: Seq<Gguftensor>,
    mapped_len: usize,
    so_far: Seq<Loaded>,
    more: Seq<(Seq<char>, Rule)>,
)
    ensures
        with_tensors(tensors, mapped_len, so_far, more) matches Ok(all) ==> {
            &&& all.len() == so_far.len() + more.len()
            &&& forall|i: int| 0 <= i < so_far.len() ==> #[trigger] all[i] == so_far[i]
            &&& forall|i: int|
                0 <= i < more.len() ==> outcome(
                    tensors,
                    mapped_len,
                    (#[trigger] more[i]).0,
                    more[i].1,
                ) == Ok::<Loaded, TensorProblem>(all[so_far.len() + i])
        },
{
    if more.len() > 0 && with_tensors(tensors, mapped_len, so_far, more) is Ok {
        loaded_tensors_follow_their_rules(tensors, mapped_len, more, more.len(), 0);
        assert forall|i: int| 0 <= i < more.len() implies outcome(
            tensors,
            mapped_len,
            (#[trigger] more[i]).0,
            more[i].1,
        ) == Ok::<Loaded, TensorProblem>(
            with_tensors(tensors, mapped_len, so_far, more)->Ok_0[so_far.len() + i],
        ) by {
            loaded_tensors_follow_their_rules(tensors, mapped_len, more, more.len(), i);
        }
    }
}

proof fn lemma_layers_asked(k: nat, dim: usize, ff_dim: usize, l: int, j: int)
    ensures
        layers_asked(k, dim, ff_dim).len() == 16 * k,
        0 <= l < k && 0 <= j < 16 ==> layers_asked(k, dim, ff_dim)[16 * l + j] == layer_asked(
            l,
            dim,
            ff_dim,
        )[j],
    decreases k,
{
    if k > 0 {
        lemma_layers_asked((k - 1) as nat, dim, ff_dim, l, j);
    }
}

/// Where the sidecar holds a tensor as a rule asks, and it is the one at a place of the encoder.
#[verifier::opaque]
pub open spec fn holds_at(
    encoder: EncoderView,
    gguf: TensorDirectory,
    place: int,
    name: Seq<char>,
    rule: Rule,
) -> bool {
    outcome(gguf.tensors@, gguf.mapped_len, name, rule) == Ok::<Loaded, TensorProblem>(
        encoder.tensors[place],
    )
}

proof fn lemma_projector_tensors(
    gguf: TensorDirectory,
    config: Qwen3AsrAudioConfig,
    so_far: Seq<Loaded>,
)
    requires
        so_far.len() > 0,
    ensures
        projector_outcome(gguf, config, so_far) matches Ok(encoder) ==> {
            let n = so_far.len() as int;
            let hidden = encoder.config.projector_hidden_dim;
            &&& encoder.config == Qwen3AsrAudioConfig { projector_hidden_dim: hidden, ..config }
            &&& encoder.tensors.len() == n + 3
            &&& forall|i: int| 0 <= i < n ==> #[trigger] encoder.tensors[i] == so_far[i]
            &&& hidden == shape_of(so_far.last()).d1
            &&& shape_of(so_far.last()).d0 == config.embedding_dim
            &&& hidden > 0
            &&& holds_at(
                encoder,
                gguf,
                n,
                "mm.a.mlp.1.bias"@,
                Rule::Exact(Shape::one_spec(hidden)),
            )
            &&& holds_at(encoder, gguf, n + 1, "mm.a.mlp.2.weight"@, Rule::AnyMatrix)
            &&& shape_of(encoder.tensors[n + 1]) == Shape::two_spec(hidden, config.projection_dim)
            &&& holds_at(
                encoder,
                gguf,
                n + 2,
                "mm.a.mlp.2.bias"@,
                Rule::Exact(Shape::one_spec(config.projection_dim)),
            )
            &&& forall|i: int|
                1 <= i <= 3 ==> convolution_type(type_of(#[trigger] encoder.tensors[i]))
        },
{
    reveal(holds_at);
    let hidden = shape_of(so_far.last()).d1;
    let list = projector_asked(hidden);
    lemma_with_tensors(gguf.tensors@, gguf.mapped_len, so_far, list);
    match with_tensors(gguf.tensors@, gguf.mapped_len, so_far, list) {
        Ok(most) => {
            let rest = last_asked(config.projection_dim);
            lemma_with_tensors(gguf.tensors@, gguf.mapped_len, most, rest);
            assert(list[0].0 == "mm.a.mlp.1.bias"@);
            assert(list[1].0 == "mm.a.mlp.2.weight"@);
            assert(rest[0].0 == "mm.a.mlp.2.bias"@);
            assert(most.last() == most[so_far.len() + 1int]);
        },
        Err(_) => {},
    }
}

proof fn lemma_body_tensors(gguf: TensorDirectory, config: Qwen3AsrAudioConfig, so_far: Seq<Loaded>)
    requires
        so_far.len() == 2,
    ensures
        body_outcome(gguf, config, so_far) matches Ok(encoder) ==> {
            let channels = config.convolution_channel_count;
            let flattened = channels * reduced_mel_bins(config.mel_bin_count as int);
            let list = convolutions_asked(channels);
            let body = body_asked(config, flattened as usize);
            let hidden = encoder.config.projector_hidden_dim;
            &&& flattened <= usize::MAX
            &&& encoder.config == Qwen3AsrAudioConfig { projector_hidden_dim: hidden, ..config }
            &&& body.len() == 16 * config.layer_count + 4
            &&& encoder.tensors.len() == 16 * config.layer_count + 14
            &&& forall|i: int| 0 <= i < 2 ==> #[trigger] encoder.tensors[i] == so_far[i]
            &&& forall|i: int|
                0 <= i < 5 ==> holds_at(encoder, gguf, 2 + i, (#[trigger] list[i]).0, list[i].1)
            &&& forall|i: int|
                0 <= i < body.len() ==> holds_at(
                    encoder,
                    gguf,
                    7 + i,
                    (#[trigger] body[i]).0,
                    body[i].1,
                )
            &&& hidden == shape_of(encoder.tensors[16 * config.layer_count + 10]).d1
            &&& shape_of(encoder.tensors[16 * config.layer_count + 10]).d0 == config.embedding_dim
            &&& holds_at(
                encoder,
                gguf,
                16 * config.layer_count + 11,
                "mm.a.mlp.1.bias"@,
                Rule::Exact(Shape::one_spec(hidden)),
            )
            &&& shape_of(encoder.tensors[16 * config.layer_count + 12]) == Shape::two_spec(
                hidden,
                config.projection_dim,
            )
            &&& holds_at(
                encoder,
                gguf,
                16 * config.layer_count + 12,
                "mm.a.mlp.2.weight"@,
                Rule::AnyMatrix,
            )
            &&& holds_at(
                encoder,
                gguf,
                16 * config.layer_count + 13,
                "mm.a.mlp.2.bias"@,
                Rule::Exact(Shape::one_spec(config.projection_dim)),
            )
        },
{
    reveal(holds_at);
    let channels = config.convolution_channel_count;
    let flattened = channels * reduced_mel_bins(config.mel_bin_count as int);
    let list = convolutions_asked(channels);
    let body = body_asked(config, flattened as usize);
    lemma_with_tensors(gguf.tensors@, gguf.mapped_len, so_far, list);
    lemma_layers_asked(
        config.layer_count as nat,
        config.embedding_dim,
        config.feed_forward_dim,
        0,
        0,
    );
    assert(body.len() == 16 * config.layer_count + 4);
    match with_tensors(gguf.tensors@, gguf.mapped_len, so_far, list) {
        Ok(front) => {
            lemma_with_tensors(gguf.tensors@, gguf.mapped_len, front, body);
            match with_tensors(gguf.tensors@, gguf.mapped_len, front, body) {
                Ok(all) => {
                    lemma_projector_tensors(gguf, config, all);
                    match body_outcome(gguf, config, so_far) {
                        Ok(encoder) => {
                            assert forall|i: int| 0 <= i < 5 implies holds_at(
                                encoder,
                                gguf,
                                2 + i,
                                (#[trigger] list[i]).0,
                                list[i].1,
                            ) by {
                                assert(encoder.tensors[2 + i] == all[2 + i]);
                                assert(all[2 + i] == front[2 + i]);
                            }
                            assert forall|i: int| 0 <= i < body.len() implies holds_at(
                                encoder,
                                gguf,
                                7 + i,
                                (#[trigger] body[i]).0,
                                body[i].1,
                            ) by {
                                assert(encoder.tensors[7 + i] == all[7 + i]);
                            }
                            assert(all.last() == encoder.tensors[16 * config.layer_count + 10]);
                        },
                        Err(_) => {},
                    }
                },
                Err(_) => {},
            }
        },
        Err(_) => {},
    }
}

proof fn lemma_asked_places(config: Qwen3AsrAudioConfig, flattened: usize)
    ensures
        ({
            let dim = config.embedding_dim;
            let vector = Rule::Exact(Shape::one_spec(dim));
            let body = body_asked(config, flattened);
            let n = 16 * config.layer_count;
            &&& body.len() == n + 4
            &&& body[0] == ("a.conv_out.weight"@, Rule::Exact(Shape::two_spec(flattened, dim)))
            &&& body[n + 1] == ("a.post_ln.weight"@, vector)
            &&& body[n + 2] == ("a.post_ln.bias"@, vector)
            &&& body[n + 3] == ("mm.a.mlp.1.weight"@, Rule::AnyMatrix)
        }),
{
    lemma_layers_asked(
        config.layer_count as nat,
        config.embedding_dim,
        config.feed_forward_dim,
        0,
        0,
    );
}

proof fn lemma_kernel_places(channels: usize)
    ensures
        ({
            let kernel = Rule::Exact(Shape::four_spec(3, 3, channels, channels));
            let bias = Rule::Exact(Shape::three_spec(1, 1, channels));
            let list = convolutions_asked(channels);
            &&& list.len() == 5
            &&& list[0] == ("a.conv2d.2.weight"@, kernel)
            &&& list[1] == ("a.conv2d.3.weight"@, kernel)
            &&& list[2] == ("a.conv2d.1.bias"@, bias)
            &&& list[3] == ("a.conv2d.2.bias"@, bias)
            &&& list[4] == ("a.conv2d.3.bias"@, bias)
        }),
{
}

/// An encoder holds the tensors of its sidecar in order: the position table, the kernels and the
/// biases of the convolutions, their projection, sixteen tensors for each layer, the last norm, and
/// the two matrices of the projector with their biases. The sides of one fit those of the next.
pub proof fn encoders_hold_their_tensors_in_order(
    meta: AudioMetadata,
    gguf: TensorDirectory,
    expected_projection_dim: usize,
)
    ensures
        encoder_outcome(meta, gguf, expected_projection_dim) matches Ok(encoder) ==> {
            let config = encoder.config;
            let dim = config.embedding_dim;
            let channels = config.convolution_channel_count;
            let hidden = config.projector_hidden_dim;
            let kernel = Rule::Exact(Shape::four_spec(3, 3, channels, channels));
            let bias = Rule::Exact(Shape::three_spec(1, 1, channels));
            let vector = Rule::Exact(Shape::one_spec(dim));
            let last = 8 + 16 * config.layer_count;
            &&& encoder.tensors.len() == last + 6
            &&& dim == meta.embedding_length
            &&& config.layer_count == meta.block_count
            &&& config.projection_dim == expected_projection_dim
            &&& holds_at(
                encoder,
                gguf,
                0,
                "a.position_embd.weight"@,
                Rule::AtLeast { dim, minimum: 13 },
            )
            &&& config.position_count == shape_of(encoder.tensors[0]).d1
            &&& holds_at(encoder, gguf, 1, "a.conv2d.1.weight"@, Rule::FirstKernel { side: 3 })
            &&& channels == shape_of(encoder.tensors[1]).d3
            &&& holds_at(encoder, gguf, 2, "a.conv2d.2.weight"@, kernel)
            &&& holds_at(encoder, gguf, 3, "a.conv2d.3.weight"@, kernel)
            &&& holds_at(encoder, gguf, 4, "a.conv2d.1.bias"@, bias)
            &&& holds_at(encoder, gguf, 5, "a.conv2d.2.bias"@, bias)
            &&& holds_at(encoder, gguf, 6, "a.conv2d.3.bias"@, bias)
            &&& channels * 16 <= usize::MAX
            &&& holds_at(
                encoder,
                gguf,
                7,
                "a.conv_out.weight"@,
                Rule::Exact(Shape::two_spec((channels * 16) as usize, dim)),
            )
            &&& holds_at(encoder, gguf, last, "a.post_ln.weight"@, vector)
            &&& holds_at(encoder, gguf, last + 1, "a.post_ln.bias"@, vector)
            &&& holds_at(encoder, gguf, last + 2, "mm.a.mlp.1.weight"@, Rule::AnyMatrix)
            &&& shape_of(encoder.tensors[last + 2]).d0 == dim
            &&& shape_of(encoder.tensors[last + 2]).d1 == hidden
            &&& holds_at(
                encoder,
                gguf,
                last + 3,
                "mm.a.mlp.1.bias"@,
                Rule::Exact(Shape::one_spec(hidden)),
            )
            &&& holds_at(encoder, gguf, last + 4, "mm.a.mlp.2.weight"@, Rule::AnyMatrix)
            &&& shape_of(encoder.tensors[last + 4]) == Shape::two_spec(
                hidden,
                expected_projection_dim,
            )
            &&& holds_at(
                encoder,
                gguf,
                last + 5,
                "mm.a.mlp.2.bias"@,
                Rule::Exact(Shape::one_spec(expected_projection_dim)),
            )
        },
{
    match metadata_outcome(meta, expected_projection_dim) {
        Ok(config) => {
            let list = first_asked(config.embedding_dim);
            lemma_with_tensors(gguf.tensors@, gguf.mapped_len, Seq::empty(), list);
            match with_tensors(gguf.tensors@, gguf.mapped_len, Seq::empty(), list) {
                Ok(first) => {
                    let full = Qwen3AsrAudioConfig {
                        position_count: shape_of(first[0]).d1,
                        convolution_channel_count: shape_of(first[1]).d3,
                        ..config
                    };
                    lemma_body_tensors(gguf, full, first);
                    metadata_gives_the_dimensions(meta, expected_projection_dim);
                    assert(reduced_mel_bins(128) == 16);
                    lemma_kernel_places(full.convolution_channel_count);
                    lemma_asked_places(full, (full.convolution_channel_count * 16) as usize);
                    match body_outcome(gguf, full, first) {
                        Ok(encoder) => {
                            assert(holds_at(encoder, gguf, 0, list[0].0, list[0].1)) by {
                                reveal(holds_at);
                                assert(encoder.tensors[0] == first[0]);
                            }
                            assert(holds_at(encoder, gguf, 1, list[1].0, list[1].1)) by {
                                reveal(holds_at);
                                assert(encoder.tensors[1] == first[1]);
                            }
                        },
                        Err(_) => {},
                    }
                },
                Err(_) => {},
            }
        },
        Err(_) => {},
    }
}

proof fn lemma_layer_places(config: Qwen3AsrAudioConfig, flattened: usize, l: int, j: int)
    requires
        0 <= l < config.layer_count,
        0 <= j < 16,
    ensures
        body_asked(config, flattened).len() == 16 * config.layer_count + 4,
        body_asked(config, flattened)[1 + 16 * l + j] == layer_asked(
            l,
            config.embedding_dim,
            config.feed_forward_dim,
        )[j],
{
    lemma_layers_asked(
        config.layer_count as nat,
        config.embedding_dim,
        config.feed_forward_dim,
        l,
        j,
    );
}

/// Every layer of an encoder has its own sixteen tensors, named by its number: the two norms, the
/// four projections of the attention with square matrices, and the two of the feed-forward network,
/// each weight followed by a bias that may be absent.
pub proof fn every_layer_has_its_tensors(
    meta: AudioMetadata,
    gguf: TensorDirectory,
    expected_projection_dim: usize,
    l: int,
)
    ensures
        encoder_outcome(meta, gguf, expected_projection_dim) matches Ok(encoder) ==> (0 <= l
            < encoder.config.layer_count ==> {
            let dim = encoder.config.embedding_dim;
            let wide = encoder.config.feed_forward_dim;
            let vector = Shape::one_spec(dim);
            let square = Rule::Exact(Shape::two_spec(dim, dim));
            let layer = "a.blk."@ + decimal(l as nat);
            let at = 8 + 16 * l;
            &&& holds_at(encoder, gguf, at + 0, layer + ".ln1.weight"@, Rule::Exact(vector))
            &&& holds_at(encoder, gguf, at + 1, layer + ".ln1.bias"@, Rule::Optional(vector))
            &&& holds_at(encoder, gguf, at + 2, layer + ".ln2.weight"@, Rule::Exact(vector))
            &&& holds_at(encoder, gguf, at + 3, layer + ".ln2.bias"@, Rule::Optional(vector))
            &&& holds_at(encoder, gguf, at + 4, layer + ".attn_q.weight"@, square)
            &&& holds_at(encoder, gguf, at + 5, layer + ".attn_q.bias"@, Rule::Optional(vector))
            &&& holds_at(encoder, gguf, at + 6, layer + ".attn_k.weight"@, square)
            &&& holds_at(encoder, gguf, at + 7, layer + ".attn_k.bias"@, Rule::Optional(vector))
            &&& holds_at(encoder, gguf, at + 8, layer + ".attn_v.weight"@, square)
            &&& holds_at(encoder, gguf, at + 9, layer + ".attn_v.bias"@, Rule::Optional(vector))
            &&& holds_at(encoder, gguf, at + 10, layer + ".attn_out.weight"@, square)
            &&& holds_at(encoder, gguf, at + 11, layer + ".attn_out.bias"@, Rule::Optional(vector))
            &&& holds_at(encoder, gguf, at + 12, layer + ".ffn_up.weight"@, Rule::Exact(Shape::two_spec(dim, wide)))
            &&& holds_at(encoder, gguf, at + 13, layer + ".ffn_up.bias"@, Rule::Optional(Shape::one_spec(wide)))
            &&& holds_at(encoder, gguf, at + 14, layer + ".ffn_down.weight"@, Rule::Exact(Shape::two_spec(wide, dim)))
            &&& holds_at(encoder, gguf, at + 15, layer + ".ffn_down.bias"@, Rule::Optional(vector))
        }),
{
    match metadata_outcome(meta, expected_projection_dim) {
        Ok(config) => {
            let list = first_asked(config.embedding_dim);
            lemma_with_tensors(gguf.tensors@, gguf.mapped_len, Seq::empty(), list);
            match with_tensors(gguf.tensors@, gguf.mapped_len, Seq::empty(), list) {
                Ok(first) => {
                    let full = Qwen3AsrAudioConfig {
                        position_count: shape_of(first[0]).d1,
                        convolution_channel_count: shape_of(first[1]).d3,
                        ..config
                    };
                    let flattened = full.convolution_channel_count * reduced_mel_bins(
                        full.mel_bin_count as int,
                    );
                    lemma_body_tensors(gguf, full, first);
                    match body_outcome(gguf, full, first) {
                        Ok(encoder) => {
                            if 0 <= l < full.layer_count {
                                let body = body_asked(full, flattened as usize);
                                let asked = layer_asked(l, full.embedding_dim, full.feed_forward_dim);
                                assert forall|j: int| 0 <= j < 16 implies holds_at(
                                    encoder,
                                    gguf,
                                    8 + 16 * l + j,
                                    (#[trigger] asked[j]).0,
                                    asked[j].1,
                                ) by {
                                    lemma_layer_places(full, flattened as usize, l, j);
                                    assert(holds_at(
                                        encoder,
                                        gguf,
                                        7 + (1 + 16 * l + j),
                                        body[1 + 16 * l + j].0,
                                        body[1 + 16 * l + j].1,
                                    ));
                                }
                                assert(asked[0].0 == layer_name(l, ".ln1.weight"@));
                                assert(asked[1].0 == layer_name(l, ".ln1.bias"@));
                                assert(asked[2].0 == layer_name(l, ".ln2.weight"@));
                                assert(asked[3].0 == layer_name(l, ".ln2.bias"@));
                                assert(asked[4].0 == layer_name(l, ".attn_q.weight"@));
                                assert(asked[5].0 == layer_name(l, ".attn_q.bias"@));
                                assert(asked[6].0 == layer_name(l, ".attn_k.weight"@));
                                assert(asked[7].0 == layer_name(l, ".attn_k.bias"@));
                                assert(asked[8].0 == layer_name(l, ".attn_v.weight"@));
                                assert(asked[9].0 == layer_name(l, ".attn_v.bias"@));
                                assert(asked[10].0 == layer_name(l, ".attn_out.weight"@));
                                assert(asked[11].0 == layer_name(l, ".attn_out.bias"@));
                                assert(asked[12].0 == layer_name(l, ".ffn_up.weight"@));
                                assert(asked[13].0 == layer_name(l, ".ffn_up.bias"@));
                                assert(asked[14].0 == layer_name(l, ".ffn_down.weight"@));
                                assert(asked[15].0 == layer_name(l, ".ffn_down.bias"@));
                            }
                        },
                        Err(_) => {},
                    }
                },
                Err(_) => {},
            }
        },
        Err(_) => {},
    }
}

} // verus!
