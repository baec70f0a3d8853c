//! The media encoders of a model, and what their attention and matrix products are run on.
use super::gemma3::{
    alignment, gemma_fits, gemma_metadata, gemma_outcome, Gemma3VisionEncoder, GemmaError,
    GemmaView,
};
use super::qwen3_asr::{
    encoder_outcome, AsrError, AudioMetadata, EncoderView, Qwen3AsrAudioEncoder,
};
use super::qwen3_asr_graph::{planned_tokens, GraphError};
use super::vision::VisionMetadata;
use crate::audio::prepared::PreparedAudioFeatureWindowPlan;
use crate::gguf::TensorDirectory;
use crate::text::{decimal, Text};
use std::ops::Range;
use vstd::prelude::*;

verus! {

/// The kinds of audio encoders.
#[derive(Clone, Copy, Debug, PartialEq, Eq, Structural)]
pub enum AudioEncoderBackend {
    Qwen3Asr,
}

/// The kinds of vision sidecars.
#[derive(Clone, Copy, Debug, PartialEq, Eq, Structural)]
pub enum MultimodalBackend {
    TextOnly,
    Gemma3,
    Qwen3Vl,
    Qwen35,
    Idefics3,
}

/// An audio encoder.
#[derive(Debug)]
pub enum AudioEncoder {
    Qwen3Asr(Qwen3AsrAudioEncoder),
}

impl AudioEncoder {
    /// The dimensions and tensors of the encoder.
    pub open spec fn held(&self) -> EncoderView {
        match self {
            AudioEncoder::Qwen3Asr(encoder) => encoder@,
        }
    }

    /// The kind of the encoder.
    pub fn backend(&self) -> (backend: AudioEncoderBackend)
        ensures
            backend == AudioEncoderBackend::Qwen3Asr,
    {
        match self {
            AudioEncoder::Qwen3Asr(_) => AudioEncoderBackend::Qwen3Asr,
        }
    }

    /// Whether the encoder can run: every encoder that was built can.
    pub fn execution_ready(&self) -> (ready: bool)
        ensures
            ready,
    {
        true
    }

    /// A summary of the encoder's dimensions.
    pub fn contract_summary(&self) -> (summary: String)
        ensures
            match self {
                AudioEncoder::Qwen3Asr(encoder) => summary@ == encoder.summary(),
            },
    {
        match self {
            AudioEncoder::Qwen3Asr(encoder) => encoder.contract_summary(),
        }
    }

    /// The number of embeddings of windows.
    pub fn planned_embedding_token_count(&self, windows: &[PreparedAudioFeatureWindowPlan])
        -> (result: Result<usize, GraphError>)
        ensures
            windows@.len() == 0 ==> result == Err::<usize, GraphError>(GraphError::NoWindows),
            windows@.len() > 0 ==> match result {
                Ok(count) => planned_tokens(windows@, windows@.len()) == Ok::<int, GraphError>(
                    count as int,
                ),
                Err(error) => planned_tokens(windows@, windows@.len()) == Err::<int, GraphError>(
                    error,
                ),
            },
    {
        match self {
            AudioEncoder::Qwen3Asr(encoder) => encoder.planned_embedding_token_count(windows),
        }
    }
}

/// Builds the audio encoder of a sidecar.
pub fn build_audio_encoder_from_mmproj(
    backend: AudioEncoderBackend,
    text_embedding_dim: usize,
    meta: &AudioMetadata,
    mmproj: &TensorDirectory,
) -> (result: Result<AudioEncoder, AsrError>)
    ensures
        match result {
            Ok(encoder) => encoder_outcome(*meta, *mmproj, text_embedding_dim) == Ok::<
                EncoderView,
                Seq<char>,
            >(encoder.held()),
            Err(error) => encoder_outcome(*meta, *mmproj, text_embedding_dim) == Err::<
                EncoderView,
                Seq<char>,
            >(error.text()),
        },
{
    match backend {
        AudioEncoderBackend::Qwen3Asr => match Qwen3AsrAudioEncoder::new(
            meta,
            mmproj,
            text_embedding_dim,
        ) {
            Ok(encoder) => Ok(AudioEncoder::Qwen3Asr(encoder)),
            Err(error) => Err(error),
        },
    }
}

/// What image preparation reads of an encoder.
#[derive(Clone, Copy, Debug, PartialEq, Eq, Structural)]
pub struct ImageGeometry {
    pub image_size: usize,
    pub alignment: usize,
}

/// A vision encoder.
#[derive(Debug)]
pub enum VisionEncoder {
    Gemma3(Gemma3VisionEncoder),
    Qwen3Vl(ImageGeometry),
    Idefics3(ImageGeometry),
}

impl VisionEncoder {
    /// The image size that the encoder was trained on.
    pub fn recommended_image_size(&self) -> (size: usize)
        ensures
            size == match self {
                VisionEncoder::Gemma3(encoder) => encoder.config.base_image_size,
                VisionEncoder::Qwen3Vl(geometry) => geometry.image_size,
                VisionEncoder::Idefics3(geometry) => geometry.image_size,
            },
    {
        match self {
            VisionEncoder::Gemma3(encoder) => encoder.recommended_image_size(),
            VisionEncoder::Qwen3Vl(geometry) => geometry.image_size,
            VisionEncoder::Idefics3(geometry) => geometry.image_size,
        }
    }

    /// What the extents of an image must be multiples of.
    pub fn recommended_image_alignment(&self) -> (align: usize)
        ensures
            align == match self {
                VisionEncoder::Gemma3(encoder) => alignment(encoder.config),
                VisionEncoder::Qwen3Vl(geometry) => geometry.alignment as int,
                VisionEncoder::Idefics3(geometry) => geometry.alignment as int,
            },
    {
        match self {
            VisionEncoder::Gemma3(encoder) => encoder.recommended_image_alignment(),
            VisionEncoder::Qwen3Vl(geometry) => geometry.alignment,
            VisionEncoder::Idefics3(geometry) => geometry.alignment,
        }
    }
}

/// Builds the vision encoder of a sidecar, where the model has one. `geometry` is that of the
/// sidecars whose tensors are loaded elsewhere.
pub fn build_vision_encoder_from_mmproj(
    backend: MultimodalBackend,
    text_dim: usize,
    meta: &VisionMetadata,
    mmproj: &TensorDirectory,
    geometry: ImageGeometry,
) -> (result: Result<Option<VisionEncoder>, GemmaError>)
    requires
        backend == MultimodalBackend::Gemma3 ==> (gemma_metadata(*meta, text_dim) matches Ok(
            config,
        ) ==> gemma_fits(*mmproj, config)),
    ensures
        match backend {
            MultimodalBackend::Gemma3 => match result {
                Ok(Some(VisionEncoder::Gemma3(encoder))) => gemma_outcome(
                    *meta,
                    *mmproj,
                    text_dim,
                ) == Ok::<GemmaView, Seq<char>>(encoder@),
                Ok(_) => false,
                Err(error) => gemma_outcome(*meta, *mmproj, text_dim) == Err::<
                    GemmaView,
                    Seq<char>,
                >(error.text()),
            },
            MultimodalBackend::Qwen3Vl => result == Ok::<Option<VisionEncoder>, GemmaError>(
                Some(VisionEncoder::Qwen3Vl(geometry)),
            ),
            MultimodalBackend::Qwen35 => result == Ok::<Option<VisionEncoder>, GemmaError>(
                Some(VisionEncoder::Qwen3Vl(geometry)),
            ),
            MultimodalBackend::Idefics3 => result == Ok::<Option<VisionEncoder>, GemmaError>(
                Some(VisionEncoder::Idefics3(geometry)),
            ),
            MultimodalBackend::TextOnly => result == Ok::<Option<VisionEncoder>, GemmaError>(None),
        },
{
    match backend {
        MultimodalBackend::Gemma3 => match Gemma3VisionEncoder::new(meta, mmproj, text_dim) {
            Ok(encoder) => Ok(Some(VisionEncoder::Gemma3(encoder))),
            Err(error) => Err(error),
        },
        MultimodalBackend::Qwen3Vl => Ok(Some(VisionEncoder::Qwen3Vl(geometry))),
        MultimodalBackend::Qwen35 => Ok(Some(VisionEncoder::Qwen3Vl(geometry))),
        MultimodalBackend::Idefics3 => Ok(Some(VisionEncoder::Idefics3(geometry))),
        MultimodalBackend::TextOnly => Ok(None),
    }
}

/// The extents of an attention over sequences of equal length.
#[derive(Clone, Copy, Debug, PartialEq, Eq, Structural)]
pub struct AttentionExtents {
    pub sequence_count: usize,
    pub tokens_per_sequence: usize,
    pub head_count: usize,
    pub head_dim: usize,
}

/// Why an attention cannot be run.
#[derive(Clone, Copy, Debug, PartialEq, Eq, Structural)]
pub enum EncoderAttentionError {
    Dimension,
    Tokens,
    Buffer,
    Shape(AttentionExtents),
}

impl EncoderAttentionError {
    /// The message text of the error.
    pub open spec fn text(self) -> Seq<char> {
        match self {
            EncoderAttentionError::Dimension => "encoder attention dimension overflow"@,
            EncoderAttentionError::Tokens => "encoder attention token count overflow"@,
            EncoderAttentionError::Buffer => "encoder attention buffer size overflow"@,
            EncoderAttentionError::Shape(e) => "encoder attention shape mismatch: sequences="@
                + decimal(e.sequence_count as nat) + " tokens="@ + decimal(
                e.tokens_per_sequence as nat,
            ) + " heads="@ + decimal(e.head_count as nat) + " head_dim="@ + decimal(
                e.head_dim as nat,
            ),
        }
    }

    /// The message text of the error.
    pub fn message(self) -> (message: String)
        ensures
            message@ == self.text(),
    {
        match self {
            EncoderAttentionError::Dimension => Text::start(
                "encoder attention dimension overflow",
            ).finish(),
            EncoderAttentionError::Tokens => Text::start(
                "encoder attention token count overflow",
            ).finish(),
            EncoderAttentionError::Buffer => Text::start(
                "encoder attention buffer size overflow",
            ).finish(),
            EncoderAttentionError::Shape(e) => Text::start(
                "encoder attention shape mismatch: sequences=",
            ).size(e.sequence_count).text(" tokens=").size(e.tokens_per_sequence).text(
                " heads=",
            ).size(e.head_count).text(" head_dim=").size(e.head_dim).finish(),
        }
    }
}

/// The number of values of each buffer of an attention.
pub open spec fn required_values(e: AttentionExtents) -> int {
    (e.sequence_count * e.tokens_per_sequence) * (e.head_count * e.head_dim)
}

/// Why an attention on buffers of given lengths cannot be run, if it cannot.
pub open spec fn attention_problem(
    e: AttentionExtents,
    output: int,
    query: int,
    key: int,
    value: int,
) -> Option<EncoderAttentionError> {
    let required = required_values(e);
    if e.head_count * e.head_dim > usize::MAX {
        Some(EncoderAttentionError::Dimension)
    } else if e.sequence_count * e.tokens_per_sequence > usize::MAX {
        Some(EncoderAttentionError::Tokens)
    } else if required > usize::MAX {
        Some(EncoderAttentionError::Buffer)
    } else if output < required || query < required || key < required || value < required {
        Some(EncoderAttentionError::Shape(e))
    } else {
        None
    }
}

/// Checks the buffers of an attention, and gives the number of values that each must have.
pub fn plan_encoder_attention(
    e: AttentionExtents,
    output: usize,
    query: usize,
    key: usize,
    value: usize,
) -> (result: Result<usize, EncoderAttentionError>)
    ensures
        match result {
            Ok(required) => attention_problem(
                e,
                output as int,
                query as int,
                key as int,
                value as int,
            ) is None && required == required_values(e),
            Err(error) => attention_problem(
                e,
                output as int,
                query as int,
                key as int,
                value as int,
            ) == Some(error),
        },
{
    let dim: usize = match e.head_count.checked_mul(e.head_dim) {
        Some(n) => n,
        None => return Err(EncoderAttentionError::Dimension),
    };
    let tokens: usize = match e.sequence_count.checked_mul(e.tokens_per_sequence) {
        Some(n) => n,
        None => return Err(EncoderAttentionError::Tokens),
    };
    let required: usize = match tokens.checked_mul(dim) {
        Some(n) => n,
        None => return Err(EncoderAttentionError::Buffer),
    };
    if output < required || query < required || key < required || value < required {
        return Err(EncoderAttentionError::Shape(e));
    }
    Ok(required)
}

/// The tokens that a token attends to: those of its own sequence.
pub fn attended_tokens(token: usize, e: AttentionExtents) -> (range: Range<usize>)
    requires
        token < e.sequence_count * e.tokens_per_sequence,
        e.sequence_count * e.tokens_per_sequence <= usize::MAX,
    ensures
        range.start == (token as int / e.tokens_per_sequence as int) * e.tokens_per_sequence,
        range.end == range.start + e.tokens_per_sequence,
        range.start <= token < range.end,
        range.end <= e.sequence_count * e.tokens_per_sequence,
{
    let per: usize = e.tokens_per_sequence;
    proof {
        crate::tables::lemma_place_row(e.sequence_count as int, per as int, token as int);
        let s = token as int / per as int;
        assert(s * per + per <= e.sequence_count * per) by (nonlinear_arith)
            requires
                s + 1 <= e.sequence_count,
                per >= 0,
        ;
        assert(0 <= s * per) by (nonlinear_arith)
            requires
                0 <= s,
                per >= 0,
        ;
    }
    let start: usize = token / per * per;
    Range { start, end: start + per }
}

/// Sequences are isolated: two tokens attend to the same tokens or to none in common.
pub proof fn sequences_do_not_share_keys(a: int, b: int, key: int, per_sequence: int)
    requires
        per_sequence > 0,
        0 <= a,
        0 <= b,
        (a / per_sequence) * per_sequence <= key < (a / per_sequence) * per_sequence
            + per_sequence,
        (b / per_sequence) * per_sequence <= key < (b / per_sequence) * per_sequence
            + per_sequence,
    ensures
        a / per_sequence == b / per_sequence,
{
    let x = a / per_sequence;
    let y = b / per_sequence;
    assert(x == y) by (nonlinear_arith)
        requires
            per_sequence > 0,
            x * per_sequence <= key < x * per_sequence + per_sequence,
            y * per_sequence <= key < y * per_sequence + per_sequence,
    ;
}

/// Whether a matrix product runs over all tokens at once: for several tokens, where it is
/// switched on and the type of the matrix supports it.
pub fn uses_float_batch(token_count: usize, enabled: bool, supported: bool) -> (batch: bool)
    ensures
        batch == (token_count > 1 && enabled && supported),
{
    token_count > 1 && enabled && supported
}

/// An attention is run exactly where each of its four buffers holds at least a value for each
/// dimension of each head of each token, and their number can be counted.
pub proof fn attentions_are_accepted_where_buffers_suffice(
    e: AttentionExtents,
    output: int,
    query: int,
    key: int,
    value: int,
)
    ensures
        attention_problem(e, output, query, key, value) is None <==> {
            let tokens = e.sequence_count * e.tokens_per_sequence;
            let width = e.head_count * e.head_dim;
            &&& tokens <= usize::MAX
            &&& width <= usize::MAX
            &&& tokens * width <= usize::MAX
            &&& output >= tokens * width
            &&& query >= tokens * width
            &&& key >= tokens * width
            &&& value >= tokens * width
        },
{
}

} // verus!
