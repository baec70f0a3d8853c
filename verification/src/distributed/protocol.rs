//! The wire protocol between the coordinator and its workers: frame kinds, primitive fields and
//! the control frames.
use crate::bytes::{
    copy_range, extend, le16, le16_bytes, le32, le32_bytes, le32_list, le64, le64_bytes,
    lemma_le16_reads_back, lemma_le32_list_reads_back, lemma_starts_shorter, starts, u16_at,
    u32_at, u64_at,
};
use crate::text::{decimal, Text};
use vstd::prelude::*;
use vstd::utf8::{decode_utf8, encode_utf8, valid_utf8};

verus! {

broadcast use crate::bytes::group_little_endian;

/// The value that opens every frame.
pub const DISTRIBUTED_PROTOCOL_MAGIC: u32 = 0x444D_4F45;

/// The protocol version that both sides must speak.
pub const DISTRIBUTED_PROTOCOL_VERSION: u16 = 6;

/// Shard entry kind of the recurrent input projection.
pub const SHARD_KIND_SSM_QKV_IN: u8 = 3;

/// Shard entry kind of the recurrent gate projection.
pub const SHARD_KIND_SSM_GATE: u8 = 4;

/// Shard entry kind of the recurrent output projection.
pub const SHARD_KIND_SSM_OUT: u8 = 5;

/// Shard entry kind of the fused beta/alpha projection.
pub const SHARD_KIND_SSM_BA: u8 = 6;

/// Shard entry kind of the alpha projection.
pub const SHARD_KIND_SSM_ALPHA: u8 = 7;

/// Shard entry kind of the beta projection.
pub const SHARD_KIND_SSM_BETA: u8 = 8;

/// The kind of a frame.
#[derive(Clone, Copy, Debug, PartialEq, Eq, Structural)]
pub enum FrameKind {
    Hello,
    Ready,
    ExpertBatchRequest,
    ExpertBatchResponse,
    Error,
    Shutdown,
    DiscoverRequest,
    DiscoverResponse,
    ModelShardHeader,
    SsmLayerRequest,
    SsmLayerResponse,
    SpeculationAdvance,
    ProposedExpertBatch,
}

/// How activation vectors are represented on the wire.
#[derive(Clone, Copy, Debug, PartialEq, Eq, Structural)]
pub enum ActivationDtype {
    Fp16,
    Bf16,
    Q8,
}

/// A field that is sent as 32 bits.
#[derive(Clone, Copy, Debug, PartialEq, Eq, Structural)]
pub enum WireField {
    Dim,
    NLayers,
    NExperts,
    AssignedExpertPairCount,
    AssignedExpertLayer,
    AssignedExpertIndex,
    LogicalCpuCount,
    LoadedExpertCount,
    Layer,
    ExpertCount,
    ExpertId,
    HintCount,
    HintExpertId,
    ExpertHiddenDim,
    EntriesCount,
    EntryLayer,
    EntryExpertIdx,
    EntryRows,
    EntryCols,
    SsmInnerSize,
    SsmGroupCount,
    SsmTimeStepRank,
    SsmStateSize,
    SsmConvKernel,
    NExpertsPerTok,
    MoeNGroup,
    MoeTopkGroup,
}

/// A primitive type whose bytes ran out.
#[derive(Clone, Copy, Debug, PartialEq, Eq, Structural)]
pub enum Primitive {
    U16,
    U32,
    U64,
}

/// Why bytes are not UTF-8.
#[derive(Clone, Copy, Debug, PartialEq, Eq, Structural)]
pub enum Utf8Failure {
    /// `len` bytes from `at` on are no part of a character.
    Invalid { at: usize, len: usize },
    /// The last character, which begins at `at`, is cut off.
    Incomplete { at: usize },
}

/// The failure at a place, with the number of bytes that are no part of a character where the
/// bytes do not merely end too early.
pub open spec fn failure_at(at: usize, len: Option<usize>) -> Utf8Failure {
    match len {
        Some(len) => Utf8Failure::Invalid { at, len },
        None => Utf8Failure::Incomplete { at },
    }
}

impl Utf8Failure {
    /// The failure at a place, with the number of bytes that are no part of a character where the
    /// bytes do not merely end too early.
    pub fn new(at: usize, len: Option<usize>) -> (failure: Utf8Failure)
        ensures
            failure == failure_at(at, len),
    {
        match len {
            Some(len) => Utf8Failure::Invalid { at, len },
            None => Utf8Failure::Incomplete { at },
        }
    }

    /// What a message says of the failure.
    pub open spec fn text(self) -> Seq<char> {
        match self {
            Utf8Failure::Invalid { at, len } => "invalid utf-8 sequence of "@ + decimal(len as nat)
                + " bytes from index "@ + decimal(at as nat),
            Utf8Failure::Incomplete { at } => "incomplete utf-8 byte sequence from index "@
                + decimal(at as nat),
        }
    }

    /// What a message says of the failure.
    pub fn message(self) -> (message: String)
        ensures
            message@ == self.text(),
    {
        match self {
            Utf8Failure::Invalid { at, len } => Text::start("invalid utf-8 sequence of ").size(
                len,
            ).text(" bytes from index ").size(at).finish(),
            Utf8Failure::Incomplete { at } => Text::start(
                "incomplete utf-8 byte sequence from index ",
            ).size(at).finish(),
        }
    }
}

/// Why a frame cannot be encoded or decoded.
#[derive(Clone, Copy, Debug, PartialEq, Eq, Structural)]
pub enum ProtocolError {
    UnknownFrameKind(u16),
    UnknownActivationDtype(u16),
    Truncated(Primitive),
    FieldOverflow(WireField),
    StringTooLarge,
    StringOverflow,
    TruncatedString,
    StringNotUtf8(Utf8Failure),
    ActivationSizeMismatch { got: usize, expected: usize },
    ActivationOverflow,
    TruncatedRequestActivation,
    ResponseOutputCount,
    ResponseVectorLength { got: usize, expected: usize },
    ResponseOverflow,
    TruncatedResponse,
    ProposedOutputCount,
    ProposedVectorLength { got: usize, expected: usize },
    ProposedOverflow,
    TruncatedProposed,
    ErrorMessageTooLarge,
    ErrorPayloadOverflow,
    TruncatedErrorPayload,
    ErrorPayloadNotUtf8(Utf8Failure),
    TruncatedEntryKind,
    TruncatedEntryType,
    FloatPayloadOverflow,
    TruncatedFloatPayload,
    TruncatedSsmRequest,
    TruncatedSsmResponse,
}

impl WireField {
    /// The name of the field in messages.
    pub open spec fn name_text(self) -> Seq<char> {
        match self {
            WireField::Dim => "dim"@,
            WireField::NLayers => "n_layers"@,
            WireField::NExperts => "n_experts"@,
            WireField::AssignedExpertPairCount => "assigned expert pair count"@,
            WireField::AssignedExpertLayer => "assigned expert layer"@,
            WireField::AssignedExpertIndex => "assigned expert index"@,
            WireField::LogicalCpuCount => "logical_cpu_count"@,
            WireField::LoadedExpertCount => "loaded_expert_count"@,
            WireField::Layer => "layer"@,
            WireField::ExpertCount => "expert count"@,
            WireField::ExpertId => "expert id"@,
            WireField::HintCount => "hint count"@,
            WireField::HintExpertId => "hint expert id"@,
            WireField::ExpertHiddenDim => "expert_hidden_dim"@,
            WireField::EntriesCount => "entries count"@,
            WireField::EntryLayer => "entry layer"@,
            WireField::EntryExpertIdx => "entry expert_idx"@,
            WireField::EntryRows => "entry rows"@,
            WireField::EntryCols => "entry cols"@,
            WireField::SsmInnerSize => "ssm_inner_size"@,
            WireField::SsmGroupCount => "ssm_group_count"@,
            WireField::SsmTimeStepRank => "ssm_time_step_rank"@,
            WireField::SsmStateSize => "ssm_state_size"@,
            WireField::SsmConvKernel => "ssm_conv_kernel"@,
            WireField::NExpertsPerTok => "n_experts_per_tok"@,
            WireField::MoeNGroup => "moe_n_group"@,
            WireField::MoeTopkGroup => "moe_topk_group"@,
        }
    }

    /// The name of the field in messages.
    pub fn name(self) -> (text: &'static str)
        ensures
            text@ == self.name_text(),
    {
        match self {
            WireField::Dim => "dim",
            WireField::NLayers => "n_layers",
            WireField::NExperts => "n_experts",
            WireField::AssignedExpertPairCount => "assigned expert pair count",
            WireField::AssignedExpertLayer => "assigned expert layer",
            WireField::AssignedExpertIndex => "assigned expert index",
            WireField::LogicalCpuCount => "logical_cpu_count",
            WireField::LoadedExpertCount => "loaded_expert_count",
            WireField::Layer => "layer",
            WireField::ExpertCount => "expert count",
            WireField::ExpertId => "expert id",
            WireField::HintCount => "hint count",
            WireField::HintExpertId => "hint expert id",
            WireField::ExpertHiddenDim => "expert_hidden_dim",
            WireField::EntriesCount => "entries count",
            WireField::EntryLayer => "entry layer",
            WireField::EntryExpertIdx => "entry expert_idx",
            WireField::EntryRows => "entry rows",
            WireField::EntryCols => "entry cols",
            WireField::SsmInnerSize => "ssm_inner_size",
            WireField::SsmGroupCount => "ssm_group_count",
            WireField::SsmTimeStepRank => "ssm_time_step_rank",
            WireField::SsmStateSize => "ssm_state_size",
            WireField::SsmConvKernel => "ssm_conv_kernel",
            WireField::NExpertsPerTok => "n_experts_per_tok",
            WireField::MoeNGroup => "moe_n_group",
            WireField::MoeTopkGroup => "moe_topk_group",
        }
    }
}

impl ProtocolError {
    /// The message text of the error.
    pub open spec fn text(self) -> Seq<char> {
        match self {
            ProtocolError::UnknownFrameKind(v) => "unknown distributed frame kind "@ + decimal(
                v as nat,
            ),
            ProtocolError::UnknownActivationDtype(v) => "unknown activation dtype "@ + decimal(
                v as nat,
            ),
            ProtocolError::Truncated(Primitive::U16) => "truncated u16 payload"@,
            ProtocolError::Truncated(Primitive::U32) => "truncated u32 payload"@,
            ProtocolError::Truncated(Primitive::U64) => "truncated u64 payload"@,
            ProtocolError::FieldOverflow(field) => field.name_text() + " overflow"@,
            ProtocolError::StringTooLarge => "string payload too large"@,
            ProtocolError::StringOverflow => "string payload overflow"@,
            ProtocolError::TruncatedString => "truncated string payload"@,
            ProtocolError::StringNotUtf8(failure) => "string payload was not valid utf-8: "@
                + failure.text(),
            ProtocolError::ActivationSizeMismatch { got, expected } =>
                "activation payload size mismatch: got "@ + decimal(got as nat)
                    + " bytes, expected "@ + decimal(expected as nat),
            ProtocolError::ActivationOverflow => "activation overflow"@,
            ProtocolError::TruncatedRequestActivation =>
                "truncated expert batch request activation"@,
            ProtocolError::ResponseOutputCount =>
                "expert response output count does not match expert id count"@,
            ProtocolError::ResponseVectorLength { got, expected } =>
                "expert response vector length mismatch: got "@ + decimal(got as nat)
                    + ", expected "@ + decimal(expected as nat),
            ProtocolError::ResponseOverflow => "response payload overflow"@,
            ProtocolError::TruncatedResponse => "truncated expert response payload"@,
            ProtocolError::ProposedOutputCount =>
                "proposed expert output count does not match expert id count"@,
            ProtocolError::ProposedVectorLength { got, expected } =>
                "proposed expert vector length mismatch: got "@ + decimal(got as nat)
                    + ", expected "@ + decimal(expected as nat),
            ProtocolError::ProposedOverflow => "proposed expert payload overflow"@,
            ProtocolError::TruncatedProposed => "truncated proposed expert payload"@,
            ProtocolError::ErrorMessageTooLarge => "distributed error message too large"@,
            ProtocolError::ErrorPayloadOverflow => "distributed error payload overflow"@,
            ProtocolError::TruncatedErrorPayload => "truncated distributed error payload"@,
            ProtocolError::ErrorPayloadNotUtf8(failure) =>
                "distributed error payload was not valid utf-8: "@ + failure.text(),
            ProtocolError::TruncatedEntryKind => "truncated shard header entry kind"@,
            ProtocolError::TruncatedEntryType => "truncated shard header entry ttype"@,
            ProtocolError::FloatPayloadOverflow => "ssm_float_payload overflow"@,
            ProtocolError::TruncatedFloatPayload => "truncated ssm_float_payload"@,
            ProtocolError::TruncatedSsmRequest => "truncated SSM layer request xb"@,
            ProtocolError::TruncatedSsmResponse => "truncated SSM layer response xb2"@,
        }
    }

    /// The message text of the error.
    pub fn message(self) -> (message: String)
        ensures
            message@ == self.text(),
    {
        let text = match self {
            ProtocolError::UnknownFrameKind(v) => Text::start(
                "unknown distributed frame kind ",
            ).number(v as u64),
            ProtocolError::UnknownActivationDtype(v) => Text::start(
                "unknown activation dtype ",
            ).number(v as u64),
            ProtocolError::Truncated(Primitive::U16) => Text::start("truncated u16 payload"),
            ProtocolError::Truncated(Primitive::U32) => Text::start("truncated u32 payload"),
            ProtocolError::Truncated(Primitive::U64) => Text::start("truncated u64 payload"),
            ProtocolError::FieldOverflow(field) => Text::start(field.name()).text(" overflow"),
            ProtocolError::StringTooLarge => Text::start("string payload too large"),
            ProtocolError::StringOverflow => Text::start("string payload overflow"),
            ProtocolError::TruncatedString => Text::start("truncated string payload"),
            ProtocolError::StringNotUtf8(failure) => Text::start(
                "string payload was not valid utf-8: ",
            ).text(failure.message().as_str()),
            ProtocolError::ActivationSizeMismatch { got, expected } => Text::start(
                "activation payload size mismatch: got ",
            ).size(got).text(" bytes, expected ").size(expected),
            ProtocolError::ActivationOverflow => Text::start("activation overflow"),
            ProtocolError::TruncatedRequestActivation => Text::start(
                "truncated expert batch request activation",
            ),
            ProtocolError::ResponseOutputCount => Text::start(
                "expert response output count does not match expert id count",
            ),
            ProtocolError::ResponseVectorLength { got, expected } => Text::start(
                "expert response vector length mismatch: got ",
            ).size(got).text(", expected ").size(expected),
            ProtocolError::ResponseOverflow => Text::start("response payload overflow"),
            ProtocolError::TruncatedResponse => Text::start("truncated expert response payload"),
            ProtocolError::ProposedOutputCount => Text::start(
                "proposed expert output count does not match expert id count",
            ),
            ProtocolError::ProposedVectorLength { got, expected } => Text::start(
                "proposed expert vector length mismatch: got ",
            ).size(got).text(", expected ").size(expected),
            ProtocolError::ProposedOverflow => Text::start("proposed expert payload overflow"),
            ProtocolError::TruncatedProposed => Text::start("truncated proposed expert payload"),
            ProtocolError::ErrorMessageTooLarge => Text::start(
                "distributed error message too large",
            ),
            ProtocolError::ErrorPayloadOverflow => Text::start(
                "distributed error payload overflow",
            ),
            ProtocolError::TruncatedErrorPayload => Text::start(
                "truncated distributed error payload",
            ),
            ProtocolError::ErrorPayloadNotUtf8(failure) => Text::start(
                "distributed error payload was not valid utf-8: ",
            ).text(failure.message().as_str()),
            ProtocolError::TruncatedEntryKind => Text::start("truncated shard header entry kind"),
            ProtocolError::TruncatedEntryType => Text::start("truncated shard header entry ttype"),
            ProtocolError::FloatPayloadOverflow => Text::start("ssm_float_payload overflow"),
            ProtocolError::TruncatedFloatPayload => Text::start("truncated ssm_float_payload"),
            ProtocolError::TruncatedSsmRequest => Text::start("truncated SSM layer request xb"),
            ProtocolError::TruncatedSsmResponse => Text::start("truncated SSM layer response xb2"),
        };
        text.finish()
    }
}

impl FrameKind {
    /// The number of the kind on the wire.
    pub open spec fn code(self) -> int {
        match self {
            FrameKind::Hello => 1,
            FrameKind::Ready => 2,
            FrameKind::ExpertBatchRequest => 3,
            FrameKind::ExpertBatchResponse => 4,
            FrameKind::Error => 5,
            FrameKind::Shutdown => 6,
            FrameKind::DiscoverRequest => 7,
            FrameKind::DiscoverResponse => 8,
            FrameKind::ModelShardHeader => 9,
            FrameKind::SsmLayerRequest => 10,
            FrameKind::SsmLayerResponse => 11,
            FrameKind::SpeculationAdvance => 12,
            FrameKind::ProposedExpertBatch => 13,
        }
    }

    /// The name of the kind.
    pub open spec fn name_text(self) -> Seq<char> {
        match self {
            FrameKind::Hello => "Hello"@,
            FrameKind::Ready => "Ready"@,
            FrameKind::ExpertBatchRequest => "ExpertBatchRequest"@,
            FrameKind::ExpertBatchResponse => "ExpertBatchResponse"@,
            FrameKind::Error => "Error"@,
            FrameKind::Shutdown => "Shutdown"@,
            FrameKind::DiscoverRequest => "DiscoverRequest"@,
            FrameKind::DiscoverResponse => "DiscoverResponse"@,
            FrameKind::ModelShardHeader => "ModelShardHeader"@,
            FrameKind::SsmLayerRequest => "SsmLayerRequest"@,
            FrameKind::SsmLayerResponse => "SsmLayerResponse"@,
            FrameKind::SpeculationAdvance => "SpeculationAdvance"@,
            FrameKind::ProposedExpertBatch => "ProposedExpertBatch"@,
        }
    }

    /// The name of the kind.
    pub fn name(self) -> (text: &'static str)
        ensures
            text@ == self.name_text(),
    {
        match self {
            FrameKind::Hello => "Hello",
            FrameKind::Ready => "Ready",
            FrameKind::ExpertBatchRequest => "ExpertBatchRequest",
            FrameKind::ExpertBatchResponse => "ExpertBatchResponse",
            FrameKind::Error => "Error",
            FrameKind::Shutdown => "Shutdown",
            FrameKind::DiscoverRequest => "DiscoverRequest",
            FrameKind::DiscoverResponse => "DiscoverResponse",
            FrameKind::ModelShardHeader => "ModelShardHeader",
            FrameKind::SsmLayerRequest => "SsmLayerRequest",
            FrameKind::SsmLayerResponse => "SsmLayerResponse",
            FrameKind::SpeculationAdvance => "SpeculationAdvance",
            FrameKind::ProposedExpertBatch => "ProposedExpertBatch",
        }
    }

    /// The number of the kind on the wire.
    pub fn to_u16(self) -> (value: u16)
        ensures
            value == self.code(),
    {
        match self {
            FrameKind::Hello => 1,
            FrameKind::Ready => 2,
            FrameKind::ExpertBatchRequest => 3,
            FrameKind::ExpertBatchResponse => 4,
            FrameKind::Error => 5,
            FrameKind::Shutdown => 6,
            FrameKind::DiscoverRequest => 7,
            FrameKind::DiscoverResponse => 8,
            FrameKind::ModelShardHeader => 9,
            FrameKind::SsmLayerRequest => 10,
            FrameKind::SsmLayerResponse => 11,
            FrameKind::SpeculationAdvance => 12,
            FrameKind::ProposedExpertBatch => 13,
        }
    }

    /// The kind with the given number.
    pub fn from_u16(value: u16) -> (result: Result<FrameKind, ProtocolError>)
        ensures
            match result {
                Ok(kind) => kind.code() == value,
                Err(error) => !(1 <= value <= 13) && error == ProtocolError::UnknownFrameKind(
                    value,
                ),
            },
    {
        match value {
            1 => Ok(FrameKind::Hello),
            2 => Ok(FrameKind::Ready),
            3 => Ok(FrameKind::ExpertBatchRequest),
            4 => Ok(FrameKind::ExpertBatchResponse),
            5 => Ok(FrameKind::Error),
            6 => Ok(FrameKind::Shutdown),
            7 => Ok(FrameKind::DiscoverRequest),
            8 => Ok(FrameKind::DiscoverResponse),
            9 => Ok(FrameKind::ModelShardHeader),
            10 => Ok(FrameKind::SsmLayerRequest),
            11 => Ok(FrameKind::SsmLayerResponse),
            12 => Ok(FrameKind::SpeculationAdvance),
            13 => Ok(FrameKind::ProposedExpertBatch),
            _ => Err(ProtocolError::UnknownFrameKind(value)),
        }
    }
}

/// The representation with the given number.
pub open spec fn dtype_of(value: int) -> Result<ActivationDtype, ProtocolError> {
    if value == 1 {
        Ok(ActivationDtype::Fp16)
    } else if value == 2 {
        Ok(ActivationDtype::Bf16)
    } else if value == 3 {
        Ok(ActivationDtype::Q8)
    } else {
        Err(ProtocolError::UnknownActivationDtype(value as u16))
    }
}

impl ActivationDtype {
    /// The number of the representation on the wire.
    pub open spec fn code(self) -> int {
        match self {
            ActivationDtype::Fp16 => 1,
            ActivationDtype::Bf16 => 2,
            ActivationDtype::Q8 => 3,
        }
    }

    /// The name of the representation.
    pub open spec fn name(self) -> Seq<char> {
        match self {
            ActivationDtype::Fp16 => "fp16"@,
            ActivationDtype::Bf16 => "bf16"@,
            ActivationDtype::Q8 => "q8"@,
        }
    }

    /// The number of the representation on the wire.
    pub fn to_u16(self) -> (value: u16)
        ensures
            value == self.code(),
            dtype_of(value as int) == Ok::<ActivationDtype, ProtocolError>(self),
    {
        match self {
            ActivationDtype::Fp16 => 1,
            ActivationDtype::Bf16 => 2,
            ActivationDtype::Q8 => 3,
        }
    }

    /// The representation with the given number.
    pub fn from_u16(value: u16) -> (result: Result<ActivationDtype, ProtocolError>)
        ensures
            result == dtype_of(value as int),
            result is Ok <==> 1 <= value <= 3,
            result is Ok ==> result->Ok_0.code() == value,
    {
        match value {
            1 => Ok(ActivationDtype::Fp16),
            2 => Ok(ActivationDtype::Bf16),
            3 => Ok(ActivationDtype::Q8),
            _ => Err(ProtocolError::UnknownActivationDtype(value)),
        }
    }

    /// The name of the representation.
    pub fn as_str(self) -> (name: &'static str)
        ensures
            name@ == self.name(),
    {
        match self {
            ActivationDtype::Fp16 => "fp16",
            ActivationDtype::Bf16 => "bf16",
            ActivationDtype::Q8 => "q8",
        }
    }
}

/// The length of the longest of the first `n` prefixes of bytes that is valid UTF-8.
pub open spec fn longest_valid(bytes: Seq<u8>, n: nat) -> nat
    decreases n,
{
    if n == 0 || valid_utf8(bytes.take(n as int)) {
        n
    } else {
        longest_valid(bytes, (n - 1) as nat)
    }
}

/// What `Utf8Error::error_len` of std says of the failure of `String::from_utf8` on bytes that are
/// not valid UTF-8: the number of bytes of the sequence that is no part of a character, or nothing
/// where the bytes end too early.
pub uninterp spec fn utf8_error_len(bytes: Seq<u8>) -> Option<usize>;

/// Why bytes that are not valid UTF-8 are not: at the end of their longest valid prefix.
pub open spec fn utf8_failure(bytes: Seq<u8>) -> Utf8Failure {
    failure_at(longest_valid(bytes, bytes.len()) as usize, utf8_error_len(bytes))
}

/// `String::from_utf8` of std: succeeds exactly on valid UTF-8, and the string then holds the
/// characters that the bytes encode. Its error gives the largest index up to which the bytes are
/// valid (`valid_up_to`) and the number of bytes that are no part of a character (`error_len`).
#[verifier::external_body]
pub(crate) fn string_from_utf8(bytes: Vec<u8>) -> (result: Result<String, (usize, Option<usize>)>)
    ensures
        match result {
            Ok(text) => valid_utf8(bytes@) && text@ == decode_utf8(bytes@),
            Err((at, len)) => !valid_utf8(bytes@) && at == longest_valid(bytes@, bytes@.len())
                && len == utf8_error_len(bytes@),
        },
{
    match String::from_utf8(bytes) {
        Ok(text) => Ok(text),
        Err(error) => Err((error.utf8_error().valid_up_to(), error.utf8_error().error_len())),
    }
}

/// Appends a 16-bit value.
pub fn write_u16_le(dst: &mut Vec<u8>, value: u16)
    ensures
        final(dst)@ == old(dst)@ + le16_bytes(value as int),
{
    dst.push((value % 256) as u8);
    dst.push((value / 256 % 256) as u8);
    proof {
        reveal(le16_bytes);
    }
    assert(dst@ =~= old(dst)@ + le16_bytes(value as int));
}

/// Appends a 32-bit value.
pub fn write_u32_le(dst: &mut Vec<u8>, value: u32)
    ensures
        final(dst)@ == old(dst)@ + le32_bytes(value as int),
{
    dst.push((value % 256) as u8);
    dst.push((value / 256 % 256) as u8);
    dst.push((value / 65536 % 256) as u8);
    dst.push((value / 16777216 % 256) as u8);
    proof {
        reveal(le32_bytes);
    }
    assert(dst@ =~= old(dst)@ + le32_bytes(value as int));
}

/// Appends a 64-bit value.
pub fn write_u64_le(dst: &mut Vec<u8>, value: u64)
    ensures
        final(dst)@ == old(dst)@ + le64_bytes(value as int),
{
    write_u32_le(dst, (value % 4294967296) as u32);
    write_u32_le(dst, (value / 4294967296) as u32);
    proof {
        reveal(le64_bytes);
    }
    assert(dst@ =~= old(dst)@ + le64_bytes(value as int));
}

/// Appends a size as 32 bits, or fails where it does not fit.
pub fn write_size(dst: &mut Vec<u8>, value: usize, field: WireField) -> (result: Result<
    (),
    ProtocolError,
>)
    ensures
        match result {
            Ok(_) => value <= u32::MAX && final(dst)@ == old(dst)@ + le32_bytes(value as int),
            Err(error) => value > u32::MAX && error == ProtocolError::FieldOverflow(field)
                && final(dst)@ == old(dst)@,
        },
{
    if value as u64 > u32::MAX as u64 {
        Err(ProtocolError::FieldOverflow(field))
    } else {
        write_u32_le(dst, value as u32);
        Ok(())
    }
}

/// The encoding of a string: its UTF-8 length as 16 bits, then its UTF-8 bytes.
pub open spec fn string_bytes(text: Seq<char>) -> Seq<u8> {
    le16_bytes(encode_utf8(text).len() as int) + encode_utf8(text)
}

/// Appends a string, or fails where its length does not fit 16 bits.
pub fn write_string(dst: &mut Vec<u8>, value: &str) -> (result: Result<(), ProtocolError>)
    ensures
        match result {
            Ok(_) => encode_utf8(value@).len() <= u16::MAX && final(dst)@ == old(dst)@
                + string_bytes(value@),
            Err(error) => encode_utf8(value@).len() > u16::MAX && error
                == ProtocolError::StringTooLarge && final(dst)@ == old(dst)@,
        },
{
    let bytes = value.as_bytes();
    if bytes.len() > u16::MAX as usize {
        return Err(ProtocolError::StringTooLarge);
    }
    write_u16_le(dst, bytes.len() as u16);
    extend(dst, bytes);
    assert(dst@ =~= old(dst)@ + string_bytes(value@));
    Ok(())
}

/// Reads a 16-bit value and moves past it.
pub fn read_u16_le(src: &[u8], offset: &mut usize) -> (result: Result<u16, ProtocolError>)
    ensures
        match result {
            Ok(value) => *old(offset) + 2 <= src@.len() && value == le16(src@, *old(offset) as int)
                && *final(offset) == *old(offset) + 2,
            Err(error) => *old(offset) + 2 > src@.len() && error == ProtocolError::Truncated(
                Primitive::U16,
            ) && *final(offset) == *old(offset),
        },
{
    if src.len() < 2 || *offset > src.len() - 2 {
        return Err(ProtocolError::Truncated(Primitive::U16));
    }
    let value: u16 = u16_at(src, *offset);
    *offset = *offset + 2;
    Ok(value)
}

/// Reads a 32-bit value and moves past it.
pub fn read_u32_le(src: &[u8], offset: &mut usize) -> (result: Result<u32, ProtocolError>)
    ensures
        match result {
            Ok(value) => *old(offset) + 4 <= src@.len() && value == le32(src@, *old(offset) as int)
                && *final(offset) == *old(offset) + 4,
            Err(error) => *old(offset) + 4 > src@.len() && error == ProtocolError::Truncated(
                Primitive::U32,
            ) && *final(offset) == *old(offset),
        },
{
    if src.len() < 4 || *offset > src.len() - 4 {
        return Err(ProtocolError::Truncated(Primitive::U32));
    }
    let value: u32 = u32_at(src, *offset);
    *offset = *offset + 4;
    Ok(value)
}

/// Reads a 64-bit value and moves past it.
pub fn read_u64_le(src: &[u8], offset: &mut usize) -> (result: Result<u64, ProtocolError>)
    ensures
        match result {
            Ok(value) => *old(offset) + 8 <= src@.len() && value == le64(src@, *old(offset) as int)
                && *final(offset) == *old(offset) + 8,
            Err(error) => *old(offset) + 8 > src@.len() && error == ProtocolError::Truncated(
                Primitive::U64,
            ) && *final(offset) == *old(offset),
        },
{
    if src.len() < 8 || *offset > src.len() - 8 {
        return Err(ProtocolError::Truncated(Primitive::U64));
    }
    let value: u64 = u64_at(src, *offset);
    *offset = *offset + 8;
    Ok(value)
}

/// What reading a string at `at` gives: the string and the position after it.
pub open spec fn string_at(s: Seq<u8>, at: int) -> Result<(Seq<char>, int), ProtocolError> {
    if at + 2 > s.len() {
        Err(ProtocolError::Truncated(Primitive::U16))
    } else {
        let end = at + 2 + le16(s, at);
        if end > usize::MAX {
            Err(ProtocolError::StringOverflow)
        } else if end > s.len() {
            Err(ProtocolError::TruncatedString)
        } else if !valid_utf8(s.subrange(at + 2, end)) {
            Err(ProtocolError::StringNotUtf8(utf8_failure(s.subrange(at + 2, end))))
        } else {
            Ok((decode_utf8(s.subrange(at + 2, end)), end))
        }
    }
}

/// Reads a string and moves past it.
pub fn read_string(src: &[u8], offset: &mut usize) -> (result: Result<String, ProtocolError>)
    ensures
        match result {
            Ok(text) => string_at(src@, *old(offset) as int) == Ok::<
                (Seq<char>, int),
                ProtocolError,
            >((text@, *final(offset) as int)),
            Err(error) => string_at(src@, *old(offset) as int) == Err::<
                (Seq<char>, int),
                ProtocolError,
            >(error) && *final(offset) == if *old(offset) + 2 > src@.len() {
                *old(offset) as int
            } else {
                *old(offset) + 2
            },
        },
{
    let len: u16 = match read_u16_le(src, offset) {
        Ok(value) => value,
        Err(error) => return Err(error),
    };
    let end: usize = match offset.checked_add(len as usize) {
        Some(end) => end,
        None => return Err(ProtocolError::StringOverflow),
    };
    if end > src.len() {
        return Err(ProtocolError::TruncatedString);
    }
    match string_from_utf8(copy_range(src, *offset, end)) {
        Ok(text) => {
            *offset = end;
            Ok(text)
        },
        Err((at, len)) => Err(ProtocolError::StringNotUtf8(Utf8Failure::new(at, len))),
    }
}

/// Reads `n` sizes of 32 bits each and moves past them.
pub fn read_size_list(src: &[u8], offset: &mut usize, n: usize) -> (result: Result<
    Vec<usize>,
    ProtocolError,
>)
    requires
        *old(offset) <= src@.len(),
    ensures
        match result {
            Ok(values) => *old(offset) + 4 * n <= src@.len() && values@ == sizes_at(
                src@,
                *old(offset) as int,
                n as nat,
            ) && *final(offset) == *old(offset) + 4 * n,
            Err(error) => *old(offset) + 4 * n > src@.len() && error == ProtocolError::Truncated(
                Primitive::U32,
            ) && *final(offset) == *old(offset) + (src@.len() - *old(offset)) / 4 * 4,
        },
{
    let mut values: Vec<usize> = Vec::new();
    let mut i: usize = 0;
    let ghost start = *offset as int;
    while i < n
        invariant
            i <= n,
            start + 4 * i <= src@.len(),
            *offset == start + 4 * i,
            start == *old(offset),
            values@ == sizes_at(src@, start, i as nat),
        decreases n - i,
    {
        match read_u32_le(src, offset) {
            Ok(value) => {
                values.push(value as usize);
                assert(values@ =~= sizes_at(src@, start, (i + 1) as nat));
            },
            Err(error) => return Err(error),
        }
        i = i + 1;
    }
    Ok(values)
}

/// The `n` sizes of 32 bits each from `at` on.
pub open spec fn sizes_at(s: Seq<u8>, at: int, n: nat) -> Seq<usize> {
    Seq::new(n, |i: int| le32(s, at + 4 * i) as usize)
}

/// Sizes as integers.
pub open spec fn as_ints(values: Seq<usize>) -> Seq<int> {
    values.map(|i: int, v: usize| v as int)
}

/// Whether every size fits 32 bits.
pub open spec fn all_fit(values: Seq<usize>) -> bool {
    forall|i: int| 0 <= i < values.len() ==> #[trigger] values[i] <= u32::MAX
}

/// How many sizes come before the first that does not fit 32 bits.
pub open spec fn fitting(values: Seq<usize>) -> nat
    decreases values.len(),
{
    if values.len() == 0 || values[0] > u32::MAX {
        0
    } else {
        1 + fitting(values.skip(1))
    }
}

proof fn lemma_fitting(values: Seq<usize>, k: int)
    requires
        0 <= k < values.len(),
        forall|i: int| 0 <= i < k ==> #[trigger] values[i] <= u32::MAX,
        values[k] > u32::MAX,
    ensures
        fitting(values) == k,
    decreases k,
{
    if k > 0 {
        assert(values[0] <= u32::MAX);
        let rest = values.skip(1);
        assert forall|i: int| 0 <= i < k - 1 implies #[trigger] rest[i] <= u32::MAX by {
            assert(rest[i] == values[i + 1]);
        }
        lemma_fitting(rest, k - 1);
    }
}

/// Appends each size as 32 bits, or fails where one does not fit.
pub fn write_size_list(dst: &mut Vec<u8>, values: &Vec<usize>, field: WireField) -> (result: Result<
    (),
    ProtocolError,
>)
    ensures
        match result {
            Ok(_) => all_fit(values@) && final(dst)@ == old(dst)@ + le32_list(as_ints(values@)),
            Err(error) => !all_fit(values@) && error == ProtocolError::FieldOverflow(field)
                && final(dst)@ == old(dst)@ + le32_list(
                as_ints(values@).take(fitting(values@) as int),
            ),
        },
{
    let mut i: usize = 0;
    let ghost ints = as_ints(values@);
    assert(dst@ =~= old(dst)@ + le32_list(ints.take(0)));
    while i < values.len()
        invariant
            i <= values.len(),
            ints == as_ints(values@),
            forall|k: int| 0 <= k < i ==> #[trigger] values@[k] <= u32::MAX,
            dst@ == old(dst)@ + le32_list(ints.take(i as int)),
        decreases values.len() - i,
    {
        let ghost before = dst@;
        match write_size(dst, values[i], field) {
            Ok(_) => {},
            Err(error) => {
                assert(values@[i as int] > u32::MAX);
                proof {
                    lemma_fitting(values@, i as int);
                }
                return Err(error);
            },
        }
        proof {
            let next = ints.take(i + 1);
            assert(next.drop_last() =~= ints.take(i as int));
            assert(next.last() == values@[i as int] as int);
            assert(dst@ =~= old(dst)@ + le32_list(next));
        }
        i = i + 1;
    }
    assert(ints.take(i as int) =~= ints);
    Ok(())
}

/// Sizes written after `pre` are read back.
pub proof fn lemma_sizes_read_back(s: Seq<u8>, pre: Seq<u8>, values: Seq<usize>)
    requires
        all_fit(values),
        starts(s, pre + le32_list(as_ints(values))),
    ensures
        pre.len() + 4 * values.len() <= s.len(),
        starts(s, pre),
        sizes_at(s, pre.len() as int, values.len()) == values,
{
    let ints = as_ints(values);
    assert forall|i: int| 0 <= i < ints.len() implies 0 <= #[trigger] ints[i] <= u32::MAX by {
        assert(values[i] <= u32::MAX);
    }
    lemma_le32_list_reads_back(s, pre, ints);
    assert forall|i: int| 0 <= i < values.len() implies #[trigger] sizes_at(
        s,
        pre.len() as int,
        values.len(),
    )[i] == values[i] by {
        assert(ints[i] == values[i]);
    }
    assert(sizes_at(s, pre.len() as int, values.len()) =~= values);
}

/// A string written after `pre` is read back.
pub proof fn lemma_string_reads_back(s: Seq<u8>, pre: Seq<u8>, text: Seq<char>)
    requires
        encode_utf8(text).len() <= u16::MAX,
        s.len() <= usize::MAX,
        starts(s, pre + string_bytes(text)),
    ensures
        string_at(s, pre.len() as int) == Ok::<(Seq<char>, int), ProtocolError>(
            (text, (pre + string_bytes(text)).len() as int),
        ),
        starts(s, pre),
{
    let body = encode_utf8(text);
    let head = pre + le16_bytes(body.len() as int);
    assert(pre + string_bytes(text) =~= head + body);
    lemma_starts_shorter(s, head, body);
    lemma_le16_reads_back(s, pre, body.len() as int);
    let at = pre.len() as int;
    let end = at + 2 + body.len();
    assert(s.subrange(at + 2, end) =~= body) by {
        assert forall|i: int| 0 <= i < body.len() implies s.subrange(at + 2, end)[i]
            == body[i] by {
            assert(s[at + 2 + i] == (head + body)[at + 2 + i]);
        }
    }
    vstd::utf8::encode_utf8_valid_utf8(text);
    vstd::utf8::encode_utf8_decode_utf8(text);
}

/// Each kind of frame and each number format has its own number on the wire.
pub proof fn wire_numbers_are_fixed()
    ensures
        FrameKind::Hello.code() == 1,
        FrameKind::Ready.code() == 2,
        FrameKind::ExpertBatchRequest.code() == 3,
        FrameKind::ExpertBatchResponse.code() == 4,
        FrameKind::Error.code() == 5,
        FrameKind::Shutdown.code() == 6,
        FrameKind::DiscoverRequest.code() == 7,
        FrameKind::DiscoverResponse.code() == 8,
        FrameKind::ModelShardHeader.code() == 9,
        FrameKind::SsmLayerRequest.code() == 10,
        FrameKind::SsmLayerResponse.code() == 11,
        FrameKind::SpeculationAdvance.code() == 12,
        FrameKind::ProposedExpertBatch.code() == 13,
        ActivationDtype::Fp16.code() == 1,
        ActivationDtype::Bf16.code() == 2,
        ActivationDtype::Q8.code() == 3,
        forall|d: ActivationDtype| #[trigger]
            dtype_of(d.code()) == Ok::<ActivationDtype, ProtocolError>(d),
        forall|n: int| (#[trigger] dtype_of(n) is Ok) ==> 1 <= n <= 3,
{
}

} // verus!
