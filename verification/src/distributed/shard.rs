//! The header of a model shard and the frames of recurrent layers.
use crate::bytes::{copy_range, extend, le32, le32_bytes, le32_list, le64, le64_bytes,
    lemma_le32_list_len, lemma_le32_list_reads_back, lemma_le32_of_prefix, lemma_le32_reads_back,
    lemma_le64_of_prefix, lemma_le64_reads_back, lemma_starts_shorter, pattern32, signed32, starts,
    to_pattern32, to_signed32};
use crate::distributed::protocol::{read_u32_le, read_u64_le, write_size, write_u32_le,
    write_u64_le, Primitive, ProtocolError, WireField};
use vstd::prelude::*;

verus! {

broadcast use crate::bytes::group_little_endian;

/// The pattern of the normalisation epsilon of headers that carry none: one millionth.
pub const DEFAULT_SSM_EPS_BITS: u32 = 0x3586_37bd;

/// One tensor of a shard.
#[derive(Clone, Copy, Debug, PartialEq, Eq, Structural)]
pub struct ShardTensorEntry {
    pub layer: usize,
    pub expert_idx: usize,
    /// 0 for gate, 1 for up, 2 for down; recurrent tensors follow.
    pub kind: u8,
    pub ttype: i32,
    pub rows: usize,
    pub cols: usize,
    pub byte_offset: u64,
    pub byte_len: u64,
}

/// The header that precedes the bytes of a shard.
#[derive(Debug)]
pub struct ModelShardHeaderFrame {
    pub total_bytes: u64,
    pub n_layers: usize,
    pub n_experts: usize,
    pub dim: usize,
    pub expert_hidden_dim: usize,
    pub entries: Vec<ShardTensorEntry>,
    pub ssm_inner_size: usize,
    pub ssm_group_count: usize,
    pub ssm_time_step_rank: usize,
    pub ssm_state_size: usize,
    pub ssm_conv_kernel: usize,
    /// The single-precision pattern of the normalisation epsilon.
    pub ssm_eps: u32,
    pub ssm_float_payload: Vec<u8>,
    pub n_experts_per_tok: usize,
    pub moe_n_group: usize,
    pub moe_topk_group: usize,
}

/// The contents of a [`ModelShardHeaderFrame`].
#[verifier::ext_equal]
pub struct ModelShardHeaderView {
    pub total_bytes: u64,
    pub n_layers: usize,
    pub n_experts: usize,
    pub dim: usize,
    pub expert_hidden_dim: usize,
    pub entries: Seq<ShardTensorEntry>,
    pub ssm_inner_size: usize,
    pub ssm_group_count: usize,
    pub ssm_time_step_rank: usize,
    pub ssm_state_size: usize,
    pub ssm_conv_kernel: usize,
    pub ssm_eps: u32,
    pub ssm_float_payload: Seq<u8>,
    pub n_experts_per_tok: usize,
    pub moe_n_group: usize,
    pub moe_topk_group: usize,
}

impl View for ModelShardHeaderFrame {
    type V = ModelShardHeaderView;

    open spec fn view(&self) -> ModelShardHeaderView {
        ModelShardHeaderView {
            total_bytes: self.total_bytes,
            n_layers: self.n_layers,
            n_experts: self.n_experts,
            dim: self.dim,
            expert_hidden_dim: self.expert_hidden_dim,
            entries: self.entries@,
            ssm_inner_size: self.ssm_inner_size,
            ssm_group_count: self.ssm_group_count,
            ssm_time_step_rank: self.ssm_time_step_rank,
            ssm_state_size: self.ssm_state_size,
            ssm_conv_kernel: self.ssm_conv_kernel,
            ssm_eps: self.ssm_eps,
            ssm_float_payload: self.ssm_float_payload@,
            n_experts_per_tok: self.n_experts_per_tok,
            moe_n_group: self.moe_n_group,
            moe_topk_group: self.moe_topk_group,
        }
    }
}

/// A failure because a field does not fit 32 bits.
pub open spec fn overflow(value: usize, field: WireField) -> Option<ProtocolError> {
    if value > u32::MAX {
        Some(ProtocolError::FieldOverflow(field))
    } else {
        None
    }
}

/// The first of two failures.
pub open spec fn first(a: Option<ProtocolError>, b: Option<ProtocolError>) -> Option<
    ProtocolError,
> {
    if a is Some {
        a
    } else {
        b
    }
}

/// Why an entry cannot be encoded, if it cannot.
pub open spec fn entry_rejection(e: ShardTensorEntry) -> Option<ProtocolError> {
    first(
        overflow(e.layer, WireField::EntryLayer),
        first(
            overflow(e.expert_idx, WireField::EntryExpertIdx),
            first(
                overflow(e.rows, WireField::EntryRows),
                overflow(e.cols, WireField::EntryCols),
            ),
        ),
    )
}

/// Why a list of entries cannot be encoded, if it cannot: the first entry that cannot.
pub open spec fn entries_rejection(entries: Seq<ShardTensorEntry>) -> Option<ProtocolError>
    decreases entries.len(),
{
    if entries.len() == 0 {
        None
    } else {
        first(entries_rejection(entries.drop_last()), entry_rejection(entries.last()))
    }
}

/// Why a header cannot be encoded, if it cannot.
pub open spec fn header_rejection(v: ModelShardHeaderView) -> Option<ProtocolError> {
    first(
        overflow(v.n_layers, WireField::NLayers),
        first(
            overflow(v.n_experts, WireField::NExperts),
            first(
                overflow(v.dim, WireField::Dim),
                first(
                    overflow(v.expert_hidden_dim, WireField::ExpertHiddenDim),
                    first(
                        overflow(v.entries.len() as usize, WireField::EntriesCount),
                        first(
                            entries_rejection(v.entries),
                            first(recurrent_rejection(v), routing_rejection(v)),
                        ),
                    ),
                ),
            ),
        ),
    )
}

/// Why the recurrent fields of a header cannot be encoded, if they cannot.
pub open spec fn recurrent_rejection(v: ModelShardHeaderView) -> Option<ProtocolError> {
    first(
        overflow(v.ssm_inner_size, WireField::SsmInnerSize),
        first(
            overflow(v.ssm_group_count, WireField::SsmGroupCount),
            first(
                overflow(v.ssm_time_step_rank, WireField::SsmTimeStepRank),
                first(
                    overflow(v.ssm_state_size, WireField::SsmStateSize),
                    overflow(v.ssm_conv_kernel, WireField::SsmConvKernel),
                ),
            ),
        ),
    )
}

/// Why the routing fields of a header cannot be encoded, if they cannot.
pub open spec fn routing_rejection(v: ModelShardHeaderView) -> Option<ProtocolError> {
    first(
        overflow(v.n_experts_per_tok, WireField::NExpertsPerTok),
        first(
            overflow(v.moe_n_group, WireField::MoeNGroup),
            overflow(v.moe_topk_group, WireField::MoeTopkGroup),
        ),
    )
}

/// The encoding of an entry: 37 bytes.
pub open spec fn entry_bytes(e: ShardTensorEntry) -> Seq<u8> {
    le32_bytes(e.layer as int) + le32_bytes(e.expert_idx as int) + seq![e.kind] + le32_bytes(
        pattern32(e.ttype as int),
    ) + le32_bytes(e.rows as int) + le32_bytes(e.cols as int) + le64_bytes(e.byte_offset as int)
        + le64_bytes(e.byte_len as int)
}

/// The concatenated encodings of entries.
pub open spec fn entries_bytes(entries: Seq<ShardTensorEntry>) -> Seq<u8>
    decreases entries.len(),
{
    if entries.len() == 0 {
        Seq::empty()
    } else {
        entries_bytes(entries.drop_last()) + entry_bytes(entries.last())
    }
}

/// The encoding of the fields in front of the entries.
pub open spec fn header_front(v: ModelShardHeaderView) -> Seq<u8> {
    le64_bytes(v.total_bytes as int) + le32_bytes(v.n_layers as int) + le32_bytes(
        v.n_experts as int,
    ) + le32_bytes(v.dim as int) + le32_bytes(v.expert_hidden_dim as int) + le32_bytes(
        v.entries.len() as int,
    )
}

/// `pre` followed by the encodings of the recurrent fields.
pub open spec fn with_recurrent(pre: Seq<u8>, v: ModelShardHeaderView) -> Seq<u8> {
    pre + le32_bytes(v.ssm_inner_size as int) + le32_bytes(v.ssm_group_count as int) + le32_bytes(
        v.ssm_time_step_rank as int,
    ) + le32_bytes(v.ssm_state_size as int) + le32_bytes(v.ssm_conv_kernel as int) + le32_bytes(
        v.ssm_eps as int,
    ) + le64_bytes(v.ssm_float_payload.len() as int) + v.ssm_float_payload
}

/// `pre` followed by the encodings of the routing fields.
pub open spec fn with_routing(pre: Seq<u8>, v: ModelShardHeaderView) -> Seq<u8> {
    pre + le32_bytes(v.n_experts_per_tok as int) + le32_bytes(v.moe_n_group as int) + le32_bytes(
        v.moe_topk_group as int,
    )
}

/// The encoding of a header.
pub open spec fn header_bytes(v: ModelShardHeaderView) -> Seq<u8> {
    with_routing(with_recurrent(header_front(v) + entries_bytes(v.entries), v), v)
}

/// The entry at `at`.
pub open spec fn entry_at(s: Seq<u8>, at: int) -> ShardTensorEntry {
    ShardTensorEntry {
        layer: le32(s, at) as usize,
        expert_idx: le32(s, at + 4) as usize,
        kind: s[at + 8],
        ttype: signed32(le32(s, at + 9)) as i32,
        rows: le32(s, at + 13) as usize,
        cols: le32(s, at + 17) as usize,
        byte_offset: le64(s, at + 21) as u64,
        byte_len: le64(s, at + 29) as u64,
    }
}

/// Why an entry cannot be read from `rest` bytes, if it cannot.
pub open spec fn entry_truncation(rest: int) -> Option<ProtocolError> {
    if rest < 8 {
        Some(ProtocolError::Truncated(Primitive::U32))
    } else if rest < 9 {
        Some(ProtocolError::TruncatedEntryKind)
    } else if rest < 13 {
        Some(ProtocolError::TruncatedEntryType)
    } else if rest < 21 {
        Some(ProtocolError::Truncated(Primitive::U32))
    } else if rest < 37 {
        Some(ProtocolError::Truncated(Primitive::U64))
    } else {
        None
    }
}

/// The 32-bit value at `at`, or `default` where the bytes end before it does.
pub open spec fn or_default(s: Seq<u8>, at: int, default: int) -> int {
    if at + 4 <= s.len() {
        le32(s, at)
    } else {
        default
    }
}

/// What decoding a header gives. Every field behind the entries may be missing.
pub open spec fn decoded_header(s: Seq<u8>) -> Result<ModelShardHeaderView, ProtocolError> {
    if s.len() < 8 {
        Err(ProtocolError::Truncated(Primitive::U64))
    } else if s.len() < 28 {
        Err(ProtocolError::Truncated(Primitive::U32))
    } else {
        let n = le32(s, 24);
        let t = 28 + 37 * n;
        let payload_len = le64(s, t + 24) as u64 as usize;
        let has_payload = t + 32 <= s.len();
        let q = if has_payload {
            t + 32 + payload_len
        } else {
            t + 24
        };
        if s.len() < t {
            Err(entry_truncation((s.len() - 28) % 37)->0)
        } else if has_payload && q > usize::MAX {
            Err(ProtocolError::FloatPayloadOverflow)
        } else if has_payload && q > s.len() {
            Err(ProtocolError::TruncatedFloatPayload)
        } else {
            Ok(
                ModelShardHeaderView {
                    total_bytes: le64(s, 0) as u64,
                    n_layers: le32(s, 8) as usize,
                    n_experts: le32(s, 12) as usize,
                    dim: le32(s, 16) as usize,
                    expert_hidden_dim: le32(s, 20) as usize,
                    entries: Seq::new(n as nat, |i: int| entry_at(s, 28 + 37 * i)),
                    ssm_inner_size: or_default(s, t, 0) as usize,
                    ssm_group_count: or_default(s, t + 4, 0) as usize,
                    ssm_time_step_rank: or_default(s, t + 8, 0) as usize,
                    ssm_state_size: or_default(s, t + 12, 0) as usize,
                    ssm_conv_kernel: or_default(s, t + 16, 0) as usize,
                    ssm_eps: or_default(s, t + 20, DEFAULT_SSM_EPS_BITS as int) as u32,
                    ssm_float_payload: if has_payload {
                        s.subrange(t + 32, q)
                    } else {
                        Seq::empty()
                    },
                    n_experts_per_tok: or_default(s, q, 0) as usize,
                    moe_n_group: or_default(s, q + 4, 0) as usize,
                    moe_topk_group: or_default(s, q + 8, 0) as usize,
                },
            )
        }
    }
}

fn write_entry(out: &mut Vec<u8>, entry: &ShardTensorEntry) -> (result: Result<(), ProtocolError>)
    ensures
        match result {
            Ok(_) => entry_rejection(*entry) is None && final(out)@ == old(out)@ + entry_bytes(
                *entry,
            ),
            Err(error) => entry_rejection(*entry) == Some(error),
        },
{
    match write_size(out, entry.layer, WireField::EntryLayer) {
        Ok(_) => {},
        Err(error) => return Err(error),
    }
    match write_size(out, entry.expert_idx, WireField::EntryExpertIdx) {
        Ok(_) => {},
        Err(error) => return Err(error),
    }
    out.push(entry.kind);
    write_u32_le(out, to_pattern32(entry.ttype));
    match write_size(out, entry.rows, WireField::EntryRows) {
        Ok(_) => {},
        Err(error) => return Err(error),
    }
    match write_size(out, entry.cols, WireField::EntryCols) {
        Ok(_) => {},
        Err(error) => return Err(error),
    }
    write_u64_le(out, entry.byte_offset);
    write_u64_le(out, entry.byte_len);
    assert(out@ =~= old(out)@ + entry_bytes(*entry));
    Ok(())
}

proof fn lemma_first_entry_rejection(entries: Seq<ShardTensorEntry>, k: int)
    requires
        0 < k <= entries.len(),
        entries_rejection(entries.take(k)) is Some,
    ensures
        entries_rejection(entries) == entries_rejection(entries.take(k)),
    decreases entries.len() - k,
{
    if k < entries.len() {
        assert(entries.take(k + 1).drop_last() =~= entries.take(k));
        lemma_first_entry_rejection(entries, k + 1);
    } else {
        assert(entries.take(k) =~= entries);
    }
}

fn write_entries(out: &mut Vec<u8>, entries: &Vec<ShardTensorEntry>) -> (result: Result<
    (),
    ProtocolError,
>)
    ensures
        match result {
            Ok(_) => entries_rejection(entries@) is None && final(out)@ == old(out)@
                + entries_bytes(entries@),
            Err(error) => entries_rejection(entries@) == Some(error),
        },
{
    let mut i: usize = 0;
    assert(out@ =~= old(out)@ + entries_bytes(entries@.take(0)));
    while i < entries.len()
        invariant
            i <= entries.len(),
            entries_rejection(entries@.take(i as int)) is None,
            out@ == old(out)@ + entries_bytes(entries@.take(i as int)),
        decreases entries.len() - i,
    {
        proof {
            assert(entries@.take(i + 1).drop_last() =~= entries@.take(i as int));
            if entries_rejection(entries@.take(i + 1)) is Some {
                lemma_first_entry_rejection(entries@, i + 1);
            }
        }
        let ghost before = out@;
        match write_entry(out, &entries[i]) {
            Ok(_) => {},
            Err(error) => return Err(error),
        }
        assert(out@ =~= old(out)@ + entries_bytes(entries@.take(i + 1)));
        i = i + 1;
    }
    assert(entries@.take(i as int) =~= entries@);
    Ok(())
}

fn write_front(out: &mut Vec<u8>, frame: &ModelShardHeaderFrame) -> (result: Result<
    (),
    ProtocolError,
>)
    requires
        old(out)@.len() == 0,
    ensures
        match result {
            Ok(_) => frame@.n_layers <= u32::MAX && frame@.n_experts <= u32::MAX && frame@.dim
                <= u32::MAX && frame@.expert_hidden_dim <= u32::MAX && frame@.entries.len()
                <= u32::MAX && final(out)@ == header_front(frame@),
            Err(error) => header_rejection(frame@) == Some(error),
        },
{
    assert(frame.entries@.len() == frame.entries.len());
    write_u64_le(out, frame.total_bytes);
    assert(out@ =~= le64_bytes(frame.total_bytes as int));
    match write_size(out, frame.n_layers, WireField::NLayers) {
        Ok(_) => {},
        Err(error) => return Err(error),
    }
    match write_size(out, frame.n_experts, WireField::NExperts) {
        Ok(_) => {},
        Err(error) => return Err(error),
    }
    match write_size(out, frame.dim, WireField::Dim) {
        Ok(_) => {},
        Err(error) => return Err(error),
    }
    match write_size(out, frame.expert_hidden_dim, WireField::ExpertHiddenDim) {
        Ok(_) => {},
        Err(error) => return Err(error),
    }
    match write_size(out, frame.entries.len(), WireField::EntriesCount) {
        Ok(_) => {},
        Err(error) => return Err(error),
    }
    Ok(())
}

fn write_recurrent(out: &mut Vec<u8>, frame: &ModelShardHeaderFrame) -> (result: Result<
    (),
    ProtocolError,
>)
    ensures
        match result {
            Ok(_) => recurrent_rejection(frame@) is None && final(out)@ == with_recurrent(
                old(out)@,
                frame@,
            ),
            Err(error) => recurrent_rejection(frame@) == Some(error),
        },
{
    match write_size(out, frame.ssm_inner_size, WireField::SsmInnerSize) {
        Ok(_) => {},
        Err(error) => return Err(error),
    }
    match write_size(out, frame.ssm_group_count, WireField::SsmGroupCount) {
        Ok(_) => {},
        Err(error) => return Err(error),
    }
    match write_size(out, frame.ssm_time_step_rank, WireField::SsmTimeStepRank) {
        Ok(_) => {},
        Err(error) => return Err(error),
    }
    match write_size(out, frame.ssm_state_size, WireField::SsmStateSize) {
        Ok(_) => {},
        Err(error) => return Err(error),
    }
    match write_size(out, frame.ssm_conv_kernel, WireField::SsmConvKernel) {
        Ok(_) => {},
        Err(error) => return Err(error),
    }
    write_u32_le(out, frame.ssm_eps);
    write_u64_le(out, frame.ssm_float_payload.len() as u64);
    extend(out, frame.ssm_float_payload.as_slice());
    Ok(())
}

fn write_routing(out: &mut Vec<u8>, frame: &ModelShardHeaderFrame) -> (result: Result<
    (),
    ProtocolError,
>)
    ensures
        match result {
            Ok(_) => routing_rejection(frame@) is None && final(out)@ == with_routing(
                old(out)@,
                frame@,
            ),
            Err(error) => routing_rejection(frame@) == Some(error),
        },
{
    match write_size(out, frame.n_experts_per_tok, WireField::NExpertsPerTok) {
        Ok(_) => {},
        Err(error) => return Err(error),
    }
    match write_size(out, frame.moe_n_group, WireField::MoeNGroup) {
        Ok(_) => {},
        Err(error) => return Err(error),
    }
    match write_size(out, frame.moe_topk_group, WireField::MoeTopkGroup) {
        Ok(_) => {},
        Err(error) => return Err(error),
    }
    Ok(())
}

/// Encodes a shard header.
pub fn encode_model_shard_header(frame: &ModelShardHeaderFrame) -> (result: Result<
    Vec<u8>,
    ProtocolError,
>)
    ensures
        match result {
            Ok(out) => header_rejection(frame@) is None && out@ == header_bytes(frame@),
            Err(error) => header_rejection(frame@) == Some(error),
        },
{
    let mut out: Vec<u8> = Vec::new();
    match write_front(&mut out, frame) {
        Ok(_) => {},
        Err(error) => return Err(error),
    }
    match write_entries(&mut out, &frame.entries) {
        Ok(_) => {},
        Err(error) => return Err(error),
    }
    match write_recurrent(&mut out, frame) {
        Ok(_) => {},
        Err(error) => return Err(error),
    }
    match write_routing(&mut out, frame) {
        Ok(_) => {},
        Err(error) => return Err(error),
    }
    Ok(out)
}

fn read_entry(payload: &[u8], offset: &mut usize) -> (result: Result<
    ShardTensorEntry,
    ProtocolError,
>)
    requires
        *old(offset) <= payload@.len(),
    ensures
        match result {
            Ok(entry) => *old(offset) + 37 <= payload@.len() && entry == entry_at(
                payload@,
                *old(offset) as int,
            ) && *final(offset) == *old(offset) + 37,
            Err(error) => entry_truncation(payload@.len() - *old(offset)) == Some(error),
        },
{
    let layer: u32 = match read_u32_le(payload, offset) {
        Ok(value) => value,
        Err(error) => return Err(error),
    };
    let expert_idx: u32 = match read_u32_le(payload, offset) {
        Ok(value) => value,
        Err(error) => return Err(error),
    };
    if *offset >= payload.len() {
        return Err(ProtocolError::TruncatedEntryKind);
    }
    let kind: u8 = payload[*offset];
    *offset = *offset + 1;
    let ttype: u32 = match read_u32_le(payload, offset) {
        Ok(value) => value,
        Err(_) => return Err(ProtocolError::TruncatedEntryType),
    };
    let rows: u32 = match read_u32_le(payload, offset) {
        Ok(value) => value,
        Err(error) => return Err(error),
    };
    let cols: u32 = match read_u32_le(payload, offset) {
        Ok(value) => value,
        Err(error) => return Err(error),
    };
    let byte_offset: u64 = match read_u64_le(payload, offset) {
        Ok(value) => value,
        Err(error) => return Err(error),
    };
    let byte_len: u64 = match read_u64_le(payload, offset) {
        Ok(value) => value,
        Err(error) => return Err(error),
    };
    Ok(
        ShardTensorEntry {
            layer: layer as usize,
            expert_idx: expert_idx as usize,
            kind,
            ttype: to_signed32(ttype),
            rows: rows as usize,
            cols: cols as usize,
            byte_offset,
            byte_len,
        },
    )
}

fn read_entries(payload: &[u8], offset: &mut usize, n: usize) -> (result: Result<
    Vec<ShardTensorEntry>,
    ProtocolError,
>)
    requires
        *old(offset) == 28,
        28 <= payload@.len(),
    ensures
        match result {
            Ok(entries) => 28 + 37 * n <= payload@.len() && entries@ == Seq::new(
                n as nat,
                |i: int| entry_at(payload@, 28 + 37 * i),
            ) && *final(offset) == 28 + 37 * n,
            Err(error) => 28 + 37 * n > payload@.len() && entry_truncation(
                (payload@.len() - 28) % 37,
            ) == Some(error),
        },
{
    let mut entries: Vec<ShardTensorEntry> = Vec::new();
    let mut i: usize = 0;
    while i < n
        invariant
            i <= n,
            *offset == 28 + 37 * i,
            28 + 37 * i <= payload@.len(),
            entries@ == Seq::new(i as nat, |i: int| entry_at(payload@, 28 + 37 * i)),
        decreases n - i,
    {
        let ghost rest = payload@.len() - 28 - 37 * i;
        match read_entry(payload, offset) {
            Ok(entry) => {
                entries.push(entry);
                assert(entries@ =~= Seq::new(
                    (i + 1) as nat,
                    |i: int| entry_at(payload@, 28 + 37 * i),
                ));
            },
            Err(error) => {
                assert((payload@.len() - 28) % 37 == rest);
                return Err(error);
            },
        }
        i = i + 1;
    }
    Ok(entries)
}

fn read_or(payload: &[u8], offset: &mut usize, default: u32) -> (value: u32)
    requires
        *old(offset) <= payload@.len(),
    ensures
        value == or_default(payload@, *old(offset) as int, default as int),
        *final(offset) == if *old(offset) + 4 <= payload@.len() {
            *old(offset) + 4
        } else {
            *old(offset) as int
        },
        *final(offset) <= payload@.len(),
{
    match read_u32_le(payload, offset) {
        Ok(value) => value,
        Err(_) => default,
    }
}

fn read_float_payload(payload: &[u8], offset: &mut usize) -> (result: Result<
    Vec<u8>,
    ProtocolError,
>)
    requires
        *old(offset) <= payload@.len(),
    ensures
        ({
            let at = *old(offset) as int;
            let q = at + 8 + le64(payload@, at) as u64 as usize;
            match result {
                Ok(data) => *final(offset) <= payload@.len() && if at + 8 <= payload@.len() {
                    q <= payload@.len() && data@ == payload@.subrange(at + 8, q) && *final(offset)
                        == q
                } else {
                    data@.len() == 0 && *final(offset) == at
                },
                Err(error) => at + 8 <= payload@.len() && q > payload@.len() && error == if q
                    > usize::MAX {
                    ProtocolError::FloatPayloadOverflow
                } else {
                    ProtocolError::TruncatedFloatPayload
                },
            }
        }),
{
    assert(payload@.len() == payload.len());
    let payload_len: u64 = match read_u64_le(payload, offset) {
        Ok(value) => value,
        Err(_) => return Ok(Vec::new()),
    };
    let size: usize = #[verifier::truncate]
    (payload_len as usize);
    let end: usize = match offset.checked_add(size) {
        Some(end) => end,
        None => return Err(ProtocolError::FloatPayloadOverflow),
    };
    if end > payload.len() {
        return Err(ProtocolError::TruncatedFloatPayload);
    }
    let data = copy_range(payload, *offset, end);
    *offset = end;
    Ok(data)
}

/// Decodes a shard header.
pub fn decode_model_shard_header(payload: &[u8]) -> (result: Result<
    ModelShardHeaderFrame,
    ProtocolError,
>)
    ensures
        match result {
            Ok(frame) => decoded_header(payload@) == Ok::<ModelShardHeaderView, ProtocolError>(
                frame@,
            ),
            Err(error) => decoded_header(payload@) == Err::<ModelShardHeaderView, ProtocolError>(
                error,
            ),
        },
{
    let mut offset: usize = 0;
    let total_bytes: u64 = match read_u64_le(payload, &mut offset) {
        Ok(value) => value,
        Err(error) => return Err(error),
    };
    let n_layers: u32 = match read_u32_le(payload, &mut offset) {
        Ok(value) => value,
        Err(error) => return Err(error),
    };
    let n_experts: u32 = match read_u32_le(payload, &mut offset) {
        Ok(value) => value,
        Err(error) => return Err(error),
    };
    let dim: u32 = match read_u32_le(payload, &mut offset) {
        Ok(value) => value,
        Err(error) => return Err(error),
    };
    let expert_hidden_dim: u32 = match read_u32_le(payload, &mut offset) {
        Ok(value) => value,
        Err(error) => return Err(error),
    };
    let n_entries: u32 = match read_u32_le(payload, &mut offset) {
        Ok(value) => value,
        Err(error) => return Err(error),
    };
    let entries = match read_entries(payload, &mut offset, n_entries as usize) {
        Ok(value) => value,
        Err(error) => return Err(error),
    };
    let ssm_inner_size: u32 = read_or(payload, &mut offset, 0);
    let ssm_group_count: u32 = read_or(payload, &mut offset, 0);
    let ssm_time_step_rank: u32 = read_or(payload, &mut offset, 0);
    let ssm_state_size: u32 = read_or(payload, &mut offset, 0);
    let ssm_conv_kernel: u32 = read_or(payload, &mut offset, 0);
    let ssm_eps: u32 = read_or(payload, &mut offset, DEFAULT_SSM_EPS_BITS);
    let ssm_float_payload = match read_float_payload(payload, &mut offset) {
        Ok(value) => value,
        Err(error) => return Err(error),
    };
    let n_experts_per_tok: u32 = read_or(payload, &mut offset, 0);
    let moe_n_group: u32 = read_or(payload, &mut offset, 0);
    let moe_topk_group: u32 = read_or(payload, &mut offset, 0);
    let frame = ModelShardHeaderFrame {
        total_bytes,
        n_layers: n_layers as usize,
        n_experts: n_experts as usize,
        dim: dim as usize,
        expert_hidden_dim: expert_hidden_dim as usize,
        entries,
        ssm_inner_size: ssm_inner_size as usize,
        ssm_group_count: ssm_group_count as usize,
        ssm_time_step_rank: ssm_time_step_rank as usize,
        ssm_state_size: ssm_state_size as usize,
        ssm_conv_kernel: ssm_conv_kernel as usize,
        ssm_eps,
        ssm_float_payload,
        n_experts_per_tok: n_experts_per_tok as usize,
        moe_n_group: moe_n_group as usize,
        moe_topk_group: moe_topk_group as usize,
    };
    assert(decoded_header(payload@)->Ok_0 =~= frame@);
    Ok(frame)
}

proof fn lemma_entry_reads_back(s: Seq<u8>, pre: Seq<u8>, e: ShardTensorEntry)
    requires
        entry_rejection(e) is None,
        starts(s, pre + entry_bytes(e)),
    ensures
        entry_bytes(e).len() == 37,
        entry_at(s, pre.len() as int) == e,
        starts(s, pre),
        pre.len() + 37 <= s.len(),
{
    let b1 = pre + le32_bytes(e.layer as int);
    let b2 = b1 + le32_bytes(e.expert_idx as int);
    let b3 = b2 + seq![e.kind];
    let b4 = b3 + le32_bytes(pattern32(e.ttype as int));
    let b5 = b4 + le32_bytes(e.rows as int);
    let b6 = b5 + le32_bytes(e.cols as int);
    let b7 = b6 + le64_bytes(e.byte_offset as int);
    assert(pre + entry_bytes(e) =~= b7 + le64_bytes(e.byte_len as int));
    lemma_le64_reads_back(s, b7, e.byte_len as int);
    lemma_le64_reads_back(s, b6, e.byte_offset as int);
    lemma_le32_reads_back(s, b5, e.cols as int);
    lemma_le32_reads_back(s, b4, e.rows as int);
    lemma_le32_reads_back(s, b3, pattern32(e.ttype as int));
    lemma_starts_shorter(s, b2, seq![e.kind]);
    assert(s[pre.len() as int + 8] == b3[pre.len() as int + 8]);
    lemma_le32_reads_back(s, b1, e.expert_idx as int);
    lemma_le32_reads_back(s, pre, e.layer as int);
}

proof fn lemma_entries_read_back(s: Seq<u8>, pre: Seq<u8>, entries: Seq<ShardTensorEntry>)
    requires
        entries_rejection(entries) is None,
        starts(s, pre + entries_bytes(entries)),
    ensures
        entries_bytes(entries).len() == 37 * entries.len(),
        starts(s, pre),
        forall|i: int|
            0 <= i < entries.len() ==> entry_at(s, pre.len() + 37 * i) == #[trigger] entries[i],
    decreases entries.len(),
{
    if entries.len() == 0 {
        assert(pre + entries_bytes(entries) =~= pre);
    } else {
        let front = entries.drop_last();
        let head = pre + entries_bytes(front);
        assert(pre + entries_bytes(entries) =~= head + entry_bytes(entries.last()));
        lemma_entry_reads_back(s, head, entries.last());
        lemma_entries_read_back(s, pre, front);
        assert forall|i: int| 0 <= i < entries.len() implies entry_at(s, pre.len() + 37 * i)
            == #[trigger] entries[i] by {
            if i < front.len() {
                assert(front[i] == entries[i]);
            }
        }
    }
}

proof fn lemma_front_reads_back(s: Seq<u8>, v: ModelShardHeaderView)
    requires
        header_rejection(v) is None,
        v.entries.len() <= u32::MAX,
        starts(s, header_front(v)),
    ensures
        header_front(v).len() == 28,
        28 <= s.len(),
        le64(s, 0) == v.total_bytes,
        le32(s, 8) == v.n_layers,
        le32(s, 12) == v.n_experts,
        le32(s, 16) == v.dim,
        le32(s, 20) == v.expert_hidden_dim,
        le32(s, 24) == v.entries.len(),
{
    let b1 = le64_bytes(v.total_bytes as int);
    let b2 = b1 + le32_bytes(v.n_layers as int);
    let b3 = b2 + le32_bytes(v.n_experts as int);
    let b4 = b3 + le32_bytes(v.dim as int);
    let b5 = b4 + le32_bytes(v.expert_hidden_dim as int);
    lemma_le32_reads_back(s, b5, v.entries.len() as int);
    lemma_le32_reads_back(s, b4, v.expert_hidden_dim as int);
    lemma_le32_reads_back(s, b3, v.dim as int);
    lemma_le32_reads_back(s, b2, v.n_experts as int);
    lemma_le32_reads_back(s, b1, v.n_layers as int);
    assert(Seq::<u8>::empty() + b1 =~= b1);
    lemma_le64_reads_back(s, Seq::empty(), v.total_bytes as int);
}

proof fn lemma_recurrent_reads_back(s: Seq<u8>, pre: Seq<u8>, v: ModelShardHeaderView)
    requires
        recurrent_rejection(v) is None,
        v.ssm_float_payload.len() <= usize::MAX,
        starts(s, with_recurrent(pre, v)),
    ensures
        ({
            let t = pre.len() as int;
            &&& with_recurrent(pre, v).len() == t + 32 + v.ssm_float_payload.len()
            &&& t + 32 + v.ssm_float_payload.len() <= s.len()
            &&& starts(s, pre)
            &&& le32(s, t) == v.ssm_inner_size
            &&& le32(s, t + 4) == v.ssm_group_count
            &&& le32(s, t + 8) == v.ssm_time_step_rank
            &&& le32(s, t + 12) == v.ssm_state_size
            &&& le32(s, t + 16) == v.ssm_conv_kernel
            &&& le32(s, t + 20) == v.ssm_eps
            &&& le64(s, t + 24) == v.ssm_float_payload.len()
            &&& s.subrange(t + 32, t + 32 + v.ssm_float_payload.len()) == v.ssm_float_payload
        }),
{
    let b1 = pre + le32_bytes(v.ssm_inner_size as int);
    let b2 = b1 + le32_bytes(v.ssm_group_count as int);
    let b3 = b2 + le32_bytes(v.ssm_time_step_rank as int);
    let b4 = b3 + le32_bytes(v.ssm_state_size as int);
    let b5 = b4 + le32_bytes(v.ssm_conv_kernel as int);
    let b6 = b5 + le32_bytes(v.ssm_eps as int);
    let b7 = b6 + le64_bytes(v.ssm_float_payload.len() as int);
    let t = pre.len() as int;
    let all = b7 + v.ssm_float_payload;
    lemma_starts_shorter(s, b7, v.ssm_float_payload);
    assert(s.subrange(t + 32, t + 32 + v.ssm_float_payload.len()) =~= v.ssm_float_payload) by {
        assert forall|i: int| 0 <= i < v.ssm_float_payload.len() implies s[t + 32 + i]
            == v.ssm_float_payload[i] by {
            assert(s[t + 32 + i] == all[t + 32 + i]);
        }
    }
    lemma_le64_reads_back(s, b6, v.ssm_float_payload.len() as int);
    lemma_le32_reads_back(s, b5, v.ssm_eps as int);
    lemma_le32_reads_back(s, b4, v.ssm_conv_kernel as int);
    lemma_le32_reads_back(s, b3, v.ssm_state_size as int);
    lemma_le32_reads_back(s, b2, v.ssm_time_step_rank as int);
    lemma_le32_reads_back(s, b1, v.ssm_group_count as int);
    lemma_le32_reads_back(s, pre, v.ssm_inner_size as int);
}

proof fn lemma_routing_reads_back(s: Seq<u8>, pre: Seq<u8>, v: ModelShardHeaderView)
    requires
        routing_rejection(v) is None,
        starts(s, with_routing(pre, v)),
    ensures
        pre.len() + 12 <= s.len(),
        starts(s, pre),
        le32(s, pre.len() as int) == v.n_experts_per_tok,
        le32(s, pre.len() as int + 4) == v.moe_n_group,
        le32(s, pre.len() as int + 8) == v.moe_topk_group,
{
    let b1 = pre + le32_bytes(v.n_experts_per_tok as int);
    let b2 = b1 + le32_bytes(v.moe_n_group as int);
    lemma_le32_reads_back(s, b2, v.moe_topk_group as int);
    lemma_le32_reads_back(s, b1, v.moe_n_group as int);
    lemma_le32_reads_back(s, pre, v.n_experts_per_tok as int);
}

proof fn lemma_header_reads_back(s: Seq<u8>, front: Seq<u8>, body: Seq<u8>, v: ModelShardHeaderView)
    requires
        header_rejection(v) is None,
        s.len() <= usize::MAX,
        v.entries.len() <= u32::MAX,
        front == header_front(v),
        body == front + entries_bytes(v.entries),
        starts(s, with_routing(with_recurrent(body, v), v)),
    ensures
        decoded_header(s) == Ok::<ModelShardHeaderView, ProtocolError>(v),
{
    lemma_routing_reads_back(s, with_recurrent(body, v), v);
    lemma_recurrent_reads_back(s, body, v);
    lemma_entries_read_back(s, front, v.entries);
    lemma_front_reads_back(s, v);
    let got = Seq::new(v.entries.len(), |i: int| entry_at(s, 28 + 37 * i));
    assert(got =~= v.entries);
    assert(decoded_header(s)->Ok_0 =~= v);
}

proof fn lemma_entries_len(entries: Seq<ShardTensorEntry>)
    ensures
        entries_bytes(entries).len() == 37 * entries.len(),
    decreases entries.len(),
{
    if entries.len() > 0 {
        lemma_entries_len(entries.drop_last());
        assert(entry_bytes(entries.last()).len() == 37);
    }
}

/// Decoding an encoded shard header gives it back.
pub proof fn header_round_trip(v: ModelShardHeaderView)
    requires
        header_rejection(v) is None,
        header_bytes(v).len() <= usize::MAX,
    ensures
        decoded_header(header_bytes(v)) == Ok::<ModelShardHeaderView, ProtocolError>(v),
{
    let front = header_front(v);
    lemma_entries_len(v.entries);
    assert(v.entries.len() <= u32::MAX);
    assert(v.ssm_float_payload.len() <= header_bytes(v).len());
    lemma_header_reads_back(header_bytes(v), front, front + entries_bytes(v.entries), v);
}

/// Bytes behind an encoded shard header change nothing.
pub proof fn header_ignores_what_follows(v: ModelShardHeaderView, rest: Seq<u8>)
    requires
        header_rejection(v) is None,
        (header_bytes(v) + rest).len() <= usize::MAX,
    ensures
        decoded_header(header_bytes(v) + rest) == Ok::<ModelShardHeaderView, ProtocolError>(v),
{
    let front = header_front(v);
    lemma_entries_len(v.entries);
    assert(v.entries.len() <= u32::MAX);
    lemma_header_reads_back(header_bytes(v) + rest, front, front + entries_bytes(v.entries), v);
}

/// A shard header without its routing fields has zeros for them.
pub proof fn header_without_routing(v: ModelShardHeaderView)
    requires
        header_rejection(v) is None,
        header_bytes(v).len() <= usize::MAX,
    ensures
        decoded_header(with_recurrent(header_front(v) + entries_bytes(v.entries), v)) == Ok::<
            ModelShardHeaderView,
            ProtocolError,
        >(ModelShardHeaderView { n_experts_per_tok: 0, moe_n_group: 0, moe_topk_group: 0, ..v }),
{
    let front = header_front(v);
    let body = front + entries_bytes(v.entries);
    let s = with_recurrent(body, v);
    lemma_entries_len(v.entries);
    assert(s.len() <= header_bytes(v).len());
    lemma_recurrent_reads_back(s, body, v);
    lemma_entries_read_back(s, front, v.entries);
    lemma_front_reads_back(s, v);
    let got = Seq::new(v.entries.len(), |i: int| entry_at(s, 28 + 37 * i));
    assert(got =~= v.entries);
    assert(decoded_header(s)->Ok_0 =~= ModelShardHeaderView {
        n_experts_per_tok: 0,
        moe_n_group: 0,
        moe_topk_group: 0,
        ..v
    });
}

/// A shard header that ends behind its entries announces no recurrent layers, the usual epsilon
/// and no routing.
pub proof fn header_without_recurrent_fields(v: ModelShardHeaderView)
    requires
        header_rejection(v) is None,
        header_bytes(v).len() <= usize::MAX,
    ensures
        decoded_header(header_front(v) + entries_bytes(v.entries)) == Ok::<
            ModelShardHeaderView,
            ProtocolError,
        >(
            ModelShardHeaderView {
                ssm_inner_size: 0,
                ssm_group_count: 0,
                ssm_time_step_rank: 0,
                ssm_state_size: 0,
                ssm_conv_kernel: 0,
                ssm_eps: DEFAULT_SSM_EPS_BITS,
                ssm_float_payload: Seq::empty(),
                n_experts_per_tok: 0,
                moe_n_group: 0,
                moe_topk_group: 0,
                ..v
            },
        ),
{
    let front = header_front(v);
    let s = front + entries_bytes(v.entries);
    lemma_entries_len(v.entries);
    lemma_entries_read_back(s, front, v.entries);
    lemma_front_reads_back(s, v);
    let got = Seq::new(v.entries.len(), |i: int| entry_at(s, 28 + 37 * i));
    assert(got =~= v.entries);
}

/// A shard header that is cut off within its entries or its recurrent values is refused.
pub proof fn cut_off_header_is_refused(v: ModelShardHeaderView, n: int)
    requires
        header_rejection(v) is None,
        header_bytes(v).len() <= usize::MAX,
        0 <= n,
        n < 28 + 37 * v.entries.len() || 60 + 37 * v.entries.len() <= n < 60 + 37
            * v.entries.len() + v.ssm_float_payload.len(),
    ensures
        decoded_header(header_bytes(v).take(n)) is Err,
{
    let front = header_front(v);
    let body = front + entries_bytes(v.entries);
    let s = header_bytes(v);
    let t = 28 + 37 * v.entries.len() as int;
    lemma_entries_len(v.entries);
    lemma_routing_reads_back(s, with_recurrent(body, v), v);
    lemma_recurrent_reads_back(s, body, v);
    lemma_entries_read_back(s, front, v.entries);
    lemma_front_reads_back(s, v);
    if n >= 28 {
        lemma_le32_of_prefix(s, n, 24);
        if n >= t + 32 {
            lemma_le64_of_prefix(s, n, t + 24);
        }
    }
}

/// A vector handed to or from a recurrent layer, as single-precision patterns.
#[derive(Debug)]
pub struct SsmLayerRequest {
    pub layer: usize,
    pub xb: Vec<u32>,
}

/// The output of a recurrent layer, as single-precision patterns.
#[derive(Debug)]
pub struct SsmLayerResponse {
    pub layer: usize,
    pub xb2: Vec<u32>,
}

/// Patterns as integers.
pub open spec fn pattern_ints(values: Seq<u32>) -> Seq<int> {
    values.map(|i: int, v: u32| v as int)
}

/// The encoding of a layer number and a vector; both counts keep their low 32 bits.
pub open spec fn vector_bytes(layer: usize, values: Seq<u32>) -> Seq<u8> {
    le32_bytes(layer as int % 4294967296) + le32_bytes(values.len() as int % 4294967296)
        + le32_list(pattern_ints(values))
}

/// What decoding a layer number and a vector gives.
pub open spec fn decoded_vector(s: Seq<u8>, truncated: ProtocolError) -> Result<
    (usize, Seq<u32>),
    ProtocolError,
> {
    if s.len() < 8 {
        Err(ProtocolError::Truncated(Primitive::U32))
    } else if 8 + 4 * le32(s, 4) > s.len() {
        Err(truncated)
    } else {
        Ok(
            (
                le32(s, 0) as usize,
                Seq::new(le32(s, 4) as nat, |i: int| le32(s, 8 + 4 * i) as u32),
            ),
        )
    }
}

fn encode_vector(layer: usize, values: &Vec<u32>) -> (out: Vec<u8>)
    ensures
        out@ == vector_bytes(layer, values@),
{
    let mut out: Vec<u8> = Vec::new();
    write_u32_le(&mut out, (layer as u64 % 4294967296) as u32);
    assert(out@ =~= le32_bytes(layer as int % 4294967296));
    write_u32_le(&mut out, (values.len() as u64 % 4294967296) as u32);
    let ghost head = out@;
    let ghost ints = pattern_ints(values@);
    let mut i: usize = 0;
    assert(out@ =~= head + le32_list(ints.take(0)));
    while i < values.len()
        invariant
            i <= values.len(),
            ints == pattern_ints(values@),
            out@ == head + le32_list(ints.take(i as int)),
        decreases values.len() - i,
    {
        write_u32_le(&mut out, values[i]);
        proof {
            let next = ints.take(i + 1);
            assert(next.drop_last() =~= ints.take(i as int));
            assert(out@ =~= head + le32_list(next));
        }
        i = i + 1;
    }
    assert(ints.take(i as int) =~= ints);
    out
}

fn decode_vector(payload: &[u8], truncated: ProtocolError) -> (result: Result<
    (usize, Vec<u32>),
    ProtocolError,
>)
    ensures
        match result {
            Ok((layer, values)) => decoded_vector(payload@, truncated) == Ok::<
                (usize, Seq<u32>),
                ProtocolError,
            >((layer, values@)),
            Err(error) => decoded_vector(payload@, truncated) == Err::<
                (usize, Seq<u32>),
                ProtocolError,
            >(error),
        },
{
    let mut offset: usize = 0;
    let layer: u32 = match read_u32_le(payload, &mut offset) {
        Ok(value) => value,
        Err(error) => return Err(error),
    };
    let dim: u32 = match read_u32_le(payload, &mut offset) {
        Ok(value) => value,
        Err(error) => return Err(error),
    };
    if 8 + 4 * (dim as u64) > payload.len() as u64 {
        return Err(truncated);
    }
    let mut values: Vec<u32> = Vec::new();
    let mut i: u32 = 0;
    while i < dim
        invariant
            i <= dim,
            offset == 8 + 4 * i,
            8 + 4 * dim <= payload@.len(),
            values@ == Seq::new(i as nat, |i: int| le32(payload@, 8 + 4 * i) as u32),
        decreases dim - i,
    {
        match read_u32_le(payload, &mut offset) {
            Ok(value) => {
                values.push(value);
                assert(values@ =~= Seq::new(
                    (i + 1) as nat,
                    |i: int| le32(payload@, 8 + 4 * i) as u32,
                ));
            },
            Err(error) => {
                assert(false);
                return Err(error);
            },
        }
        i = i + 1;
    }
    Ok((layer as usize, values))
}

/// Encodes the input of a recurrent layer.
pub fn encode_ssm_layer_request(frame: &SsmLayerRequest) -> (out: Vec<u8>)
    ensures
        out@ == vector_bytes(frame.layer, frame.xb@),
{
    encode_vector(frame.layer, &frame.xb)
}

/// Decodes the input of a recurrent layer.
pub fn decode_ssm_layer_request(payload: &[u8]) -> (result: Result<SsmLayerRequest, ProtocolError>)
    ensures
        match result {
            Ok(frame) => decoded_vector(payload@, ProtocolError::TruncatedSsmRequest) == Ok::<
                (usize, Seq<u32>),
                ProtocolError,
            >((frame.layer, frame.xb@)),
            Err(error) => decoded_vector(payload@, ProtocolError::TruncatedSsmRequest) == Err::<
                (usize, Seq<u32>),
                ProtocolError,
            >(error),
        },
{
    match decode_vector(payload, ProtocolError::TruncatedSsmRequest) {
        Ok((layer, xb)) => Ok(SsmLayerRequest { layer, xb }),
        Err(error) => Err(error),
    }
}

/// Encodes the output of a recurrent layer.
pub fn encode_ssm_layer_response(frame: &SsmLayerResponse) -> (out: Vec<u8>)
    ensures
        out@ == vector_bytes(frame.layer, frame.xb2@),
{
    encode_vector(frame.layer, &frame.xb2)
}

/// Decodes the output of a recurrent layer.
pub fn decode_ssm_layer_response(payload: &[u8]) -> (result: Result<
    SsmLayerResponse,
    ProtocolError,
>)
    ensures
        match result {
            Ok(frame) => decoded_vector(payload@, ProtocolError::TruncatedSsmResponse) == Ok::<
                (usize, Seq<u32>),
                ProtocolError,
            >((frame.layer, frame.xb2@)),
            Err(error) => decoded_vector(payload@, ProtocolError::TruncatedSsmResponse) == Err::<
                (usize, Seq<u32>),
                ProtocolError,
            >(error),
        },
{
    match decode_vector(payload, ProtocolError::TruncatedSsmResponse) {
        Ok((layer, xb2)) => Ok(SsmLayerResponse { layer, xb2 }),
        Err(error) => Err(error),
    }
}

proof fn lemma_vector_reads_back(
    s: Seq<u8>,
    layer: usize,
    values: Seq<u32>,
    truncated: ProtocolError,
)
    requires
        layer <= u32::MAX,
        values.len() <= u32::MAX,
        starts(s, vector_bytes(layer, values)),
    ensures
        vector_bytes(layer, values).len() == 8 + 4 * values.len(),
        le32(s, 4) == values.len(),
        decoded_vector(s, truncated) == Ok::<(usize, Seq<u32>), ProtocolError>((layer, values)),
{
    let ints = pattern_ints(values);
    let b1 = le32_bytes(layer as int % 4294967296);
    let b2 = b1 + le32_bytes(values.len() as int % 4294967296);
    lemma_le32_list_len(ints);
    lemma_le32_list_reads_back(s, b2, ints);
    lemma_le32_reads_back(s, b1, values.len() as int);
    assert(Seq::<u8>::empty() + b1 =~= b1);
    lemma_le32_reads_back(s, Seq::empty(), layer as int);
    let got = Seq::new(values.len(), |i: int| le32(s, 8 + 4 * i) as u32);
    assert forall|i: int| 0 <= i < values.len() implies #[trigger] got[i] == values[i] by {
        assert(ints[i] == values[i]);
    }
    assert(got =~= values);
}

/// Decoding an encoded vector of a recurrent layer gives it back.
pub proof fn vector_round_trip(layer: usize, values: Seq<u32>, truncated: ProtocolError)
    requires
        layer <= u32::MAX,
        values.len() <= u32::MAX,
    ensures
        decoded_vector(vector_bytes(layer, values), truncated) == Ok::<
            (usize, Seq<u32>),
            ProtocolError,
        >((layer, values)),
{
    lemma_vector_reads_back(vector_bytes(layer, values), layer, values, truncated);
}

/// Bytes behind an encoded vector of a recurrent layer change nothing; one that is cut off is
/// refused.
pub proof fn vector_may_be_followed_but_not_cut_off(
    layer: usize,
    values: Seq<u32>,
    truncated: ProtocolError,
    rest: Seq<u8>,
    n: int,
)
    requires
        layer <= u32::MAX,
        values.len() <= u32::MAX,
        0 <= n < vector_bytes(layer, values).len(),
    ensures
        decoded_vector(vector_bytes(layer, values) + rest, truncated) == Ok::<
            (usize, Seq<u32>),
            ProtocolError,
        >((layer, values)),
        decoded_vector(vector_bytes(layer, values).take(n), truncated) is Err,
{
    let s = vector_bytes(layer, values);
    lemma_vector_reads_back(s + rest, layer, values, truncated);
    lemma_vector_reads_back(s, layer, values, truncated);
    if n >= 8 {
        lemma_le32_of_prefix(s, n, 4);
    }
}

/// A shard header holds its sizes, its entries of 37 bytes, the recurrent sizes with the values of
/// the recurrent layers, and the routing sizes.
pub proof fn shard_headers_are_laid_out_in_order(v: ModelShardHeaderView, i: int)
    requires
        header_rejection(v) is None,
        header_bytes(v).len() <= usize::MAX,
    ensures
        ({
            let s = header_bytes(v);
            let t = 28 + 37 * v.entries.len() as int;
            let q = t + 32 + v.ssm_float_payload.len() as int;
            &&& le64(s, 0) == v.total_bytes
            &&& le32(s, 8) == v.n_layers
            &&& le32(s, 12) == v.n_experts
            &&& le32(s, 16) == v.dim
            &&& le32(s, 20) == v.expert_hidden_dim
            &&& le32(s, 24) == v.entries.len()
            &&& 0 <= i < v.entries.len() ==> lies_as_entry(s, 28 + 37 * i, v.entries[i])
            &&& le32(s, t) == v.ssm_inner_size
            &&& le32(s, t + 4) == v.ssm_group_count
            &&& le32(s, t + 8) == v.ssm_time_step_rank
            &&& le32(s, t + 12) == v.ssm_state_size
            &&& le32(s, t + 16) == v.ssm_conv_kernel
            &&& le32(s, t + 20) == v.ssm_eps
            &&& le64(s, t + 24) == v.ssm_float_payload.len()
            &&& s.subrange(t + 32, q) == v.ssm_float_payload
            &&& le32(s, q) == v.n_experts_per_tok
            &&& le32(s, q + 4) == v.moe_n_group
            &&& le32(s, q + 8) == v.moe_topk_group
            &&& s.len() == q + 12
        }),
{
    let s = header_bytes(v);
    let front = header_front(v);
    let body = front + entries_bytes(v.entries);
    lemma_entries_len(v.entries);
    assert(v.entries.len() <= u32::MAX);
    assert(v.ssm_float_payload.len() <= s.len());
    lemma_routing_reads_back(s, with_recurrent(body, v), v);
    lemma_recurrent_reads_back(s, body, v);
    lemma_entries_read_back(s, front, v.entries);
    lemma_front_reads_back(s, v);
    if 0 <= i < v.entries.len() {
        assert(entry_at(s, 28 + 37 * i) == v.entries[i]);
    }
}

/// Whether an entry lies at a place: its layer, expert and kind, the type and extents of its matrix,
/// and where its bytes are.
pub open spec fn lies_as_entry(s: Seq<u8>, at: int, e: ShardTensorEntry) -> bool {
    &&& le32(s, at) == e.layer
    &&& le32(s, at + 4) == e.expert_idx
    &&& s[at + 8] == e.kind
    &&& le32(s, at + 9) == if e.ttype < 0 {
        e.ttype + 4294967296
    } else {
        e.ttype as int
    }
    &&& le32(s, at + 13) == e.rows
    &&& le32(s, at + 17) == e.cols
    &&& le64(s, at + 21) == e.byte_offset
    &&& le64(s, at + 29) == e.byte_len
}

/// A vector of a recurrent layer holds the layer, the number of values and the values.
pub proof fn layer_vectors_are_laid_out_in_order(layer: usize, values: Seq<u32>, i: int)
    requires
        layer <= u32::MAX,
        values.len() <= u32::MAX,
    ensures
        ({
            let s = vector_bytes(layer, values);
            &&& le32(s, 0) == layer
            &&& le32(s, 4) == values.len()
            &&& 0 <= i < values.len() ==> le32(s, 8 + 4 * i) == values[i]
            &&& s.len() == 8 + 4 * values.len()
        }),
{
    let s = vector_bytes(layer, values);
    let b1 = le32_bytes(layer as int % 4294967296);
    let b2 = b1 + le32_bytes(values.len() as int % 4294967296);
    let ints = pattern_ints(values);
    lemma_le32_list_len(ints);
    lemma_le32_list_reads_back(s, b2, ints);
    lemma_le32_reads_back(s, b1, values.len() as int);
    assert(Seq::<u8>::empty() + b1 =~= b1);
    lemma_le32_reads_back(s, Seq::empty(), layer as int);
    if 0 <= i < values.len() {
        assert(ints[i] == values[i]);
    }
}

} // verus!
