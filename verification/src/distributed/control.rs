//! The control frames: greeting, readiness, discovery and errors.
use crate::bytes::{
    copy_range, extend, le16, le16_bytes, le32, le32_bytes, le32_list, le64, le64_bytes,
    lemma_le16_of_prefix, lemma_le16_reads_back, lemma_le32_list_len, lemma_le32_list_reads_back,
    lemma_le32_of_prefix, lemma_le32_reads_back, lemma_le64_reads_back, lemma_starts_shorter,
    starts,
};
use crate::distributed::protocol::{dtype_of, lemma_string_reads_back, read_string, read_u16_le,
    read_u32_le, read_u64_le, string_at, string_bytes, string_from_utf8, utf8_failure, write_size,
    write_string, write_u16_le, write_u32_le, write_u64_le, ActivationDtype, Primitive,
    ProtocolError, Utf8Failure, WireField};
use vstd::prelude::*;
use vstd::utf8::{decode_utf8, encode_utf8, valid_utf8};

verus! {

broadcast use crate::bytes::group_little_endian;

/// What the coordinator announces when it connects.
#[derive(Debug)]
pub struct HelloFrame {
    pub node_address: String,
    pub dim: usize,
    pub n_layers: usize,
    pub n_experts: usize,
    pub activation_dtype: ActivationDtype,
    pub assigned_experts: Vec<(usize, usize)>,
    pub speculative_push: bool,
}

/// The contents of a [`HelloFrame`].
#[verifier::ext_equal]
pub struct HelloView {
    pub node_address: Seq<char>,
    pub dim: usize,
    pub n_layers: usize,
    pub n_experts: usize,
    pub activation_dtype: ActivationDtype,
    pub assigned_experts: Seq<(usize, usize)>,
    pub speculative_push: bool,
}

impl View for HelloFrame {
    type V = HelloView;

    open spec fn view(&self) -> HelloView {
        HelloView {
            node_address: self.node_address@,
            dim: self.dim,
            n_layers: self.n_layers,
            n_experts: self.n_experts,
            activation_dtype: self.activation_dtype,
            assigned_experts: self.assigned_experts@,
            speculative_push: self.speculative_push,
        }
    }
}

/// What a worker answers once its experts are loaded.
#[derive(Debug)]
pub struct ReadyFrame {
    pub node_address: String,
    pub dim: usize,
    pub n_layers: usize,
    pub n_experts: usize,
    pub activation_dtype: ActivationDtype,
    pub speculative_push: bool,
    pub logical_cpu_count: usize,
    pub memory_bytes: usize,
    pub loaded_expert_count: usize,
}

/// The contents of a [`ReadyFrame`].
#[verifier::ext_equal]
pub struct ReadyView {
    pub node_address: Seq<char>,
    pub dim: usize,
    pub n_layers: usize,
    pub n_experts: usize,
    pub activation_dtype: ActivationDtype,
    pub speculative_push: bool,
    pub logical_cpu_count: usize,
    pub memory_bytes: usize,
    pub loaded_expert_count: usize,
}

impl View for ReadyFrame {
    type V = ReadyView;

    open spec fn view(&self) -> ReadyView {
        ReadyView {
            node_address: self.node_address@,
            dim: self.dim,
            n_layers: self.n_layers,
            n_experts: self.n_experts,
            activation_dtype: self.activation_dtype,
            speculative_push: self.speculative_push,
            logical_cpu_count: self.logical_cpu_count,
            memory_bytes: self.memory_bytes,
            loaded_expert_count: self.loaded_expert_count,
        }
    }
}

/// What a worker answers to a discovery request.
#[derive(Debug)]
pub struct DiscoverResponseFrame {
    pub node_address: String,
    pub dim: usize,
    pub n_layers: usize,
    pub n_experts: usize,
    pub logical_cpu_count: usize,
    pub memory_bytes: usize,
}

/// The contents of a [`DiscoverResponseFrame`].
#[verifier::ext_equal]
pub struct DiscoverResponseView {
    pub node_address: Seq<char>,
    pub dim: usize,
    pub n_layers: usize,
    pub n_experts: usize,
    pub logical_cpu_count: usize,
    pub memory_bytes: usize,
}

impl View for DiscoverResponseFrame {
    type V = DiscoverResponseView;

    open spec fn view(&self) -> DiscoverResponseView {
        DiscoverResponseView {
            node_address: self.node_address@,
            dim: self.dim,
            n_layers: self.n_layers,
            n_experts: self.n_experts,
            logical_cpu_count: self.logical_cpu_count,
            memory_bytes: self.memory_bytes,
        }
    }
}

/// The pairs laid out one number after the other.
pub open spec fn flat_pairs(pairs: Seq<(usize, usize)>) -> Seq<int> {
    Seq::new(
        2 * pairs.len(),
        |i: int|
            if i % 2 == 0 {
                pairs[i / 2].0 as int
            } else {
                pairs[i / 2].1 as int
            },
    )
}

/// The `n` pairs of 32-bit sizes from `at` on.
pub open spec fn pairs_at(s: Seq<u8>, at: int, n: nat) -> Seq<(usize, usize)> {
    Seq::new(n, |i: int| (le32(s, at + 8 * i) as usize, le32(s, at + 8 * i + 4) as usize))
}

/// The first member of a pair that does not fit 32 bits, if any.
pub open spec fn pairs_rejection(pairs: Seq<(usize, usize)>) -> Option<ProtocolError>
    decreases pairs.len(),
{
    if pairs.len() == 0 {
        None
    } else {
        match pairs_rejection(pairs.drop_last()) {
            Some(error) => Some(error),
            None => if pairs.last().0 > u32::MAX {
                Some(ProtocolError::FieldOverflow(WireField::AssignedExpertLayer))
            } else if pairs.last().1 > u32::MAX {
                Some(ProtocolError::FieldOverflow(WireField::AssignedExpertIndex))
            } else {
                None
            },
        }
    }
}

/// The first of the fields in front of the pair list that cannot be sent, if any.
pub open spec fn greeting_rejection(
    node_address: Seq<char>,
    dim: usize,
    n_layers: usize,
    n_experts: usize,
) -> Option<ProtocolError> {
    if encode_utf8(node_address).len() > u16::MAX {
        Some(ProtocolError::StringTooLarge)
    } else if dim > u32::MAX {
        Some(ProtocolError::FieldOverflow(WireField::Dim))
    } else if n_layers > u32::MAX {
        Some(ProtocolError::FieldOverflow(WireField::NLayers))
    } else if n_experts > u32::MAX {
        Some(ProtocolError::FieldOverflow(WireField::NExperts))
    } else {
        None
    }
}

/// Why a greeting cannot be encoded, if it cannot.
pub open spec fn hello_rejection(v: HelloView) -> Option<ProtocolError> {
    match greeting_rejection(v.node_address, v.dim, v.n_layers, v.n_experts) {
        Some(error) => Some(error),
        None => if v.assigned_experts.len() > u32::MAX {
            Some(ProtocolError::FieldOverflow(WireField::AssignedExpertPairCount))
        } else {
            pairs_rejection(v.assigned_experts)
        },
    }
}

/// The fields that open greetings and discovery answers.
pub open spec fn greeting_bytes(
    node_address: Seq<char>,
    dim: usize,
    n_layers: usize,
    n_experts: usize,
) -> Seq<u8> {
    string_bytes(node_address) + le32_bytes(dim as int) + le32_bytes(n_layers as int) + le32_bytes(
        n_experts as int,
    )
}

/// The encoding of a flag.
pub open spec fn flag_byte(flag: bool) -> u8 {
    if flag {
        1
    } else {
        0
    }
}

/// The encoding of a greeting.
pub open spec fn hello_bytes(v: HelloView) -> Seq<u8> {
    greeting_bytes(v.node_address, v.dim, v.n_layers, v.n_experts) + le16_bytes(
        v.activation_dtype.code(),
    ) + le32_bytes(v.assigned_experts.len() as int) + le32_list(flat_pairs(v.assigned_experts))
        + seq![flag_byte(v.speculative_push)]
}

/// What decoding a greeting gives: its contents and the position of its push flag.
pub open spec fn hello_at(s: Seq<u8>) -> Result<(HelloView, int), ProtocolError> {
    match string_at(s, 0) {
        Err(error) => Err(error),
        Ok((node_address, p)) => if p + 12 > s.len() {
            Err(ProtocolError::Truncated(Primitive::U32))
        } else if p + 14 > s.len() {
            Err(ProtocolError::Truncated(Primitive::U16))
        } else {
            match dtype_of(le16(s, p + 12)) {
                Err(error) => Err(error),
                Ok(activation_dtype) => if p + 18 > s.len() || p + 18 + 8 * le32(s, p + 14)
                    > s.len() {
                    Err(ProtocolError::Truncated(Primitive::U32))
                } else {
                    let end = p + 18 + 8 * le32(s, p + 14);
                    Ok(
                        (
                            HelloView {
                                node_address,
                                dim: le32(s, p) as usize,
                                n_layers: le32(s, p + 4) as usize,
                                n_experts: le32(s, p + 8) as usize,
                                activation_dtype,
                                assigned_experts: pairs_at(s, p + 18, le32(s, p + 14) as nat),
                                speculative_push: end < s.len() && s[end] != 0,
                            },
                            end,
                        ),
                    )
                },
            }
        },
    }
}

/// What decoding a greeting gives.
pub open spec fn decoded_hello(s: Seq<u8>) -> Result<HelloView, ProtocolError> {
    match hello_at(s) {
        Ok((v, _)) => Ok(v),
        Err(error) => Err(error),
    }
}

/// Why a readiness answer cannot be encoded, if it cannot.
pub open spec fn ready_rejection(v: ReadyView) -> Option<ProtocolError> {
    match greeting_rejection(v.node_address, v.dim, v.n_layers, v.n_experts) {
        Some(error) => Some(error),
        None => if v.logical_cpu_count > u32::MAX {
            Some(ProtocolError::FieldOverflow(WireField::LogicalCpuCount))
        } else if v.loaded_expert_count > u32::MAX {
            Some(ProtocolError::FieldOverflow(WireField::LoadedExpertCount))
        } else {
            None
        },
    }
}

/// The greeting that a readiness answer repeats, without assignments.
pub open spec fn ready_greeting(v: ReadyView) -> HelloView {
    HelloView {
        node_address: v.node_address,
        dim: v.dim,
        n_layers: v.n_layers,
        n_experts: v.n_experts,
        activation_dtype: v.activation_dtype,
        assigned_experts: Seq::empty(),
        speculative_push: v.speculative_push,
    }
}

/// The encoding of a readiness answer.
pub open spec fn ready_bytes(v: ReadyView) -> Seq<u8> {
    hello_bytes(ready_greeting(v)) + le32_bytes(v.logical_cpu_count as int) + le64_bytes(
        v.memory_bytes as int,
    ) + le32_bytes(v.loaded_expert_count as int)
}

/// What decoding a readiness answer gives.
pub open spec fn decoded_ready(s: Seq<u8>) -> Result<ReadyView, ProtocolError> {
    match hello_at(s) {
        Err(error) => Err(error),
        Ok((hello, end)) => {
            let r = if end < s.len() {
                end + 1
            } else {
                end
            };
            if r + 4 > s.len() {
                Err(ProtocolError::Truncated(Primitive::U32))
            } else if r + 12 > s.len() {
                Err(ProtocolError::Truncated(Primitive::U64))
            } else if r + 16 > s.len() {
                Err(ProtocolError::Truncated(Primitive::U32))
            } else {
                Ok(
                    ReadyView {
                        node_address: hello.node_address,
                        dim: hello.dim,
                        n_layers: hello.n_layers,
                        n_experts: hello.n_experts,
                        activation_dtype: hello.activation_dtype,
                        speculative_push: hello.speculative_push,
                        logical_cpu_count: le32(s, r) as usize,
                        memory_bytes: le64(s, r + 4) as u64 as usize,
                        loaded_expert_count: le32(s, r + 12) as usize,
                    },
                )
            }
        },
    }
}

/// Why a discovery answer cannot be encoded, if it cannot.
pub open spec fn discover_rejection(v: DiscoverResponseView) -> Option<ProtocolError> {
    match greeting_rejection(v.node_address, v.dim, v.n_layers, v.n_experts) {
        Some(error) => Some(error),
        None => if v.logical_cpu_count > u32::MAX {
            Some(ProtocolError::FieldOverflow(WireField::LogicalCpuCount))
        } else {
            None
        },
    }
}

/// The encoding of a discovery answer.
pub open spec fn discover_bytes(v: DiscoverResponseView) -> Seq<u8> {
    greeting_bytes(v.node_address, v.dim, v.n_layers, v.n_experts) + le32_bytes(
        v.logical_cpu_count as int,
    ) + le64_bytes(v.memory_bytes as int)
}

/// What decoding a discovery answer gives.
pub open spec fn decoded_discover(s: Seq<u8>) -> Result<DiscoverResponseView, ProtocolError> {
    match string_at(s, 0) {
        Err(error) => Err(error),
        Ok((node_address, p)) => if p + 16 > s.len() {
            Err(ProtocolError::Truncated(Primitive::U32))
        } else if p + 24 > s.len() {
            Err(ProtocolError::Truncated(Primitive::U64))
        } else {
            Ok(
                DiscoverResponseView {
                    node_address,
                    dim: le32(s, p) as usize,
                    n_layers: le32(s, p + 4) as usize,
                    n_experts: le32(s, p + 8) as usize,
                    logical_cpu_count: le32(s, p + 12) as usize,
                    memory_bytes: le64(s, p + 16) as u64 as usize,
                },
            )
        },
    }
}

/// The encoding of an error report.
pub open spec fn error_bytes(message: Seq<char>) -> Seq<u8> {
    le32_bytes(encode_utf8(message).len() as int) + encode_utf8(message)
}

/// What decoding an error report gives.
pub open spec fn decoded_error(s: Seq<u8>) -> Result<Seq<char>, ProtocolError> {
    if s.len() < 4 {
        Err(ProtocolError::Truncated(Primitive::U32))
    } else {
        let end = 4 + le32(s, 0);
        if end > usize::MAX {
            Err(ProtocolError::ErrorPayloadOverflow)
        } else if end > s.len() {
            Err(ProtocolError::TruncatedErrorPayload)
        } else if !valid_utf8(s.subrange(4, end)) {
            Err(ProtocolError::ErrorPayloadNotUtf8(utf8_failure(s.subrange(4, end))))
        } else {
            Ok(decode_utf8(s.subrange(4, end)))
        }
    }
}

fn write_greeting(
    out: &mut Vec<u8>,
    node_address: &str,
    dim: usize,
    n_layers: usize,
    n_experts: usize,
) -> (result: Result<(), ProtocolError>)
    ensures
        match result {
            Ok(_) => greeting_rejection(node_address@, dim, n_layers, n_experts) is None
                && final(out)@ == old(out)@ + greeting_bytes(
                node_address@,
                dim,
                n_layers,
                n_experts,
            ),
            Err(error) => greeting_rejection(node_address@, dim, n_layers, n_experts) == Some(
                error,
            ),
        },
{
    match write_string(out, node_address) {
        Ok(_) => {},
        Err(error) => return Err(error),
    }
    match write_size(out, dim, WireField::Dim) {
        Ok(_) => {},
        Err(error) => return Err(error),
    }
    match write_size(out, n_layers, WireField::NLayers) {
        Ok(_) => {},
        Err(error) => return Err(error),
    }
    match write_size(out, n_experts, WireField::NExperts) {
        Ok(_) => {},
        Err(error) => return Err(error),
    }
    assert(out@ =~= old(out)@ + greeting_bytes(node_address@, dim, n_layers, n_experts));
    Ok(())
}

proof fn lemma_first_pair_rejection(pairs: Seq<(usize, usize)>, k: int)
    requires
        0 < k <= pairs.len(),
        pairs_rejection(pairs.take(k)) is Some,
    ensures
        pairs_rejection(pairs) == pairs_rejection(pairs.take(k)),
    decreases pairs.len() - k,
{
    if k < pairs.len() {
        assert(pairs.take(k + 1).drop_last() =~= pairs.take(k));
        lemma_first_pair_rejection(pairs, k + 1);
    } else {
        assert(pairs.take(k) =~= pairs);
    }
}

fn write_pairs(out: &mut Vec<u8>, pairs: &Vec<(usize, usize)>) -> (result: Result<
    (),
    ProtocolError,
>)
    ensures
        match result {
            Ok(_) => pairs_rejection(pairs@) is None && final(out)@ == old(out)@ + le32_list(
                flat_pairs(pairs@),
            ),
            Err(error) => pairs_rejection(pairs@) == Some(error),
        },
{
    let mut i: usize = 0;
    let ghost flat = flat_pairs(pairs@);
    assert(out@ =~= old(out)@ + le32_list(flat.take(0)));
    assert(pairs_rejection(pairs@.take(0)) is None);
    while i < pairs.len()
        invariant
            i <= pairs.len(),
            flat == flat_pairs(pairs@),
            pairs_rejection(pairs@.take(i as int)) is None,
            out@ == old(out)@ + le32_list(flat.take(2 * i)),
        decreases pairs.len() - i,
    {
        let ghost before = out@;
        let pair = pairs[i];
        proof {
            assert(pairs@.take(i + 1).drop_last() =~= pairs@.take(i as int));
            assert(pairs@.take(i + 1).last() == pair);
            if pairs_rejection(pairs@.take(i + 1)) is Some {
                lemma_first_pair_rejection(pairs@, i + 1);
            }
        }
        match write_size(out, pair.0, WireField::AssignedExpertLayer) {
            Ok(_) => {},
            Err(error) => return Err(error),
        }
        match write_size(out, pair.1, WireField::AssignedExpertIndex) {
            Ok(_) => {},
            Err(error) => return Err(error),
        }
        proof {
            let one = flat.take(2 * i + 1);
            let two = flat.take(2 * i + 2);
            assert(one.drop_last() =~= flat.take(2 * i));
            assert(two.drop_last() =~= one);
            assert(one.last() == pair.0 as int);
            assert(two.last() == pair.1 as int);
            assert(le32_list(one) == le32_list(flat.take(2 * i)) + le32_bytes(pair.0 as int));
            assert(le32_list(two) == le32_list(one) + le32_bytes(pair.1 as int));
            assert(out@ =~= old(out)@ + le32_list(two));
        }
        i = i + 1;
    }
    assert(flat.take(2 * i) =~= flat);
    assert(pairs@.take(i as int) =~= pairs@);
    Ok(())
}

fn write_flag(out: &mut Vec<u8>, flag: bool)
    ensures
        final(out)@ == old(out)@ + seq![flag_byte(flag)],
{
    if flag {
        out.push(1);
    } else {
        out.push(0);
    }
    assert(out@ =~= old(out)@ + seq![flag_byte(flag)]);
}

/// Encodes a greeting.
pub fn encode_hello_frame(frame: &HelloFrame) -> (result: Result<Vec<u8>, ProtocolError>)
    ensures
        match result {
            Ok(out) => hello_rejection(frame@) is None && out@ == hello_bytes(frame@),
            Err(error) => hello_rejection(frame@) == Some(error),
        },
{
    let mut out: Vec<u8> = Vec::new();
    match write_greeting(
        &mut out,
        frame.node_address.as_str(),
        frame.dim,
        frame.n_layers,
        frame.n_experts,
    ) {
        Ok(_) => {},
        Err(error) => return Err(error),
    }
    write_u16_le(&mut out, frame.activation_dtype.to_u16());
    match write_size(
        &mut out,
        frame.assigned_experts.len(),
        WireField::AssignedExpertPairCount,
    ) {
        Ok(_) => {},
        Err(error) => return Err(error),
    }
    match write_pairs(&mut out, &frame.assigned_experts) {
        Ok(_) => {},
        Err(error) => return Err(error),
    }
    write_flag(&mut out, frame.speculative_push);
    assert(out@ =~= hello_bytes(frame@));
    Ok(out)
}

fn read_pairs(payload: &[u8], offset: &mut usize, n: usize) -> (result: Result<
    Vec<(usize, usize)>,
    ProtocolError,
>)
    requires
        *old(offset) <= payload@.len(),
    ensures
        match result {
            Ok(pairs) => *old(offset) + 8 * n <= payload@.len() && pairs@ == pairs_at(
                payload@,
                *old(offset) as int,
                n as nat,
            ) && *final(offset) == *old(offset) + 8 * n,
            Err(error) => *old(offset) + 8 * n > payload@.len() && error
                == ProtocolError::Truncated(Primitive::U32),
        },
{
    let mut pairs: Vec<(usize, usize)> = Vec::new();
    let mut i: usize = 0;
    let ghost start = *offset as int;
    while i < n
        invariant
            i <= n,
            start == *old(offset),
            start + 8 * i <= payload@.len(),
            *offset == start + 8 * i,
            pairs@ == pairs_at(payload@, start, i as nat),
        decreases n - i,
    {
        let layer: u32 = match read_u32_le(payload, offset) {
            Ok(value) => value,
            Err(error) => return Err(error),
        };
        let expert: u32 = match read_u32_le(payload, offset) {
            Ok(value) => value,
            Err(error) => return Err(error),
        };
        pairs.push((layer as usize, expert as usize));
        assert(pairs@ =~= pairs_at(payload@, start, (i + 1) as nat));
        i = i + 1;
    }
    Ok(pairs)
}

fn read_hello(payload: &[u8]) -> (result: Result<(HelloFrame, usize), ProtocolError>)
    ensures
        match result {
            Ok((frame, end)) => hello_at(payload@) == Ok::<(HelloView, int), ProtocolError>(
                (frame@, end as int),
            ) && end <= payload@.len(),
            Err(error) => hello_at(payload@) == Err::<(HelloView, int), ProtocolError>(error),
        },
{
    let mut offset: usize = 0;
    let node_address = match read_string(payload, &mut offset) {
        Ok(value) => value,
        Err(error) => return Err(error),
    };
    let dim: u32 = match read_u32_le(payload, &mut offset) {
        Ok(value) => value,
        Err(error) => return Err(error),
    };
    let n_layers: u32 = match read_u32_le(payload, &mut offset) {
        Ok(value) => value,
        Err(error) => return Err(error),
    };
    let n_experts: u32 = match read_u32_le(payload, &mut offset) {
        Ok(value) => value,
        Err(error) => return Err(error),
    };
    let code: u16 = match read_u16_le(payload, &mut offset) {
        Ok(value) => value,
        Err(error) => return Err(error),
    };
    let activation_dtype = match ActivationDtype::from_u16(code) {
        Ok(value) => value,
        Err(error) => return Err(error),
    };
    let pair_count: u32 = match read_u32_le(payload, &mut offset) {
        Ok(value) => value,
        Err(error) => return Err(error),
    };
    let assigned_experts = match read_pairs(payload, &mut offset, pair_count as usize) {
        Ok(value) => value,
        Err(error) => return Err(error),
    };
    let speculative_push = offset < payload.len() && payload[offset] != 0;
    Ok(
        (
            HelloFrame {
                node_address,
                dim: dim as usize,
                n_layers: n_layers as usize,
                n_experts: n_experts as usize,
                activation_dtype,
                assigned_experts,
                speculative_push,
            },
            offset,
        ),
    )
}

/// Decodes a greeting.
pub fn decode_hello_frame(payload: &[u8]) -> (result: Result<HelloFrame, ProtocolError>)
    ensures
        match result {
            Ok(frame) => decoded_hello(payload@) == Ok::<HelloView, ProtocolError>(frame@),
            Err(error) => decoded_hello(payload@) == Err::<HelloView, ProtocolError>(error),
        },
{
    match read_hello(payload) {
        Ok((frame, _)) => Ok(frame),
        Err(error) => Err(error),
    }
}

/// Encodes a readiness answer.
pub fn encode_ready_frame(frame: &ReadyFrame) -> (result: Result<Vec<u8>, ProtocolError>)
    ensures
        match result {
            Ok(out) => ready_rejection(frame@) is None && out@ == ready_bytes(frame@),
            Err(error) => ready_rejection(frame@) == Some(error),
        },
{
    let hello = HelloFrame {
        node_address: frame.node_address.clone(),
        dim: frame.dim,
        n_layers: frame.n_layers,
        n_experts: frame.n_experts,
        activation_dtype: frame.activation_dtype,
        assigned_experts: Vec::new(),
        speculative_push: frame.speculative_push,
    };
    assert(hello@ =~= ready_greeting(frame@));
    let mut out: Vec<u8> = match encode_hello_frame(&hello) {
        Ok(value) => value,
        Err(error) => return Err(error),
    };
    match write_size(&mut out, frame.logical_cpu_count, WireField::LogicalCpuCount) {
        Ok(_) => {},
        Err(error) => return Err(error),
    }
    write_u64_le(&mut out, frame.memory_bytes as u64);
    match write_size(&mut out, frame.loaded_expert_count, WireField::LoadedExpertCount) {
        Ok(_) => {},
        Err(error) => return Err(error),
    }
    Ok(out)
}

/// Decodes a readiness answer.
pub fn decode_ready_frame(payload: &[u8]) -> (result: Result<ReadyFrame, ProtocolError>)
    ensures
        match result {
            Ok(frame) => decoded_ready(payload@) == Ok::<ReadyView, ProtocolError>(frame@),
            Err(error) => decoded_ready(payload@) == Err::<ReadyView, ProtocolError>(error),
        },
{
    let (hello, end) = match read_hello(payload) {
        Ok(value) => value,
        Err(error) => return Err(error),
    };
    let mut offset: usize = end;
    if offset < payload.len() {
        offset = offset + 1;
    }
    let logical_cpu_count: u32 = match read_u32_le(payload, &mut offset) {
        Ok(value) => value,
        Err(error) => return Err(error),
    };
    let memory_bytes: u64 = match read_u64_le(payload, &mut offset) {
        Ok(value) => value,
        Err(error) => return Err(error),
    };
    let loaded_expert_count: u32 = match read_u32_le(payload, &mut offset) {
        Ok(value) => value,
        Err(error) => return Err(error),
    };
    Ok(
        ReadyFrame {
            node_address: hello.node_address,
            dim: hello.dim,
            n_layers: hello.n_layers,
            n_experts: hello.n_experts,
            activation_dtype: hello.activation_dtype,
            speculative_push: hello.speculative_push,
            logical_cpu_count: logical_cpu_count as usize,
            memory_bytes: #[verifier::truncate]
            (memory_bytes as usize),
            loaded_expert_count: loaded_expert_count as usize,
        },
    )
}

/// Encodes a discovery answer.
pub fn encode_discover_response_frame(frame: &DiscoverResponseFrame) -> (result: Result<
    Vec<u8>,
    ProtocolError,
>)
    ensures
        match result {
            Ok(out) => discover_rejection(frame@) is None && out@ == discover_bytes(frame@),
            Err(error) => discover_rejection(frame@) == Some(error),
        },
{
    let mut out: Vec<u8> = Vec::new();
    match write_greeting(
        &mut out,
        frame.node_address.as_str(),
        frame.dim,
        frame.n_layers,
        frame.n_experts,
    ) {
        Ok(_) => {},
        Err(error) => return Err(error),
    }
    match write_size(&mut out, frame.logical_cpu_count, WireField::LogicalCpuCount) {
        Ok(_) => {},
        Err(error) => return Err(error),
    }
    write_u64_le(&mut out, frame.memory_bytes as u64);
    assert(out@ =~= discover_bytes(frame@));
    Ok(out)
}

/// Decodes a discovery answer.
pub fn decode_discover_response_frame(payload: &[u8]) -> (result: Result<
    DiscoverResponseFrame,
    ProtocolError,
>)
    ensures
        match result {
            Ok(frame) => decoded_discover(payload@) == Ok::<DiscoverResponseView, ProtocolError>(
                frame@,
            ),
            Err(error) => decoded_discover(payload@) == Err::<DiscoverResponseView, ProtocolError>(
                error,
            ),
        },
{
    let mut offset: usize = 0;
    let node_address = match read_string(payload, &mut offset) {
        Ok(value) => value,
        Err(error) => return Err(error),
    };
    let dim: u32 = match read_u32_le(payload, &mut offset) {
        Ok(value) => value,
        Err(error) => return Err(error),
    };
    let n_layers: u32 = match read_u32_le(payload, &mut offset) {
        Ok(value) => value,
        Err(error) => return Err(error),
    };
    let n_experts: u32 = match read_u32_le(payload, &mut offset) {
        Ok(value) => value,
        Err(error) => return Err(error),
    };
    let logical_cpu_count: u32 = match read_u32_le(payload, &mut offset) {
        Ok(value) => value,
        Err(error) => return Err(error),
    };
    let memory_bytes: u64 = match read_u64_le(payload, &mut offset) {
        Ok(value) => value,
        Err(error) => return Err(error),
    };
    Ok(
        DiscoverResponseFrame {
            node_address,
            dim: dim as usize,
            n_layers: n_layers as usize,
            n_experts: n_experts as usize,
            logical_cpu_count: logical_cpu_count as usize,
            memory_bytes: #[verifier::truncate]
            (memory_bytes as usize),
        },
    )
}

/// Encodes an error report.
pub fn encode_error_frame(message: &str) -> (result: Result<Vec<u8>, ProtocolError>)
    ensures
        match result {
            Ok(out) => encode_utf8(message@).len() <= u32::MAX && out@ == error_bytes(message@),
            Err(error) => encode_utf8(message@).len() > u32::MAX && error
                == ProtocolError::ErrorMessageTooLarge,
        },
{
    let bytes = message.as_bytes();
    if bytes.len() as u64 > u32::MAX as u64 {
        return Err(ProtocolError::ErrorMessageTooLarge);
    }
    let mut out: Vec<u8> = Vec::new();
    write_u32_le(&mut out, bytes.len() as u32);
    extend(&mut out, bytes);
    assert(out@ =~= error_bytes(message@));
    Ok(out)
}

/// Decodes an error report.
pub fn decode_error_frame(payload: &[u8]) -> (result: Result<String, ProtocolError>)
    ensures
        match result {
            Ok(message) => decoded_error(payload@) == Ok::<Seq<char>, ProtocolError>(message@),
            Err(error) => decoded_error(payload@) == Err::<Seq<char>, ProtocolError>(error),
        },
{
    let mut offset: usize = 0;
    let len: u32 = match read_u32_le(payload, &mut offset) {
        Ok(value) => value,
        Err(error) => return Err(error),
    };
    let end: usize = match offset.checked_add(len as usize) {
        Some(end) => end,
        None => return Err(ProtocolError::ErrorPayloadOverflow),
    };
    if end > payload.len() {
        return Err(ProtocolError::TruncatedErrorPayload);
    }
    match string_from_utf8(copy_range(payload, offset, end)) {
        Ok(text) => Ok(text),
        Err((at, len)) => Err(ProtocolError::ErrorPayloadNotUtf8(Utf8Failure::new(at, len))),
    }
}

proof fn lemma_pairs_fit(pairs: Seq<(usize, usize)>)
    requires
        pairs_rejection(pairs) is None,
    ensures
        forall|i: int|
            0 <= i < pairs.len() ==> (#[trigger] pairs[i]).0 <= u32::MAX && pairs[i].1 <= u32::MAX,
    decreases pairs.len(),
{
    if pairs.len() > 0 {
        lemma_pairs_fit(pairs.drop_last());
        assert forall|i: int| 0 <= i < pairs.len() implies (#[trigger] pairs[i]).0 <= u32::MAX
            && pairs[i].1 <= u32::MAX by {
            if i < pairs.len() - 1 {
                assert(pairs.drop_last()[i] == pairs[i]);
            }
        }
    }
}

proof fn lemma_pairs_read_back(s: Seq<u8>, pre: Seq<u8>, pairs: Seq<(usize, usize)>)
    requires
        pairs_rejection(pairs) is None,
        starts(s, pre + le32_list(flat_pairs(pairs))),
    ensures
        pre.len() + 8 * pairs.len() <= s.len(),
        starts(s, pre),
        pairs_at(s, pre.len() as int, pairs.len()) == pairs,
        le32_list(flat_pairs(pairs)).len() == 8 * pairs.len(),
{
    let flat = flat_pairs(pairs);
    lemma_pairs_fit(pairs);
    assert forall|i: int| 0 <= i < flat.len() implies 0 <= #[trigger] flat[i] <= u32::MAX by {
        let pair = pairs[i / 2];
    }
    lemma_le32_list_len(flat);
    lemma_le32_list_reads_back(s, pre, flat);
    let at = pre.len() as int;
    assert forall|i: int| 0 <= i < pairs.len() implies #[trigger] pairs_at(s, at, pairs.len())[i]
        == pairs[i] by {
        assert(flat[2 * i] == pairs[i].0);
        assert(flat[2 * i + 1] == pairs[i].1);
        assert(le32(s, at + 4 * (2 * i)) == flat[2 * i]);
        assert(le32(s, at + 4 * (2 * i + 1)) == flat[2 * i + 1]);
    }
    assert(pairs_at(s, at, pairs.len()) =~= pairs);
}

proof fn lemma_greeting_reads_back(
    s: Seq<u8>,
    node_address: Seq<char>,
    dim: usize,
    n_layers: usize,
    n_experts: usize,
)
    requires
        greeting_rejection(node_address, dim, n_layers, n_experts) is None,
        s.len() <= usize::MAX,
        starts(s, greeting_bytes(node_address, dim, n_layers, n_experts)),
    ensures
        ({
            let p = string_bytes(node_address).len() as int;
            &&& string_at(s, 0) == Ok::<(Seq<char>, int), ProtocolError>((node_address, p))
            &&& greeting_bytes(node_address, dim, n_layers, n_experts).len() == p + 12
            &&& p + 12 <= s.len()
            &&& le32(s, p) == dim
            &&& le32(s, p + 4) == n_layers
            &&& le32(s, p + 8) == n_experts
        }),
{
    let a = string_bytes(node_address);
    let b = a + le32_bytes(dim as int);
    let c = b + le32_bytes(n_layers as int);
    lemma_le32_reads_back(s, c, n_experts as int);
    lemma_le32_reads_back(s, b, n_layers as int);
    lemma_le32_reads_back(s, a, dim as int);
    assert(Seq::<u8>::empty() + a =~= a);
    lemma_string_reads_back(s, Seq::empty(), node_address);
}

proof fn lemma_hello_reads_back(s: Seq<u8>, v: HelloView)
    requires
        hello_rejection(v) is None,
        s.len() <= usize::MAX,
        starts(s, hello_bytes(v)),
    ensures
        hello_at(s) == Ok::<(HelloView, int), ProtocolError>((v, hello_bytes(v).len() - 1)),
        hello_bytes(v).len() <= s.len(),
{
    let g = greeting_bytes(v.node_address, v.dim, v.n_layers, v.n_experts);
    let d = g + le16_bytes(v.activation_dtype.code());
    let n = d + le32_bytes(v.assigned_experts.len() as int);
    let l = n + le32_list(flat_pairs(v.assigned_experts));
    let flag = seq![flag_byte(v.speculative_push)];
    lemma_starts_shorter(s, l, flag);
    assert(s[l.len() as int] == (l + flag)[l.len() as int]);
    lemma_pairs_read_back(s, n, v.assigned_experts);
    lemma_le32_reads_back(s, d, v.assigned_experts.len() as int);
    lemma_le16_reads_back(s, g, v.activation_dtype.code());
    lemma_greeting_reads_back(s, v.node_address, v.dim, v.n_layers, v.n_experts);
}

/// Decoding an encoded greeting gives it back.
pub proof fn hello_round_trip(v: HelloView)
    requires
        hello_rejection(v) is None,
        hello_bytes(v).len() <= usize::MAX,
    ensures
        decoded_hello(hello_bytes(v)) == Ok::<HelloView, ProtocolError>(v),
{
    lemma_hello_reads_back(hello_bytes(v), v);
}

/// Bytes behind an encoded greeting change nothing.
pub proof fn hello_ignores_what_follows(v: HelloView, rest: Seq<u8>)
    requires
        hello_rejection(v) is None,
        (hello_bytes(v) + rest).len() <= usize::MAX,
    ensures
        decoded_hello(hello_bytes(v) + rest) == Ok::<HelloView, ProtocolError>(v),
{
    lemma_hello_reads_back(hello_bytes(v) + rest, v);
}

proof fn lemma_ready_tail(s: Seq<u8>, h: Seq<u8>, v: ReadyView)
    requires
        ready_rejection(v) is None,
        h.len() > 0,
        starts(
            s,
            h + le32_bytes(v.logical_cpu_count as int) + le64_bytes(v.memory_bytes as int)
                + le32_bytes(v.loaded_expert_count as int),
        ),
        hello_at(s) == Ok::<(HelloView, int), ProtocolError>((ready_greeting(v), h.len() - 1)),
    ensures
        decoded_ready(s) == Ok::<ReadyView, ProtocolError>(v),
{
    let c = h + le32_bytes(v.logical_cpu_count as int);
    let m = c + le64_bytes(v.memory_bytes as int);
    lemma_le32_reads_back(s, m, v.loaded_expert_count as int);
    lemma_le64_reads_back(s, c, v.memory_bytes as int);
    lemma_le32_reads_back(s, h, v.logical_cpu_count as int);
}

proof fn lemma_ready_reads_back(s: Seq<u8>, v: ReadyView)
    requires
        ready_rejection(v) is None,
        s.len() <= usize::MAX,
        starts(s, ready_bytes(v)),
    ensures
        decoded_ready(s) == Ok::<ReadyView, ProtocolError>(v),
{
    let h = hello_bytes(ready_greeting(v));
    let tail = le32_bytes(v.logical_cpu_count as int) + le64_bytes(v.memory_bytes as int)
        + le32_bytes(v.loaded_expert_count as int);
    assert(ready_bytes(v) =~= h + tail);
    lemma_starts_shorter(s, h, tail);
    lemma_hello_reads_back(s, ready_greeting(v));
    lemma_ready_tail(s, h, v);
}

/// Decoding an encoded readiness answer gives it back.
pub proof fn ready_round_trip(v: ReadyView)
    requires
        ready_rejection(v) is None,
        ready_bytes(v).len() <= usize::MAX,
    ensures
        decoded_ready(ready_bytes(v)) == Ok::<ReadyView, ProtocolError>(v),
{
    lemma_ready_reads_back(ready_bytes(v), v);
}

/// Bytes behind an encoded readiness answer change nothing.
pub proof fn ready_ignores_what_follows(v: ReadyView, rest: Seq<u8>)
    requires
        ready_rejection(v) is None,
        (ready_bytes(v) + rest).len() <= usize::MAX,
    ensures
        decoded_ready(ready_bytes(v) + rest) == Ok::<ReadyView, ProtocolError>(v),
{
    lemma_ready_reads_back(ready_bytes(v) + rest, v);
}

proof fn lemma_discover_reads_back(s: Seq<u8>, v: DiscoverResponseView)
    requires
        discover_rejection(v) is None,
        s.len() <= usize::MAX,
        starts(s, discover_bytes(v)),
    ensures
        decoded_discover(s) == Ok::<DiscoverResponseView, ProtocolError>(v),
{
    let g = greeting_bytes(v.node_address, v.dim, v.n_layers, v.n_experts);
    let c = g + le32_bytes(v.logical_cpu_count as int);
    lemma_le64_reads_back(s, c, v.memory_bytes as int);
    lemma_le32_reads_back(s, g, v.logical_cpu_count as int);
    lemma_greeting_reads_back(s, v.node_address, v.dim, v.n_layers, v.n_experts);
}

/// Decoding an encoded discovery answer gives it back.
pub proof fn discover_round_trip(v: DiscoverResponseView)
    requires
        discover_rejection(v) is None,
        discover_bytes(v).len() <= usize::MAX,
    ensures
        decoded_discover(discover_bytes(v)) == Ok::<DiscoverResponseView, ProtocolError>(v),
{
    lemma_discover_reads_back(discover_bytes(v), v);
}

/// Bytes behind an encoded discovery answer change nothing.
pub proof fn discover_ignores_what_follows(v: DiscoverResponseView, rest: Seq<u8>)
    requires
        discover_rejection(v) is None,
        (discover_bytes(v) + rest).len() <= usize::MAX,
    ensures
        decoded_discover(discover_bytes(v) + rest) == Ok::<DiscoverResponseView, ProtocolError>(v),
{
    lemma_discover_reads_back(discover_bytes(v) + rest, v);
}

proof fn lemma_error_reads_back(s: Seq<u8>, message: Seq<char>)
    requires
        encode_utf8(message).len() <= u32::MAX,
        s.len() <= usize::MAX,
        starts(s, error_bytes(message)),
    ensures
        decoded_error(s) == Ok::<Seq<char>, ProtocolError>(message),
{
    let body = encode_utf8(message);
    let head = le32_bytes(body.len() as int);
    lemma_starts_shorter(s, head, body);
    assert(Seq::<u8>::empty() + head =~= head);
    lemma_le32_reads_back(s, Seq::empty(), body.len() as int);
    let end = 4 + body.len() as int;
    assert(s.subrange(4, end) =~= body) by {
        assert forall|i: int| 0 <= i < body.len() implies s.subrange(4, end)[i] == body[i] by {
            assert(s[4 + i] == (head + body)[4 + i]);
        }
    }
    vstd::utf8::encode_utf8_valid_utf8(message);
    vstd::utf8::encode_utf8_decode_utf8(message);
}

/// Decoding an encoded error report gives its message back.
pub proof fn error_round_trip(message: Seq<char>)
    requires
        encode_utf8(message).len() <= u32::MAX,
        error_bytes(message).len() <= usize::MAX,
    ensures
        decoded_error(error_bytes(message)) == Ok::<Seq<char>, ProtocolError>(message),
{
    lemma_error_reads_back(error_bytes(message), message);
}

/// Bytes behind an encoded error report change nothing.
pub proof fn error_ignores_what_follows(message: Seq<char>, rest: Seq<u8>)
    requires
        encode_utf8(message).len() <= u32::MAX,
        (error_bytes(message) + rest).len() <= usize::MAX,
    ensures
        decoded_error(error_bytes(message) + rest) == Ok::<Seq<char>, ProtocolError>(message),
{
    lemma_error_reads_back(error_bytes(message) + rest, message);
}

proof fn lemma_string_of_prefix(s: Seq<u8>, n: int)
    requires
        string_at(s, 0) is Ok,
        0 <= n <= s.len(),
    ensures
        ({
            let end = string_at(s, 0)->Ok_0.1;
            &&& 2 <= end
            &&& n < end ==> string_at(s.take(n), 0) is Err
            &&& n >= end ==> string_at(s.take(n), 0) == string_at(s, 0)
        }),
{
    let end = string_at(s, 0)->Ok_0.1;
    if n >= 2 {
        lemma_le16_of_prefix(s, n, 0);
        if n >= end {
            assert(s.take(n).subrange(2, end) =~= s.subrange(2, end));
        }
    }
}

proof fn lemma_hello_of_prefix(s: Seq<u8>, n: int)
    requires
        hello_at(s) is Ok,
        0 <= n <= s.len(),
    ensures
        ({
            let (v, end) = hello_at(s)->Ok_0;
            &&& n < end ==> hello_at(s.take(n)) is Err
            &&& n == end ==> hello_at(s.take(n)) == Ok::<(HelloView, int), ProtocolError>(
                (HelloView { speculative_push: false, ..v }, end),
            )
            &&& n > end ==> hello_at(s.take(n)) == hello_at(s)
        }),
{
    let t = s.take(n);
    lemma_string_of_prefix(s, n);
    let p = string_at(s, 0)->Ok_0.1;
    if n >= p + 14 {
        lemma_le16_of_prefix(s, n, p + 12);
        lemma_le32_of_prefix(s, n, p);
        lemma_le32_of_prefix(s, n, p + 4);
        lemma_le32_of_prefix(s, n, p + 8);
        if n >= p + 18 {
            lemma_le32_of_prefix(s, n, p + 14);
            let count = le32(s, p + 14);
            if n >= p + 18 + 8 * count {
                assert forall|i: int| 0 <= i < count implies pairs_at(t, p + 18, count as nat)[i]
                    == #[trigger] pairs_at(s, p + 18, count as nat)[i] by {
                    lemma_le32_of_prefix(s, n, p + 18 + 8 * i);
                    lemma_le32_of_prefix(s, n, p + 18 + 8 * i + 4);
                }
                assert(pairs_at(t, p + 18, count as nat) =~= pairs_at(s, p + 18, count as nat));
            }
        }
    }
}

/// A greeting that is cut off is refused, except where its last byte alone is missing, the push
/// flag: then it is the greeting without the flag.
pub proof fn cut_off_hello_is_refused(v: HelloView, n: int)
    requires
        hello_rejection(v) is None,
        hello_bytes(v).len() <= usize::MAX,
        0 <= n < hello_bytes(v).len(),
    ensures
        n < hello_bytes(v).len() - 1 ==> decoded_hello(hello_bytes(v).take(n)) is Err,
        n == hello_bytes(v).len() - 1 ==> decoded_hello(hello_bytes(v).take(n)) == Ok::<
            HelloView,
            ProtocolError,
        >(HelloView { speculative_push: false, ..v }),
{
    lemma_hello_reads_back(hello_bytes(v), v);
    lemma_hello_of_prefix(hello_bytes(v), n);
}

/// A readiness answer that is cut off is refused.
pub proof fn cut_off_ready_is_refused(v: ReadyView, n: int)
    requires
        ready_rejection(v) is None,
        ready_bytes(v).len() <= usize::MAX,
        0 <= n < ready_bytes(v).len(),
    ensures
        decoded_ready(ready_bytes(v).take(n)) is Err,
{
    let s = ready_bytes(v);
    let h = hello_bytes(ready_greeting(v));
    assert(starts(s, h));
    lemma_hello_reads_back(s, ready_greeting(v));
    lemma_hello_of_prefix(s, n);
}

/// A discovery answer that is cut off is refused.
pub proof fn cut_off_discovery_is_refused(v: DiscoverResponseView, n: int)
    requires
        discover_rejection(v) is None,
        discover_bytes(v).len() <= usize::MAX,
        0 <= n < discover_bytes(v).len(),
    ensures
        decoded_discover(discover_bytes(v).take(n)) is Err,
{
    let s = discover_bytes(v);
    assert(starts(s, greeting_bytes(v.node_address, v.dim, v.n_layers, v.n_experts)));
    lemma_greeting_reads_back(s, v.node_address, v.dim, v.n_layers, v.n_experts);
    lemma_string_of_prefix(s, n);
}

/// An error report that is cut off is refused.
pub proof fn cut_off_error_is_refused(message: Seq<char>, n: int)
    requires
        encode_utf8(message).len() <= u32::MAX,
        error_bytes(message).len() <= usize::MAX,
        0 <= n < error_bytes(message).len(),
    ensures
        decoded_error(error_bytes(message).take(n)) is Err,
{
    let s = error_bytes(message);
    let head = le32_bytes(encode_utf8(message).len() as int);
    lemma_starts_shorter(s, head, encode_utf8(message));
    assert(Seq::<u8>::empty() + head =~= head);
    lemma_le32_reads_back(s, Seq::empty(), encode_utf8(message).len() as int);
    if n >= 4 {
        lemma_le32_of_prefix(s, n, 0);
    }
}

/// A greeting holds the length of the address and the address, then the sizes of the model, the
/// number format, the number of experts and for each of them its layer and index, and last whether
/// results may be sent ahead.
pub proof fn greetings_are_laid_out_in_order(v: HelloView)
    requires
        hello_rejection(v) is None,
        hello_bytes(v).len() <= usize::MAX,
    ensures
        ({
            let s = hello_bytes(v);
            let name = encode_utf8(v.node_address);
            let p = 2 + name.len() as int;
            let count = v.assigned_experts.len() as int;
            &&& le16(s, 0) == name.len()
            &&& s.subrange(2, p) == name
            &&& le32(s, p) == v.dim
            &&& le32(s, p + 4) == v.n_layers
            &&& le32(s, p + 8) == v.n_experts
            &&& le16(s, p + 12) == v.activation_dtype.code()
            &&& le32(s, p + 14) == count
            &&& forall|i: int|
                0 <= i < count ==> le32(s, p + 18 + 8 * i) == (#[trigger] v.assigned_experts[i]).0
                    && le32(s, p + 22 + 8 * i) == v.assigned_experts[i].1
            &&& s.len() == p + 19 + 8 * count
            &&& s[p + 18 + 8 * count] == if v.speculative_push {
                1u8
            } else {
                0u8
            }
        }),
{
    let s = hello_bytes(v);
    let name = encode_utf8(v.node_address);
    let p = 2 + name.len() as int;
    let count = v.assigned_experts.len() as int;
    let g = greeting_bytes(v.node_address, v.dim, v.n_layers, v.n_experts);
    let d = g + le16_bytes(v.activation_dtype.code());
    let n = d + le32_bytes(count);
    let l = n + le32_list(flat_pairs(v.assigned_experts));
    let flag = seq![flag_byte(v.speculative_push)];
    lemma_starts_shorter(s, l, flag);
    lemma_pairs_read_back(s, n, v.assigned_experts);
    lemma_le32_reads_back(s, d, count);
    lemma_le16_reads_back(s, g, v.activation_dtype.code());
    lemma_greeting_reads_back(s, v.node_address, v.dim, v.n_layers, v.n_experts);
    lemma_name_lies_in_front(s, v.node_address, v.dim, v.n_layers, v.n_experts);
    assert forall|i: int| 0 <= i < count implies le32(s, p + 18 + 8 * i) == (
    #[trigger] v.assigned_experts[i]).0 && le32(s, p + 22 + 8 * i) == v.assigned_experts[i].1 by {
        assert(pairs_at(s, p + 18, count as nat)[i] == v.assigned_experts[i]);
    }
}

proof fn lemma_name_lies_in_front(
    s: Seq<u8>,
    node_address: Seq<char>,
    dim: usize,
    n_layers: usize,
    n_experts: usize,
)
    requires
        encode_utf8(node_address).len() <= u16::MAX,
        starts(s, greeting_bytes(node_address, dim, n_layers, n_experts)),
    ensures
        le16(s, 0) == encode_utf8(node_address).len(),
        2 + encode_utf8(node_address).len() <= s.len(),
        s.subrange(2, 2 + encode_utf8(node_address).len() as int) == encode_utf8(node_address),
        string_bytes(node_address).len() == 2 + encode_utf8(node_address).len(),
{
    let name = encode_utf8(node_address);
    let head = le16_bytes(name.len() as int);
    let a = string_bytes(node_address);
    let b = a + le32_bytes(dim as int);
    let c = b + le32_bytes(n_layers as int);
    lemma_starts_shorter(s, c, le32_bytes(n_experts as int));
    lemma_starts_shorter(s, b, le32_bytes(n_layers as int));
    lemma_starts_shorter(s, a, le32_bytes(dim as int));
    lemma_starts_shorter(s, head, name);
    assert(Seq::<u8>::empty() + head =~= head);
    lemma_le16_reads_back(s, Seq::empty(), name.len() as int);
    assert(s.subrange(2, 2 + name.len() as int) =~= name) by {
        assert forall|i: int| 0 <= i < name.len() implies s[2 + i] == name[i] by {
            assert(s[2 + i] == a[2 + i]);
        }
    }
}

/// A readiness answer opens like a greeting without experts; the processors, the memory and the
/// number of loaded experts follow.
pub proof fn readiness_answers_are_laid_out_in_order(v: ReadyView)
    requires
        ready_rejection(v) is None,
        ready_bytes(v).len() <= usize::MAX,
    ensures
        ({
            let s = ready_bytes(v);
            let p = 2 + encode_utf8(v.node_address).len() as int;
            &&& le16(s, 0) == p - 2
            &&& s.subrange(2, p) == encode_utf8(v.node_address)
            &&& le32(s, p) == v.dim
            &&& le32(s, p + 4) == v.n_layers
            &&& le32(s, p + 8) == v.n_experts
            &&& le16(s, p + 12) == v.activation_dtype.code()
            &&& le32(s, p + 14) == 0
            &&& s[p + 18] == if v.speculative_push {
                1u8
            } else {
                0u8
            }
            &&& le32(s, p + 19) == v.logical_cpu_count
            &&& le64(s, p + 23) == v.memory_bytes
            &&& le32(s, p + 31) == v.loaded_expert_count
            &&& s.len() == p + 35
        }),
{
    let s = ready_bytes(v);
    let p = 2 + encode_utf8(v.node_address).len() as int;
    let hello = ready_greeting(v);
    let h = hello_bytes(hello);
    let c = h + le32_bytes(v.logical_cpu_count as int);
    let m = c + le64_bytes(v.memory_bytes as int);
    let none = Seq::<(usize, usize)>::empty();
    assert(hello.assigned_experts =~= none);
    assert(flat_pairs(none) =~= Seq::empty());
    lemma_le32_reads_back(s, m, v.loaded_expert_count as int);
    lemma_le64_reads_back(s, c, v.memory_bytes as int);
    lemma_le32_reads_back(s, h, v.logical_cpu_count as int);
    let g = greeting_bytes(v.node_address, v.dim, v.n_layers, v.n_experts);
    let d = g + le16_bytes(v.activation_dtype.code());
    let n = d + le32_bytes(0);
    let l = n + le32_list(flat_pairs(hello.assigned_experts));
    let flag = seq![flag_byte(v.speculative_push)];
    assert(h == l + flag);
    lemma_starts_shorter(s, l, flag);
    assert(s[l.len() as int] == (l + flag)[l.len() as int]);
    lemma_pairs_read_back(s, n, hello.assigned_experts);
    lemma_le32_reads_back(s, d, 0);
    lemma_le16_reads_back(s, g, v.activation_dtype.code());
    lemma_greeting_reads_back(s, v.node_address, v.dim, v.n_layers, v.n_experts);
    lemma_name_lies_in_front(s, v.node_address, v.dim, v.n_layers, v.n_experts);
}

/// A discovery answer holds the length of the address and the address, then the sizes of the model,
/// the processors and the memory.
pub proof fn discovery_answers_are_laid_out_in_order(v: DiscoverResponseView)
    requires
        discover_rejection(v) is None,
        discover_bytes(v).len() <= usize::MAX,
    ensures
        ({
            let s = discover_bytes(v);
            let p = 2 + encode_utf8(v.node_address).len() as int;
            &&& le16(s, 0) == p - 2
            &&& s.subrange(2, p) == encode_utf8(v.node_address)
            &&& le32(s, p) == v.dim
            &&& le32(s, p + 4) == v.n_layers
            &&& le32(s, p + 8) == v.n_experts
            &&& le32(s, p + 12) == v.logical_cpu_count
            &&& le64(s, p + 16) == v.memory_bytes
            &&& s.len() == p + 24
        }),
{
    let s = discover_bytes(v);
    let g = greeting_bytes(v.node_address, v.dim, v.n_layers, v.n_experts);
    let c = g + le32_bytes(v.logical_cpu_count as int);
    lemma_le64_reads_back(s, c, v.memory_bytes as int);
    lemma_le32_reads_back(s, g, v.logical_cpu_count as int);
    lemma_greeting_reads_back(s, v.node_address, v.dim, v.n_layers, v.n_experts);
    lemma_name_lies_in_front(s, v.node_address, v.dim, v.n_layers, v.n_experts);
}

/// An error report holds the length of the message and the message.
pub proof fn error_reports_are_laid_out_in_order(message: Seq<char>)
    requires
        encode_utf8(message).len() <= u32::MAX,
    ensures
        le32(error_bytes(message), 0) == encode_utf8(message).len(),
        error_bytes(message).skip(4) == encode_utf8(message),
{
    let body = encode_utf8(message);
    let head = le32_bytes(body.len() as int);
    let s = error_bytes(message);
    assert(Seq::<u8>::empty() + head =~= head);
    lemma_starts_shorter(s, head, body);
    lemma_le32_reads_back(s, Seq::empty(), body.len() as int);
    assert(s.skip(4) =~= body);
}

} // verus!
