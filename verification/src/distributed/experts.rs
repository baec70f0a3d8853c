//! The frames that carry activations to expert workers and expert outputs back.
use crate::bytes::{copy_range, le16, le16_bytes, le32, le32_bytes, le32_list, le64, le64_bytes,
    lemma_le16_of_prefix, lemma_le16_reads_back, lemma_le32_list_len, lemma_le32_of_prefix,
    lemma_le32_reads_back, lemma_le64_of_prefix, lemma_le64_reads_back, lemma_starts_shorter,
    starts};
use crate::distributed::activation::{
    activation_bytes, activation_round_trip, activation_vector_encoded_len,
    decode_activation_vector, decoded_activation, encode_activation_vector, encoded_len,
    encoded_vector_len, ActivationValues, ActivationView,
};
use crate::distributed::protocol::{all_fit, as_ints, dtype_of, lemma_sizes_read_back,
    read_size_list, read_u16_le, read_u32_le, read_u64_le, sizes_at, write_size, write_size_list,
    write_u16_le, write_u64_le, ActivationDtype, Primitive, ProtocolError, WireField};
use vstd::prelude::*;

verus! {

broadcast use crate::bytes::group_little_endian;

/// A request to run experts of one layer on one activation.
#[derive(Debug)]
pub struct ExpertBatchRequest {
    pub token_pos: usize,
    pub layer: usize,
    pub activation_dtype: ActivationDtype,
    pub dim: usize,
    pub expert_ids: Vec<usize>,
    pub activation: ActivationValues,
    /// Predicted experts of the next layer; empty where there is no hint.
    pub hint_expert_ids: Vec<usize>,
}

/// The contents of an [`ExpertBatchRequest`].
#[verifier::ext_equal]
pub struct ExpertBatchRequestView {
    pub token_pos: usize,
    pub layer: usize,
    pub activation_dtype: ActivationDtype,
    pub dim: usize,
    pub expert_ids: Seq<usize>,
    pub activation: ActivationView,
    pub hint_expert_ids: Seq<usize>,
}

impl View for ExpertBatchRequest {
    type V = ExpertBatchRequestView;

    open spec fn view(&self) -> ExpertBatchRequestView {
        ExpertBatchRequestView {
            token_pos: self.token_pos,
            layer: self.layer,
            activation_dtype: self.activation_dtype,
            dim: self.dim,
            expert_ids: self.expert_ids@,
            activation: self.activation@,
            hint_expert_ids: self.hint_expert_ids@,
        }
    }
}

/// A control frame that hands a worker an activation and a hint ahead of time.
#[derive(Debug)]
pub struct SpeculationAdvanceFrame {
    pub layer: usize,
    pub activation_dtype: ActivationDtype,
    pub dim: usize,
    pub activation: ActivationValues,
    pub hint_expert_ids: Vec<usize>,
}

/// The contents of a [`SpeculationAdvanceFrame`].
#[verifier::ext_equal]
pub struct SpeculationAdvanceView {
    pub layer: usize,
    pub activation_dtype: ActivationDtype,
    pub dim: usize,
    pub activation: ActivationView,
    pub hint_expert_ids: Seq<usize>,
}

impl View for SpeculationAdvanceFrame {
    type V = SpeculationAdvanceView;

    open spec fn view(&self) -> SpeculationAdvanceView {
        SpeculationAdvanceView {
            layer: self.layer,
            activation_dtype: self.activation_dtype,
            dim: self.dim,
            activation: self.activation@,
            hint_expert_ids: self.hint_expert_ids@,
        }
    }
}

/// Expert outputs that a worker sends unasked.
#[derive(Debug)]
pub struct ProposedExpertBatchFrame {
    pub layer: usize,
    pub output_dtype: ActivationDtype,
    pub dim: usize,
    pub expert_ids: Vec<usize>,
    pub outputs: Vec<ActivationValues>,
}

/// Expert outputs that answer a request.
#[derive(Debug)]
pub struct ExpertBatchResponse {
    pub layer: usize,
    pub output_dtype: ActivationDtype,
    pub dim: usize,
    pub expert_ids: Vec<usize>,
    pub outputs: Vec<ActivationValues>,
    pub spec_hit: bool,
}

/// The contents of a frame that carries expert outputs.
#[verifier::ext_equal]
pub struct ExpertOutputsView {
    pub layer: usize,
    pub output_dtype: ActivationDtype,
    pub dim: usize,
    pub expert_ids: Seq<usize>,
    pub outputs: Seq<ActivationView>,
}

/// The views of activation vectors.
pub open spec fn views(outputs: Seq<ActivationValues>) -> Seq<ActivationView> {
    outputs.map(|i: int, o: ActivationValues| o@)
}

impl View for ProposedExpertBatchFrame {
    type V = ExpertOutputsView;

    open spec fn view(&self) -> ExpertOutputsView {
        ExpertOutputsView {
            layer: self.layer,
            output_dtype: self.output_dtype,
            dim: self.dim,
            expert_ids: self.expert_ids@,
            outputs: views(self.outputs@),
        }
    }
}

impl View for ExpertBatchResponse {
    type V = (ExpertOutputsView, bool);

    open spec fn view(&self) -> (ExpertOutputsView, bool) {
        (
            ExpertOutputsView {
                layer: self.layer,
                output_dtype: self.output_dtype,
                dim: self.dim,
                expert_ids: self.expert_ids@,
                outputs: views(self.outputs@),
            },
            self.spec_hit,
        )
    }
}

/// Why a request cannot be encoded, if it cannot.
pub open spec fn request_rejection(v: ExpertBatchRequestView) -> Option<ProtocolError> {
    if v.layer > u32::MAX {
        Some(ProtocolError::FieldOverflow(WireField::Layer))
    } else if v.dim > u32::MAX {
        Some(ProtocolError::FieldOverflow(WireField::Dim))
    } else if v.expert_ids.len() > u32::MAX {
        Some(ProtocolError::FieldOverflow(WireField::ExpertCount))
    } else if !all_fit(v.expert_ids) {
        Some(ProtocolError::FieldOverflow(WireField::ExpertId))
    } else if v.hint_expert_ids.len() > u32::MAX {
        Some(ProtocolError::FieldOverflow(WireField::HintCount))
    } else if !all_fit(v.hint_expert_ids) {
        Some(ProtocolError::FieldOverflow(WireField::HintExpertId))
    } else {
        None
    }
}

/// The encoding of a request.
pub open spec fn request_bytes(v: ExpertBatchRequestView) -> Seq<u8> {
    le64_bytes(v.token_pos as int) + le32_bytes(v.layer as int) + le32_bytes(v.dim as int)
        + le16_bytes(v.activation_dtype.code()) + le32_bytes(v.expert_ids.len() as int)
        + le32_list(as_ints(v.expert_ids)) + activation_bytes(v.activation) + le32_bytes(
        v.hint_expert_ids.len() as int,
    ) + le32_list(as_ints(v.hint_expert_ids))
}

/// What decoding a request gives.
pub open spec fn decoded_request(s: Seq<u8>) -> Result<ExpertBatchRequestView, ProtocolError> {
    if s.len() < 8 {
        Err(ProtocolError::Truncated(Primitive::U64))
    } else if s.len() < 16 {
        Err(ProtocolError::Truncated(Primitive::U32))
    } else if s.len() < 18 {
        Err(ProtocolError::Truncated(Primitive::U16))
    } else {
        match dtype_of(le16(s, 16)) {
            Err(error) => Err(error),
            Ok(dtype) => {
                let n = le32(s, 18);
                let dim = le32(s, 12);
                let a = 22 + 4 * n;
                let h = a + encoded_len(dim, dtype);
                let hint_count = le32(s, h);
                if s.len() < 22 || s.len() < a {
                    Err(ProtocolError::Truncated(Primitive::U32))
                } else if h > usize::MAX {
                    Err(ProtocolError::ActivationOverflow)
                } else if h > s.len() {
                    Err(ProtocolError::TruncatedRequestActivation)
                } else if h + 4 <= s.len() && h + 4 + 4 * hint_count > s.len() {
                    Err(ProtocolError::Truncated(Primitive::U32))
                } else {
                    Ok(
                        ExpertBatchRequestView {
                            token_pos: le64(s, 0) as u64 as usize,
                            layer: le32(s, 8) as usize,
                            activation_dtype: dtype,
                            dim: dim as usize,
                            expert_ids: sizes_at(s, 22, n as nat),
                            activation: decoded_activation(s.subrange(a, h), dtype, dim as usize)
                                ->Ok_0,
                            hint_expert_ids: if h + 4 <= s.len() {
                                sizes_at(s, h + 4, hint_count as nat)
                            } else {
                                Seq::empty()
                            },
                        },
                    )
                }
            },
        }
    }
}

/// Encodes a request.
pub fn encode_expert_batch_request(frame: &ExpertBatchRequest) -> (result: Result<
    Vec<u8>,
    ProtocolError,
>)
    requires
        frame@.activation.dtype() == frame@.activation_dtype,
    ensures
        match result {
            Ok(out) => request_rejection(frame@) is None && out@ == request_bytes(frame@),
            Err(error) => request_rejection(frame@) == Some(error),
        },
{
    let mut out: Vec<u8> = Vec::new();
    write_u64_le(&mut out, frame.token_pos as u64);
    match write_size(&mut out, frame.layer, WireField::Layer) {
        Ok(_) => {},
        Err(error) => return Err(error),
    }
    match write_size(&mut out, frame.dim, WireField::Dim) {
        Ok(_) => {},
        Err(error) => return Err(error),
    }
    write_u16_le(&mut out, frame.activation_dtype.to_u16());
    match write_size(&mut out, frame.expert_ids.len(), WireField::ExpertCount) {
        Ok(_) => {},
        Err(error) => return Err(error),
    }
    match write_size_list(&mut out, &frame.expert_ids, WireField::ExpertId) {
        Ok(_) => {},
        Err(error) => return Err(error),
    }
    encode_activation_vector(&frame.activation, &mut out);
    match write_size(&mut out, frame.hint_expert_ids.len(), WireField::HintCount) {
        Ok(_) => {},
        Err(error) => return Err(error),
    }
    match write_size_list(&mut out, &frame.hint_expert_ids, WireField::HintExpertId) {
        Ok(_) => {},
        Err(error) => return Err(error),
    }
    assert(Seq::<u8>::empty() + le64_bytes(frame.token_pos as int) =~= le64_bytes(
        frame.token_pos as int,
    ));
    Ok(out)
}

/// Decodes a request.
pub fn decode_expert_batch_request(payload: &[u8]) -> (result: Result<
    ExpertBatchRequest,
    ProtocolError,
>)
    ensures
        match result {
            Ok(frame) => decoded_request(payload@) == Ok::<ExpertBatchRequestView, ProtocolError>(
                frame@,
            ),
            Err(error) => decoded_request(payload@) == Err::<ExpertBatchRequestView, ProtocolError>(
                error,
            ),
        },
{
    let mut offset: usize = 0;
    let token_pos: u64 = match read_u64_le(payload, &mut offset) {
        Ok(value) => value,
        Err(error) => return Err(error),
    };
    let layer: u32 = match read_u32_le(payload, &mut offset) {
        Ok(value) => value,
        Err(error) => return Err(error),
    };
    let dim: u32 = match read_u32_le(payload, &mut offset) {
        Ok(value) => value,
        Err(error) => return Err(error),
    };
    let code: u16 = match read_u16_le(payload, &mut offset) {
        Ok(value) => value,
        Err(error) => return Err(error),
    };
    let activation_dtype = match ActivationDtype::from_u16(code) {
        Ok(value) => value,
        Err(error) => return Err(error),
    };
    let n_experts: u32 = match read_u32_le(payload, &mut offset) {
        Ok(value) => value,
        Err(error) => return Err(error),
    };
    let expert_ids = match read_size_list(payload, &mut offset, n_experts as usize) {
        Ok(value) => value,
        Err(error) => return Err(error),
    };
    let act_len: usize = activation_vector_encoded_len(dim as usize, activation_dtype);
    let act_end: usize = match offset.checked_add(act_len) {
        Some(end) => end,
        None => return Err(ProtocolError::ActivationOverflow),
    };
    if act_end > payload.len() {
        return Err(ProtocolError::TruncatedRequestActivation);
    }
    let chunk: Vec<u8> = copy_range(payload, offset, act_end);
    let activation = match decode_activation_vector(
        chunk.as_slice(),
        activation_dtype,
        dim as usize,
    ) {
        Ok(value) => value,
        Err(error) => return Err(error),
    };
    offset = act_end;
    let mut hint_expert_ids: Vec<usize> = Vec::new();
    if payload.len() - offset >= 4 {
        let n_hint: u32 = match read_u32_le(payload, &mut offset) {
            Ok(value) => value,
            Err(error) => return Err(error),
        };
        hint_expert_ids =
        match read_size_list(payload, &mut offset, n_hint as usize) {
            Ok(value) => value,
            Err(error) => return Err(error),
        };
    }
    Ok(
        ExpertBatchRequest {
            token_pos: #[verifier::truncate]
            (token_pos as usize),
            layer: layer as usize,
            activation_dtype,
            dim: dim as usize,
            expert_ids,
            activation,
            hint_expert_ids,
        },
    )
}

proof fn lemma_request_reads_back(s: Seq<u8>, v: ExpertBatchRequestView)
    requires
        request_rejection(v) is None,
        v.activation.dtype() == v.activation_dtype,
        v.activation.count() == v.dim,
        s.len() <= usize::MAX,
        starts(s, request_bytes(v)),
    ensures
        decoded_request(s) == Ok::<ExpertBatchRequestView, ProtocolError>(
            ExpertBatchRequestView { activation: v.activation.rounded(), ..v },
        ),
{
    let b1 = le64_bytes(v.token_pos as int);
    let b2 = b1 + le32_bytes(v.layer as int);
    let b3 = b2 + le32_bytes(v.dim as int);
    let b4 = b3 + le16_bytes(v.activation_dtype.code());
    let b5 = b4 + le32_bytes(v.expert_ids.len() as int);
    let b6 = b5 + le32_list(as_ints(v.expert_ids));
    let act = activation_bytes(v.activation);
    let b7 = b6 + act;
    let b8 = b7 + le32_bytes(v.hint_expert_ids.len() as int);
    assert(request_bytes(v) == b8 + le32_list(as_ints(v.hint_expert_ids)));
    lemma_le32_list_len(as_ints(v.expert_ids));
    encoded_vector_len(v.activation);
    lemma_sizes_read_back(s, b8, v.hint_expert_ids);
    lemma_le32_reads_back(s, b7, v.hint_expert_ids.len() as int);
    lemma_starts_shorter(s, b6, act);
    assert(s.subrange(b6.len() as int, b7.len() as int) =~= act) by {
        assert forall|i: int| 0 <= i < act.len() implies s[b6.len() + i] == act[i] by {
            assert(s[b6.len() + i] == b7[b6.len() + i]);
        }
    }
    activation_round_trip(v.activation);
    lemma_sizes_read_back(s, b5, v.expert_ids);
    lemma_le32_reads_back(s, b4, v.expert_ids.len() as int);
    lemma_le16_reads_back(s, b3, v.activation_dtype.code());
    lemma_le32_reads_back(s, b2, v.dim as int);
    lemma_le32_reads_back(s, b1, v.layer as int);
    assert(Seq::<u8>::empty() + b1 =~= b1);
    lemma_le64_reads_back(s, Seq::empty(), v.token_pos as int);
}

/// Decoding an encoded request gives it back, the activation as it arrives.
pub proof fn request_round_trip(v: ExpertBatchRequestView)
    requires
        request_rejection(v) is None,
        v.activation.dtype() == v.activation_dtype,
        v.activation.count() == v.dim,
        request_bytes(v).len() <= usize::MAX,
    ensures
        decoded_request(request_bytes(v)) == Ok::<ExpertBatchRequestView, ProtocolError>(
            ExpertBatchRequestView { activation: v.activation.rounded(), ..v },
        ),
{
    lemma_request_reads_back(request_bytes(v), v);
}

/// Bytes behind an encoded request change nothing.
pub proof fn request_ignores_what_follows(v: ExpertBatchRequestView, rest: Seq<u8>)
    requires
        request_rejection(v) is None,
        v.activation.dtype() == v.activation_dtype,
        v.activation.count() == v.dim,
        (request_bytes(v) + rest).len() <= usize::MAX,
    ensures
        decoded_request(request_bytes(v) + rest) == Ok::<ExpertBatchRequestView, ProtocolError>(
            ExpertBatchRequestView { activation: v.activation.rounded(), ..v },
        ),
{
    lemma_request_reads_back(request_bytes(v) + rest, v);
}

/// Where the hints of an encoded request start.
pub open spec fn hints_start(v: ExpertBatchRequestView) -> int {
    request_bytes(v).len() - 4 - 4 * v.hint_expert_ids.len()
}

proof fn lemma_sizes_of_prefix(s: Seq<u8>, n: int, at: int, count: nat)
    requires
        0 <= at,
        at + 4 * count <= n <= s.len(),
    ensures
        sizes_at(s.take(n), at, count) == sizes_at(s, at, count),
{
    assert forall|i: int| 0 <= i < count implies sizes_at(s.take(n), at, count)[i]
        == #[trigger] sizes_at(s, at, count)[i] by {
        lemma_le32_of_prefix(s, n, at + 4 * i);
    }
    assert(sizes_at(s.take(n), at, count) =~= sizes_at(s, at, count));
}

proof fn lemma_request_of_prefix(s: Seq<u8>, n: int)
    requires
        decoded_request(s) is Ok,
        0 <= n <= s.len(),
    ensures
        ({
            let v = decoded_request(s)->Ok_0;
            let h = 22 + 4 * v.expert_ids.len() + encoded_len(v.dim as int, v.activation_dtype);
            &&& n < h ==> decoded_request(s.take(n)) is Err
            &&& h <= n < h + 4 ==> decoded_request(s.take(n)) == Ok::<
                ExpertBatchRequestView,
                ProtocolError,
            >(ExpertBatchRequestView { hint_expert_ids: Seq::empty(), ..v })
            &&& h + 4 <= n < h + 4 + 4 * v.hint_expert_ids.len() ==> decoded_request(
                s.take(n),
            ) is Err
        }),
{
    let t = s.take(n);
    let v = decoded_request(s)->Ok_0;
    let a = 22 + 4 * v.expert_ids.len() as int;
    let h = a + encoded_len(v.dim as int, v.activation_dtype);
    if n >= 22 {
        lemma_le16_of_prefix(s, n, 16);
        lemma_le32_of_prefix(s, n, 18);
        lemma_le32_of_prefix(s, n, 12);
        lemma_le32_of_prefix(s, n, 8);
        lemma_le64_of_prefix(s, n, 0);
        if n >= h {
            lemma_sizes_of_prefix(s, n, 22, v.expert_ids.len());
            assert(t.subrange(a, h) =~= s.subrange(a, h));
            if n >= h + 4 {
                lemma_le32_of_prefix(s, n, h);
            }
        }
    } else if n >= 18 {
        lemma_le16_of_prefix(s, n, 16);
    }
}

/// A request that is cut off is refused, except where it is cut off within the number of its
/// hints: then it is the request without hints.
pub proof fn cut_off_request_is_refused(v: ExpertBatchRequestView, n: int)
    requires
        request_rejection(v) is None,
        v.activation.dtype() == v.activation_dtype,
        v.activation.count() == v.dim,
        request_bytes(v).len() <= usize::MAX,
        0 <= n < request_bytes(v).len(),
    ensures
        n < hints_start(v) || n >= hints_start(v) + 4 ==> decoded_request(
            request_bytes(v).take(n),
        ) is Err,
        hints_start(v) <= n < hints_start(v) + 4 ==> decoded_request(request_bytes(v).take(n))
            == Ok::<ExpertBatchRequestView, ProtocolError>(
            ExpertBatchRequestView {
                activation: v.activation.rounded(),
                hint_expert_ids: Seq::empty(),
                ..v
            },
        ),
{
    lemma_request_reads_back(request_bytes(v), v);
    lemma_request_of_prefix(request_bytes(v), n);
    lemma_le32_list_len(as_ints(v.expert_ids));
    lemma_le32_list_len(as_ints(v.hint_expert_ids));
    encoded_vector_len(v.activation);
}

/// Why a speculation control frame cannot be encoded, if it cannot.
pub open spec fn advance_rejection(v: SpeculationAdvanceView) -> Option<ProtocolError> {
    if v.layer > u32::MAX {
        Some(ProtocolError::FieldOverflow(WireField::Layer))
    } else if v.dim > u32::MAX {
        Some(ProtocolError::FieldOverflow(WireField::Dim))
    } else if v.hint_expert_ids.len() > u32::MAX {
        Some(ProtocolError::FieldOverflow(WireField::HintCount))
    } else if !all_fit(v.hint_expert_ids) {
        Some(ProtocolError::FieldOverflow(WireField::HintExpertId))
    } else {
        None
    }
}

/// The encoding of a speculation control frame.
pub open spec fn advance_bytes(v: SpeculationAdvanceView) -> Seq<u8> {
    le32_bytes(v.layer as int) + le32_bytes(v.dim as int) + le16_bytes(v.activation_dtype.code())
        + le32_bytes(v.hint_expert_ids.len() as int) + le32_list(as_ints(v.hint_expert_ids))
        + activation_bytes(v.activation)
}

/// What decoding a speculation control frame gives.
pub open spec fn decoded_advance(s: Seq<u8>) -> Result<SpeculationAdvanceView, ProtocolError> {
    if s.len() < 8 {
        Err(ProtocolError::Truncated(Primitive::U32))
    } else if s.len() < 10 {
        Err(ProtocolError::Truncated(Primitive::U16))
    } else {
        match dtype_of(le16(s, 8)) {
            Err(error) => Err(error),
            Ok(dtype) => {
                let n = le32(s, 10);
                let a = 14 + 4 * n;
                if s.len() < 14 || s.len() < a {
                    Err(ProtocolError::Truncated(Primitive::U32))
                } else {
                    match decoded_activation(
                        s.subrange(a, s.len() as int),
                        dtype,
                        le32(s, 4) as usize,
                    ) {
                        Err(error) => Err(error),
                        Ok(activation) => Ok(
                            SpeculationAdvanceView {
                                layer: le32(s, 0) as usize,
                                activation_dtype: dtype,
                                dim: le32(s, 4) as usize,
                                activation,
                                hint_expert_ids: sizes_at(s, 14, n as nat),
                            },
                        ),
                    }
                }
            },
        }
    }
}

/// Encodes a speculation control frame.
pub fn encode_speculation_advance(frame: &SpeculationAdvanceFrame) -> (result: Result<
    Vec<u8>,
    ProtocolError,
>)
    requires
        frame@.activation.dtype() == frame@.activation_dtype,
    ensures
        match result {
            Ok(out) => advance_rejection(frame@) is None && out@ == advance_bytes(frame@),
            Err(error) => advance_rejection(frame@) == Some(error),
        },
{
    let mut out: Vec<u8> = Vec::new();
    match write_size(&mut out, frame.layer, WireField::Layer) {
        Ok(_) => {},
        Err(error) => return Err(error),
    }
    assert(out@ =~= le32_bytes(frame.layer as int));
    match write_size(&mut out, frame.dim, WireField::Dim) {
        Ok(_) => {},
        Err(error) => return Err(error),
    }
    write_u16_le(&mut out, frame.activation_dtype.to_u16());
    match write_size(&mut out, frame.hint_expert_ids.len(), WireField::HintCount) {
        Ok(_) => {},
        Err(error) => return Err(error),
    }
    match write_size_list(&mut out, &frame.hint_expert_ids, WireField::HintExpertId) {
        Ok(_) => {},
        Err(error) => return Err(error),
    }
    encode_activation_vector(&frame.activation, &mut out);
    Ok(out)
}

/// Decodes a speculation control frame.
pub fn decode_speculation_advance(payload: &[u8]) -> (result: Result<
    SpeculationAdvanceFrame,
    ProtocolError,
>)
    ensures
        match result {
            Ok(frame) => decoded_advance(payload@) == Ok::<SpeculationAdvanceView, ProtocolError>(
                frame@,
            ),
            Err(error) => decoded_advance(payload@) == Err::<SpeculationAdvanceView, ProtocolError>(
                error,
            ),
        },
{
    let mut offset: usize = 0;
    let layer: u32 = match read_u32_le(payload, &mut offset) {
        Ok(value) => value,
        Err(error) => return Err(error),
    };
    let dim: u32 = match read_u32_le(payload, &mut offset) {
        Ok(value) => value,
        Err(error) => return Err(error),
    };
    let code: u16 = match read_u16_le(payload, &mut offset) {
        Ok(value) => value,
        Err(error) => return Err(error),
    };
    let activation_dtype = match ActivationDtype::from_u16(code) {
        Ok(value) => value,
        Err(error) => return Err(error),
    };
    let n_hint: u32 = match read_u32_le(payload, &mut offset) {
        Ok(value) => value,
        Err(error) => return Err(error),
    };
    let hint_expert_ids = match read_size_list(payload, &mut offset, n_hint as usize) {
        Ok(value) => value,
        Err(error) => return Err(error),
    };
    let chunk: Vec<u8> = copy_range(payload, offset, payload.len());
    match decode_activation_vector(chunk.as_slice(), activation_dtype, dim as usize) {
        Ok(activation) => Ok(
            SpeculationAdvanceFrame {
                layer: layer as usize,
                activation_dtype,
                dim: dim as usize,
                activation,
                hint_expert_ids,
            },
        ),
        Err(error) => Err(error),
    }
}

/// Decoding an encoded speculation control frame gives it back, the activation as it arrives.
pub proof fn advance_round_trip(v: SpeculationAdvanceView)
    requires
        advance_rejection(v) is None,
        v.activation.dtype() == v.activation_dtype,
        v.activation.count() == v.dim,
        advance_bytes(v).len() <= usize::MAX,
    ensures
        decoded_advance(advance_bytes(v)) == Ok::<SpeculationAdvanceView, ProtocolError>(
            SpeculationAdvanceView { activation: v.activation.rounded(), ..v },
        ),
{
    let s = advance_bytes(v);
    let b1 = le32_bytes(v.layer as int);
    let b2 = b1 + le32_bytes(v.dim as int);
    let b3 = b2 + le16_bytes(v.activation_dtype.code());
    let b4 = b3 + le32_bytes(v.hint_expert_ids.len() as int);
    let b5 = b4 + le32_list(as_ints(v.hint_expert_ids));
    let act = activation_bytes(v.activation);
    assert(s == b5 + act);
    lemma_le32_list_len(as_ints(v.hint_expert_ids));
    assert(s.subrange(b5.len() as int, s.len() as int) =~= act);
    activation_round_trip(v.activation);
    lemma_starts_shorter(s, b5, act);
    lemma_sizes_read_back(s, b4, v.hint_expert_ids);
    lemma_le32_reads_back(s, b3, v.hint_expert_ids.len() as int);
    lemma_le16_reads_back(s, b2, v.activation_dtype.code());
    lemma_le32_reads_back(s, b1, v.dim as int);
    assert(Seq::<u8>::empty() + b1 =~= b1);
    lemma_le32_reads_back(s, Seq::empty(), v.layer as int);
}

/// A speculation control frame ends where its activation ends: with bytes missing or bytes
/// behind it, it is refused.
pub proof fn advance_has_one_length(v: SpeculationAdvanceView, n: int, rest: Seq<u8>)
    requires
        advance_rejection(v) is None,
        v.activation.dtype() == v.activation_dtype,
        v.activation.count() == v.dim,
        0 <= n < advance_bytes(v).len(),
        rest.len() > 0,
    ensures
        decoded_advance(advance_bytes(v).take(n)) is Err,
        decoded_advance(advance_bytes(v) + rest) is Err,
{
    let s = advance_bytes(v);
    let b1 = le32_bytes(v.layer as int);
    let b2 = b1 + le32_bytes(v.dim as int);
    let b3 = b2 + le16_bytes(v.activation_dtype.code());
    let b4 = b3 + le32_bytes(v.hint_expert_ids.len() as int);
    let b5 = b4 + le32_list(as_ints(v.hint_expert_ids));
    let act = activation_bytes(v.activation);
    let long = s + rest;
    lemma_le32_list_len(as_ints(v.hint_expert_ids));
    encoded_vector_len(v.activation);
    assert(s == b5 + act);
    assert(starts(long, b5 + act));
    lemma_starts_shorter(long, b5, act);
    lemma_sizes_read_back(long, b4, v.hint_expert_ids);
    lemma_le32_reads_back(long, b3, v.hint_expert_ids.len() as int);
    lemma_le16_reads_back(long, b2, v.activation_dtype.code());
    lemma_le32_reads_back(long, b1, v.dim as int);
    let t = s.take(n);
    assert(t =~= long.take(n));
    if n >= 14 {
        lemma_le16_of_prefix(long, n, 8);
        lemma_le32_of_prefix(long, n, 10);
        lemma_le32_of_prefix(long, n, 4);
    }
}

/// Whether an output frame proposes outputs or answers a request.
#[derive(Clone, Copy, Debug, PartialEq, Eq, Structural)]
pub enum OutputFrame {
    Proposal,
    Response,
}

impl OutputFrame {
    /// The error of a wrong number of outputs.
    pub open spec fn count_error(self) -> ProtocolError {
        match self {
            OutputFrame::Proposal => ProtocolError::ProposedOutputCount,
            OutputFrame::Response => ProtocolError::ResponseOutputCount,
        }
    }

    /// The error of an output of the wrong length.
    pub open spec fn length_error(self, got: usize, expected: usize) -> ProtocolError {
        match self {
            OutputFrame::Proposal => ProtocolError::ProposedVectorLength { got, expected },
            OutputFrame::Response => ProtocolError::ResponseVectorLength { got, expected },
        }
    }

    /// The error of an end that is no machine number.
    pub open spec fn overflow_error(self) -> ProtocolError {
        match self {
            OutputFrame::Proposal => ProtocolError::ProposedOverflow,
            OutputFrame::Response => ProtocolError::ResponseOverflow,
        }
    }

    /// The error of a payload that ends early.
    pub open spec fn truncated_error(self) -> ProtocolError {
        match self {
            OutputFrame::Proposal => ProtocolError::TruncatedProposed,
            OutputFrame::Response => ProtocolError::TruncatedResponse,
        }
    }
}

/// The first output whose length is not `dim`, if any.
pub open spec fn length_rejection(
    frame: OutputFrame,
    outputs: Seq<ActivationView>,
    dim: usize,
) -> Option<ProtocolError>
    decreases outputs.len(),
{
    if outputs.len() == 0 {
        None
    } else {
        match length_rejection(frame, outputs.drop_last(), dim) {
            Some(error) => Some(error),
            None => if outputs.last().count() != dim {
                Some(frame.length_error(outputs.last().count() as usize, dim))
            } else {
                None
            },
        }
    }
}

/// Why expert outputs cannot be encoded, if they cannot.
pub open spec fn outputs_rejection(frame: OutputFrame, v: ExpertOutputsView) -> Option<
    ProtocolError,
> {
    if v.outputs.len() != v.expert_ids.len() {
        Some(frame.count_error())
    } else if v.layer > u32::MAX {
        Some(ProtocolError::FieldOverflow(WireField::Layer))
    } else if v.dim > u32::MAX {
        Some(ProtocolError::FieldOverflow(WireField::Dim))
    } else if v.expert_ids.len() > u32::MAX {
        Some(ProtocolError::FieldOverflow(WireField::ExpertCount))
    } else if !all_fit(v.expert_ids) {
        Some(ProtocolError::FieldOverflow(WireField::ExpertId))
    } else {
        length_rejection(frame, v.outputs, v.dim)
    }
}

/// The concatenated encodings of output vectors.
pub open spec fn vectors_bytes(outputs: Seq<ActivationView>) -> Seq<u8>
    decreases outputs.len(),
{
    if outputs.len() == 0 {
        Seq::empty()
    } else {
        vectors_bytes(outputs.drop_last()) + activation_bytes(outputs.last())
    }
}

/// The encoding of expert outputs.
pub open spec fn outputs_bytes(v: ExpertOutputsView) -> Seq<u8> {
    le32_bytes(v.layer as int) + le32_bytes(v.dim as int) + le16_bytes(v.output_dtype.code())
        + le32_bytes(v.expert_ids.len() as int) + le32_list(as_ints(v.expert_ids)) + vectors_bytes(
        v.outputs,
    )
}

/// The end of the `n`-th vector of `b` bytes from `a` on.
pub open spec fn vectors_end(a: int, b: int, n: nat) -> int {
    a + n * b
}

/// Why `n` vectors of `b` bytes from `a` on cannot be read from `len` bytes, if they cannot.
pub open spec fn vectors_rejection(
    frame: OutputFrame,
    len: int,
    a: int,
    b: int,
    n: nat,
) -> Option<ProtocolError>
    decreases n,
{
    if n == 0 {
        None
    } else {
        match vectors_rejection(frame, len, a, b, (n - 1) as nat) {
            Some(error) => Some(error),
            None => if vectors_end(a, b, n) > usize::MAX {
                Some(frame.overflow_error())
            } else if vectors_end(a, b, n) > len {
                Some(frame.truncated_error())
            } else {
                None
            },
        }
    }
}

/// The `i`-th vector of `b` bytes from `a` on.
pub open spec fn vector_at(
    s: Seq<u8>,
    a: int,
    b: int,
    i: nat,
    dtype: ActivationDtype,
    dim: usize,
) -> ActivationView {
    decoded_activation(
        s.subrange(vectors_end(a, b, i), vectors_end(a, b, i + 1)),
        dtype,
        dim,
    )->Ok_0
}

/// What decoding expert outputs gives: their contents and the position after them.
pub open spec fn outputs_at(frame: OutputFrame, s: Seq<u8>) -> Result<
    (ExpertOutputsView, int),
    ProtocolError,
> {
    if s.len() < 8 {
        Err(ProtocolError::Truncated(Primitive::U32))
    } else if s.len() < 10 {
        Err(ProtocolError::Truncated(Primitive::U16))
    } else {
        match dtype_of(le16(s, 8)) {
            Err(error) => Err(error),
            Ok(dtype) => {
                let n = le32(s, 10) as nat;
                let dim = le32(s, 4) as usize;
                let a: int = 14 + 4 * (n as int);
                let b = encoded_len(dim as int, dtype);
                if s.len() < 14 || s.len() < a {
                    Err(ProtocolError::Truncated(Primitive::U32))
                } else {
                    match vectors_rejection(frame, s.len() as int, a, b, n) {
                        Some(error) => Err(error),
                        None => Ok(
                            (
                                ExpertOutputsView {
                                    layer: le32(s, 0) as usize,
                                    output_dtype: dtype,
                                    dim,
                                    expert_ids: sizes_at(s, 14, n),
                                    outputs: Seq::new(
                                        n,
                                        |i: int| vector_at(s, a, b, i as nat, dtype, dim),
                                    ),
                                },
                                vectors_end(a, b, n),
                            ),
                        ),
                    }
                }
            },
        }
    }
}

/// What decoding proposed outputs gives.
pub open spec fn decoded_proposal(s: Seq<u8>) -> Result<ExpertOutputsView, ProtocolError> {
    match outputs_at(OutputFrame::Proposal, s) {
        Ok((v, _)) => Ok(v),
        Err(error) => Err(error),
    }
}

/// What decoding a response gives.
pub open spec fn decoded_response(s: Seq<u8>) -> Result<(ExpertOutputsView, bool), ProtocolError> {
    match outputs_at(OutputFrame::Response, s) {
        Ok((v, end)) => Ok((v, end < s.len() && s[end] != 0)),
        Err(error) => Err(error),
    }
}

proof fn lemma_first_length_rejection(
    frame: OutputFrame,
    outputs: Seq<ActivationView>,
    dim: usize,
    k: int,
)
    requires
        0 < k <= outputs.len(),
        length_rejection(frame, outputs.take(k), dim) is Some,
    ensures
        length_rejection(frame, outputs, dim) == length_rejection(frame, outputs.take(k), dim),
    decreases outputs.len() - k,
{
    if k < outputs.len() {
        assert(outputs.take(k + 1).drop_last() =~= outputs.take(k));
        lemma_first_length_rejection(frame, outputs, dim, k + 1);
    } else {
        assert(outputs.take(k) =~= outputs);
    }
}

fn encode_outputs(
    frame: OutputFrame,
    layer: usize,
    output_dtype: ActivationDtype,
    dim: usize,
    expert_ids: &Vec<usize>,
    outputs: &Vec<ActivationValues>,
    Ghost(v): Ghost<ExpertOutputsView>,
) -> (result: Result<Vec<u8>, ProtocolError>)
    requires
        v == (ExpertOutputsView {
            layer,
            output_dtype,
            dim,
            expert_ids: expert_ids@,
            outputs: views(outputs@),
        }),
    ensures
        match result {
            Ok(out) => outputs_rejection(frame, v) is None && out@ == outputs_bytes(v),
            Err(error) => outputs_rejection(frame, v) == Some(error),
        },
{
    if outputs.len() != expert_ids.len() {
        return match frame {
            OutputFrame::Proposal => Err(ProtocolError::ProposedOutputCount),
            OutputFrame::Response => Err(ProtocolError::ResponseOutputCount),
        };
    }
    let mut out: Vec<u8> = Vec::new();
    match write_size(&mut out, layer, WireField::Layer) {
        Ok(_) => {},
        Err(error) => return Err(error),
    }
    assert(out@ =~= le32_bytes(layer as int));
    match write_size(&mut out, dim, WireField::Dim) {
        Ok(_) => {},
        Err(error) => return Err(error),
    }
    write_u16_le(&mut out, output_dtype.to_u16());
    match write_size(&mut out, expert_ids.len(), WireField::ExpertCount) {
        Ok(_) => {},
        Err(error) => return Err(error),
    }
    match write_size_list(&mut out, expert_ids, WireField::ExpertId) {
        Ok(_) => {},
        Err(error) => return Err(error),
    }
    let ghost head = out@;
    let mut i: usize = 0;
    assert(out@ =~= head + vectors_bytes(v.outputs.take(0)));
    assert(length_rejection(frame, v.outputs.take(0), dim) is None);
    while i < outputs.len()
        invariant
            i <= outputs.len(),
            v.outputs == views(outputs@),
            v.dim == dim,
            v.layer <= u32::MAX,
            v.dim <= u32::MAX,
            v.expert_ids.len() <= u32::MAX,
            all_fit(v.expert_ids),
            v.outputs.len() == v.expert_ids.len(),
            length_rejection(frame, v.outputs.take(i as int), dim) is None,
            out@ == head + vectors_bytes(v.outputs.take(i as int)),
        decreases outputs.len() - i,
    {
        let output = &outputs[i];
        proof {
            assert(v.outputs.take(i + 1).drop_last() =~= v.outputs.take(i as int));
            assert(v.outputs.take(i + 1).last() == output@);
            if length_rejection(frame, v.outputs.take(i + 1), dim) is Some {
                lemma_first_length_rejection(frame, v.outputs, dim, i + 1);
            }
        }
        let got: usize = output.len();
        if got != dim {
            return match frame {
                OutputFrame::Proposal => Err(
                    ProtocolError::ProposedVectorLength { got, expected: dim },
                ),
                OutputFrame::Response => Err(
                    ProtocolError::ResponseVectorLength { got, expected: dim },
                ),
            };
        }
        encode_activation_vector(output, &mut out);
        assert(out@ =~= head + vectors_bytes(v.outputs.take(i + 1)));
        i = i + 1;
    }
    assert(v.outputs.take(i as int) =~= v.outputs);
    Ok(out)
}

struct DecodedOutputs {
    layer: usize,
    output_dtype: ActivationDtype,
    dim: usize,
    expert_ids: Vec<usize>,
    outputs: Vec<ActivationValues>,
    end: usize,
}

proof fn lemma_first_vectors_rejection(
    frame: OutputFrame,
    len: int,
    a: int,
    b: int,
    k: nat,
    n: nat,
)
    requires
        k <= n,
        vectors_rejection(frame, len, a, b, k) is Some,
    ensures
        vectors_rejection(frame, len, a, b, n) == vectors_rejection(frame, len, a, b, k),
    decreases n,
{
    if k < n {
        lemma_first_vectors_rejection(frame, len, a, b, k, (n - 1) as nat);
    }
}

fn decode_vectors(
    frame: OutputFrame,
    payload: &[u8],
    start: usize,
    n: usize,
    dtype: ActivationDtype,
    dim: usize,
) -> (result: Result<(Vec<ActivationValues>, usize), ProtocolError>)
    requires
        0 < start <= payload@.len(),
        dim <= u32::MAX,
    ensures
        match result {
            Ok((outputs, end)) => {
                let b = encoded_len(dim as int, dtype);
                &&& vectors_rejection(frame, payload@.len() as int, start as int, b, n as nat)
                    is None
                &&& end == vectors_end(start as int, b, n as nat)
                &&& end <= payload@.len()
                &&& views(outputs@) == Seq::new(
                    n as nat,
                    |i: int| vector_at(payload@, start as int, b, i as nat, dtype, dim),
                )
            },
            Err(error) => vectors_rejection(
                frame,
                payload@.len() as int,
                start as int,
                encoded_len(dim as int, dtype),
                n as nat,
            ) == Some(error),
        },
{
    let bytes_per_output: usize = activation_vector_encoded_len(dim, dtype);
    let ghost len = payload@.len() as int;
    let ghost a = start as int;
    let ghost b = bytes_per_output as int;
    let mut outputs: Vec<ActivationValues> = Vec::new();
    let mut offset: usize = start;
    let mut i: usize = 0;
    assert(0 * b == 0) by (nonlinear_arith);
    while i < n
        invariant
            i <= n,
            0 < a == start,
            len == payload@.len(),
            b == bytes_per_output,
            b == encoded_len(dim as int, dtype),
            offset == vectors_end(a, b, i as nat),
            a <= offset <= len,
            vectors_rejection(frame, len, a, b, i as nat) is None,
            views(outputs@) == Seq::new(
                i as nat,
                |j: int| vector_at(payload@, a, b, j as nat, dtype, dim),
            ),
        decreases n - i,
    {
        assert(vectors_end(a, b, (i + 1) as nat) == offset + b) by {
            assert((i + 1) * b == i * b + b) by (nonlinear_arith);
        }
        proof {
            if vectors_rejection(frame, len, a, b, (i + 1) as nat) is Some {
                lemma_first_vectors_rejection(frame, len, a, b, (i + 1) as nat, n as nat);
            }
        }
        let end: usize = match offset.checked_add(bytes_per_output) {
            Some(end) => end,
            None => return match frame {
                OutputFrame::Proposal => Err(ProtocolError::ProposedOverflow),
                OutputFrame::Response => Err(ProtocolError::ResponseOverflow),
            },
        };
        if end > payload.len() {
            return match frame {
                OutputFrame::Proposal => Err(ProtocolError::TruncatedProposed),
                OutputFrame::Response => Err(ProtocolError::TruncatedResponse),
            };
        }
        let chunk: Vec<u8> = copy_range(payload, offset, end);
        match decode_activation_vector(chunk.as_slice(), dtype, dim) {
            Ok(values) => {
                let ghost before = outputs@;
                outputs.push(values);
                proof {
                    let target = Seq::new(
                        (i + 1) as nat,
                        |j: int| vector_at(payload@, a, b, j as nat, dtype, dim),
                    );
                    assert(before.len() == views(before).len());
                    assert forall|j: int| 0 <= j < target.len() implies #[trigger] views(
                        outputs@,
                    )[j] == target[j] by {
                        if j < i {
                            assert(views(before)[j] == before[j]@);
                        }
                    }
                    assert(views(outputs@) =~= target);
                }
            },
            Err(error) => {
                assert(false);
                return Err(error);
            },
        }
        offset = end;
        i = i + 1;
    }
    Ok((outputs, offset))
}

fn decode_outputs(frame: OutputFrame, payload: &[u8]) -> (result: Result<
    DecodedOutputs,
    ProtocolError,
>)
    ensures
        match result {
            Ok(d) => {
                &&& d.end <= payload@.len()
                &&& outputs_at(frame, payload@) == Ok::<(ExpertOutputsView, int), ProtocolError>(
                    (
                        ExpertOutputsView {
                            layer: d.layer,
                            output_dtype: d.output_dtype,
                            dim: d.dim,
                            expert_ids: d.expert_ids@,
                            outputs: views(d.outputs@),
                        },
                        d.end as int,
                    ),
                )
            },
            Err(error) => outputs_at(frame, payload@) == Err::<
                (ExpertOutputsView, int),
                ProtocolError,
            >(error),
        },
{
    let mut offset: usize = 0;
    let layer: u32 = match read_u32_le(payload, &mut offset) {
        Ok(value) => value,
        Err(error) => return Err(error),
    };
    let dim: u32 = match read_u32_le(payload, &mut offset) {
        Ok(value) => value,
        Err(error) => return Err(error),
    };
    let code: u16 = match read_u16_le(payload, &mut offset) {
        Ok(value) => value,
        Err(error) => return Err(error),
    };
    let output_dtype = match ActivationDtype::from_u16(code) {
        Ok(value) => value,
        Err(error) => return Err(error),
    };
    let n_experts: u32 = match read_u32_le(payload, &mut offset) {
        Ok(value) => value,
        Err(error) => return Err(error),
    };
    let expert_ids = match read_size_list(payload, &mut offset, n_experts as usize) {
        Ok(value) => value,
        Err(error) => return Err(error),
    };
    match decode_vectors(
        frame,
        payload,
        offset,
        n_experts as usize,
        output_dtype,
        dim as usize,
    ) {
        Ok((outputs, end)) => Ok(
            DecodedOutputs {
                layer: layer as usize,
                output_dtype,
                dim: dim as usize,
                expert_ids,
                outputs,
                end,
            },
        ),
        Err(error) => Err(error),
    }
}

/// Whether every output is in the representation of its frame.
pub open spec fn outputs_consistent(v: ExpertOutputsView) -> bool {
    forall|i: int| 0 <= i < v.outputs.len() ==> (#[trigger] v.outputs[i]).dtype() == v.output_dtype
}

/// Encodes proposed outputs.
pub fn encode_proposed_expert_batch(frame: &ProposedExpertBatchFrame) -> (result: Result<
    Vec<u8>,
    ProtocolError,
>)
    requires
        outputs_consistent(frame@),
    ensures
        match result {
            Ok(out) => outputs_rejection(OutputFrame::Proposal, frame@) is None && out@
                == outputs_bytes(frame@),
            Err(error) => outputs_rejection(OutputFrame::Proposal, frame@) == Some(error),
        },
{
    encode_outputs(
        OutputFrame::Proposal,
        frame.layer,
        frame.output_dtype,
        frame.dim,
        &frame.expert_ids,
        &frame.outputs,
        Ghost(frame@),
    )
}

/// Decodes proposed outputs.
pub fn decode_proposed_expert_batch(payload: &[u8]) -> (result: Result<
    ProposedExpertBatchFrame,
    ProtocolError,
>)
    ensures
        match result {
            Ok(frame) => decoded_proposal(payload@) == Ok::<ExpertOutputsView, ProtocolError>(
                frame@,
            ),
            Err(error) => decoded_proposal(payload@) == Err::<ExpertOutputsView, ProtocolError>(
                error,
            ),
        },
{
    match decode_outputs(OutputFrame::Proposal, payload) {
        Ok(d) => Ok(
            ProposedExpertBatchFrame {
                layer: d.layer,
                output_dtype: d.output_dtype,
                dim: d.dim,
                expert_ids: d.expert_ids,
                outputs: d.outputs,
            },
        ),
        Err(error) => Err(error),
    }
}

/// Encodes a response.
pub fn encode_expert_batch_response(frame: &ExpertBatchResponse) -> (result: Result<
    Vec<u8>,
    ProtocolError,
>)
    requires
        outputs_consistent(frame@.0),
    ensures
        match result {
            Ok(out) => outputs_rejection(OutputFrame::Response, frame@.0) is None && out@
                == outputs_bytes(frame@.0) + seq![if frame.spec_hit { 1u8 } else { 0u8 }],
            Err(error) => outputs_rejection(OutputFrame::Response, frame@.0) == Some(error),
        },
{
    match encode_outputs(
        OutputFrame::Response,
        frame.layer,
        frame.output_dtype,
        frame.dim,
        &frame.expert_ids,
        &frame.outputs,
        Ghost(frame@.0),
    ) {
        Ok(out) => {
            let mut out = out;
            let ghost body = out@;
            if frame.spec_hit {
                out.push(1);
            } else {
                out.push(0);
            }
            assert(out@ =~= body + seq![if frame.spec_hit { 1u8 } else { 0u8 }]);
            Ok(out)
        },
        Err(error) => Err(error),
    }
}

/// Decodes a response.
pub fn decode_expert_batch_response(payload: &[u8]) -> (result: Result<
    ExpertBatchResponse,
    ProtocolError,
>)
    ensures
        match result {
            Ok(frame) => decoded_response(payload@) == Ok::<
                (ExpertOutputsView, bool),
                ProtocolError,
            >(frame@),
            Err(error) => decoded_response(payload@) == Err::<
                (ExpertOutputsView, bool),
                ProtocolError,
            >(error),
        },
{
    match decode_outputs(OutputFrame::Response, payload) {
        Ok(d) => {
            let spec_hit = d.end < payload.len() && payload[d.end] != 0;
            Ok(
                ExpertBatchResponse {
                    layer: d.layer,
                    output_dtype: d.output_dtype,
                    dim: d.dim,
                    expert_ids: d.expert_ids,
                    outputs: d.outputs,
                    spec_hit,
                },
            )
        },
        Err(error) => Err(error),
    }
}

/// The outputs as they arrive.
pub open spec fn rounded_outputs(v: ExpertOutputsView) -> ExpertOutputsView {
    ExpertOutputsView {
        outputs: v.outputs.map(|i: int, o: ActivationView| o.rounded()),
        ..v
    }
}

proof fn lemma_lengths_accepted(frame: OutputFrame, outputs: Seq<ActivationView>, dim: usize)
    requires
        length_rejection(frame, outputs, dim) is None,
    ensures
        forall|i: int| 0 <= i < outputs.len() ==> (#[trigger] outputs[i]).count() == dim,
    decreases outputs.len(),
{
    if outputs.len() > 0 {
        lemma_lengths_accepted(frame, outputs.drop_last(), dim);
        assert forall|i: int| 0 <= i < outputs.len() implies (#[trigger] outputs[i]).count()
            == dim by {
            if i < outputs.len() - 1 {
                assert(outputs.drop_last()[i] == outputs[i]);
            }
        }
    }
}

proof fn lemma_vectors_read_back(
    frame: OutputFrame,
    s: Seq<u8>,
    pre: Seq<u8>,
    outputs: Seq<ActivationView>,
    dtype: ActivationDtype,
    dim: usize,
)
    requires
        forall|i: int| 0 <= i < outputs.len() ==> (#[trigger] outputs[i]).count() == dim,
        forall|i: int| 0 <= i < outputs.len() ==> (#[trigger] outputs[i]).dtype() == dtype,
        starts(s, pre + vectors_bytes(outputs)),
        s.len() <= usize::MAX,
    ensures
        ({
            let b = encoded_len(dim as int, dtype);
            let a = pre.len() as int;
            &&& (pre + vectors_bytes(outputs)).len() == vectors_end(a, b, outputs.len())
            &&& starts(s, pre)
            &&& vectors_rejection(frame, s.len() as int, a, b, outputs.len()) is None
            &&& forall|i: int|
                0 <= i < outputs.len() ==> vector_at(s, a, b, i as nat, dtype, dim)
                    == (#[trigger] outputs[i]).rounded()
        }),
    decreases outputs.len(),
{
    let b = encoded_len(dim as int, dtype);
    let a = pre.len() as int;
    let n = outputs.len();
    if n == 0 {
        assert(pre + vectors_bytes(outputs) =~= pre);
        assert(0 * b == 0) by (nonlinear_arith);
    } else {
        let front = outputs.drop_last();
        let last = outputs.last();
        let act = activation_bytes(last);
        let head = pre + vectors_bytes(front);
        assert(pre + vectors_bytes(outputs) =~= head + act);
        lemma_starts_shorter(s, head, act);
        assert(outputs[n - 1] == last);
        assert forall|i: int| 0 <= i < front.len() implies (#[trigger] front[i]).count() == dim
            && front[i].dtype() == dtype by {
            assert(front[i] == outputs[i]);
        }
        lemma_vectors_read_back(frame, s, pre, front, dtype, dim);
        encoded_vector_len(last);
        assert(act.len() == b);
        assert(n * b == (n - 1) * b + b) by (nonlinear_arith);
        assert(s.subrange(head.len() as int, head.len() + b) =~= act) by {
            assert forall|i: int| 0 <= i < act.len() implies s[head.len() + i] == act[i] by {
                assert(s[head.len() + i] == (head + act)[head.len() + i]);
            }
        }
        activation_round_trip(last);
        assert forall|i: int| 0 <= i < outputs.len() implies vector_at(
            s,
            a,
            b,
            i as nat,
            dtype,
            dim,
        ) == (#[trigger] outputs[i]).rounded() by {
            if i < n - 1 {
                assert(front[i] == outputs[i]);
            }
        }
    }
}

proof fn lemma_outputs_read_back(frame: OutputFrame, s: Seq<u8>, v: ExpertOutputsView)
    requires
        outputs_rejection(frame, v) is None,
        outputs_consistent(v),
        s.len() <= usize::MAX,
        starts(s, outputs_bytes(v)),
    ensures
        outputs_at(frame, s) == Ok::<(ExpertOutputsView, int), ProtocolError>(
            (rounded_outputs(v), outputs_bytes(v).len() as int),
        ),
{
    let b1 = le32_bytes(v.layer as int);
    let b2 = b1 + le32_bytes(v.dim as int);
    let b3 = b2 + le16_bytes(v.output_dtype.code());
    let b4 = b3 + le32_bytes(v.expert_ids.len() as int);
    let b5 = b4 + le32_list(as_ints(v.expert_ids));
    lemma_le32_list_len(as_ints(v.expert_ids));
    lemma_lengths_accepted(frame, v.outputs, v.dim);
    lemma_vectors_read_back(frame, s, b5, v.outputs, v.output_dtype, v.dim);
    lemma_sizes_read_back(s, b4, v.expert_ids);
    lemma_le32_reads_back(s, b3, v.expert_ids.len() as int);
    lemma_le16_reads_back(s, b2, v.output_dtype.code());
    lemma_le32_reads_back(s, b1, v.dim as int);
    assert(Seq::<u8>::empty() + b1 =~= b1);
    lemma_le32_reads_back(s, Seq::empty(), v.layer as int);
    let b = encoded_len(v.dim as int, v.output_dtype);
    let got = Seq::new(
        v.outputs.len(),
        |i: int| vector_at(s, b5.len() as int, b, i as nat, v.output_dtype, v.dim),
    );
    assert(got =~= rounded_outputs(v).outputs);
}

/// Decoding encoded proposed outputs gives them back, as they arrive.
pub proof fn proposal_round_trip(v: ExpertOutputsView)
    requires
        outputs_rejection(OutputFrame::Proposal, v) is None,
        outputs_consistent(v),
        outputs_bytes(v).len() <= usize::MAX,
    ensures
        decoded_proposal(outputs_bytes(v)) == Ok::<ExpertOutputsView, ProtocolError>(
            rounded_outputs(v),
        ),
{
    lemma_outputs_read_back(OutputFrame::Proposal, outputs_bytes(v), v);
}

/// Decoding an encoded response gives it back, the outputs as they arrive.
pub proof fn response_round_trip(v: ExpertOutputsView, spec_hit: bool)
    requires
        outputs_rejection(OutputFrame::Response, v) is None,
        outputs_consistent(v),
        outputs_bytes(v).len() < usize::MAX,
    ensures
        decoded_response(outputs_bytes(v) + seq![if spec_hit { 1u8 } else { 0u8 }]) == Ok::<
            (ExpertOutputsView, bool),
            ProtocolError,
        >((rounded_outputs(v), spec_hit)),
{
    let s = outputs_bytes(v) + seq![if spec_hit { 1u8 } else { 0u8 }];
    lemma_outputs_read_back(OutputFrame::Response, s, v);
}

/// Bytes behind encoded proposed outputs change nothing.
pub proof fn proposal_ignores_what_follows(v: ExpertOutputsView, rest: Seq<u8>)
    requires
        outputs_rejection(OutputFrame::Proposal, v) is None,
        outputs_consistent(v),
        (outputs_bytes(v) + rest).len() <= usize::MAX,
    ensures
        decoded_proposal(outputs_bytes(v) + rest) == Ok::<ExpertOutputsView, ProtocolError>(
            rounded_outputs(v),
        ),
{
    lemma_outputs_read_back(OutputFrame::Proposal, outputs_bytes(v) + rest, v);
}

/// Of the bytes behind the outputs of a response the first alone counts: it marks a hit, unless
/// it is zero or missing.
pub proof fn response_reads_its_hit_mark(v: ExpertOutputsView, rest: Seq<u8>)
    requires
        outputs_rejection(OutputFrame::Response, v) is None,
        outputs_consistent(v),
        (outputs_bytes(v) + rest).len() <= usize::MAX,
    ensures
        decoded_response(outputs_bytes(v) + rest) == Ok::<
            (ExpertOutputsView, bool),
            ProtocolError,
        >((rounded_outputs(v), rest.len() > 0 && rest[0] != 0)),
{
    lemma_outputs_read_back(OutputFrame::Response, outputs_bytes(v) + rest, v);
}

proof fn lemma_outputs_of_prefix(frame: OutputFrame, s: Seq<u8>, n: int)
    requires
        outputs_at(frame, s) is Ok,
        0 <= n < outputs_at(frame, s)->Ok_0.1,
        n <= s.len(),
    ensures
        outputs_at(frame, s.take(n)) is Err,
{
    if n >= 14 {
        lemma_le16_of_prefix(s, n, 8);
        lemma_le32_of_prefix(s, n, 4);
        lemma_le32_of_prefix(s, n, 10);
        let (v, end) = outputs_at(frame, s)->Ok_0;
        let b = encoded_len(v.dim as int, v.output_dtype);
        let count = v.expert_ids.len();
        assert(0 * b == 0) by (nonlinear_arith);
        assert(vectors_end(14 + 4 * count as int, b, count) == end);
    } else if n >= 10 {
        lemma_le16_of_prefix(s, n, 8);
    }
}

/// Outputs that are cut off are refused, proposed or answered.
pub proof fn cut_off_outputs_are_refused(frame: OutputFrame, v: ExpertOutputsView, n: int)
    requires
        outputs_rejection(frame, v) is None,
        outputs_consistent(v),
        outputs_bytes(v).len() <= usize::MAX,
        0 <= n < outputs_bytes(v).len(),
    ensures
        frame == OutputFrame::Proposal ==> decoded_proposal(outputs_bytes(v).take(n)) is Err,
        frame == OutputFrame::Response ==> decoded_response(outputs_bytes(v).take(n)) is Err,
{
    lemma_outputs_read_back(frame, outputs_bytes(v), v);
    lemma_outputs_of_prefix(frame, outputs_bytes(v), n);
}

/// A request holds the position of its token, the layer, the length of the activation and its number
/// format, the number of experts and the experts, the activation, the number of hints and the hints.
pub proof fn requests_are_laid_out_in_order(v: ExpertBatchRequestView, i: int)
    requires
        request_rejection(v) is None,
        v.activation.dtype() == v.activation_dtype,
        v.activation.count() == v.dim,
        request_bytes(v).len() <= usize::MAX,
    ensures
        ({
            let s = request_bytes(v);
            let a = 22 + 4 * v.expert_ids.len() as int;
            let h = a + activation_bytes(v.activation).len() as int;
            &&& le64(s, 0) == v.token_pos
            &&& le32(s, 8) == v.layer
            &&& le32(s, 12) == v.dim
            &&& le16(s, 16) == v.activation_dtype.code()
            &&& le32(s, 18) == v.expert_ids.len()
            &&& 0 <= i < v.expert_ids.len() ==> le32(s, 22 + 4 * i) == v.expert_ids[i]
            &&& s.subrange(a, h) == activation_bytes(v.activation)
            &&& le32(s, h) == v.hint_expert_ids.len()
            &&& 0 <= i < v.hint_expert_ids.len() ==> le32(s, h + 4 + 4 * i) == v.hint_expert_ids[i]
            &&& s.len() == h + 4 + 4 * v.hint_expert_ids.len()
        }),
{
    let s = request_bytes(v);
    let b1 = le64_bytes(v.token_pos as int);
    let b2 = b1 + le32_bytes(v.layer as int);
    let b3 = b2 + le32_bytes(v.dim as int);
    let b4 = b3 + le16_bytes(v.activation_dtype.code());
    let b5 = b4 + le32_bytes(v.expert_ids.len() as int);
    let b6 = b5 + le32_list(as_ints(v.expert_ids));
    let act = activation_bytes(v.activation);
    let b7 = b6 + act;
    let b8 = b7 + le32_bytes(v.hint_expert_ids.len() as int);
    assert(s == b8 + le32_list(as_ints(v.hint_expert_ids)));
    lemma_le32_list_len(as_ints(v.expert_ids));
    lemma_le32_list_len(as_ints(v.hint_expert_ids));
    lemma_sizes_read_back(s, b8, v.hint_expert_ids);
    lemma_le32_reads_back(s, b7, v.hint_expert_ids.len() as int);
    lemma_starts_shorter(s, b6, act);
    assert(s.subrange(b6.len() as int, b7.len() as int) =~= act) by {
        assert forall|k: int| 0 <= k < act.len() implies s[b6.len() + k] == act[k] by {
            assert(s[b6.len() + k] == b7[b6.len() + k]);
        }
    }
    lemma_sizes_read_back(s, b5, v.expert_ids);
    lemma_le32_reads_back(s, b4, v.expert_ids.len() as int);
    lemma_le16_reads_back(s, b3, v.activation_dtype.code());
    lemma_le32_reads_back(s, b2, v.dim as int);
    lemma_le32_reads_back(s, b1, v.layer as int);
    assert(Seq::<u8>::empty() + b1 =~= b1);
    lemma_le64_reads_back(s, Seq::empty(), v.token_pos as int);
    if 0 <= i < v.expert_ids.len() {
        assert(sizes_at(s, 22, v.expert_ids.len())[i] == v.expert_ids[i]);
    }
    if 0 <= i < v.hint_expert_ids.len() {
        assert(sizes_at(s, b8.len() as int, v.hint_expert_ids.len())[i] == v.hint_expert_ids[i]);
    }
}

/// A speculation control frame holds the layer, the length of the activation and its number format,
/// the number of hints and the hints, and the activation.
pub proof fn advances_are_laid_out_in_order(v: SpeculationAdvanceView, i: int)
    requires
        advance_rejection(v) is None,
        v.activation.dtype() == v.activation_dtype,
        v.activation.count() == v.dim,
    ensures
        ({
            let s = advance_bytes(v);
            let a = 14 + 4 * v.hint_expert_ids.len() as int;
            &&& le32(s, 0) == v.layer
            &&& le32(s, 4) == v.dim
            &&& le16(s, 8) == v.activation_dtype.code()
            &&& le32(s, 10) == v.hint_expert_ids.len()
            &&& 0 <= i < v.hint_expert_ids.len() ==> le32(s, 14 + 4 * i) == v.hint_expert_ids[i]
            &&& s.skip(a) == activation_bytes(v.activation)
        }),
{
    let s = advance_bytes(v);
    let b1 = le32_bytes(v.layer as int);
    let b2 = b1 + le32_bytes(v.dim as int);
    let b3 = b2 + le16_bytes(v.activation_dtype.code());
    let b4 = b3 + le32_bytes(v.hint_expert_ids.len() as int);
    let b5 = b4 + le32_list(as_ints(v.hint_expert_ids));
    let act = activation_bytes(v.activation);
    assert(s == b5 + act);
    lemma_le32_list_len(as_ints(v.hint_expert_ids));
    assert(s.skip(b5.len() as int) =~= act);
    lemma_starts_shorter(s, b5, act);
    lemma_sizes_read_back(s, b4, v.hint_expert_ids);
    lemma_le32_reads_back(s, b3, v.hint_expert_ids.len() as int);
    lemma_le16_reads_back(s, b2, v.activation_dtype.code());
    lemma_le32_reads_back(s, b1, v.dim as int);
    assert(Seq::<u8>::empty() + b1 =~= b1);
    lemma_le32_reads_back(s, Seq::empty(), v.layer as int);
    if 0 <= i < v.hint_expert_ids.len() {
        assert(sizes_at(s, 14, v.hint_expert_ids.len())[i] == v.hint_expert_ids[i]);
    }
}

/// Outputs hold the layer, the length of an output and its number format, the number of experts and
/// the experts, and the outputs one behind the other.
pub proof fn outputs_are_laid_out_in_order(v: ExpertOutputsView, frame: OutputFrame, i: int)
    requires
        outputs_rejection(frame, v) is None,
        outputs_consistent(v),
        0 <= i < v.expert_ids.len(),
    ensures
        ({
            let s = outputs_bytes(v);
            let size = activation_bytes(v.outputs[i]).len() as int;
            let at = 14 + 4 * v.expert_ids.len() + i * size;
            &&& le32(s, 0) == v.layer
            &&& le32(s, 4) == v.dim
            &&& le16(s, 8) == v.output_dtype.code()
            &&& le32(s, 10) == v.expert_ids.len()
            &&& le32(s, 14 + 4 * i) == v.expert_ids[i]
            &&& at + size <= s.len()
            &&& s.subrange(at, at + size) == activation_bytes(v.outputs[i])
        }),
{
    let s = outputs_bytes(v);
    let b1 = le32_bytes(v.layer as int);
    let b2 = b1 + le32_bytes(v.dim as int);
    let b3 = b2 + le16_bytes(v.output_dtype.code());
    let b4 = b3 + le32_bytes(v.expert_ids.len() as int);
    let b5 = b4 + le32_list(as_ints(v.expert_ids));
    lemma_le32_list_len(as_ints(v.expert_ids));
    lemma_lengths_accepted(frame, v.outputs, v.dim);
    let size = crate::distributed::activation::exact_encoded_len(v.dim as int, v.output_dtype);
    assert forall|k: int| 0 <= k < v.outputs.len() implies activation_bytes(
        #[trigger] v.outputs[k],
    ).len() == size by {
        encoded_vector_len(v.outputs[k]);
    }
    lemma_vectors_lie_in_order(v.outputs, size, i);
    assert(s == b5 + vectors_bytes(v.outputs));
    lemma_starts_shorter(s, b5, vectors_bytes(v.outputs));
    lemma_sizes_read_back(s, b4, v.expert_ids);
    lemma_le32_reads_back(s, b3, v.expert_ids.len() as int);
    lemma_le16_reads_back(s, b2, v.output_dtype.code());
    lemma_le32_reads_back(s, b1, v.dim as int);
    assert(Seq::<u8>::empty() + b1 =~= b1);
    lemma_le32_reads_back(s, Seq::empty(), v.layer as int);
    assert(sizes_at(s, 14, v.expert_ids.len())[i] == v.expert_ids[i]);
    let at = 14 + 4 * v.expert_ids.len() + i * size;
    assert(b5.len() == 14 + 4 * v.expert_ids.len());
    assert(i * size >= 0) by (nonlinear_arith)
        requires
            i >= 0,
            size >= 0,
    ;
    assert(s.subrange(at, at + size) =~= vectors_bytes(v.outputs).subrange(
        i * size,
        i * size + size,
    ));
}

proof fn lemma_vectors_lie_in_order(outputs: Seq<ActivationView>, size: int, i: int)
    requires
        0 <= i < outputs.len(),
        forall|k: int|
            0 <= k < outputs.len() ==> activation_bytes(#[trigger] outputs[k]).len() == size,
    ensures
        vectors_bytes(outputs).len() == outputs.len() * size,
        0 <= i * size,
        i * size + size <= outputs.len() * size,
        vectors_bytes(outputs).subrange(i * size, i * size + size) == activation_bytes(outputs[i]),
    decreases outputs.len(),
{
    let front = outputs.drop_last();
    let n = outputs.len() as int;
    assert(outputs.last() == outputs[n - 1]);
    assert(size >= 0);
    assert(n * size == (n - 1) * size + size) by (nonlinear_arith);
    assert(0 <= i * size && i * size + size <= n * size) by (nonlinear_arith)
        requires
            0 <= i < n,
            size >= 0,
    ;
    assert forall|k: int| 0 <= k < front.len() implies activation_bytes(
        #[trigger] front[k],
    ).len() == size by {
        assert(front[k] == outputs[k]);
    }
    if n > 1 {
        lemma_vectors_lie_in_order(front, size, if i < n - 1 { i } else { 0 });
    } else {
        assert(vectors_bytes(front).len() == 0);
        assert((n - 1) * size == 0) by (nonlinear_arith)
            requires
                n == 1,
        ;
    }
    let all = vectors_bytes(outputs);
    if i < n - 1 {
        assert(i * size + size <= (n - 1) * size) by (nonlinear_arith)
            requires
                i + 1 <= n - 1,
                size >= 0,
        ;
        assert(all.subrange(i * size, i * size + size) =~= vectors_bytes(front).subrange(
            i * size,
            i * size + size,
        ));
        assert(front[i] == outputs[i]);
    } else {
        assert(all.subrange(i * size, i * size + size) =~= activation_bytes(outputs[i]));
    }
}

} // verus!
