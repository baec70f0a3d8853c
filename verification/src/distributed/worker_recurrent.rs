//! The recurrent layers of a worker.
use crate::bytes::{le32, u32_at};
use crate::distributed::shard::{ModelShardHeaderFrame, ModelShardHeaderView};
use crate::distributed::protocol::{SHARD_KIND_SSM_ALPHA, SHARD_KIND_SSM_BA, SHARD_KIND_SSM_BETA,
    SHARD_KIND_SSM_GATE, SHARD_KIND_SSM_OUT, SHARD_KIND_SSM_QKV_IN};
use crate::distributed::worker_shard::{find_last_of_layer, last_of_layer, MissingRecurrent,
    WorkerError};
use crate::gguf::QuantizedTensor;
use crate::recurrent::SsmShape;
use vstd::prelude::*;

verus! {

broadcast use crate::bytes::group_little_endian;

/// The single-precision patterns of one recurrent layer.
#[derive(Debug)]
pub struct SsmFloatEntry {
    pub layer: usize,
    pub conv1d: Vec<u32>,
    pub a: Vec<u32>,
    pub dt_bias: Vec<u32>,
    pub norm: Vec<u32>,
}

/// The contents of an [`SsmFloatEntry`].
#[verifier::ext_equal]
pub struct SsmFloatView {
    pub layer: usize,
    pub conv1d: Seq<u32>,
    pub a: Seq<u32>,
    pub dt_bias: Seq<u32>,
    pub norm: Seq<u32>,
}

impl View for SsmFloatEntry {
    type V = SsmFloatView;

    open spec fn view(&self) -> SsmFloatView {
        SsmFloatView {
            layer: self.layer,
            conv1d: self.conv1d@,
            a: self.a@,
            dt_bias: self.dt_bias@,
            norm: self.norm@,
        }
    }
}

/// The views of float entries.
pub open spec fn float_views(entries: Seq<SsmFloatEntry>) -> Seq<SsmFloatView> {
    entries.map(|i: int, e: SsmFloatEntry| e@)
}

/// The `n` patterns from `at` on.
pub open spec fn patterns_at(s: Seq<u8>, at: int, n: nat) -> Seq<u32> {
    Seq::new(n, |i: int| le32(s, at + 4 * i) as u32)
}

/// Why values that end at `end` cannot be read, if they cannot.
pub open spec fn values_rejection(s: Seq<u8>, end: int) -> Option<WorkerError> {
    if end > usize::MAX {
        Some(WorkerError::PayloadOverflow)
    } else if end > s.len() {
        Some(WorkerError::TruncatedPayloadValues)
    } else {
        None
    }
}

/// What reading one layer at `o` gives: its values and the position after them.
pub open spec fn float_entry_at(s: Seq<u8>, o: int) -> Result<(SsmFloatView, int), WorkerError> {
    if o + 8 > s.len() {
        Err(WorkerError::TruncatedPayloadCount)
    } else {
        let c = le32(s, o + 4);
        let p = o + 8 + 4 * c;
        if values_rejection(s, p) is Some {
            Err(values_rejection(s, p)->0)
        } else if p + 4 > s.len() {
            Err(WorkerError::TruncatedPayloadCount)
        } else {
            let n = le32(s, p);
            let p1 = p + 4 + 4 * n;
            let p2 = p1 + 4 * n;
            if values_rejection(s, p1) is Some {
                Err(values_rejection(s, p1)->0)
            } else if values_rejection(s, p2) is Some {
                Err(values_rejection(s, p2)->0)
            } else if p2 + 4 > s.len() {
                Err(WorkerError::TruncatedPayloadCount)
            } else {
                let m = le32(s, p2);
                let end = p2 + 4 + 4 * m;
                if values_rejection(s, end) is Some {
                    Err(values_rejection(s, end)->0)
                } else {
                    Ok(
                        (
                            SsmFloatView {
                                layer: le32(s, o) as usize,
                                conv1d: patterns_at(s, o + 8, c as nat),
                                a: patterns_at(s, p + 4, n as nat),
                                dt_bias: patterns_at(s, p1, n as nat),
                                norm: patterns_at(s, p2 + 4, m as nat),
                            },
                            end,
                        ),
                    )
                }
            }
        }
    }
}

/// What reading all layers from `o` on gives.
pub open spec fn float_payload_at(s: Seq<u8>, o: int) -> Result<Seq<SsmFloatView>, WorkerError>
    decreases s.len() - o,
{
    if o >= s.len() {
        Ok(Seq::empty())
    } else {
        match float_entry_at(s, o) {
            Err(error) => Err(error),
            Ok((entry, next)) => if next <= o || next > s.len() {
                Ok(Seq::empty())
            } else {
                match float_payload_at(s, next) {
                    Err(error) => Err(error),
                    Ok(rest) => Ok(seq![entry] + rest),
                }
            },
        }
    }
}

spec fn prepended(
    front: Seq<SsmFloatView>,
    rest: Result<Seq<SsmFloatView>, WorkerError>,
) -> Result<Seq<SsmFloatView>, WorkerError> {
    match rest {
        Ok(entries) => Ok(front + entries),
        Err(error) => Err(error),
    }
}

fn read_count(payload: &[u8], offset: &mut usize) -> (result: Result<u32, WorkerError>)
    ensures
        match result {
            Ok(value) => *old(offset) + 4 <= payload@.len() && value == le32(
                payload@,
                *old(offset) as int,
            ) && *final(offset) == *old(offset) + 4,
            Err(error) => *old(offset) + 4 > payload@.len() && error
                == WorkerError::TruncatedPayloadCount,
        },
{
    if payload.len() < 4 || *offset > payload.len() - 4 {
        return Err(WorkerError::TruncatedPayloadCount);
    }
    let value: u32 = u32_at(payload, *offset);
    *offset = *offset + 4;
    Ok(value)
}

fn read_patterns(payload: &[u8], offset: &mut usize, count: u32) -> (result: Result<
    Vec<u32>,
    WorkerError,
>)
    requires
        *old(offset) <= payload@.len(),
    ensures
        match result {
            Ok(values) => values_rejection(payload@, *old(offset) + 4 * count) is None && values@
                == patterns_at(payload@, *old(offset) as int, count as nat) && *final(offset)
                == *old(offset) + 4 * count,
            Err(error) => values_rejection(payload@, *old(offset) + 4 * count) == Some(error),
        },
{
    let size: usize = match (count as usize).checked_mul(4) {
        Some(size) => size,
        None => return Err(WorkerError::PayloadOverflow),
    };
    let end: usize = match offset.checked_add(size) {
        Some(end) => end,
        None => return Err(WorkerError::PayloadOverflow),
    };
    if end > payload.len() {
        return Err(WorkerError::TruncatedPayloadValues);
    }
    let start: usize = *offset;
    let mut values: Vec<u32> = Vec::new();
    let mut i: u32 = 0;
    while i < count
        invariant
            i <= count,
            start + 4 * count <= payload@.len(),
            end == start + 4 * count,
            values@ == patterns_at(payload@, start as int, i as nat),
        decreases count - i,
    {
        values.push(u32_at(payload, start + 4 * (i as usize)));
        i = i + 1;
        assert(values@ =~= patterns_at(payload@, start as int, i as nat));
    }
    *offset = end;
    Ok(values)
}

fn read_float_entry(payload: &[u8], offset: &mut usize) -> (result: Result<
    SsmFloatEntry,
    WorkerError,
>)
    requires
        *old(offset) < payload@.len(),
    ensures
        match result {
            Ok(entry) => float_entry_at(payload@, *old(offset) as int) == Ok::<
                (SsmFloatView, int),
                WorkerError,
            >((entry@, *final(offset) as int)) && *old(offset) < *final(offset) <= payload@.len(),
            Err(error) => float_entry_at(payload@, *old(offset) as int) == Err::<
                (SsmFloatView, int),
                WorkerError,
            >(error),
        },
{
    let layer: u32 = match read_count(payload, offset) {
        Ok(value) => value,
        Err(error) => return Err(error),
    };
    let conv1d_len: u32 = match read_count(payload, offset) {
        Ok(value) => value,
        Err(error) => return Err(error),
    };
    let conv1d = match read_patterns(payload, offset, conv1d_len) {
        Ok(values) => values,
        Err(error) => return Err(error),
    };
    let a_len: u32 = match read_count(payload, offset) {
        Ok(value) => value,
        Err(error) => return Err(error),
    };
    let a = match read_patterns(payload, offset, a_len) {
        Ok(values) => values,
        Err(error) => return Err(error),
    };
    let dt_bias = match read_patterns(payload, offset, a_len) {
        Ok(values) => values,
        Err(error) => return Err(error),
    };
    let norm_len: u32 = match read_count(payload, offset) {
        Ok(value) => value,
        Err(error) => return Err(error),
    };
    let norm = match read_patterns(payload, offset, norm_len) {
        Ok(values) => values,
        Err(error) => return Err(error),
    };
    Ok(SsmFloatEntry { layer: layer as usize, conv1d, a, dt_bias, norm })
}

/// Reads the single-precision values of recurrent layers.
pub fn parse_ssm_float_payload(payload: &[u8]) -> (result: Result<Vec<SsmFloatEntry>, WorkerError>)
    ensures
        match result {
            Ok(entries) => float_payload_at(payload@, 0) == Ok::<Seq<SsmFloatView>, WorkerError>(
                float_views(entries@),
            ),
            Err(error) => float_payload_at(payload@, 0) == Err::<Seq<SsmFloatView>, WorkerError>(
                error,
            ),
        },
{
    let mut offset: usize = 0;
    let mut entries: Vec<SsmFloatEntry> = Vec::new();
    proof {
        match float_payload_at(payload@, 0) {
            Ok(all) => {
                assert(float_views(entries@) + all =~= all);
            },
            Err(_) => {},
        }
    }
    while offset < payload.len()
        invariant
            offset <= payload@.len(),
            float_payload_at(payload@, 0) == prepended(
                float_views(entries@),
                float_payload_at(payload@, offset as int),
            ),
        decreases payload.len() - offset,
    {
        let ghost at = offset as int;
        let ghost before = entries@;
        match read_float_entry(payload, &mut offset) {
            Ok(entry) => {
                entries.push(entry);
                proof {
                    assert(float_views(entries@) =~= float_views(before).push(entry@));
                    match float_payload_at(payload@, offset as int) {
                        Ok(rest) => {
                            assert(float_views(before) + (seq![entry@] + rest) =~= float_views(
                                entries@,
                            ) + rest);
                        },
                        Err(_) => {},
                    }
                }
            },
            Err(error) => return Err(error),
        }
    }
    assert(float_views(entries@) + Seq::<SsmFloatView>::empty() =~= float_views(entries@));
    Ok(entries)
}

/// A recurrent layer of a worker.
#[derive(Clone, Copy, Debug, PartialEq, Eq, Structural)]
pub struct WorkerSsmLayerWeights {
    pub qkv_in: QuantizedTensor,
    pub gate: QuantizedTensor,
    pub out_proj: QuantizedTensor,
    pub ba: Option<QuantizedTensor>,
    pub alpha: Option<QuantizedTensor>,
    pub beta: Option<QuantizedTensor>,
    /// The index of the single-precision values of the layer.
    pub floats: usize,
}

/// The recurrent layers of a worker and the sizes of their buffers.
#[derive(Debug)]
pub struct WorkerSsmSession {
    pub layers: Vec<Option<WorkerSsmLayerWeights>>,
    pub floats: Vec<SsmFloatEntry>,
    pub shape: SsmShape,
    pub dim: usize,
    pub n_layers: usize,
    /// The single-precision pattern of the normalisation epsilon.
    pub eps: u32,
    pub conv_state_len: usize,
    pub ssm_state_len: usize,
}

/// The shape that a header announces.
pub open spec fn announced_shape(h: ModelShardHeaderView) -> SsmShape {
    SsmShape {
        d_inner: h.ssm_inner_size,
        n_k_heads: h.ssm_group_count,
        n_v_heads: h.ssm_time_step_rank,
        head_dim: h.ssm_state_size,
        conv_kernel: h.ssm_conv_kernel,
    }
}

/// The index of the last of the first `k` float entries of a layer.
pub open spec fn last_floats(entries: Seq<SsmFloatView>, layer: int, k: nat) -> Option<int>
    decreases k,
{
    if k == 0 {
        None
    } else if entries[k - 1].layer == layer {
        Some(k - 1)
    } else {
        last_floats(entries, layer, (k - 1) as nat)
    }
}

/// The tensor of a kind that a header gives a layer.
pub open spec fn layer_tensor(h: ModelShardHeaderView, layer: int, kind: u8) -> Option<
    QuantizedTensor,
> {
    last_of_layer(h.entries, layer, kind as int, h.entries.len())
}

/// Whether an entry names a recurrent tensor of a layer.
pub open spec fn layer_named(h: ModelShardHeaderView, layer: int) -> bool {
    ||| layer_tensor(h, layer, SHARD_KIND_SSM_QKV_IN) is Some
    ||| layer_tensor(h, layer, SHARD_KIND_SSM_GATE) is Some
    ||| layer_tensor(h, layer, SHARD_KIND_SSM_OUT) is Some
    ||| layer_tensor(h, layer, SHARD_KIND_SSM_BA) is Some
    ||| layer_tensor(h, layer, SHARD_KIND_SSM_ALPHA) is Some
    ||| layer_tensor(h, layer, SHARD_KIND_SSM_BETA) is Some
}

/// The first part that a named layer lacks.
pub open spec fn layer_lacks(
    h: ModelShardHeaderView,
    floats: Seq<SsmFloatView>,
    layer: int,
) -> Option<MissingRecurrent> {
    if layer_tensor(h, layer, SHARD_KIND_SSM_QKV_IN) is None {
        Some(MissingRecurrent::QkvIn)
    } else if layer_tensor(h, layer, SHARD_KIND_SSM_GATE) is None {
        Some(MissingRecurrent::Gate)
    } else if layer_tensor(h, layer, SHARD_KIND_SSM_OUT) is None {
        Some(MissingRecurrent::OutProj)
    } else if last_floats(floats, layer, floats.len()) is None {
        Some(MissingRecurrent::FloatPayload)
    } else {
        None
    }
}

/// The recurrent layer that a header gives, where it names one.
pub open spec fn layer_weights(
    h: ModelShardHeaderView,
    floats: Seq<SsmFloatView>,
    layer: int,
) -> Option<WorkerSsmLayerWeights> {
    if layer_named(h, layer) {
        Some(
            WorkerSsmLayerWeights {
                qkv_in: layer_tensor(h, layer, SHARD_KIND_SSM_QKV_IN)->0,
                gate: layer_tensor(h, layer, SHARD_KIND_SSM_GATE)->0,
                out_proj: layer_tensor(h, layer, SHARD_KIND_SSM_OUT)->0,
                ba: layer_tensor(h, layer, SHARD_KIND_SSM_BA),
                alpha: layer_tensor(h, layer, SHARD_KIND_SSM_ALPHA),
                beta: layer_tensor(h, layer, SHARD_KIND_SSM_BETA),
                floats: last_floats(floats, layer, floats.len())->0 as usize,
            },
        )
    } else {
        None
    }
}

fn find_last_floats(entries: &Vec<SsmFloatEntry>, layer: usize) -> (found: Option<usize>)
    ensures
        match found {
            Some(i) => i < entries@.len() && last_floats(
                float_views(entries@),
                layer as int,
                entries@.len(),
            ) == Some(i as int),
            None => last_floats(float_views(entries@), layer as int, entries@.len()) is None,
        },
{
    let mut k: usize = entries.len();
    while k > 0
        invariant
            k <= entries@.len(),
            last_floats(float_views(entries@), layer as int, entries@.len()) == last_floats(
                float_views(entries@),
                layer as int,
                k as nat,
            ),
        decreases k,
    {
        assert(float_views(entries@)[k - 1] == entries@[k - 1]@);
        if entries[k - 1].layer == layer {
            return Some(k - 1);
        }
        k = k - 1;
    }
    None
}

/// Builds one recurrent layer.
fn build_layer(header: &ModelShardHeaderFrame, floats: &Vec<SsmFloatEntry>, layer: usize) -> (
result: Result<Option<WorkerSsmLayerWeights>, WorkerError>)
    ensures
        match result {
            Ok(weights) => (layer_named(header@, layer as int) ==> layer_lacks(
                header@,
                float_views(floats@),
                layer as int,
            ) is None) && weights == layer_weights(header@, float_views(floats@), layer as int) && (
            weights matches Some(w) ==> w.floats < floats@.len()),
            Err(error) => layer_named(header@, layer as int) && (layer_lacks(
                header@,
                float_views(floats@),
                layer as int,
            ) matches Some(part) && error == WorkerError::MissingRecurrentPart { part, layer }),
        },
{
    let qkv = find_last_of_layer(&header.entries, layer, SHARD_KIND_SSM_QKV_IN);
    let gate = find_last_of_layer(&header.entries, layer, SHARD_KIND_SSM_GATE);
    let out = find_last_of_layer(&header.entries, layer, SHARD_KIND_SSM_OUT);
    let ba = find_last_of_layer(&header.entries, layer, SHARD_KIND_SSM_BA);
    let alpha = find_last_of_layer(&header.entries, layer, SHARD_KIND_SSM_ALPHA);
    let beta = find_last_of_layer(&header.entries, layer, SHARD_KIND_SSM_BETA);
    if qkv.is_none() && gate.is_none() && out.is_none() && ba.is_none() && alpha.is_none()
        && beta.is_none() {
        return Ok(None);
    }
    let qkv_in = match qkv {
        Some(tensor) => tensor,
        None => return Err(
            WorkerError::MissingRecurrentPart { part: MissingRecurrent::QkvIn, layer },
        ),
    };
    let gate = match gate {
        Some(tensor) => tensor,
        None => return Err(
            WorkerError::MissingRecurrentPart { part: MissingRecurrent::Gate, layer },
        ),
    };
    let out_proj = match out {
        Some(tensor) => tensor,
        None => return Err(
            WorkerError::MissingRecurrentPart { part: MissingRecurrent::OutProj, layer },
        ),
    };
    assert(float_views(floats@).len() == floats@.len());
    let index: usize = match find_last_floats(floats, layer) {
        Some(index) => index,
        None => return Err(
            WorkerError::MissingRecurrentPart { part: MissingRecurrent::FloatPayload, layer },
        ),
    };
    Ok(Some(WorkerSsmLayerWeights { qkv_in, gate, out_proj, ba, alpha, beta, floats: index }))
}

/// Whether `result` is what the recurrent tensors of a shard make: the state of a session, or an
/// error that names one of the layers that lack a part.
pub open spec fn builds_session(
    header: ModelShardHeaderView,
    result: Result<WorkerSsmSession, WorkerError>,
) -> bool {
    match float_payload_at(header.ssm_float_payload, 0) {
        Err(error) => result == Err::<WorkerSsmSession, WorkerError>(error),
        Ok(floats) => match result {
            Ok(session) => {
                &&& float_views(session.floats@) == floats
                &&& session.shape == announced_shape(header)
                &&& session.dim == header.dim
                &&& session.n_layers == header.n_layers
                &&& session.eps == header.ssm_eps
                &&& session.conv_state_len == header.n_layers * session.shape.history_stride()
                &&& session.ssm_state_len == header.n_layers * session.shape.state_stride()
                &&& session.layers@.len() == header.n_layers
                &&& forall|l: int|
                    0 <= l < header.n_layers ==> {
                        &&& #[trigger] session.layers@[l] == layer_weights(header, floats, l)
                        &&& layer_named(header, l) ==> layer_lacks(header, floats, l) is None
                        &&& session.layers@[l] matches Some(w) ==> w.floats < floats.len()
                    }
            },
            Err(error) => error matches WorkerError::MissingRecurrentPart { part, layer } && layer
                < header.n_layers && layer_named(header, layer as int) && layer_lacks(
                header,
                floats,
                layer as int,
            ) == Some(part),
        },
    }
}

/// Whether every recurrent layer that a shard names has all its parts.
pub open spec fn recurrent_complete(header: ModelShardHeaderView) -> bool {
    float_payload_at(header.ssm_float_payload, 0) matches Ok(floats) && forall|l: int|
        0 <= l < header.n_layers && #[trigger] layer_named(header, l) ==> layer_lacks(
            header,
            floats,
            l,
        ) is None
}

/// Whether the sizes of the recurrent tensors of a shard can be computed, as far as building a
/// session comes.
pub open spec fn session_fits(header: ModelShardHeaderView) -> bool {
    let shape = announced_shape(header);
    &&& shape.strides_fit()
    &&& recurrent_complete(header) ==> shape.buffers_fit(header.n_layers as int)
}

/// Builds the recurrent layers of a worker: a layer exists exactly where an entry names one of
/// its tensors. Where several layers lack a part, the failure names one of them.
pub fn build_ssm_session(header: &ModelShardHeaderFrame) -> (result: Result<
    WorkerSsmSession,
    WorkerError,
>)
    requires
        session_fits(header@),
    ensures
        builds_session(header@, result),
{
    let shape = SsmShape {
        d_inner: header.ssm_inner_size,
        n_k_heads: header.ssm_group_count,
        n_v_heads: header.ssm_time_step_rank,
        head_dim: header.ssm_state_size,
        conv_kernel: header.ssm_conv_kernel,
    };
    let floats = match parse_ssm_float_payload(header.ssm_float_payload.as_slice()) {
        Ok(floats) => floats,
        Err(error) => return Err(error),
    };
    let mut layers: Vec<Option<WorkerSsmLayerWeights>> = Vec::new();
    let ghost views = float_views(floats@);
    while layers.len() < header.n_layers
        invariant
            layers@.len() <= header.n_layers,
            views == float_views(floats@),
            views.len() == floats@.len(),
            float_payload_at(header.ssm_float_payload@, 0) == Ok::<
                Seq<SsmFloatView>,
                WorkerError,
            >(views),
            forall|l: int|
                0 <= l < layers@.len() ==> {
                    &&& #[trigger] layers@[l] == layer_weights(header@, views, l)
                    &&& layer_named(header@, l) ==> layer_lacks(header@, views, l) is None
                    &&& layers@[l] matches Some(w) ==> w.floats < views.len()
                },
        decreases header.n_layers - layers.len(),
    {
        let layer: usize = layers.len();
        match build_layer(header, &floats, layer) {
            Ok(weights) => layers.push(weights),
            Err(error) => return Err(error),
        }
    }
    assert(recurrent_complete(header@)) by {
        assert forall|l: int| 0 <= l < header.n_layers && #[trigger] layer_named(
            header@,
            l,
        ) implies layer_lacks(header@, views, l) is None by {
            assert(layers@[l] == layer_weights(header@, views, l));
        }
    }
    let conv_dim: usize = shape.conv_dim();
    let steps: usize = shape.hist_steps();
    proof {
        assert(steps * conv_dim >= 0) by (nonlinear_arith);
        let s = shape.history_stride();
        let t = shape.state_stride();
        assert(shape.n_v_heads * shape.head_dim >= 0) by (nonlinear_arith);
        assert(shape.n_v_heads * shape.head_dim * shape.head_dim >= 0) by (nonlinear_arith);
        assert(header.n_layers * s >= 0) by (nonlinear_arith)
            requires
                s >= 0,
        ;
        assert(header.n_layers * t >= 0) by (nonlinear_arith)
            requires
                t >= 0,
        ;
    }
    let conv_stride: usize = steps * conv_dim;
    let heads: usize = shape.n_v_heads * shape.head_dim;
    let state_stride: usize = heads * shape.head_dim;
    let conv_state_len: usize = header.n_layers * conv_stride;
    let ssm_state_len: usize = header.n_layers * state_stride;
    Ok(
        WorkerSsmSession {
            layers,
            floats,
            shape,
            dim: header.dim,
            n_layers: header.n_layers,
            eps: header.ssm_eps,
            conv_state_len,
            ssm_state_len,
        },
    )
}

/// Why a recurrent step cannot be begun, if it cannot.
pub open spec fn step_rejection(session: WorkerSsmSession, layer: usize) -> Option<WorkerError> {
    if layer >= session.n_layers {
        Some(WorkerError::SsmLayerRange { layer, n_layers: session.n_layers })
    } else if session.layers@[layer as int] is None {
        Some(WorkerError::SsmLayerEmpty(layer))
    } else {
        None
    }
}

/// Plans the projections that begin a recurrent step: the weights of its layer.
pub fn plan_ssm_step(session: &WorkerSsmSession, layer: usize) -> (result: Result<
    WorkerSsmLayerWeights,
    WorkerError,
>)
    requires
        session.layers@.len() == session.n_layers,
    ensures
        match result {
            Ok(weights) => step_rejection(*session, layer) is None
                && session.layers@[layer as int] == Some(weights),
            Err(error) => step_rejection(*session, layer) == Some(error),
        },
{
    if layer >= session.n_layers {
        return Err(WorkerError::SsmLayerRange { layer, n_layers: session.n_layers });
    }
    match session.layers[layer] {
        Some(weights) => Ok(weights),
        None => Err(WorkerError::SsmLayerEmpty(layer)),
    }
}

/// The matrices that beta and alpha come from.
#[derive(Clone, Copy, Debug, PartialEq, Eq, Structural)]
pub enum SsmGates {
    Fused(QuantizedTensor),
    Apart { alpha: QuantizedTensor, beta: QuantizedTensor },
}

/// The matrices that beta and alpha come from: the fused one where there is one, else both
/// others, or the first that is missing.
pub open spec fn gates_outcome(weights: WorkerSsmLayerWeights, layer: usize) -> Result<
    SsmGates,
    WorkerError,
> {
    match (weights.ba, weights.alpha, weights.beta) {
        (Some(ba), _, _) => Ok(SsmGates::Fused(ba)),
        (None, None, _) => Err(WorkerError::SsmAlphaMissing(layer)),
        (None, _, None) => Err(WorkerError::SsmBetaMissing(layer)),
        (None, Some(alpha), Some(beta)) => Ok(SsmGates::Apart { alpha, beta }),
    }
}

/// Plans the projections of beta and alpha, which follow those that begin a step.
pub fn plan_ssm_gates(weights: &WorkerSsmLayerWeights, layer: usize) -> (result: Result<
    SsmGates,
    WorkerError,
>)
    ensures
        result == gates_outcome(*weights, layer),
{
    match (weights.ba, weights.alpha, weights.beta) {
        (Some(ba), _, _) => Ok(SsmGates::Fused(ba)),
        (None, None, _) => Err(WorkerError::SsmAlphaMissing(layer)),
        (None, _, None) => Err(WorkerError::SsmBetaMissing(layer)),
        (None, Some(alpha), Some(beta)) => Ok(SsmGates::Apart { alpha, beta }),
    }
}

/// Where what a layer keeps lies.
#[derive(Clone, Copy, Debug, PartialEq, Eq, Structural)]
pub struct SsmOffsets {
    pub history: usize,
    pub state: usize,
}

/// Plans the end of a recurrent step: where the history and the state of its layer lie.
pub fn plan_ssm_offsets(session: &WorkerSsmSession, layer: usize) -> (offsets: SsmOffsets)
    requires
        layer < session.n_layers,
        session.shape.conv_kernel > 0,
        session.shape.strides_fit(),
        session.shape.buffers_fit(session.n_layers as int),
    ensures
        offsets.history == layer * session.shape.history_stride(),
        offsets.state == layer * session.shape.state_stride(),
        offsets.history + session.shape.history_stride() <= session.n_layers
            * session.shape.history_stride(),
        offsets.state + session.shape.state_stride() <= session.n_layers
            * session.shape.state_stride(),
{
    let conv_dim: usize = session.shape.conv_dim();
    let steps: usize = session.shape.hist_steps();
    proof {
        let s = session.shape.history_stride();
        let t = session.shape.state_stride();
        assert(steps * conv_dim >= 0) by (nonlinear_arith);
        assert(session.shape.n_v_heads * session.shape.head_dim >= 0) by (nonlinear_arith);
        assert(session.shape.n_v_heads * session.shape.head_dim * session.shape.head_dim >= 0)
            by (nonlinear_arith);
        crate::recurrent::lemma_rows_fit(layer as int, session.n_layers as int, s);
        crate::recurrent::lemma_rows_fit(layer as int, session.n_layers as int, t);
    }
    let conv_stride: usize = steps * conv_dim;
    let heads: usize = session.shape.n_v_heads * session.shape.head_dim;
    let state_stride: usize = heads * session.shape.head_dim;
    SsmOffsets { history: layer * conv_stride, state: layer * state_stride }
}

/// The values of a layer follow each other: its number, the number of convolution weights and the
/// weights, the number of heads and for each of them first the decays and then the step biases, the
/// number of norms and the norms.
pub proof fn float_entries_are_laid_out_in_order(s: Seq<u8>, o: int, c: nat, n: nat, m: nat)
    requires
        0 <= o,
        o + 20 + 4 * (c + 2 * n + m) - 4 <= s.len() <= usize::MAX,
        le32(s, o + 4) == c,
        le32(s, o + 8 + 4 * c) == n,
        le32(s, o + 12 + 4 * c + 8 * n) == m,
    ensures
        float_entry_at(s, o) is Ok,
        ({
            let (entry, next) = float_entry_at(s, o)->Ok_0;
            &&& entry.layer == le32(s, o) as usize
            &&& entry.conv1d.len() == c && entry.a.len() == n && entry.dt_bias.len() == n
                && entry.norm.len() == m
            &&& forall|i: int| 0 <= i < c ==> #[trigger] entry.conv1d[i] == le32(
                s,
                o + 8 + 4 * i,
            ) as u32
            &&& forall|i: int| 0 <= i < n ==> #[trigger] entry.a[i] == le32(
                s,
                o + 12 + 4 * c + 4 * i,
            ) as u32
            &&& forall|i: int| 0 <= i < n ==> #[trigger] entry.dt_bias[i] == le32(
                s,
                o + 12 + 4 * c + 4 * n + 4 * i,
            ) as u32
            &&& forall|i: int| 0 <= i < m ==> #[trigger] entry.norm[i] == le32(
                s,
                o + 16 + 4 * c + 8 * n + 4 * i,
            ) as u32
            &&& next == o + 16 + 4 * c + 8 * n + 4 * m
        }),
{
}

/// All layers of a payload are read, one behind the other: the first one and what the rest gives.
pub proof fn every_layer_of_a_payload_is_read(s: Seq<u8>, o: int)
    requires
        0 <= o < s.len(),
        float_entry_at(s, o) is Ok,
        o < float_entry_at(s, o)->Ok_0.1 <= s.len(),
    ensures
        match float_payload_at(s, float_entry_at(s, o)->Ok_0.1) {
            Ok(rest) => float_payload_at(s, o) matches Ok(all) && all.len() == rest.len() + 1
                && all[0] == float_entry_at(s, o)->Ok_0.0 && all.skip(1) == rest,
            Err(error) => float_payload_at(s, o) == Err::<Seq<SsmFloatView>, WorkerError>(error),
        },
{
    if let Ok(rest) = float_payload_at(s, float_entry_at(s, o)->Ok_0.1) {
        let all = float_payload_at(s, o)->Ok_0;
        assert(all.skip(1) =~= rest);
    }
}

/// Of the single-precision values of a layer the last ones count.
pub proof fn the_last_floats_of_a_layer_count(entries: Seq<SsmFloatView>, layer: int, k: nat)
    requires
        k <= entries.len(),
    ensures
        match last_floats(entries, layer, k) {
            Some(i) => 0 <= i < k && entries[i].layer == layer && forall|j: int|
                i < j < k ==> (#[trigger] entries[j]).layer != layer,
            None => forall|j: int| 0 <= j < k ==> (#[trigger] entries[j]).layer != layer,
        },
    decreases k,
{
    if k > 0 {
        the_last_floats_of_a_layer_count(entries, layer, (k - 1) as nat);
    }
}

/// Whether a tensor is the one of a kind that a header gives a layer: the last that an entry names,
/// or none where no entry does.
pub open spec fn is_tensor_of(
    tensor: Option<QuantizedTensor>,
    h: ModelShardHeaderView,
    layer: int,
    kind: int,
) -> bool {
    &&& tensor is None <==> forall|j: int|
        0 <= j < h.entries.len() ==> !((#[trigger] h.entries[j]).layer == layer
            && h.entries[j].kind == kind)
    &&& forall|i: int|
        0 <= i < h.entries.len() && (#[trigger] h.entries[i]).layer == layer && h.entries[i].kind
            == kind && (forall|j: int|
            i < j < h.entries.len() ==> !((#[trigger] h.entries[j]).layer == layer
                && h.entries[j].kind == kind))
            ==> crate::distributed::worker_shard::lies_at(tensor, h.entries[i])
}

/// A session holds, for each layer that entries name, the tensors of those entries, each kind in
/// its place.
pub proof fn recurrent_layers_take_their_tensors(
    header: ModelShardHeaderView,
    session: WorkerSsmSession,
    layer: int,
)
    requires
        builds_session(header, Ok(session)),
        0 <= layer < header.n_layers,
    ensures
        match session.layers@[layer] {
            Some(w) => {
                &&& is_tensor_of(Some(w.qkv_in), header, layer, SHARD_KIND_SSM_QKV_IN as int)
                &&& is_tensor_of(Some(w.gate), header, layer, SHARD_KIND_SSM_GATE as int)
                &&& is_tensor_of(Some(w.out_proj), header, layer, SHARD_KIND_SSM_OUT as int)
                &&& is_tensor_of(w.ba, header, layer, SHARD_KIND_SSM_BA as int)
                &&& is_tensor_of(w.alpha, header, layer, SHARD_KIND_SSM_ALPHA as int)
                &&& is_tensor_of(w.beta, header, layer, SHARD_KIND_SSM_BETA as int)
                &&& w.floats < session.floats@.len()
                &&& session.floats@[w.floats as int].layer == layer
                &&& forall|j: int|
                    w.floats < j < session.floats@.len() ==> (
                    #[trigger] session.floats@[j]).layer != layer
            },
            None => {
                &&& is_tensor_of(None, header, layer, SHARD_KIND_SSM_QKV_IN as int)
                &&& is_tensor_of(None, header, layer, SHARD_KIND_SSM_GATE as int)
                &&& is_tensor_of(None, header, layer, SHARD_KIND_SSM_OUT as int)
                &&& is_tensor_of(None, header, layer, SHARD_KIND_SSM_BA as int)
                &&& is_tensor_of(None, header, layer, SHARD_KIND_SSM_ALPHA as int)
                &&& is_tensor_of(None, header, layer, SHARD_KIND_SSM_BETA as int)
            },
        },
{
    let floats = float_payload_at(header.ssm_float_payload, 0)->Ok_0;
    assert(session.layers@[layer] == layer_weights(header, floats, layer));
    lemma_tensor_of(header, layer, SHARD_KIND_SSM_QKV_IN);
    lemma_tensor_of(header, layer, SHARD_KIND_SSM_GATE);
    lemma_tensor_of(header, layer, SHARD_KIND_SSM_OUT);
    lemma_tensor_of(header, layer, SHARD_KIND_SSM_BA);
    lemma_tensor_of(header, layer, SHARD_KIND_SSM_ALPHA);
    lemma_tensor_of(header, layer, SHARD_KIND_SSM_BETA);
    the_last_floats_of_a_layer_count(floats, layer, floats.len());
    if let Some(w) = session.layers@[layer] {
        assert(floats.len() == session.floats@.len());
        assert(session.floats@.len() == session.floats.len());
        assert(floats[w.floats as int] == session.floats@[w.floats as int]@);
        assert forall|j: int| w.floats < j < session.floats@.len() implies (
        #[trigger] session.floats@[j]).layer != layer by {
            assert(floats[j] == session.floats@[j]@);
        }
    }
}

proof fn lemma_tensor_of(h: ModelShardHeaderView, layer: int, kind: u8)
    ensures
        is_tensor_of(layer_tensor(h, layer, kind), h, layer, kind as int),
{
    crate::distributed::worker_shard::layers_take_their_last_tensors(
        h.entries,
        layer,
        kind as int,
        h.entries.len(),
    );
}

} // verus!
