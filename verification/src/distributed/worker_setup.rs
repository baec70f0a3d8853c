//! How a worker makes a session of a greeting and a shard header.
use crate::distributed::control::{HelloFrame, ReadyFrame, ReadyView};
use crate::distributed::protocol::FrameKind;
use crate::distributed::shard::{
    decode_model_shard_header, decoded_header, ModelShardHeaderFrame, ModelShardHeaderView,
};
use crate::distributed::speculation::CacheStore;
use crate::distributed::worker_recurrent::{
    build_ssm_session, builds_session, session_fits, WorkerSsmSession,
};
use crate::distributed::worker_session::{WorkerRuntime, WorkerSession};
use crate::distributed::worker_shard::{
    build_expert_slots, build_gate_layers, check_header, experts_complete, last_of_layer,
    moe_layer_indices, names_missing_expert, parts_of, ready_frame, routed_layers,
    whole_experts_in_range, WorkerError, SHARD_KIND_GATE_INP,
};
use crate::gguf::QuantizedTensor;
use crate::values::filled;
use vstd::prelude::*;

verus! {

/// A session and what it is served with.
pub struct PreparedSession<T> {
    pub session: WorkerSession<T>,
    /// The routing matrix of each layer that has one.
    pub gate_layers: Vec<Option<QuantizedTensor>>,
    pub recurrent: Option<WorkerSsmSession>,
}

/// Whether a prepared session is fresh and holds what a shard header describes.
pub open spec fn holds_shard<T: Copy>(
    prepared: PreparedSession<T>,
    hello: HelloFrame,
    header: ModelShardHeaderView,
    zero: T,
) -> bool {
    let session = prepared.session;
    &&& session.wf()
    &&& session.slots.n_layers == header.n_layers
    &&& session.slots.n_experts == header.n_experts
    &&& forall|l: int, e: int|
        0 <= l < header.n_layers && 0 <= e < header.n_experts ==> #[trigger] session.slots.at(l, e)
            == parts_of(header.entries, l, e, header.entries.len()).slot()
    &&& session.dim == header.dim
    &&& session.n_experts_per_tok == header.n_experts_per_tok
    &&& session.moe_layer_indices@ == routed_layers(
        prepared.gate_layers@,
        prepared.gate_layers@.len(),
    )
    &&& session.in_flight@.len() == 0
    &&& session.pushed_cache.stored().len() == 0
    &&& session.hint_for_layer is None
    &&& session.last_activation@ == Seq::new(header.dim as nat, |i: int| zero)
    &&& session.spec_hits == 0
    &&& session.spec_misses == 0
    &&& session.speculative_push == hello.speculative_push
    &&& prepared.gate_layers@.len() == header.n_layers
    &&& forall|l: int|
        0 <= l < header.n_layers ==> #[trigger] prepared.gate_layers@[l] == last_of_layer(
            header.entries,
            l,
            SHARD_KIND_GATE_INP as int,
            header.entries.len(),
        )
    &&& match prepared.recurrent {
        Some(recurrent) => header.ssm_inner_size > 0 && builds_session(header, Ok(recurrent)),
        None => header.ssm_inner_size == 0,
    }
}

impl WorkerRuntime {
    /// Reads the shard header that follows a greeting.
    pub fn read_header(&self, hello: &HelloFrame, kind: FrameKind, payload: &[u8]) -> (result:
        Result<ModelShardHeaderFrame, WorkerError>)
        ensures
            if kind != FrameKind::ModelShardHeader {
                result == Err::<ModelShardHeaderFrame, WorkerError>(
                    WorkerError::ExpectedShardHeader(kind),
                )
            } else {
                match decoded_header(payload@) {
                    Err(error) => result == Err::<ModelShardHeaderFrame, WorkerError>(
                        WorkerError::Protocol(error),
                    ),
                    Ok(header) => if header.dim != hello.dim || header.n_layers != hello.n_layers
                        || header.n_experts != hello.n_experts {
                        result == Err::<ModelShardHeaderFrame, WorkerError>(
                            WorkerError::DimensionMismatch,
                        )
                    } else {
                        result matches Ok(frame) && frame@ == header
                    },
                }
            },
    {
        match kind {
            FrameKind::ModelShardHeader => {},
            other => return Err(WorkerError::ExpectedShardHeader(other)),
        }
        let header = match decode_model_shard_header(payload) {
            Ok(header) => header,
            Err(error) => return Err(WorkerError::Protocol(error)),
        };
        match check_header(hello, &header) {
            Ok(_) => Ok(header),
            Err(error) => Err(error),
        }
    }

    /// Prepares a session for a shard, and the answer that announces it.
    pub fn prepare_session<T: Copy>(
        &self,
        hello: &HelloFrame,
        header: &ModelShardHeaderFrame,
        zero: T,
    ) -> (result: Result<(ReadyFrame, PreparedSession<T>), WorkerError>)
        requires
            header.n_layers * header.n_experts <= usize::MAX,
            whole_experts_in_range(header@),
            experts_complete(header@) && header.ssm_inner_size > 0 ==> session_fits(header@),
        ensures
            match result {
                Ok((ready, prepared)) => {
                    &&& experts_complete(header@)
                    &&& holds_shard(prepared, *hello, header@, zero)
                    &&& ready@ == (ReadyView {
                        node_address: self.bind_address@,
                        dim: header.dim,
                        n_layers: header.n_layers,
                        n_experts: header.n_experts,
                        activation_dtype: hello.activation_dtype,
                        speculative_push: hello.speculative_push,
                        logical_cpu_count: self.resources.logical_cpu_count,
                        memory_bytes: self.resources.memory_bytes,
                        loaded_expert_count: hello.assigned_experts.len(),
                    })
                },
                Err(error) => names_missing_expert(header@, error) || experts_complete(header@)
                    && header.ssm_inner_size > 0 && builds_session(header@, Err(error)),
            },
    {
        let slots = match build_expert_slots(header) {
            Ok(slots) => slots,
            Err(error) => return Err(error),
        };
        let recurrent: Option<WorkerSsmSession> = if header.ssm_inner_size > 0 {
            match build_ssm_session(header) {
                Ok(session) => Some(session),
                Err(error) => return Err(error),
            }
        } else {
            None
        };
        let gate_layers = build_gate_layers(header);
        let session = WorkerSession {
            slots,
            dim: header.dim,
            n_experts_per_tok: header.n_experts_per_tok,
            moe_layer_indices: moe_layer_indices(&gate_layers),
            in_flight: Vec::new(),
            pushed_cache: CacheStore::new(),
            hint_for_layer: None,
            last_activation: filled(header.dim, zero),
            spec_hits: 0,
            spec_misses: 0,
            speculative_push: hello.speculative_push,
        };
        let ready = ready_frame(&self.bind_address, &self.resources, hello, header);
        Ok((ready, PreparedSession { session, gate_layers, recurrent }))
    }
}

} // verus!
