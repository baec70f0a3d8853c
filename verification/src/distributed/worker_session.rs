//! What a worker does with the frames it receives.
use crate::distributed::control::{decode_error_frame, decoded_error, DiscoverResponseFrame,
    DiscoverResponseView};
use crate::distributed::experts::{
    decode_expert_batch_request, decode_speculation_advance, decoded_advance, decoded_request,
    ExpertBatchRequest, SpeculationAdvanceFrame,
};
use crate::distributed::protocol::{FrameKind, ProtocolError};
use crate::distributed::resources::NodeResourceSnapshot;
use crate::distributed::shard::{decode_ssm_layer_request, decoded_vector, SsmLayerRequest};
use crate::distributed::speculation::{contains_size, deep, future_layers, held, held_experts,
    next_layer, window, CacheStore, SpeculationCache};
use crate::distributed::worker_shard::{ExpertSlots, WorkerError, WorkerExpertTensors};
use vstd::prelude::*;
use vstd::string::*;

verus! {

/// A worker that waits for connections.
#[derive(Debug)]
pub struct WorkerRuntime {
    pub bind_address: String,
    pub resources: NodeResourceSnapshot,
}

impl WorkerRuntime {
    /// The answer to a discovery request: resources, and no model yet.
    pub fn discovery_frame(&self) -> (frame: DiscoverResponseFrame)
        ensures
            frame@ == (DiscoverResponseView {
                node_address: self.bind_address@,
                dim: 0,
                n_layers: 0,
                n_experts: 0,
                logical_cpu_count: self.resources.logical_cpu_count,
                memory_bytes: self.resources.memory_bytes,
            }),
    {
        DiscoverResponseFrame {
            node_address: self.bind_address.clone(),
            dim: 0,
            n_layers: 0,
            n_experts: 0,
            logical_cpu_count: self.resources.logical_cpu_count,
            memory_bytes: self.resources.memory_bytes,
        }
    }
}

/// What the first frame of a connection asks for.
#[derive(Clone, Copy, Debug, PartialEq, Eq, Structural)]
pub enum FirstFrame {
    AnswerDiscovery,
    StartSession,
    Reject(FrameKind),
}

/// What the first frame of a connection asks for.
pub fn classify_first_frame(kind: FrameKind) -> (first: FirstFrame)
    ensures
        first == match kind {
            FrameKind::DiscoverRequest => FirstFrame::AnswerDiscovery,
            FrameKind::Hello => FirstFrame::StartSession,
            other => FirstFrame::Reject(other),
        },
{
    match kind {
        FrameKind::DiscoverRequest => FirstFrame::AnswerDiscovery,
        FrameKind::Hello => FirstFrame::StartSession,
        other => FirstFrame::Reject(other),
    }
}

/// What a frame of a running session asks for.
#[derive(Debug)]
pub enum SessionAction {
    ServeExperts(ExpertBatchRequest),
    Advance(SpeculationAdvanceFrame),
    ServeRecurrent(SsmLayerRequest),
    /// Answer with an error and go on.
    ReplyError(WorkerError),
    /// End the session.
    Stop,
    /// End the session with a failure.
    Fail(WorkerError),
}

/// Whether `action` is what a frame asks for.
pub open spec fn asks_for(
    kind: FrameKind,
    payload: Seq<u8>,
    has_recurrent: bool,
    action: SessionAction,
) -> bool {
    match kind {
        FrameKind::ExpertBatchRequest => match decoded_request(payload) {
            Ok(v) => action matches SessionAction::ServeExperts(request) && request@ == v,
            Err(e) => action == SessionAction::Fail(WorkerError::Protocol(e)),
        },
        FrameKind::SpeculationAdvance => match decoded_advance(payload) {
            Ok(v) => action matches SessionAction::Advance(frame) && frame@ == v,
            Err(e) => action == SessionAction::ReplyError(WorkerError::Protocol(e)),
        },
        FrameKind::SsmLayerRequest => if !has_recurrent {
            action == SessionAction::ReplyError(WorkerError::NoSsmSession)
        } else {
            match decoded_vector(payload, ProtocolError::TruncatedSsmRequest) {
                Ok((layer, xb)) => action matches SessionAction::ServeRecurrent(request)
                    && request.layer == layer && request.xb@ == xb,
                Err(e) => action == SessionAction::Fail(WorkerError::Protocol(e)),
            }
        },
        FrameKind::Shutdown => action == SessionAction::Stop,
        FrameKind::Error => match decoded_error(payload) {
            Ok(text) => action matches SessionAction::Fail(
                WorkerError::CoordinatorReported(reason),
            ) && reason@ == text,
            Err(e) => action == SessionAction::Fail(WorkerError::Protocol(e)),
        },
        other => action == SessionAction::Fail(WorkerError::UnexpectedFrame(other)),
    }
}

/// What a frame of a running session asks for.
pub fn classify_session_frame(kind: FrameKind, payload: &[u8], has_recurrent: bool) -> (action:
    SessionAction)
    ensures
        asks_for(kind, payload@, has_recurrent, action),
{
    match kind {
        FrameKind::ExpertBatchRequest => match decode_expert_batch_request(payload) {
            Ok(request) => SessionAction::ServeExperts(request),
            Err(error) => SessionAction::Fail(WorkerError::Protocol(error)),
        },
        FrameKind::SpeculationAdvance => match decode_speculation_advance(payload) {
            Ok(frame) => SessionAction::Advance(frame),
            Err(error) => SessionAction::ReplyError(WorkerError::Protocol(error)),
        },
        FrameKind::SsmLayerRequest => {
            if !has_recurrent {
                return SessionAction::ReplyError(WorkerError::NoSsmSession);
            }
            match decode_ssm_layer_request(payload) {
                Ok(request) => SessionAction::ServeRecurrent(request),
                Err(error) => SessionAction::Fail(WorkerError::Protocol(error)),
            }
        },
        FrameKind::Shutdown => SessionAction::Stop,
        FrameKind::Error => match decode_error_frame(payload) {
            Ok(reason) => SessionAction::Fail(WorkerError::CoordinatorReported(reason)),
            Err(error) => SessionAction::Fail(WorkerError::Protocol(error)),
        },
        other => SessionAction::Fail(WorkerError::UnexpectedFrame(other)),
    }
}

/// The state of a session.
pub struct WorkerSession<T> {
    pub slots: ExpertSlots,
    pub dim: usize,
    pub n_experts_per_tok: usize,
    pub moe_layer_indices: Vec<usize>,
    /// The layers whose results are being computed ahead.
    pub in_flight: Vec<usize>,
    /// Results that were computed ahead.
    pub pushed_cache: CacheStore<T>,
    /// The experts that the coordinator predicts for a layer.
    pub hint_for_layer: Option<(usize, Vec<usize>)>,
    pub last_activation: Vec<T>,
    pub spec_hits: u64,
    pub spec_misses: u64,
    pub speculative_push: bool,
}

/// The contents of a hint.
pub open spec fn hint_view(hint: Option<(usize, Vec<usize>)>) -> Option<(usize, Seq<usize>)> {
    match hint {
        Some((layer, ids)) => Some((layer, ids@)),
        None => None,
    }
}

/// A list without every item that is not among `layers`.
pub open spec fn restricted(list: Seq<usize>, layers: Seq<usize>, k: nat) -> Seq<usize>
    decreases k,
{
    if k == 0 {
        Seq::empty()
    } else {
        let front = restricted(list, layers, (k - 1) as nat);
        if layers.contains(list[k - 1]) {
            front.push(list[k - 1])
        } else {
            front
        }
    }
}

/// A list without an item.
pub open spec fn without(list: Seq<usize>, item: usize, k: nat) -> Seq<usize>
    decreases k,
{
    if k == 0 {
        Seq::empty()
    } else {
        let front = without(list, item, (k - 1) as nat);
        if list[k - 1] != item {
            front.push(list[k - 1])
        } else {
            front
        }
    }
}

fn restrict(list: &Vec<usize>, layers: &Vec<usize>) -> (out: Vec<usize>)
    ensures
        out@ == restricted(list@, layers@, list@.len()),
{
    let mut out: Vec<usize> = Vec::new();
    let mut i: usize = 0;
    while i < list.len()
        invariant
            i <= list@.len(),
            out@ == restricted(list@, layers@, i as nat),
        decreases list.len() - i,
    {
        if contains_size(layers, list[i]) {
            out.push(list[i]);
        }
        i = i + 1;
    }
    out
}

fn remove_item(list: &Vec<usize>, item: usize) -> (out: Vec<usize>)
    ensures
        out@ == without(list@, item, list@.len()),
{
    let mut out: Vec<usize> = Vec::new();
    let mut i: usize = 0;
    while i < list.len()
        invariant
            i <= list@.len(),
            out@ == without(list@, item, i as nat),
        decreases list.len() - i,
    {
        if list[i] != item {
            out.push(list[i]);
        }
        i = i + 1;
    }
    out
}

/// Where the experts of a layer to be computed ahead come from.
#[derive(Debug)]
pub enum Prediction {
    /// The experts that the coordinator predicted and this worker holds.
    Hinted(Vec<usize>),
    /// The worker predicts them from the last activation.
    OwnRouting,
}

/// A layer to be computed ahead.
#[derive(Debug)]
pub struct SpeculationTask {
    pub layer: usize,
    pub prediction: Prediction,
}

/// Whether a layer of the window still needs to be computed ahead.
pub open spec fn uncovered<T: Copy>(
    in_flight: Seq<usize>,
    cache: CacheStore<T>,
    layer: usize,
) -> bool {
    !in_flight.contains(layer) && !cache.has(layer)
}

/// The layers of the window, among the first `k`, that still need to be computed ahead.
pub open spec fn uncovered_layers<T: Copy>(
    in_flight: Seq<usize>,
    cache: CacheStore<T>,
    layers: Seq<usize>,
    k: nat,
) -> Seq<usize>
    decreases k,
{
    if k == 0 {
        Seq::empty()
    } else {
        let front = uncovered_layers(in_flight, cache, layers, (k - 1) as nat);
        if uncovered(in_flight, cache, layers[k - 1]) {
            front.push(layers[k - 1])
        } else {
            front
        }
    }
}

/// The hint that is used up by a window: the one for its first layer.
pub open spec fn used_hint(hint: Option<(usize, Seq<usize>)>, layers: Seq<usize>) -> Option<
    (usize, Seq<usize>),
> {
    match hint {
        Some((layer, ids)) => if layers.len() > 0 && layers[0] == layer {
            Some((layer, ids))
        } else {
            None
        },
        None => None,
    }
}

/// Whether a task is that of a layer, given the hint that is used up.
pub open spec fn task_for(
    task: SpeculationTask,
    slots: ExpertSlots,
    used: Option<(usize, Seq<usize>)>,
    layer: usize,
) -> bool {
    &&& task.layer == layer
    &&& match used {
        Some((hinted, ids)) => if hinted == layer && ids.len() > 0 {
            task.prediction matches Prediction::Hinted(held_ids) && held_ids@ == held(
                slots,
                layer,
                ids,
                ids.len(),
            )
        } else {
            task.prediction is OwnRouting
        },
        None => task.prediction is OwnRouting,
    }
}

impl<T: Copy> WorkerSession<T> {
    /// The parts of the state that never change, and the invariants of the others.
    pub open spec fn wf(&self) -> bool {
        &&& self.slots.wf()
        &&& self.pushed_cache.wf()
        &&& self.last_activation@.len() == self.dim
    }

    /// Whether the parts that never change are the same.
    pub open spec fn same_model(&self, other: &WorkerSession<T>) -> bool {
        &&& self.slots == other.slots
        &&& self.dim == other.dim
        &&& self.n_experts_per_tok == other.n_experts_per_tok
        &&& self.moe_layer_indices == other.moe_layer_indices
        &&& self.speculative_push == other.speculative_push
    }

    /// The layers that are computed ahead after `completed`.
    pub open spec fn ahead(&self, completed: usize) -> Seq<usize> {
        window(self.moe_layer_indices@, completed, self.moe_layer_indices@.len())
    }

    /// Decides what to compute ahead once a layer is completed. Results outside the window are
    /// given up, the hint for the first layer of the window is used up, and every layer of the
    /// window that is neither stored nor in flight becomes a task.
    pub fn plan_speculation(&mut self, completed: usize) -> (tasks: Vec<SpeculationTask>)
        requires
            old(self).wf(),
        ensures
            final(self).wf(),
            final(self).same_model(old(self)),
            final(self).last_activation == old(self).last_activation,
            final(self).spec_hits == old(self).spec_hits,
            final(self).spec_misses == old(self).spec_misses,
            if old(self).n_experts_per_tok == 0 {
                &&& tasks@.len() == 0
                &&& final(self).in_flight@.len() == 0
                &&& final(self).pushed_cache == old(self).pushed_cache
                &&& final(self).hint_for_layer == old(self).hint_for_layer
            } else if old(self).ahead(completed).len() == 0 {
                &&& tasks@.len() == 0
                &&& final(self).in_flight == old(self).in_flight
                &&& final(self).pushed_cache == old(self).pushed_cache
                &&& final(self).hint_for_layer == old(self).hint_for_layer
            } else {
                let layers = old(self).ahead(completed);
                let used = used_hint(hint_view(old(self).hint_for_layer), layers);
                let open_layers = uncovered_layers(
                    final(self).in_flight@,
                    final(self).pushed_cache,
                    layers,
                    layers.len(),
                );
                &&& final(self).in_flight@ == restricted(
                    old(self).in_flight@,
                    layers,
                    old(self).in_flight@.len(),
                )
                &&& forall|c: SpeculationCache<T>| #[trigger]
                    final(self).pushed_cache.holds(c) <==> old(self).pushed_cache.holds(c)
                        && layers.contains(c.layer)
                &&& hint_view(final(self).hint_for_layer) == if used is Some {
                    None
                } else {
                    hint_view(old(self).hint_for_layer)
                }
                &&& tasks@.len() == open_layers.len()
                &&& forall|i: int|
                    0 <= i < tasks@.len() ==> task_for(
                        #[trigger] tasks@[i],
                        old(self).slots,
                        used,
                        open_layers[i],
                    )
            },
    {
        let mut tasks: Vec<SpeculationTask> = Vec::new();
        if self.n_experts_per_tok == 0 {
            self.in_flight = Vec::new();
            return tasks;
        }
        let layers: Vec<usize> = future_layers(&self.moe_layer_indices, completed);
        if layers.is_empty() {
            return tasks;
        }
        self.pushed_cache.retain(&layers);
        self.in_flight = restrict(&self.in_flight, &layers);
        let matches_first: bool = match &self.hint_for_layer {
            Some((layer, _)) => *layer == layers[0],
            None => false,
        };
        let hint: Option<(usize, Vec<usize>)> = if matches_first {
            self.hint_for_layer.take()
        } else {
            None
        };
        let ghost used = used_hint(hint_view(old(self).hint_for_layer), layers@);
        assert(hint_view(hint) == used);
        let mut i: usize = 0;
        while i < layers.len()
            invariant
                i <= layers@.len(),
                self.slots == old(self).slots,
                self.slots.wf(),
                hint_view(hint) == used,
                tasks@.len() == uncovered_layers(
                    self.in_flight@,
                    self.pushed_cache,
                    layers@,
                    i as nat,
                ).len(),
                forall|k: int|
                    0 <= k < tasks@.len() ==> task_for(
                        #[trigger] tasks@[k],
                        self.slots,
                        used,
                        uncovered_layers(self.in_flight@, self.pushed_cache, layers@, i as nat)[k],
                    ),
            decreases layers.len() - i,
        {
            let layer: usize = layers[i];
            let ghost front = uncovered_layers(
                self.in_flight@,
                self.pushed_cache,
                layers@,
                i as nat,
            );
            if !contains_size(&self.in_flight, layer) && !self.pushed_cache.contains(layer) {
                let prediction = match &hint {
                    Some((hinted, ids)) => if *hinted == layer && ids.len() > 0 {
                        Prediction::Hinted(held_experts(&self.slots, layer, ids, ids.len()))
                    } else {
                        Prediction::OwnRouting
                    },
                    None => Prediction::OwnRouting,
                };
                let task = SpeculationTask { layer, prediction };
                let ghost before = tasks@;
                assert(task_for(task, self.slots, used, layer));
                tasks.push(task);
                proof {
                    let now = uncovered_layers(
                        self.in_flight@,
                        self.pushed_cache,
                        layers@,
                        (i + 1) as nat,
                    );
                    assert(now == front.push(layer));
                    assert forall|k: int| 0 <= k < tasks@.len() implies task_for(
                        #[trigger] tasks@[k],
                        self.slots,
                        used,
                        now[k],
                    ) by {
                        if k < before.len() {
                            assert(task_for(before[k], self.slots, used, front[k]));
                        }
                    }
                }
            }
            i = i + 1;
        }
        tasks
    }

    /// Records that a layer is being computed ahead.
    pub fn start_work(&mut self, layer: usize)
        requires
            old(self).wf(),
        ensures
            final(self).wf(),
            final(self).same_model(old(self)),
            final(self).in_flight@ == without(
                old(self).in_flight@,
                layer,
                old(self).in_flight@.len(),
            ).push(layer),
            final(self).pushed_cache == old(self).pushed_cache,
            final(self).hint_for_layer == old(self).hint_for_layer,
            final(self).last_activation == old(self).last_activation,
            final(self).spec_hits == old(self).spec_hits,
            final(self).spec_misses == old(self).spec_misses,
    {
        self.in_flight = remove_item(&self.in_flight, layer);
        self.in_flight.push(layer);
    }

    /// Records that a layer is no longer being computed ahead, its results being lost.
    pub fn abandon_work(&mut self, layer: usize)
        requires
            old(self).wf(),
        ensures
            final(self).wf(),
            final(self).same_model(old(self)),
            final(self).in_flight@ == without(
                old(self).in_flight@,
                layer,
                old(self).in_flight@.len(),
            ),
            final(self).pushed_cache == old(self).pushed_cache,
            final(self).hint_for_layer == old(self).hint_for_layer,
            final(self).last_activation == old(self).last_activation,
            final(self).spec_hits == old(self).spec_hits,
            final(self).spec_misses == old(self).spec_misses,
    {
        self.in_flight = remove_item(&self.in_flight, layer);
    }

    /// Remembers the hint of a request or a control frame, which is for the layer after the given
    /// one. An empty hint is none.
    pub fn remember(&mut self, layer: usize, hint: Vec<usize>)
        requires
            old(self).wf(),
            hint@.len() > 0 ==> layer < usize::MAX,
        ensures
            final(self).wf(),
            final(self).same_model(old(self)),
            hint_view(final(self).hint_for_layer) == if hint@.len() > 0 {
                Some(((layer + 1) as usize, hint@))
            } else {
                hint_view(old(self).hint_for_layer)
            },
            final(self).in_flight == old(self).in_flight,
            final(self).pushed_cache == old(self).pushed_cache,
            final(self).last_activation == old(self).last_activation,
            final(self).spec_hits == old(self).spec_hits,
            final(self).spec_misses == old(self).spec_misses,
    {
        if hint.len() > 0 {
            self.hint_for_layer = Some((layer + 1, hint));
        }
    }

    /// Remembers an activation; one that is too short is ignored.
    pub fn remember_activation(&mut self, activation: &[T])
        requires
            old(self).wf(),
        ensures
            final(self).wf(),
            final(self).same_model(old(self)),
            final(self).last_activation@ == if activation@.len() >= old(self).dim {
                activation@.take(old(self).dim as int)
            } else {
                old(self).last_activation@
            },
            final(self).hint_for_layer == old(self).hint_for_layer,
            final(self).in_flight == old(self).in_flight,
            final(self).pushed_cache == old(self).pushed_cache,
            final(self).spec_hits == old(self).spec_hits,
            final(self).spec_misses == old(self).spec_misses,
    {
        if activation.len() >= self.dim {
            let mut copy: Vec<T> = Vec::new();
            let mut i: usize = 0;
            let dim: usize = self.dim;
            while i < dim
                invariant
                    i <= dim <= activation@.len(),
                    copy@ == activation@.take(i as int),
                decreases dim - i,
            {
                copy.push(activation[i]);
                i = i + 1;
                assert(copy@ =~= activation@.take(i as int));
            }
            self.last_activation = copy;
        }
    }

    /// Takes the results that were computed ahead for a layer: the stored ones, or the sign that
    /// the layer was in flight and is to be asked for.
    pub fn take_results(&mut self, layer: usize) -> (source: ResultSource<T>)
        requires
            old(self).wf(),
        ensures
            final(self).wf(),
            final(self).same_model(old(self)),
            final(self).hint_for_layer == old(self).hint_for_layer,
            final(self).last_activation == old(self).last_activation,
            final(self).spec_hits == old(self).spec_hits,
            final(self).spec_misses == old(self).spec_misses,
            !final(self).pushed_cache.has(layer),
            forall|c: SpeculationCache<T>|
                c.layer != layer ==> (#[trigger] final(self).pushed_cache.holds(c) <==> old(
                    self
                ).pushed_cache.holds(c)),
            match source {
                ResultSource::Stored(cache) => cache.layer == layer && old(
                    self
                ).pushed_cache.holds(cache) && final(self).in_flight == old(self).in_flight,
                ResultSource::InFlight => !old(self).pushed_cache.has(layer) && old(
                    self
                ).in_flight@.contains(layer) && final(self).in_flight@ == without(
                    old(self).in_flight@,
                    layer,
                    old(self).in_flight@.len(),
                ),
                ResultSource::Absent => !old(self).pushed_cache.has(layer) && !old(
                    self
                ).in_flight@.contains(layer) && final(self).in_flight == old(self).in_flight,
            },
    {
        match self.pushed_cache.take(layer) {
            Some(cache) => ResultSource::Stored(cache),
            None => {
                if contains_size(&self.in_flight, layer) {
                    self.in_flight = remove_item(&self.in_flight, layer);
                    ResultSource::InFlight
                } else {
                    ResultSource::Absent
                }
            },
        }
    }

    /// Answers a request from results computed ahead, where they are for its layer and cover its
    /// experts; counts a hit or a miss.
    pub fn answer(
        &mut self,
        layer: usize,
        expert_ids: &Vec<usize>,
        cache: Option<SpeculationCache<T>>,
    ) -> (outputs: Option<Vec<Vec<T>>>)
        requires
            old(self).wf(),
            old(self).spec_hits < u64::MAX,
            old(self).spec_misses < u64::MAX,
        ensures
            final(self).wf(),
            final(self).same_model(old(self)),
            final(self).in_flight == old(self).in_flight,
            final(self).pushed_cache == old(self).pushed_cache,
            final(self).hint_for_layer == old(self).hint_for_layer,
            final(self).last_activation == old(self).last_activation,
            match outputs {
                Some(outs) => {
                    &&& cache matches Some(c) && c.layer == layer && c.covers(expert_ids@)
                        && deep(outs@) == c.outputs_of(expert_ids@)
                    &&& final(self).spec_hits == old(self).spec_hits + 1
                    &&& final(self).spec_misses == old(self).spec_misses
                },
                None => {
                    &&& cache matches Some(c) ==> c.layer != layer || !c.covers(expert_ids@)
                    &&& final(self).spec_hits == old(self).spec_hits
                    &&& final(self).spec_misses == old(self).spec_misses + 1
                },
            },
    {
        let hit: Option<Vec<Vec<T>>> = match &cache {
            Some(c) => if c.layer == layer {
                c.select(expert_ids)
            } else {
                None
            },
            None => None,
        };
        match hit {
            Some(outputs) => {
                self.spec_hits = self.spec_hits + 1;
                Some(outputs)
            },
            None => {
                self.spec_misses = self.spec_misses + 1;
                None
            },
        }
    }

    /// Begins a request: a hint that comes with it is kept for the next layer, and results that
    /// were computed ahead for its layer are taken.
    pub fn begin_request(&mut self, layer: usize, hint: Vec<usize>) -> (source: ResultSource<T>)
        requires
            old(self).wf(),
            hint@.len() > 0 ==> layer < usize::MAX,
        ensures
            final(self).wf(),
            final(self).same_model(old(self)),
            hint_view(final(self).hint_for_layer) == if hint@.len() > 0 {
                Some(((layer + 1) as usize, hint@))
            } else {
                hint_view(old(self).hint_for_layer)
            },
            final(self).last_activation == old(self).last_activation,
            final(self).spec_hits == old(self).spec_hits,
            final(self).spec_misses == old(self).spec_misses,
            !final(self).pushed_cache.has(layer),
            forall|c: SpeculationCache<T>|
                c.layer != layer ==> (#[trigger] final(self).pushed_cache.holds(c) <==> old(
                    self
                ).pushed_cache.holds(c)),
            match source {
                ResultSource::Stored(cache) => cache.layer == layer && old(
                    self
                ).pushed_cache.holds(cache) && final(self).in_flight == old(self).in_flight,
                ResultSource::InFlight => !old(self).pushed_cache.has(layer) && old(
                    self
                ).in_flight@.contains(layer) && final(self).in_flight@ == without(
                    old(self).in_flight@,
                    layer,
                    old(self).in_flight@.len(),
                ),
                ResultSource::Absent => !old(self).pushed_cache.has(layer) && !old(
                    self
                ).in_flight@.contains(layer) && final(self).in_flight == old(self).in_flight,
            },
    {
        self.remember(layer, hint);
        self.take_results(layer)
    }

    /// Settles a request: it is answered from results that cover it, and counted as a hit, or else
    /// as a miss; its activation is kept for computing ahead.
    pub fn settle_request(
        &mut self,
        layer: usize,
        expert_ids: &Vec<usize>,
        cache: Option<SpeculationCache<T>>,
        activation: &[T],
    ) -> (outputs: Option<Vec<Vec<T>>>)
        requires
            old(self).wf(),
            old(self).spec_hits < u64::MAX,
            old(self).spec_misses < u64::MAX,
        ensures
            final(self).wf(),
            final(self).same_model(old(self)),
            final(self).in_flight == old(self).in_flight,
            final(self).pushed_cache == old(self).pushed_cache,
            final(self).hint_for_layer == old(self).hint_for_layer,
            final(self).last_activation@ == if activation@.len() >= old(self).dim {
                activation@.take(old(self).dim as int)
            } else {
                old(self).last_activation@
            },
            match outputs {
                Some(outs) => {
                    &&& cache matches Some(c) && c.layer == layer && c.covers(expert_ids@)
                        && deep(outs@) == c.outputs_of(expert_ids@)
                    &&& final(self).spec_hits == old(self).spec_hits + 1
                    &&& final(self).spec_misses == old(self).spec_misses
                },
                None => {
                    &&& cache matches Some(c) ==> c.layer != layer || !c.covers(expert_ids@)
                    &&& final(self).spec_hits == old(self).spec_hits
                    &&& final(self).spec_misses == old(self).spec_misses + 1
                },
            },
    {
        let outputs = self.answer(layer, expert_ids, cache);
        self.remember_activation(activation);
        outputs
    }

    /// Takes over an activation and a hint that were sent ahead of the next request.
    pub fn advance(&mut self, layer: usize, activation: &[T], hint: Vec<usize>)
        requires
            old(self).wf(),
            hint@.len() > 0 ==> layer < usize::MAX,
        ensures
            final(self).wf(),
            final(self).same_model(old(self)),
            final(self).last_activation@ == if activation@.len() >= old(self).dim {
                activation@.take(old(self).dim as int)
            } else {
                old(self).last_activation@
            },
            hint_view(final(self).hint_for_layer) == if hint@.len() > 0 {
                Some(((layer + 1) as usize, hint@))
            } else {
                hint_view(old(self).hint_for_layer)
            },
            final(self).in_flight == old(self).in_flight,
            final(self).pushed_cache == old(self).pushed_cache,
            final(self).spec_hits == old(self).spec_hits,
            final(self).spec_misses == old(self).spec_misses,
    {
        self.remember_activation(activation);
        self.remember(layer, hint);
    }

    /// The layer whose results are announced once a layer is completed: the next routed one.
    pub fn push_layer(&self, completed: usize) -> (layer: Option<usize>)
        ensures
            match layer {
                Some(l) => exists|i: int|
                    0 <= i < self.moe_layer_indices@.len() && #[trigger] self.moe_layer_indices@[i]
                        == l && l > completed && forall|j: int|
                        0 <= j < i ==> #[trigger] self.moe_layer_indices@[j] <= completed,
                None => forall|j: int|
                    0 <= j < self.moe_layer_indices@.len()
                        ==> #[trigger] self.moe_layer_indices@[j] <= completed,
            },
    {
        next_layer(&self.moe_layer_indices, completed)
    }

    /// Announces the stored results of a layer: hands out what is to be sent and forgets the
    /// announcement.
    pub fn push_stored(&mut self, layer: usize) -> (push: Option<PushBatch<T>>)
        requires
            old(self).wf(),
        ensures
            final(self).wf(),
            final(self).same_model(old(self)),
            final(self).in_flight == old(self).in_flight,
            final(self).hint_for_layer == old(self).hint_for_layer,
            final(self).last_activation == old(self).last_activation,
            final(self).spec_hits == old(self).spec_hits,
            final(self).spec_misses == old(self).spec_misses,
            !old(self).pushed_cache.has(layer) ==> push is None && !final(self).pushed_cache.has(
                layer,
            ),
            old(self).pushed_cache.has(layer) ==> exists|c: SpeculationCache<T>|
                {
                    &&& #[trigger] old(self).pushed_cache.holds(c)
                    &&& c.layer == layer
                    &&& announces(push, c)
                    &&& exists|d: SpeculationCache<T>| #[trigger] final(self).pushed_cache.holds(d)
                        && announced(d, c)
                },
            forall|c: SpeculationCache<T>|
                c.layer != layer ==> (#[trigger] final(self).pushed_cache.holds(c) <==> old(
                    self
                ).pushed_cache.holds(c)),
    {
        match self.pushed_cache.take(layer) {
            None => None,
            Some(cache) => {
                let ghost original = cache;
                let push = announcement(&cache);
                let silent = SpeculationCache {
                    layer: cache.layer,
                    outputs: cache.outputs,
                    push_expert_ids: Vec::new(),
                };
                assert(announced(silent, original));
                self.pushed_cache.put(silent);
                assert(self.pushed_cache.holds(silent));
                push
            },
        }
    }

    /// Stores results that are ready. Those of the announced layer are handed out to be sent and
    /// stored without their announcement.
    pub fn store_ready(&mut self, cache: SpeculationCache<T>, push_layer: Option<usize>) -> (push:
        Option<PushBatch<T>>)
        requires
            old(self).wf(),
        ensures
            final(self).wf(),
            final(self).same_model(old(self)),
            final(self).in_flight@ == without(
                old(self).in_flight@,
                cache.layer,
                old(self).in_flight@.len(),
            ),
            final(self).hint_for_layer == old(self).hint_for_layer,
            final(self).last_activation == old(self).last_activation,
            final(self).spec_hits == old(self).spec_hits,
            final(self).spec_misses == old(self).spec_misses,
            if push_layer == Some(cache.layer) {
                announces(push, cache) && exists|d: SpeculationCache<T>|
                    #[trigger] final(self).pushed_cache.holds(d) && announced(d, cache)
            } else {
                push is None && final(self).pushed_cache.holds(cache)
            },
            forall|c: SpeculationCache<T>|
                c.layer != cache.layer ==> (#[trigger] final(self).pushed_cache.holds(c) <==> old(
                    self
                ).pushed_cache.holds(c)),
    {
        let layer: usize = cache.layer;
        self.in_flight = remove_item(&self.in_flight, layer);
        let announce: bool = match push_layer {
            Some(l) => l == layer,
            None => false,
        };
        if !announce {
            self.pushed_cache.put(cache);
            return None;
        }
        let ghost original = cache;
        let push = announcement(&cache);
        let silent = SpeculationCache {
            layer,
            outputs: cache.outputs,
            push_expert_ids: Vec::new(),
        };
        assert(announced(silent, original));
        self.pushed_cache.put(silent);
        assert(self.pushed_cache.holds(silent));
        push
    }
}

/// Where results computed ahead come from.
pub enum ResultSource<T> {
    Stored(SpeculationCache<T>),
    InFlight,
    Absent,
}

/// Results to be sent unasked.
#[derive(Debug)]
pub struct PushBatch<T> {
    pub layer: usize,
    pub expert_ids: Vec<usize>,
    pub outputs: Vec<Vec<T>>,
}

/// Whether `push` is what a cache announces: the outputs of the experts it names, where it names
/// any and has all of them.
pub open spec fn announces<T: Copy>(
    push: Option<PushBatch<T>>,
    cache: SpeculationCache<T>,
) -> bool {
    let ids = cache.push_expert_ids@;
    match push {
        Some(batch) => ids.len() > 0 && cache.covers(ids) && batch.layer == cache.layer
            && batch.expert_ids@ == ids && deep(batch.outputs@) == cache.outputs_of(ids),
        None => ids.len() == 0 || !cache.covers(ids),
    }
}

/// Whether `after` is a cache whose announcement was made.
pub open spec fn announced<T: Copy>(
    after: SpeculationCache<T>,
    before: SpeculationCache<T>,
) -> bool {
    after.layer == before.layer && after.outputs == before.outputs && after.push_expert_ids@.len()
        == 0
}

/// What a cache announces.
pub fn announcement<T: Copy>(cache: &SpeculationCache<T>) -> (push: Option<PushBatch<T>>)
    ensures
        announces(push, *cache),
{
    if cache.push_expert_ids.is_empty() {
        return None;
    }
    match cache.select(&cache.push_expert_ids) {
        Some(outputs) => Some(
            PushBatch {
                layer: cache.layer,
                expert_ids: crate::values::copy_values(&cache.push_expert_ids),
                outputs,
            },
        ),
        None => None,
    }
}

/// Whether a worker can compute one expert of a request.
pub open spec fn expert_accepted(slots: ExpertSlots, layer: int, expert: usize) -> bool {
    slots.at(layer, expert as int) is Some
}

/// Checks a request and gives the matrices of its experts in order. Where several experts are
/// not held, the failure names the first of them.
pub fn check_request(
    slots: &ExpertSlots,
    own_dim: usize,
    worker: &String,
    layer: usize,
    dim: usize,
    expert_ids: &Vec<usize>,
) -> (result: Result<Vec<WorkerExpertTensors>, WorkerError>)
    requires
        slots.wf(),
    ensures
        if layer >= slots.n_layers {
            result == Err::<Vec<WorkerExpertTensors>, WorkerError>(WorkerError::InvalidLayer(layer))
        } else if dim != own_dim {
            result == Err::<Vec<WorkerExpertTensors>, WorkerError>(
                WorkerError::InvalidDim { dim, own_dim },
            )
        } else {
            match result {
                Ok(tensors) => tensors@.len() == expert_ids@.len() && forall|i: int|
                    0 <= i < expert_ids@.len() ==> slots.at(
                        layer as int,
                        expert_ids@[i] as int,
                    ) == Some(#[trigger] tensors@[i]),
                Err(error) => exists|i: int|
                    {
                        &&& 0 <= i < expert_ids@.len()
                        &&& error == WorkerError::NotAssigned {
                            expert: #[trigger] expert_ids@[i],
                            layer,
                            worker: *worker,
                        }
                        &&& !expert_accepted(*slots, layer as int, expert_ids@[i])
                        &&& forall|j: int|
                            0 <= j < i ==> expert_accepted(
                                *slots,
                                layer as int,
                                #[trigger] expert_ids@[j],
                            )
                    },
            }
        },
{
    if layer >= slots.n_layers {
        return Err(WorkerError::InvalidLayer(layer));
    }
    if dim != own_dim {
        return Err(WorkerError::InvalidDim { dim, own_dim });
    }
    let mut tensors: Vec<WorkerExpertTensors> = Vec::new();
    let mut i: usize = 0;
    while i < expert_ids.len()
        invariant
            i <= expert_ids@.len(),
            slots.wf(),
            layer < slots.n_layers,
            dim == own_dim,
            tensors@.len() == i,
            forall|k: int|
                0 <= k < i ==> slots.at(layer as int, expert_ids@[k] as int) == Some(
                    #[trigger] tensors@[k],
                ),
        decreases expert_ids.len() - i,
    {
        match slots.get(layer, expert_ids[i]) {
            Some(t) => tensors.push(t),
            None => {
                proof {
                    assert forall|j: int| 0 <= j < i implies expert_accepted(
                        *slots,
                        layer as int,
                        #[trigger] expert_ids@[j],
                    ) by {
                        let t = tensors@[j];
                    }
                    assert(!expert_accepted(*slots, layer as int, expert_ids@[i as int]));
                }
                return Err(
                    WorkerError::NotAssigned {
                        expert: expert_ids[i],
                        layer,
                        worker: worker.clone(),
                    },
                );
            },
        }
        i = i + 1;
    }
    Ok(tensors)
}

/// Whether a layer is among the given ones.
pub open spec fn among(layers: Seq<usize>) -> spec_fn(usize) -> bool {
    |layer: usize| layers.contains(layer)
}

/// Whether an item is another one.
pub open spec fn other_than(item: usize) -> spec_fn(usize) -> bool {
    |other: usize| other != item
}

/// Whether a layer is neither in flight nor stored.
pub open spec fn still_open<T: Copy>(in_flight: Seq<usize>, cache: CacheStore<T>) -> spec_fn(
    usize,
) -> bool {
    |layer: usize| !in_flight.contains(layer) && !cache.has(layer)
}

/// Of the layers in flight exactly those among the layers ahead stay in flight, in their order.
pub proof fn layers_in_flight_stay_within_the_window(list: Seq<usize>, layers: Seq<usize>)
    ensures
        restricted(list, layers, list.len()) == list.filter(among(layers)),
{
    lemma_restricted(list, layers, list.len());
    assert(list.take(list.len() as int) =~= list);
}

proof fn lemma_restricted(list: Seq<usize>, layers: Seq<usize>, k: nat)
    requires
        k <= list.len(),
    ensures
        restricted(list, layers, k) == list.take(k as int).filter(among(layers)),
    decreases k,
{
    reveal(Seq::filter);
    if k > 0 {
        lemma_restricted(list, layers, (k - 1) as nat);
        let now = list.take(k as int);
        assert(now.drop_last() =~= list.take(k - 1));
        assert(now.last() == list[k - 1]);
    }
}

/// A list without an item is the list of its other items, in their order.
pub proof fn only_the_item_is_removed(list: Seq<usize>, item: usize)
    ensures
        without(list, item, list.len()) == list.filter(other_than(item)),
        !without(list, item, list.len()).contains(item),
{
    lemma_without(list, item, list.len());
    assert(list.take(list.len() as int) =~= list);
    let rest = without(list, item, list.len());
    if rest.contains(item) {
        broadcast use vstd::seq_lib::group_filter_ensures;

        let i = choose|i: int| 0 <= i < rest.len() && rest[i] == item;
        assert(list.filter(other_than(item)).contains(rest[i]));
        assert(other_than(item)(rest[i]));
    }
}

proof fn lemma_without(list: Seq<usize>, item: usize, k: nat)
    requires
        k <= list.len(),
    ensures
        without(list, item, k) == list.take(k as int).filter(other_than(item)),
    decreases k,
{
    reveal(Seq::filter);
    if k > 0 {
        lemma_without(list, item, (k - 1) as nat);
        let now = list.take(k as int);
        assert(now.drop_last() =~= list.take(k - 1));
        assert(now.last() == list[k - 1]);
    }
}

/// Of the layers ahead exactly those that are neither in flight nor stored become tasks, in their
/// order.
pub proof fn open_layers_become_tasks<T: Copy>(
    in_flight: Seq<usize>,
    cache: CacheStore<T>,
    layers: Seq<usize>,
)
    ensures
        uncovered_layers(in_flight, cache, layers, layers.len()) == layers.filter(
            still_open(in_flight, cache),
        ),
{
    lemma_uncovered(in_flight, cache, layers, layers.len());
    assert(layers.take(layers.len() as int) =~= layers);
}

proof fn lemma_uncovered<T: Copy>(
    in_flight: Seq<usize>,
    cache: CacheStore<T>,
    layers: Seq<usize>,
    k: nat,
)
    requires
        k <= layers.len(),
    ensures
        uncovered_layers(in_flight, cache, layers, k) == layers.take(k as int).filter(
            still_open(in_flight, cache),
        ),
    decreases k,
{
    reveal(Seq::filter);
    if k > 0 {
        lemma_uncovered(in_flight, cache, layers, (k - 1) as nat);
        let now = layers.take(k as int);
        assert(now.drop_last() =~= layers.take(k - 1));
        assert(now.last() == layers[k - 1]);
    }
}

/// A task follows the coordinator's prediction where that names experts and is for its layer, the
/// first one ahead; it then holds exactly the named experts that the worker holds, in their order.
/// Any other task leaves the prediction to the worker.
pub proof fn predictions_are_for_the_first_layer(
    task: SpeculationTask,
    slots: ExpertSlots,
    hint: Option<(usize, Seq<usize>)>,
    layers: Seq<usize>,
    layer: usize,
)
    requires
        layers.len() > 0,
        task_for(task, slots, used_hint(hint, layers), layer),
    ensures
        task.layer == layer,
        match task.prediction {
            Prediction::Hinted(ids) => hint matches Some((hinted, named)) && hinted == layer
                && layers[0] == layer && named.len() > 0 && ids@ == named.filter(
                crate::distributed::speculation::held_by(slots, layer),
            ),
            Prediction::OwnRouting => hint matches Some((hinted, named)) ==> hinted != layer
                || layers[0] != layer || named.len() == 0,
        },
{
    if let Some((hinted, named)) = hint {
        crate::distributed::speculation::held_experts_keep_their_order(
            slots,
            layer,
            named,
            named.len(),
        );
        assert(named.take(named.len() as int) =~= named);
    }
}

/// What is announced are the latest outputs of the experts that the results name; nothing is
/// announced only where they name none or lack the output of one.
pub proof fn announcements_hold_the_named_outputs<T: Copy>(
    push: Option<PushBatch<T>>,
    cache: SpeculationCache<T>,
)
    requires
        announces(push, cache),
    ensures
        push matches Some(batch) ==> {
            &&& batch.layer == cache.layer
            &&& batch.expert_ids@ == cache.push_expert_ids@
            &&& batch.outputs@.len() == cache.push_expert_ids@.len() > 0
            &&& forall|i: int|
                0 <= i < batch.outputs@.len() ==> cache.output(cache.push_expert_ids@[i]) == Some(
                    (#[trigger] batch.outputs@[i])@,
                )
        },
        push is None ==> cache.push_expert_ids@.len() == 0 || exists|i: int|
            0 <= i < cache.push_expert_ids@.len() && cache.output(
                #[trigger] cache.push_expert_ids@[i],
            ) is None,
{
    if let Some(batch) = push {
        let ids = cache.push_expert_ids@;
        assert(deep(batch.outputs@).len() == ids.len());
        assert forall|i: int| 0 <= i < batch.outputs@.len() implies cache.output(ids[i]) == Some(
            (#[trigger] batch.outputs@[i])@,
        ) by {
            assert(deep(batch.outputs@)[i] == batch.outputs@[i]@);
            assert(cache.output(ids[i]) is Some);
        }
    }
}

/// A session is ended by a shutdown and by whatever it cannot go on after; a recurrent request
/// without recurrent tensors and an unreadable advance are answered with an error instead.
pub proof fn sessions_end_by_shutdown_or_failure(
    kind: FrameKind,
    payload: Seq<u8>,
    has_recurrent: bool,
    action: SessionAction,
)
    requires
        asks_for(kind, payload, has_recurrent, action),
    ensures
        action is Stop <==> kind == FrameKind::Shutdown,
        action is ServeExperts <==> kind == FrameKind::ExpertBatchRequest && decoded_request(
            payload,
        ) is Ok,
        action is Advance <==> kind == FrameKind::SpeculationAdvance && decoded_advance(payload)
            is Ok,
        action is ServeRecurrent <==> kind == FrameKind::SsmLayerRequest && has_recurrent
            && decoded_vector(payload, ProtocolError::TruncatedSsmRequest) is Ok,
        action is ReplyError <==> (kind == FrameKind::SpeculationAdvance && decoded_advance(payload)
            is Err) || (kind == FrameKind::SsmLayerRequest && !has_recurrent),
{
}

} // verus!
