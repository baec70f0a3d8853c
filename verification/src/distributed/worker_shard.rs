//! What a worker makes of its shard: expert slots, recurrent layers and routing tensors.
use crate::distributed::control::{HelloFrame, ReadyFrame, ReadyView};
use crate::distributed::protocol::{FrameKind, ProtocolError};
use crate::distributed::resources::NodeResourceSnapshot;
use crate::distributed::shard::{ModelShardHeaderFrame, ModelShardHeaderView, ShardTensorEntry};
use crate::gguf::QuantizedTensor;
use crate::text::{decimal, Text};
use vstd::prelude::*;
use vstd::string::*;

verus! {

broadcast use crate::bytes::group_little_endian;

/// Shard entry kind of the routing projection of a layer.
pub const SHARD_KIND_GATE_INP: u8 = 9;

/// The matrix of an entry.
pub open spec fn entry_tensor(entry: ShardTensorEntry) -> QuantizedTensor {
    QuantizedTensor {
        data_offset: entry.byte_offset as usize,
        ttype: entry.ttype,
        rows: entry.rows,
        cols: entry.cols,
    }
}

fn tensor_of(entry: &ShardTensorEntry) -> (tensor: QuantizedTensor)
    ensures
        tensor == entry_tensor(*entry),
{
    QuantizedTensor {
        data_offset: #[verifier::truncate]
        (entry.byte_offset as usize),
        ttype: entry.ttype,
        rows: entry.rows,
        cols: entry.cols,
    }
}

/// The three matrices of an expert.
#[derive(Clone, Copy, Debug, PartialEq, Eq, Structural)]
pub struct WorkerExpertTensors {
    pub gate: QuantizedTensor,
    pub up: QuantizedTensor,
    pub down: QuantizedTensor,
}

/// Which matrix of an expert or a recurrent layer is missing.
#[derive(Clone, Copy, Debug, PartialEq, Eq, Structural)]
pub enum MissingTensor {
    Gate,
    Up,
    Down,
}

/// Which part of a recurrent layer is missing.
#[derive(Clone, Copy, Debug, PartialEq, Eq, Structural)]
pub enum MissingRecurrent {
    QkvIn,
    Gate,
    OutProj,
    FloatPayload,
}

/// Why a worker cannot serve.
#[derive(Debug)]
pub enum WorkerError {
    WrongTarget { targeted: String, own: String },
    ExpectedShardHeader(FrameKind),
    Protocol(ProtocolError),
    DimensionMismatch,
    MissingExpertTensor { kind: MissingTensor, layer: usize, expert: usize },
    MissingRecurrentPart { part: MissingRecurrent, layer: usize },
    TruncatedPayloadCount,
    PayloadOverflow,
    TruncatedPayloadValues,
    InvalidLayer(usize),
    InvalidDim { dim: usize, own_dim: usize },
    NotAssigned { expert: usize, layer: usize, worker: String },
    SsmLayerRange { layer: usize, n_layers: usize },
    SsmLayerEmpty(usize),
    SsmAlphaMissing(usize),
    SsmBetaMissing(usize),
    NoSsmSession,
    CoordinatorReported(String),
    UnexpectedFrame(FrameKind),
    UnexpectedFirstFrame(FrameKind),
}

impl WorkerError {
    /// The message text of the error.
    pub open spec fn text(self) -> Seq<char> {
        match self {
            WorkerError::WrongTarget { targeted, own } => "coordinator targeted worker '"@
                + targeted@ + "' but this worker is '"@ + own@ + "'"@,
            WorkerError::ExpectedShardHeader(kind) => "expected ModelShardHeader frame, got "@
                + kind.name_text(),
            WorkerError::Protocol(error) => error.text(),
            WorkerError::DimensionMismatch =>
                "shard header dimensions do not match coordinator HELLO"@,
            WorkerError::MissingExpertTensor { kind, layer, expert } => (match kind {
                MissingTensor::Gate => "missing gate for layer "@,
                MissingTensor::Up => "missing up for layer "@,
                MissingTensor::Down => "missing down for layer "@,
            }) + decimal(layer as nat) + " expert "@ + decimal(expert as nat),
            WorkerError::MissingRecurrentPart { part, layer } => "SSM layer "@ + decimal(
                layer as nat,
            ) + (match part {
                MissingRecurrent::QkvIn => ": missing qkv_in tensor"@,
                MissingRecurrent::Gate => ": missing gate tensor"@,
                MissingRecurrent::OutProj => ": missing out_proj tensor"@,
                MissingRecurrent::FloatPayload => ": missing float payload"@,
            }),
            WorkerError::TruncatedPayloadCount => "truncated u32 in float payload"@,
            WorkerError::PayloadOverflow => "float payload overflow"@,
            WorkerError::TruncatedPayloadValues => "truncated f32s in float payload"@,
            WorkerError::InvalidLayer(layer) => "invalid layer "@ + decimal(layer as nat)
                + " for worker request"@,
            WorkerError::InvalidDim { dim, own_dim } => "invalid activation dim "@ + decimal(
                dim as nat,
            ) + " for worker request, expected "@ + decimal(own_dim as nat),
            WorkerError::NotAssigned { expert, layer, worker } => "expert "@ + decimal(
                expert as nat,
            ) + " in layer "@ + decimal(layer as nat) + " is not assigned to worker '"@ + worker@
                + "'"@,
            WorkerError::SsmLayerRange { layer, n_layers } => "SSM layer "@ + decimal(layer as nat)
                + " out of range (n_layers="@ + decimal(n_layers as nat) + ")"@,
            WorkerError::SsmLayerEmpty(layer) => "SSM layer "@ + decimal(layer as nat)
                + " has no weights on this worker"@,
            WorkerError::SsmAlphaMissing(layer) => "SSM layer "@ + decimal(layer as nat)
                + ": missing alpha tensor"@,
            WorkerError::SsmBetaMissing(layer) => "SSM layer "@ + decimal(layer as nat)
                + ": missing beta tensor"@,
            WorkerError::NoSsmSession => "worker has no SSM session"@,
            WorkerError::CoordinatorReported(reason) => "worker received coordinator error: "@
                + reason@,
            WorkerError::UnexpectedFrame(kind) => "worker received unexpected frame "@
                + kind.name_text(),
            WorkerError::UnexpectedFirstFrame(kind) =>
                "worker expected DISCOVER_REQUEST or HELLO as first distributed frame, got "@
                    + kind.name_text(),
        }
    }

    /// The message text of the error.
    pub fn message(&self) -> (message: String)
        ensures
            message@ == self.text(),
    {
        match self {
            WorkerError::WrongTarget { targeted, own } => Text::start(
                "coordinator targeted worker '",
            ).text(targeted.as_str()).text("' but this worker is '").text(own.as_str()).text(
                "'",
            ).finish(),
            WorkerError::ExpectedShardHeader(kind) => Text::start(
                "expected ModelShardHeader frame, got ",
            ).text(kind.name()).finish(),
            WorkerError::Protocol(error) => error.message(),
            WorkerError::DimensionMismatch => Text::start(
                "shard header dimensions do not match coordinator HELLO",
            ).finish(),
            WorkerError::MissingExpertTensor { kind, layer, expert } => (match kind {
                MissingTensor::Gate => Text::start("missing gate for layer "),
                MissingTensor::Up => Text::start("missing up for layer "),
                MissingTensor::Down => Text::start("missing down for layer "),
            }).size(*layer).text(" expert ").size(*expert).finish(),
            WorkerError::MissingRecurrentPart { part, layer } => Text::start("SSM layer ").size(
                *layer,
            ).text(
                match part {
                    MissingRecurrent::QkvIn => ": missing qkv_in tensor",
                    MissingRecurrent::Gate => ": missing gate tensor",
                    MissingRecurrent::OutProj => ": missing out_proj tensor",
                    MissingRecurrent::FloatPayload => ": missing float payload",
                },
            ).finish(),
            WorkerError::TruncatedPayloadCount => Text::start(
                "truncated u32 in float payload",
            ).finish(),
            WorkerError::PayloadOverflow => Text::start("float payload overflow").finish(),
            WorkerError::TruncatedPayloadValues => Text::start(
                "truncated f32s in float payload",
            ).finish(),
            WorkerError::InvalidLayer(layer) => Text::start("invalid layer ").size(*layer).text(
                " for worker request",
            ).finish(),
            WorkerError::InvalidDim { dim, own_dim } => Text::start(
                "invalid activation dim ",
            ).size(*dim).text(" for worker request, expected ").size(*own_dim).finish(),
            WorkerError::NotAssigned { expert, layer, worker } => Text::start("expert ").size(
                *expert,
            ).text(" in layer ").size(*layer).text(" is not assigned to worker '").text(
                worker.as_str(),
            ).text("'").finish(),
            WorkerError::SsmLayerRange { layer, n_layers } => Text::start("SSM layer ").size(
                *layer,
            ).text(" out of range (n_layers=").size(*n_layers).text(")").finish(),
            WorkerError::SsmLayerEmpty(layer) => Text::start("SSM layer ").size(*layer).text(
                " has no weights on this worker",
            ).finish(),
            WorkerError::SsmAlphaMissing(layer) => Text::start("SSM layer ").size(*layer).text(
                ": missing alpha tensor",
            ).finish(),
            WorkerError::SsmBetaMissing(layer) => Text::start("SSM layer ").size(*layer).text(
                ": missing beta tensor",
            ).finish(),
            WorkerError::NoSsmSession => Text::start("worker has no SSM session").finish(),
            WorkerError::CoordinatorReported(reason) => Text::start(
                "worker received coordinator error: ",
            ).text(reason.as_str()).finish(),
            WorkerError::UnexpectedFrame(kind) => Text::start(
                "worker received unexpected frame ",
            ).text(kind.name()).finish(),
            WorkerError::UnexpectedFirstFrame(kind) => Text::start(
                "worker expected DISCOVER_REQUEST or HELLO as first distributed frame, got ",
            ).text(kind.name()).finish(),
        }
    }
}

/// Checks that a greeting is meant for this worker.
pub fn check_target(hello: &HelloFrame, bind_address: &String) -> (result: Result<(), WorkerError>)
    ensures
        if hello.node_address@ == bind_address@ {
            result is Ok
        } else {
            result == Err::<(), WorkerError>(
                WorkerError::WrongTarget { targeted: hello.node_address, own: *bind_address },
            )
        },
{
    if hello.node_address != *bind_address {
        return Err(
            WorkerError::WrongTarget {
                targeted: hello.node_address.clone(),
                own: bind_address.clone(),
            },
        );
    }
    Ok(())
}

/// Checks that a shard header has the dimensions of the greeting.
pub fn check_header(hello: &HelloFrame, header: &ModelShardHeaderFrame) -> (result: Result<
    (),
    WorkerError,
>)
    ensures
        result == if header.dim != hello.dim || header.n_layers != hello.n_layers
            || header.n_experts != hello.n_experts {
            Err::<(), WorkerError>(WorkerError::DimensionMismatch)
        } else {
            Ok(())
        },
{
    if header.dim != hello.dim || header.n_layers != hello.n_layers || header.n_experts
        != hello.n_experts {
        return Err(WorkerError::DimensionMismatch);
    }
    Ok(())
}

/// The last of the first `k` entries with the given place and kind.
pub open spec fn last_entry(
    entries: Seq<ShardTensorEntry>,
    layer: int,
    expert: int,
    kind: int,
    k: nat,
) -> Option<QuantizedTensor>
    decreases k,
{
    if k == 0 {
        None
    } else {
        let e = entries[k - 1];
        if e.layer == layer && e.expert_idx == expert && e.kind == kind {
            Some(entry_tensor(e))
        } else {
            last_entry(entries, layer, expert, kind, (k - 1) as nat)
        }
    }
}

/// The matrices that the first `k` entries give an expert.
#[derive(Clone, Copy, Debug, PartialEq, Eq, Structural)]
pub struct ExpertParts {
    pub gate: Option<QuantizedTensor>,
    pub up: Option<QuantizedTensor>,
    pub down: Option<QuantizedTensor>,
}

/// The matrices that the first `k` entries give an expert.
pub open spec fn parts_of(
    entries: Seq<ShardTensorEntry>,
    layer: int,
    expert: int,
    k: nat,
) -> ExpertParts {
    ExpertParts {
        gate: last_entry(entries, layer, expert, 0, k),
        up: last_entry(entries, layer, expert, 1, k),
        down: last_entry(entries, layer, expert, 2, k),
    }
}

impl ExpertParts {
    /// Whether no entry names the expert.
    pub open spec fn unnamed(self) -> bool {
        self.gate is None && self.up is None && self.down is None
    }

    /// The first matrix that is missing.
    pub open spec fn missing(self) -> Option<MissingTensor> {
        if self.gate is None {
            Some(MissingTensor::Gate)
        } else if self.up is None {
            Some(MissingTensor::Up)
        } else if self.down is None {
            Some(MissingTensor::Down)
        } else {
            None
        }
    }

    /// The slot of the expert.
    pub open spec fn slot(self) -> Option<WorkerExpertTensors> {
        if self.unnamed() {
            None
        } else {
            Some(
                WorkerExpertTensors { gate: self.gate->0, up: self.up->0, down: self.down->0 },
            )
        }
    }
}

/// The experts of a worker.
#[derive(Debug)]
pub struct ExpertSlots {
    /// The matrices of expert `e` of layer `l`, at index `l * n_experts + e`.
    pub slots: Vec<Option<WorkerExpertTensors>>,
    pub n_layers: usize,
    pub n_experts: usize,
}

impl ExpertSlots {
    /// The place of an expert is within the table.
    pub open spec fn wf(&self) -> bool {
        self.slots@.len() == self.n_layers * self.n_experts
    }

    /// The matrices of an expert, where the worker holds it.
    pub open spec fn at(&self, layer: int, expert: int) -> Option<WorkerExpertTensors> {
        if 0 <= layer < self.n_layers && 0 <= expert < self.n_experts {
            self.slots@[layer * self.n_experts + expert]
        } else {
            None
        }
    }

    /// The matrices of an expert, where the worker holds it.
    pub fn get(&self, layer: usize, expert: usize) -> (slot: Option<WorkerExpertTensors>)
        requires
            self.wf(),
        ensures
            slot == self.at(layer as int, expert as int),
    {
        if layer < self.n_layers && expert < self.n_experts {
            proof {
                lemma_place(
                    layer as int,
                    self.n_layers as int,
                    expert as int,
                    self.n_experts as int,
                );
                assert(self.slots@.len() == self.slots.len());
            }
            self.slots[layer * self.n_experts + expert]
        } else {
            None
        }
    }
}

proof fn lemma_place(layer: int, n_layers: int, expert: int, n_experts: int)
    requires
        0 <= layer < n_layers,
        0 <= expert < n_experts,
    ensures
        0 <= layer * n_experts,
        layer * n_experts + expert < n_layers * n_experts,
{
    assert(layer * n_experts + n_experts == (layer + 1) * n_experts) by (nonlinear_arith);
    assert((layer + 1) * n_experts <= n_layers * n_experts) by (nonlinear_arith)
        requires
            layer + 1 <= n_layers,
            n_experts >= 0,
    ;
    assert(0 <= layer * n_experts) by (nonlinear_arith)
        requires
            layer >= 0,
            n_experts >= 0,
    ;
}

proof fn lemma_same_place(l1: int, e1: int, l2: int, e2: int, n: int)
    requires
        0 <= e1 < n,
        0 <= e2 < n,
        l1 * n + e1 == l2 * n + e2,
    ensures
        l1 == l2,
        e1 == e2,
{
    assert(l1 == l2) by (nonlinear_arith)
        requires
            0 <= e1 < n,
            0 <= e2 < n,
            l1 * n + e1 == l2 * n + e2,
    ;
}

/// Whether every entry of an expert names an expert of the model.
pub open spec fn entries_in_range(header: ModelShardHeaderView) -> bool {
    forall|i: int|
        0 <= i < header.entries.len() && (#[trigger] header.entries[i]).kind <= 2
            ==> header.entries[i].layer < header.n_layers && header.entries[i].expert_idx
            < header.n_experts
}

/// Whether every expert that has all its matrices is one of the model.
pub open spec fn whole_experts_in_range(header: ModelShardHeaderView) -> bool {
    forall|i: int|
        0 <= i < header.entries.len() && (#[trigger] header.entries[i]).kind <= 2 ==> {
            let entry = header.entries[i];
            ||| entry.layer < header.n_layers && entry.expert_idx < header.n_experts
            ||| parts_of(
                header.entries,
                entry.layer as int,
                entry.expert_idx as int,
                header.entries.len(),
            ).missing() is Some
        }
}

/// Whether an error names an expert of which a shard lacks a part.
pub open spec fn names_missing_expert(header: ModelShardHeaderView, error: WorkerError) -> bool {
    error matches WorkerError::MissingExpertTensor { kind, layer, expert } && {
        let parts = parts_of(header.entries, layer as int, expert as int, header.entries.len());
        !parts.unnamed() && parts.missing() == Some(kind)
    }
}

fn find_entry(entries: &Vec<ShardTensorEntry>, layer: usize, expert: usize, kind: u8) -> (found:
    Option<QuantizedTensor>)
    ensures
        found == last_entry(
            entries@,
            layer as int,
            expert as int,
            kind as int,
            entries@.len(),
        ),
{
    let mut k: usize = entries.len();
    while k > 0
        invariant
            k <= entries@.len(),
            last_entry(entries@, layer as int, expert as int, kind as int, entries@.len())
                == last_entry(entries@, layer as int, expert as int, kind as int, k as nat),
        decreases k,
    {
        let entry = &entries[k - 1];
        if entry.layer == layer && entry.expert_idx == expert && entry.kind == kind {
            return Some(tensor_of(entry));
        }
        k = k - 1;
    }
    None
}

proof fn lemma_entry_is_found(
    entries: Seq<ShardTensorEntry>,
    layer: int,
    expert: int,
    kind: int,
    i: int,
    k: nat,
)
    requires
        0 <= i < k <= entries.len(),
        entries[i].layer == layer,
        entries[i].expert_idx == expert,
        entries[i].kind == kind,
    ensures
        last_entry(entries, layer, expert, kind, k) is Some,
    decreases k,
{
    if i < k - 1 {
        lemma_entry_is_found(entries, layer, expert, kind, i, (k - 1) as nat);
    }
}

proof fn lemma_found_entry(
    entries: Seq<ShardTensorEntry>,
    layer: int,
    expert: int,
    kind: int,
    k: nat,
) -> (i: int)
    requires
        k <= entries.len(),
        last_entry(entries, layer, expert, kind, k) is Some,
    ensures
        0 <= i < k,
        entries[i].layer == layer,
        entries[i].expert_idx == expert,
        entries[i].kind == kind,
    decreases k,
{
    let e = entries[k - 1];
    if e.layer == layer && e.expert_idx == expert && e.kind == kind {
        k - 1
    } else {
        lemma_found_entry(entries, layer, expert, kind, (k - 1) as nat)
    }
}

proof fn lemma_unnamed_outside(header: ModelShardHeaderView, layer: int, expert: int)
    requires
        entries_in_range(header),
        !(0 <= layer < header.n_layers && 0 <= expert < header.n_experts),
    ensures
        parts_of(header.entries, layer, expert, header.entries.len()).unnamed(),
{
    let count = header.entries.len();
    if last_entry(header.entries, layer, expert, 0, count) is Some {
        let i = lemma_found_entry(header.entries, layer, expert, 0, count);
        assert(header.entries[i].kind <= 2);
    }
    if last_entry(header.entries, layer, expert, 1, count) is Some {
        let i = lemma_found_entry(header.entries, layer, expert, 1, count);
        assert(header.entries[i].kind <= 2);
    }
    if last_entry(header.entries, layer, expert, 2, count) is Some {
        let i = lemma_found_entry(header.entries, layer, expert, 2, count);
        assert(header.entries[i].kind <= 2);
    }
}

/// Checks that every expert that an entry names is one of the model; of one that is not, a
/// matrix is missing.
fn check_range(header: &ModelShardHeaderFrame) -> (result: Result<(), WorkerError>)
    requires
        whole_experts_in_range(header@),
    ensures
        match result {
            Ok(_) => entries_in_range(header@),
            Err(error) => names_missing_expert(header@, error),
        },
{
    let mut k: usize = 0;
    while k < header.entries.len()
        invariant
            k <= header.entries@.len(),
            whole_experts_in_range(header@),
            forall|i: int|
                0 <= i < k && (#[trigger] header@.entries[i]).kind <= 2
                    ==> header@.entries[i].layer < header.n_layers && header@.entries[i].expert_idx
                    < header.n_experts,
        decreases header.entries.len() - k,
    {
        let entry = &header.entries[k];
        let layer: usize = entry.layer;
        let expert: usize = entry.expert_idx;
        if entry.kind <= 2 && (layer >= header.n_layers || expert >= header.n_experts) {
            let gate = find_entry(&header.entries, layer, expert, 0);
            let up = find_entry(&header.entries, layer, expert, 1);
            proof {
                assert(header@.entries[k as int].kind <= 2);
                lemma_entry_is_found(
                    header@.entries,
                    layer as int,
                    expert as int,
                    entry.kind as int,
                    k as int,
                    header@.entries.len(),
                );
            }
            let kind = if gate.is_none() {
                MissingTensor::Gate
            } else if up.is_none() {
                MissingTensor::Up
            } else {
                MissingTensor::Down
            };
            return Err(WorkerError::MissingExpertTensor { kind, layer, expert });
        }
        k = k + 1;
    }
    Ok(())
}

/// Whether `parts` holds, for each expert, what the first `k` entries give it.
pub open spec fn holds_parts(
    parts: Seq<ExpertParts>,
    header: ModelShardHeaderView,
    k: nat,
) -> bool {
    &&& parts.len() == header.n_layers * header.n_experts
    &&& forall|l: int, e: int|
        #![trigger parts[l * header.n_experts + e]]
        0 <= l < header.n_layers && 0 <= e < header.n_experts ==> parts[l * header.n_experts + e]
            == parts_of(header.entries, l, e, k)
}

fn collect_parts(header: &ModelShardHeaderFrame) -> (parts: Vec<ExpertParts>)
    requires
        header.n_layers * header.n_experts <= usize::MAX,
        entries_in_range(header@),
    ensures
        holds_parts(parts@, header@, header.entries@.len()),
{
    let total: usize = header.n_layers * header.n_experts;
    let empty = ExpertParts { gate: None, up: None, down: None };
    let mut parts: Vec<ExpertParts> = Vec::new();
    while parts.len() < total
        invariant
            parts@.len() <= total,
            empty == (ExpertParts { gate: None, up: None, down: None }),
            forall|i: int| 0 <= i < parts@.len() ==> #[trigger] parts@[i] == empty,
        decreases total - parts.len(),
    {
        parts.push(empty);
    }
    proof {
        assert forall|l: int, e: int|
            #![trigger parts@[l * header.n_experts + e]]
            0 <= l < header.n_layers && 0 <= e < header.n_experts implies parts@[l
            * header.n_experts + e] == parts_of(header@.entries, l, e, 0) by {
            lemma_place(l, header.n_layers as int, e, header.n_experts as int);
        }
    }
    let mut k: usize = 0;
    while k < header.entries.len()
        invariant
            k <= header.entries@.len(),
            header.n_layers * header.n_experts <= usize::MAX,
            entries_in_range(header@),
            holds_parts(parts@, header@, k as nat),
        decreases header.entries.len() - k,
    {
        let entry = &header.entries[k];
        if entry.kind <= 2 {
            assert(header@.entries[k as int].layer < header.n_layers);
            proof {
                lemma_place(
                    entry.layer as int,
                    header.n_layers as int,
                    entry.expert_idx as int,
                    header.n_experts as int,
                );
            }
            let place: usize = entry.layer * header.n_experts + entry.expert_idx;
            let old_parts = parts[place];
            let tensor = tensor_of(entry);
            let new_parts = if entry.kind == 0 {
                ExpertParts { gate: Some(tensor), up: old_parts.up, down: old_parts.down }
            } else if entry.kind == 1 {
                ExpertParts { gate: old_parts.gate, up: Some(tensor), down: old_parts.down }
            } else {
                ExpertParts { gate: old_parts.gate, up: old_parts.up, down: Some(tensor) }
            };
            let ghost before = parts@;
            parts.set(place, new_parts);
            proof {
                assert forall|l: int, e: int|
                    #![trigger parts@[l * header.n_experts + e]]
                    0 <= l < header.n_layers && 0 <= e < header.n_experts implies parts@[l
                    * header.n_experts + e] == parts_of(header@.entries, l, e, (k + 1) as nat) by {
                    lemma_place(l, header.n_layers as int, e, header.n_experts as int);
                    assert(before[l * header.n_experts + e] == parts_of(
                        header@.entries,
                        l,
                        e,
                        k as nat,
                    ));
                    if l * header.n_experts + e == place {
                        lemma_same_place(
                            l,
                            e,
                            entry.layer as int,
                            entry.expert_idx as int,
                            header.n_experts as int,
                        );
                    }
                }
            }
        } else {
            proof {
                assert forall|l: int, e: int|
                    #![trigger parts@[l * header.n_experts + e]]
                    0 <= l < header.n_layers && 0 <= e < header.n_experts implies parts@[l
                    * header.n_experts + e] == parts_of(header@.entries, l, e, (k + 1) as nat) by {
                    assert(parts@[l * header.n_experts + e] == parts_of(
                        header@.entries,
                        l,
                        e,
                        k as nat,
                    ));
                }
            }
        }
        k = k + 1;
    }
    parts
}

/// Whether every expert that an entry names has all its matrices.
pub open spec fn experts_complete(header: ModelShardHeaderView) -> bool {
    forall|l: int, e: int| {
        let parts = #[trigger] parts_of(header.entries, l, e, header.entries.len());
        parts.unnamed() || parts.missing() is None
    }
}

/// Whether `slots` are those of the first experts of `parts`, all of them complete.
pub open spec fn slots_follow(
    slots: Seq<Option<WorkerExpertTensors>>,
    parts: Seq<ExpertParts>,
) -> bool {
    forall|i: int|
        0 <= i < slots.len() ==> (#[trigger] slots[i]) == parts[i].slot() && (parts[i].unnamed()
            || parts[i].missing() is None)
}

/// Builds the expert slots of a worker: an expert is held exactly where an entry names it, with
/// the last entry of each kind. Where several experts lack a matrix, the failure names one of
/// them.
pub fn build_expert_slots(header: &ModelShardHeaderFrame) -> (result: Result<
    ExpertSlots,
    WorkerError,
>)
    requires
        header.n_layers * header.n_experts <= usize::MAX,
        whole_experts_in_range(header@),
    ensures
        match result {
            Ok(slots) => {
                &&& experts_complete(header@)
                &&& slots.wf()
                &&& slots.n_layers == header.n_layers
                &&& slots.n_experts == header.n_experts
                &&& forall|l: int, e: int|
                    0 <= l < header.n_layers && 0 <= e < header.n_experts ==> #[trigger] slots.at(
                        l,
                        e,
                    ) == parts_of(header.entries@, l, e, header.entries@.len()).slot()
            },
            Err(error) => names_missing_expert(header@, error),
        },
{
    match check_range(header) {
        Ok(_) => {},
        Err(error) => return Err(error),
    }
    let parts = collect_parts(header);
    let n: usize = header.n_experts;
    let mut slots: Vec<Option<WorkerExpertTensors>> = Vec::new();
    let mut layer: usize = 0;
    let ghost all = parts@;
    let ghost count = header.entries@.len();
    assert(0 * n == 0) by (nonlinear_arith);
    while layer < header.n_layers
        invariant
            layer <= header.n_layers,
            n == header.n_experts,
            header.n_layers * header.n_experts <= usize::MAX,
            all == parts@,
            count == header.entries@.len(),
            holds_parts(all, header@, count),
            slots@.len() == layer * n,
            slots_follow(slots@, all),
        decreases header.n_layers - layer,
    {
        let mut expert: usize = 0;
        while expert < n
            invariant
                expert <= n,
                layer < header.n_layers,
                n == header.n_experts,
                header.n_layers * header.n_experts <= usize::MAX,
                all == parts@,
                count == header.entries@.len(),
                holds_parts(all, header@, count),
                slots@.len() == layer * n + expert,
                slots_follow(slots@, all),
            decreases n - expert,
        {
            proof {
                lemma_place(
                    layer as int,
                    header.n_layers as int,
                    expert as int,
                    header.n_experts as int,
                );
                assert(all[layer * header.n_experts + expert] == parts_of(
                    header@.entries,
                    layer as int,
                    expert as int,
                    count,
                ));
            }
            let p = parts[layer * n + expert];
            match (p.gate, p.up, p.down) {
                (None, None, None) => slots.push(None),
                (Some(gate), Some(up), Some(down)) => slots.push(
                    Some(WorkerExpertTensors { gate, up, down }),
                ),
                (None, _, _) => return Err(
                    WorkerError::MissingExpertTensor { kind: MissingTensor::Gate, layer, expert },
                ),
                (_, None, _) => return Err(
                    WorkerError::MissingExpertTensor { kind: MissingTensor::Up, layer, expert },
                ),
                (_, _, None) => return Err(
                    WorkerError::MissingExpertTensor { kind: MissingTensor::Down, layer, expert },
                ),
            }
            expert = expert + 1;
        }
        assert((layer + 1) * n == layer * n + n) by (nonlinear_arith);
        layer = layer + 1;
    }
    let result = ExpertSlots { slots, n_layers: header.n_layers, n_experts: n };
    proof {
        assert forall|l: int, e: int|
            0 <= l < header.n_layers && 0 <= e < header.n_experts implies #[trigger] result.at(l, e)
            == parts_of(header@.entries, l, e, count).slot() by {
            lemma_place(l, header.n_layers as int, e, header.n_experts as int);
            assert(all[l * header.n_experts + e] == parts_of(header@.entries, l, e, count));
        }
        assert forall|l: int, e: int| ({
            let parts = #[trigger] parts_of(header@.entries, l, e, count);
            parts.unnamed() || parts.missing() is None
        }) by {
            if 0 <= l < header.n_layers && 0 <= e < header.n_experts {
                lemma_place(l, header.n_layers as int, e, header.n_experts as int);
                assert(all[l * header.n_experts + e] == parts_of(header@.entries, l, e, count));
                assert(result.slots@[l * header.n_experts + e] == all[l * header.n_experts
                    + e].slot());
            } else {
                lemma_unnamed_outside(header@, l, e);
            }
        }
    }
    Ok(result)
}

/// The last of the first `k` entries of a layer with the given kind.
pub open spec fn last_of_layer(
    entries: Seq<ShardTensorEntry>,
    layer: int,
    kind: int,
    k: nat,
) -> Option<QuantizedTensor>
    decreases k,
{
    if k == 0 {
        None
    } else {
        let e = entries[k - 1];
        if e.layer == layer && e.kind == kind {
            Some(entry_tensor(e))
        } else {
            last_of_layer(entries, layer, kind, (k - 1) as nat)
        }
    }
}

/// The last tensor of a layer and kind.
pub fn find_last_of_layer(entries: &Vec<ShardTensorEntry>, layer: usize, kind: u8) -> (found: Option<
    QuantizedTensor,
>)
    ensures
        found == last_of_layer(entries@, layer as int, kind as int, entries@.len()),
{
    let mut k: usize = entries.len();
    while k > 0
        invariant
            k <= entries@.len(),
            last_of_layer(entries@, layer as int, kind as int, entries@.len()) == last_of_layer(
                entries@,
                layer as int,
                kind as int,
                k as nat,
            ),
        decreases k,
    {
        let entry = &entries[k - 1];
        if entry.layer == layer && entry.kind == kind {
            return Some(tensor_of(entry));
        }
        k = k - 1;
    }
    None
}

/// The routing projection of every layer: the last entry that names it.
pub fn build_gate_layers(header: &ModelShardHeaderFrame) -> (layers: Vec<Option<QuantizedTensor>>)
    ensures
        layers@.len() == header.n_layers,
        forall|l: int|
            0 <= l < header.n_layers ==> #[trigger] layers@[l] == last_of_layer(
                header.entries@,
                l,
                SHARD_KIND_GATE_INP as int,
                header.entries@.len(),
            ),
{
    let mut layers: Vec<Option<QuantizedTensor>> = Vec::new();
    while layers.len() < header.n_layers
        invariant
            layers@.len() <= header.n_layers,
            forall|l: int|
                0 <= l < layers@.len() ==> #[trigger] layers@[l] == last_of_layer(
                    header.entries@,
                    l,
                    SHARD_KIND_GATE_INP as int,
                    header.entries@.len(),
                ),
        decreases header.n_layers - layers.len(),
    {
        let layer: usize = layers.len();
        layers.push(find_last_of_layer(&header.entries, layer, SHARD_KIND_GATE_INP));
    }
    layers
}

/// The layers with a routing projection, in ascending order.
pub open spec fn routed_layers(layers: Seq<Option<QuantizedTensor>>, k: nat) -> Seq<usize>
    decreases k,
{
    if k == 0 {
        Seq::empty()
    } else {
        let front = routed_layers(layers, (k - 1) as nat);
        if layers[k - 1] is Some {
            front.push((k - 1) as usize)
        } else {
            front
        }
    }
}

/// The layers with a routing projection, in ascending order.
pub fn moe_layer_indices(layers: &Vec<Option<QuantizedTensor>>) -> (indices: Vec<usize>)
    ensures
        indices@ == routed_layers(layers@, layers@.len()),
{
    let mut indices: Vec<usize> = Vec::new();
    let mut l: usize = 0;
    while l < layers.len()
        invariant
            l <= layers@.len(),
            indices@ == routed_layers(layers@, l as nat),
        decreases layers.len() - l,
    {
        if layers[l].is_some() {
            indices.push(l);
        }
        l = l + 1;
    }
    indices
}

/// The readiness answer of a worker.
pub fn ready_frame(
    bind_address: &String,
    resources: &NodeResourceSnapshot,
    hello: &HelloFrame,
    header: &ModelShardHeaderFrame,
) -> (ready: ReadyFrame)
    ensures
        ready@ == (ReadyView {
            node_address: bind_address@,
            dim: header.dim,
            n_layers: header.n_layers,
            n_experts: header.n_experts,
            activation_dtype: hello.activation_dtype,
            speculative_push: hello.speculative_push,
            logical_cpu_count: resources.logical_cpu_count,
            memory_bytes: resources.memory_bytes,
            loaded_expert_count: hello.assigned_experts.len(),
        }),
{
    ReadyFrame {
        node_address: bind_address.clone(),
        dim: header.dim,
        n_layers: header.n_layers,
        n_experts: header.n_experts,
        activation_dtype: hello.activation_dtype,
        speculative_push: hello.speculative_push,
        logical_cpu_count: resources.logical_cpu_count,
        memory_bytes: resources.memory_bytes,
        loaded_expert_count: hello.assigned_experts.len(),
    }
}

/// Whether entry `i` is the last that names a matrix of an expert.
pub open spec fn names_last(
    entries: Seq<ShardTensorEntry>,
    layer: int,
    expert: int,
    kind: int,
    i: int,
) -> bool {
    &&& 0 <= i < entries.len()
    &&& entries[i].layer == layer && entries[i].expert_idx == expert && entries[i].kind == kind
    &&& forall|j: int|
        i < j < entries.len() ==> !((#[trigger] entries[j]).layer == layer && entries[j].expert_idx
            == expert && entries[j].kind == kind)
}

/// Whether a matrix lies where an entry says, with its type and extents.
pub open spec fn lies_at(tensor: Option<QuantizedTensor>, entry: ShardTensorEntry) -> bool {
    tensor matches Some(t) && t.data_offset == entry.byte_offset as usize && t.ttype == entry.ttype
        && t.rows == entry.rows && t.cols == entry.cols
}

proof fn lemma_names_last(
    entries: Seq<ShardTensorEntry>,
    layer: int,
    expert: int,
    kind: int,
    i: int,
    k: nat,
)
    requires
        names_last(entries, layer, expert, kind, i),
        i < k <= entries.len(),
    ensures
        lies_at(last_entry(entries, layer, expert, kind, k), entries[i]),
    decreases k,
{
    if i < k - 1 {
        let e = entries[k - 1];
        assert(!(e.layer == layer && e.expert_idx == expert && e.kind == kind));
        lemma_names_last(entries, layer, expert, kind, i, (k - 1) as nat);
    }
}

/// The matrices of an expert (gate, up and down) are those of the last entries that name them. An
/// expert is held exactly where an entry names one of them.
pub proof fn experts_take_their_last_matrices(
    entries: Seq<ShardTensorEntry>,
    layer: int,
    expert: int,
)
    ensures
        ({
            let parts = parts_of(entries, layer, expert, entries.len());
            &&& forall|i: int| #[trigger]
                names_last(entries, layer, expert, 0, i) ==> lies_at(parts.gate, entries[i])
            &&& forall|i: int| #[trigger]
                names_last(entries, layer, expert, 1, i) ==> lies_at(parts.up, entries[i])
            &&& forall|i: int| #[trigger]
                names_last(entries, layer, expert, 2, i) ==> lies_at(parts.down, entries[i])
            &&& parts.slot() is Some <==> exists|i: int|
                0 <= i < entries.len() && (#[trigger] entries[i]).layer == layer
                    && entries[i].expert_idx == expert && entries[i].kind <= 2
            &&& parts.missing() is None ==> parts.slot() == Some(
                WorkerExpertTensors {
                    gate: parts.gate->0,
                    up: parts.up->0,
                    down: parts.down->0,
                },
            )
        }),
{
    let n = entries.len();
    assert forall|i: int| #[trigger] names_last(entries, layer, expert, 0, i) implies lies_at(
        last_entry(entries, layer, expert, 0, n),
        entries[i],
    ) by {
        lemma_names_last(entries, layer, expert, 0, i, n);
    }
    assert forall|i: int| #[trigger] names_last(entries, layer, expert, 1, i) implies lies_at(
        last_entry(entries, layer, expert, 1, n),
        entries[i],
    ) by {
        lemma_names_last(entries, layer, expert, 1, i, n);
    }
    assert forall|i: int| #[trigger] names_last(entries, layer, expert, 2, i) implies lies_at(
        last_entry(entries, layer, expert, 2, n),
        entries[i],
    ) by {
        lemma_names_last(entries, layer, expert, 2, i, n);
    }
    let parts = parts_of(entries, layer, expert, n);
    if parts.slot() is Some {
        if parts.gate is Some {
            let i = lemma_found_entry(entries, layer, expert, 0, n);
            assert(entries[i].kind <= 2);
        } else if parts.up is Some {
            let i = lemma_found_entry(entries, layer, expert, 1, n);
            assert(entries[i].kind <= 2);
        } else {
            let i = lemma_found_entry(entries, layer, expert, 2, n);
            assert(entries[i].kind <= 2);
        }
    }
    if exists|i: int|
        0 <= i < entries.len() && (#[trigger] entries[i]).layer == layer && entries[i].expert_idx
            == expert && entries[i].kind <= 2 {
        let i = choose|i: int|
            0 <= i < entries.len() && (#[trigger] entries[i]).layer == layer
                && entries[i].expert_idx == expert && entries[i].kind <= 2;
        lemma_entry_is_found(entries, layer, expert, entries[i].kind as int, i, n);
    }
}

/// Of a layer, the last entry of a kind counts; there is no tensor exactly where no entry names
/// one.
pub proof fn layers_take_their_last_tensors(
    entries: Seq<ShardTensorEntry>,
    layer: int,
    kind: int,
    k: nat,
)
    requires
        k <= entries.len(),
    ensures
        forall|i: int|
            0 <= i < k && (#[trigger] entries[i]).layer == layer && entries[i].kind == kind && (
            forall|j: int|
                i < j < k ==> !((#[trigger] entries[j]).layer == layer && entries[j].kind == kind))
                ==> lies_at(last_of_layer(entries, layer, kind, k), entries[i]),
        last_of_layer(entries, layer, kind, k) is None <==> forall|j: int|
            0 <= j < k ==> !((#[trigger] entries[j]).layer == layer && entries[j].kind == kind),
    decreases k,
{
    if k > 0 {
        let m = (k - 1) as nat;
        layers_take_their_last_tensors(entries, layer, kind, m);
        let e = entries[k - 1];
        assert forall|i: int|
            0 <= i < k && (#[trigger] entries[i]).layer == layer && entries[i].kind == kind && (
            forall|j: int|
                i < j < k ==> !((#[trigger] entries[j]).layer == layer && entries[j].kind
                    == kind)) implies lies_at(last_of_layer(entries, layer, kind, k), entries[i]) by {
            if i < k - 1 {
                assert(!(e.layer == layer && e.kind == kind));
            }
        }
    }
}

/// The routed layers are exactly those with a projection, in ascending order.
pub proof fn routed_layers_have_a_projection(layers: Seq<Option<QuantizedTensor>>, k: nat)
    requires
        k <= layers.len() <= usize::MAX,
    ensures
        forall|l: int|
            0 <= l < k ==> (#[trigger] layers[l] is Some <==> routed_layers(layers, k).contains(
                l as usize,
            )),
        forall|i: int|
            0 <= i < routed_layers(layers, k).len() ==> #[trigger] routed_layers(layers, k)[i] < k,
        forall|i: int, j: int|
            0 <= i < j < routed_layers(layers, k).len() ==> #[trigger] routed_layers(layers, k)[i]
                < #[trigger] routed_layers(layers, k)[j],
    decreases k,
{
    if k > 0 {
        let m = (k - 1) as nat;
        routed_layers_have_a_projection(layers, m);
        let front = routed_layers(layers, m);
        let all = routed_layers(layers, k);
        assert forall|i: int| 0 <= i < all.len() implies #[trigger] all[i] < k by {
            if i < front.len() {
                assert(front[i] < m);
            }
        }
        assert forall|i: int, j: int| 0 <= i < j < all.len() implies #[trigger] all[i]
            < #[trigger] all[j] by {
            assert(front[i] < m);
            if j < front.len() {
                assert(front[i] < front[j]);
            }
        }
        assert forall|l: int| 0 <= l < k implies (#[trigger] layers[l] is Some <==> all.contains(
            l as usize,
        )) by {
            if l < m {
                if front.contains(l as usize) {
                    let x = choose|x: int| 0 <= x < front.len() && front[x] == l as usize;
                    assert(all[x] == l as usize);
                }
                if all.contains(l as usize) {
                    let x = choose|x: int| 0 <= x < all.len() && all[x] == l as usize;
                    assert(x < front.len());
                    assert(front[x] == l as usize);
                }
            } else {
                if layers[l] is Some {
                    assert(all[front.len() as int] == l as usize);
                }
                if all.contains(l as usize) && layers[l] is None {
                    let x = choose|x: int| 0 <= x < all.len() && all[x] == l as usize;
                    assert(front[x] < m);
                }
            }
        }
    }
}

} // verus!
