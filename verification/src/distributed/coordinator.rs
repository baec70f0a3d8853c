//! The decisions of the coordinator: discovery, handshakes, shard setup, routing and retries.
use crate::distributed::activation::ActivationValues;
use crate::distributed::control::{
    decode_discover_response_frame, decode_error_frame, decode_ready_frame, decoded_discover,
    decoded_error, decoded_ready, DiscoverResponseFrame, HelloFrame, HelloView, ReadyFrame,
    ReadyView,
};
use crate::distributed::experts::{decode_expert_batch_response, decoded_response, views};
use crate::distributed::placement::{
    cluster_rejection, ClusterConfig, ClusterNodeConfig, ClusterNodeRole, PlacementError,
};
use crate::distributed::protocol::{FrameKind, ProtocolError};
use crate::distributed::resources::NodeResourceSnapshot;
use crate::distributed::shard::{decode_ssm_layer_response, decoded_vector};
use crate::text::{decimal, Text};
use vstd::prelude::*;
use vstd::string::*;

verus! {

/// How often a batch is sent before giving up.
pub const BATCH_RETRY_ATTEMPTS: usize = 3;

/// The timeout of remote operations in seconds.
pub const DEFAULT_REMOTE_TIMEOUT_SECS: u64 = 30;

/// The timeout of a shard transfer in seconds.
pub const SHARD_TRANSFER_TIMEOUT_SECS: u64 = 600;

/// The number of bytes that every frame adds to its payload.
pub const DISTRIBUTED_FRAME_HEADER_LEN: usize = 20;

/// How often a remote node is contacted before giving up.
pub const DEFAULT_REMOTE_RETRY_ATTEMPTS: usize = 3;

/// The pause before the second contact in milliseconds; later pauses are multiples of it.
pub const DEFAULT_REMOTE_RETRY_BACKOFF_MS: u64 = 200;

/// What a failed step asks for.
#[derive(Clone, Copy, Debug, PartialEq, Eq, Structural)]
pub enum RetryDecision {
    /// Pause for the given number of milliseconds and start over as the given attempt.
    RetryAfter { backoff_ms: u64, attempt: usize },
    GiveUp,
}

/// What a transport failure of attempt `attempt` asks for.
pub open spec fn retry_decision(attempt: usize) -> RetryDecision {
    if attempt + 1 < DEFAULT_REMOTE_RETRY_ATTEMPTS {
        RetryDecision::RetryAfter {
            backoff_ms: (DEFAULT_REMOTE_RETRY_BACKOFF_MS * (attempt + 1)) as u64,
            attempt: (attempt + 1) as usize,
        }
    } else {
        RetryDecision::GiveUp
    }
}

/// What a transport failure of attempt `attempt` asks for.
pub fn after_transport_failure(attempt: usize) -> (decision: RetryDecision)
    ensures
        decision == retry_decision(attempt),
{
    if attempt < DEFAULT_REMOTE_RETRY_ATTEMPTS - 1 {
        RetryDecision::RetryAfter {
            backoff_ms: DEFAULT_REMOTE_RETRY_BACKOFF_MS * (attempt as u64 + 1),
            attempt: attempt + 1,
        }
    } else {
        RetryDecision::GiveUp
    }
}

/// Whether a failed batch send is tried again after reconnecting.
pub fn batch_send_retries(attempt: usize) -> (retry: bool)
    ensures
        retry == (attempt + 1 < BATCH_RETRY_ATTEMPTS),
{
    attempt < BATCH_RETRY_ATTEMPTS - 1
}

/// The steps of greeting a worker and handing it its shard.
#[derive(Clone, Copy, Debug, PartialEq, Eq, Structural)]
pub enum HandshakeStep {
    Connect,
    SendHello,
    SendShardHeader,
    SetTransferTimeout,
    SendShard,
    RestoreTimeout,
    ReceiveReply,
    InterpretReply,
}

/// Where a handshake stands.
#[derive(Clone, Copy, Debug, PartialEq, Eq, Structural)]
pub struct HandshakeState {
    pub attempt: usize,
    pub step: HandshakeStep,
}

/// What a handshake does next.
#[derive(Clone, Copy, Debug, PartialEq, Eq, Structural)]
pub enum HandshakeAction {
    /// Perform the step of the state.
    Perform(HandshakeState),
    /// Pause for the given number of milliseconds, then perform the step of the state.
    Pause { backoff_ms: u64, then: HandshakeState },
    GiveUp,
}

impl HandshakeStep {
    /// The step that follows a success.
    pub open spec fn following(self) -> HandshakeStep {
        match self {
            HandshakeStep::Connect => HandshakeStep::SendHello,
            HandshakeStep::SendHello => HandshakeStep::SendShardHeader,
            HandshakeStep::SendShardHeader => HandshakeStep::SetTransferTimeout,
            HandshakeStep::SetTransferTimeout => HandshakeStep::SendShard,
            HandshakeStep::SendShard => HandshakeStep::RestoreTimeout,
            HandshakeStep::RestoreTimeout => HandshakeStep::ReceiveReply,
            HandshakeStep::ReceiveReply => HandshakeStep::InterpretReply,
            HandshakeStep::InterpretReply => HandshakeStep::InterpretReply,
        }
    }

    /// Whether a failure of the step starts the handshake over.
    pub open spec fn retried(self) -> bool {
        match self {
            HandshakeStep::Connect => true,
            HandshakeStep::SendHello => true,
            HandshakeStep::SendShardHeader => true,
            HandshakeStep::ReceiveReply => true,
            _ => false,
        }
    }

    /// The number of steps up to and including this one.
    pub open spec fn rank(self) -> int {
        match self {
            HandshakeStep::Connect => 0,
            HandshakeStep::SendHello => 1,
            HandshakeStep::SendShardHeader => 2,
            HandshakeStep::SetTransferTimeout => 3,
            HandshakeStep::SendShard => 4,
            HandshakeStep::RestoreTimeout => 5,
            HandshakeStep::ReceiveReply => 6,
            HandshakeStep::InterpretReply => 7,
        }
    }
}

/// The action that follows the step of a state.
pub open spec fn handshake_action(state: HandshakeState, succeeded: bool) -> HandshakeAction {
    if succeeded {
        HandshakeAction::Perform(
            HandshakeState { attempt: state.attempt, step: state.step.following() },
        )
    } else if !state.step.retried() {
        HandshakeAction::GiveUp
    } else {
        match retry_decision(state.attempt) {
            RetryDecision::GiveUp => HandshakeAction::GiveUp,
            RetryDecision::RetryAfter { backoff_ms, attempt } => HandshakeAction::Pause {
                backoff_ms,
                then: HandshakeState { attempt, step: HandshakeStep::Connect },
            },
        }
    }
}

/// The action that follows the step of a state.
pub fn advance_handshake(state: HandshakeState, succeeded: bool) -> (action: HandshakeAction)
    ensures
        action == handshake_action(state, succeeded),
{
    if succeeded {
        let step = match state.step {
            HandshakeStep::Connect => HandshakeStep::SendHello,
            HandshakeStep::SendHello => HandshakeStep::SendShardHeader,
            HandshakeStep::SendShardHeader => HandshakeStep::SetTransferTimeout,
            HandshakeStep::SetTransferTimeout => HandshakeStep::SendShard,
            HandshakeStep::SendShard => HandshakeStep::RestoreTimeout,
            HandshakeStep::RestoreTimeout => HandshakeStep::ReceiveReply,
            HandshakeStep::ReceiveReply => HandshakeStep::InterpretReply,
            HandshakeStep::InterpretReply => HandshakeStep::InterpretReply,
        };
        return HandshakeAction::Perform(HandshakeState { attempt: state.attempt, step });
    }
    match state.step {
        HandshakeStep::Connect
        | HandshakeStep::SendHello
        | HandshakeStep::SendShardHeader
        | HandshakeStep::ReceiveReply => match after_transport_failure(state.attempt) {
            RetryDecision::GiveUp => HandshakeAction::GiveUp,
            RetryDecision::RetryAfter { backoff_ms, attempt } => HandshakeAction::Pause {
                backoff_ms,
                then: HandshakeState { attempt, step: HandshakeStep::Connect },
            },
        },
        _ => HandshakeAction::GiveUp,
    }
}

/// The work that a handshake can still do.
pub open spec fn handshake_work(state: HandshakeState) -> int {
    (DEFAULT_REMOTE_RETRY_ATTEMPTS - state.attempt) * 8 - state.step.rank()
}

/// A handshake ends: every step but the last leaves less work, and no attempt after the last one
/// is started.
pub proof fn handshakes_end(state: HandshakeState, succeeded: bool)
    requires
        state.attempt < DEFAULT_REMOTE_RETRY_ATTEMPTS,
        state.step != HandshakeStep::InterpretReply,
    ensures
        0 < handshake_work(state),
        match handshake_action(state, succeeded) {
            HandshakeAction::GiveUp => true,
            HandshakeAction::Perform(next) => next.attempt == state.attempt && handshake_work(next)
                < handshake_work(state),
            HandshakeAction::Pause { backoff_ms, then } => then.attempt == state.attempt + 1
                && then.attempt < DEFAULT_REMOTE_RETRY_ATTEMPTS && backoff_ms
                == DEFAULT_REMOTE_RETRY_BACKOFF_MS * then.attempt && handshake_work(then)
                < handshake_work(state),
        },
{
}

/// Why a remote node or a routing request is not accepted.
#[derive(Debug)]
pub enum CoordinatorError {
    Protocol(ProtocolError),
    DiscoveryRejected { address: String, reason: String },
    DiscoveryUnexpected { address: String, kind: FrameKind },
    DiscoveryAddress { expected: String, reported: String },
    DiscoveryMetadata(String),
    Cluster(PlacementError),
    ReadyMismatch(String),
    ReadyExpertCount { address: String, loaded: usize, assigned: usize },
    HelloRejected { address: String, reason: String },
    HandshakeUnexpected { address: String, kind: FrameKind },
    BatchShape { layer: usize, dim: usize },
    BatchRejected(String),
    BatchUnexpected(FrameKind),
    SsmDim { got: usize, wanted: usize },
    SsmRejected(String),
    SsmUnexpected(FrameKind),
    PlanIndexOverflow,
    PlanIndexOutOfBounds,
}

impl CoordinatorError {
    /// The message text of the error.
    pub open spec fn text(self) -> Seq<char> {
        match self {
            CoordinatorError::Protocol(error) => error.text(),
            CoordinatorError::DiscoveryRejected { address, reason } => "worker discovery at '"@
                + address@ + "' returned error: "@ + reason@,
            CoordinatorError::DiscoveryUnexpected { address, kind } => "worker discovery at '"@
                + address@ + "' returned unexpected frame "@ + kind.name_text(),
            CoordinatorError::DiscoveryAddress { expected, reported } =>
                "worker discovery address mismatch for '"@ + expected@ + "': worker reported '"@
                    + reported@ + "'"@,
            CoordinatorError::DiscoveryMetadata(id) => "worker '"@ + id@
                + "' reported mismatched model metadata during discovery"@,
            CoordinatorError::Cluster(error) => error.text(),
            CoordinatorError::ReadyMismatch(address) => "worker '"@ + address@
                + "' READY frame does not match coordinator HELLO"@,
            CoordinatorError::ReadyExpertCount { address, loaded, assigned } => "worker '"@
                + address@ + "' loaded "@ + decimal(loaded as nat)
                + " experts but coordinator assigned "@ + decimal(assigned as nat),
            CoordinatorError::HelloRejected { address, reason } => "worker '"@ + address@
                + "' rejected hello: "@ + reason@,
            CoordinatorError::HandshakeUnexpected { address, kind } => "worker '"@ + address@
                + "' returned unexpected frame "@ + kind.name_text() + " during handshake"@,
            CoordinatorError::BatchShape { layer, dim } => "invalid response shape: layer "@
                + decimal(layer as nat) + " dim "@ + decimal(dim as nat),
            CoordinatorError::BatchRejected(reason) => reason@,
            CoordinatorError::BatchUnexpected(kind) => "unexpected frame: "@ + kind.name_text(),
            CoordinatorError::SsmDim { got, wanted } => "SSM response dim mismatch: got "@
                + decimal(got as nat) + ", expected "@ + decimal(wanted as nat),
            CoordinatorError::SsmRejected(reason) => "SSM worker error: "@ + reason@,
            CoordinatorError::SsmUnexpected(kind) => "unexpected SSM response frame "@
                + kind.name_text(),
            CoordinatorError::PlanIndexOverflow => "expert plan index overflow"@,
            CoordinatorError::PlanIndexOutOfBounds => "expert plan index out of bounds"@,
        }
    }

    /// The message text of the error.
    pub fn message(&self) -> (message: String)
        ensures
            message@ == self.text(),
    {
        match self {
            CoordinatorError::Protocol(error) => error.message(),
            CoordinatorError::DiscoveryRejected { address, reason } => Text::start(
                "worker discovery at '",
            ).text(address.as_str()).text("' returned error: ").text(reason.as_str()).finish(),
            CoordinatorError::DiscoveryUnexpected { address, kind } => Text::start(
                "worker discovery at '",
            ).text(address.as_str()).text("' returned unexpected frame ").text(
                kind.name(),
            ).finish(),
            CoordinatorError::DiscoveryAddress { expected, reported } => Text::start(
                "worker discovery address mismatch for '",
            ).text(expected.as_str()).text("': worker reported '").text(reported.as_str()).text(
                "'",
            ).finish(),
            CoordinatorError::DiscoveryMetadata(id) => Text::start("worker '").text(
                id.as_str(),
            ).text("' reported mismatched model metadata during discovery").finish(),
            CoordinatorError::Cluster(error) => error.message(),
            CoordinatorError::ReadyMismatch(address) => Text::start("worker '").text(
                address.as_str(),
            ).text("' READY frame does not match coordinator HELLO").finish(),
            CoordinatorError::ReadyExpertCount { address, loaded, assigned } => Text::start(
                "worker '",
            ).text(address.as_str()).text("' loaded ").size(*loaded).text(
                " experts but coordinator assigned ",
            ).size(*assigned).finish(),
            CoordinatorError::HelloRejected { address, reason } => Text::start("worker '").text(
                address.as_str(),
            ).text("' rejected hello: ").text(reason.as_str()).finish(),
            CoordinatorError::HandshakeUnexpected { address, kind } => Text::start(
                "worker '",
            ).text(address.as_str()).text("' returned unexpected frame ").text(kind.name()).text(
                " during handshake",
            ).finish(),
            CoordinatorError::BatchShape { layer, dim } => Text::start(
                "invalid response shape: layer ",
            ).size(*layer).text(" dim ").size(*dim).finish(),
            CoordinatorError::BatchRejected(reason) => reason.clone(),
            CoordinatorError::BatchUnexpected(kind) => Text::start("unexpected frame: ").text(
                kind.name(),
            ).finish(),
            CoordinatorError::SsmDim { got, wanted } => Text::start(
                "SSM response dim mismatch: got ",
            ).size(*got).text(", expected ").size(*wanted).finish(),
            CoordinatorError::SsmRejected(reason) => Text::start("SSM worker error: ").text(
                reason.as_str(),
            ).finish(),
            CoordinatorError::SsmUnexpected(kind) => Text::start(
                "unexpected SSM response frame ",
            ).text(kind.name()).finish(),
            CoordinatorError::PlanIndexOverflow => Text::start(
                "expert plan index overflow",
            ).finish(),
            CoordinatorError::PlanIndexOutOfBounds => Text::start(
                "expert plan index out of bounds",
            ).finish(),
        }
    }
}

/// What a reply to a discovery request means.
pub open spec fn reads_discovery(
    address: Seq<char>,
    kind: FrameKind,
    payload: Seq<u8>,
    result: Result<DiscoverResponseFrame, CoordinatorError>,
) -> bool {
    match kind {
        FrameKind::DiscoverResponse => match decoded_discover(payload) {
            Ok(v) => result matches Ok(frame) && frame@ == v,
            Err(e) => result == Err::<DiscoverResponseFrame, CoordinatorError>(
                CoordinatorError::Protocol(e),
            ),
        },
        FrameKind::Error => match decoded_error(payload) {
            Ok(text) => result matches Err(
                CoordinatorError::DiscoveryRejected { address: a, reason },
            ) && a@ == address && reason@ == text,
            Err(e) => result == Err::<DiscoverResponseFrame, CoordinatorError>(
                CoordinatorError::Protocol(e),
            ),
        },
        other => result matches Err(
            CoordinatorError::DiscoveryUnexpected { address: a, kind: k },
        ) && a@ == address && k == other,
    }
}

/// Interprets the reply to a discovery request.
pub fn interpret_discovery_reply(address: &str, kind: FrameKind, payload: &[u8]) -> (result: Result<
    DiscoverResponseFrame,
    CoordinatorError,
>)
    ensures
        reads_discovery(address@, kind, payload@, result),
{
    match kind {
        FrameKind::DiscoverResponse => match decode_discover_response_frame(payload) {
            Ok(frame) => Ok(frame),
            Err(error) => Err(CoordinatorError::Protocol(error)),
        },
        FrameKind::Error => match decode_error_frame(payload) {
            Ok(reason) => Err(
                CoordinatorError::DiscoveryRejected { address: address.to_owned(), reason },
            ),
            Err(error) => Err(CoordinatorError::Protocol(error)),
        },
        other => Err(
            CoordinatorError::DiscoveryUnexpected { address: address.to_owned(), kind: other },
        ),
    }
}

/// The sizes of the model that workers must agree with.
#[derive(Clone, Copy, Debug)]
pub struct ModelSizes {
    pub dim: usize,
    pub n_layers: usize,
    pub n_experts: usize,
}

/// Why the answer of a worker does not fit its configuration, if it does not.
pub open spec fn discovery_rejection(
    node: ClusterNodeConfig,
    sizes: ModelSizes,
    response: DiscoverResponseFrame,
) -> Option<CoordinatorError> {
    if response.node_address@ != node.address@ {
        Some(
            CoordinatorError::DiscoveryAddress {
                expected: node.address,
                reported: response.node_address,
            },
        )
    } else if response.dim != 0 && (response.dim != sizes.dim || response.n_layers
        != sizes.n_layers || response.n_experts != sizes.n_experts) {
        Some(CoordinatorError::DiscoveryMetadata(node.id))
    } else {
        None
    }
}

/// Checks the answer of a worker against its configuration and the model.
pub fn check_discovery(
    node: &ClusterNodeConfig,
    sizes: &ModelSizes,
    response: &DiscoverResponseFrame,
) -> (result: Result<(), CoordinatorError>)
    ensures
        match result {
            Ok(_) => discovery_rejection(*node, *sizes, *response) is None,
            Err(error) => discovery_rejection(*node, *sizes, *response) == Some(error),
        },
{
    if response.node_address != node.address {
        return Err(
            CoordinatorError::DiscoveryAddress {
                expected: node.address.clone(),
                reported: response.node_address.clone(),
            },
        );
    }
    if response.dim != 0 && (response.dim != sizes.dim || response.n_layers != sizes.n_layers
        || response.n_experts != sizes.n_experts) {
        return Err(CoordinatorError::DiscoveryMetadata(node.id.clone()));
    }
    Ok(())
}

/// The number of workers among the first `k` nodes: the place of the next worker's answer.
pub open spec fn worker_rank(nodes: Seq<ClusterNodeConfig>, k: nat) -> nat
    decreases k,
{
    if k == 0 {
        0
    } else {
        worker_rank(nodes, (k - 1) as nat) + if nodes[k - 1].role == ClusterNodeRole::Coordinator {
            0nat
        } else {
            1nat
        }
    }
}

/// The first worker whose answer does not fit, if any.
pub open spec fn discoveries_rejection(
    nodes: Seq<ClusterNodeConfig>,
    sizes: ModelSizes,
    responses: Seq<DiscoverResponseFrame>,
    k: nat,
) -> Option<CoordinatorError>
    decreases k,
{
    if k == 0 {
        None
    } else {
        match discoveries_rejection(nodes, sizes, responses, (k - 1) as nat) {
            Some(error) => Some(error),
            None => if nodes[k - 1].role == ClusterNodeRole::Coordinator {
                None
            } else {
                discovery_rejection(
                    nodes[k - 1],
                    sizes,
                    responses[worker_rank(nodes, (k - 1) as nat) as int],
                )
            },
        }
    }
}

/// A node with the resources that were discovered for it.
pub open spec fn discovered_node(
    nodes: Seq<ClusterNodeConfig>,
    local: NodeResourceSnapshot,
    responses: Seq<DiscoverResponseFrame>,
    i: int,
) -> ClusterNodeConfig {
    let response = responses[worker_rank(nodes, i as nat) as int];
    let coordinator = nodes[i].role == ClusterNodeRole::Coordinator;
    ClusterNodeConfig {
        id: nodes[i].id,
        address: nodes[i].address,
        role: nodes[i].role,
        logical_cpu_count: Some(
            if coordinator {
                local.logical_cpu_count
            } else {
                response.logical_cpu_count
            },
        ),
        discovered_memory_bytes: Some(
            if coordinator {
                local.memory_bytes
            } else {
                response.memory_bytes
            },
        ),
    }
}

/// The nodes with the resources that were discovered for them.
pub open spec fn discovered_nodes(
    nodes: Seq<ClusterNodeConfig>,
    local: NodeResourceSnapshot,
    responses: Seq<DiscoverResponseFrame>,
) -> Seq<ClusterNodeConfig> {
    Seq::new(nodes.len(), |i: int| discovered_node(nodes, local, responses, i))
}

proof fn lemma_first_discovery_rejection(
    nodes: Seq<ClusterNodeConfig>,
    sizes: ModelSizes,
    responses: Seq<DiscoverResponseFrame>,
    k: nat,
    n: nat,
)
    requires
        k <= n,
        discoveries_rejection(nodes, sizes, responses, k) is Some,
    ensures
        discoveries_rejection(nodes, sizes, responses, n) == discoveries_rejection(
            nodes,
            sizes,
            responses,
            k,
        ),
    decreases n,
{
    if k < n {
        lemma_first_discovery_rejection(nodes, sizes, responses, k, (n - 1) as nat);
    }
}

proof fn lemma_worker_rank_grows(nodes: Seq<ClusterNodeConfig>, k: nat, n: nat)
    requires
        k <= n,
    ensures
        worker_rank(nodes, k) <= worker_rank(nodes, n),
    decreases n,
{
    if k < n {
        lemma_worker_rank_grows(nodes, k, (n - 1) as nat);
    }
}

/// Completes a cluster with the resources of its nodes: those of this machine for the
/// coordinator, the answers in `responses`, one per worker in order, for the others.
pub fn discover_cluster_resources(
    cluster: &ClusterConfig,
    sizes: &ModelSizes,
    local: &NodeResourceSnapshot,
    responses: &Vec<DiscoverResponseFrame>,
) -> (result: Result<ClusterConfig, CoordinatorError>)
    requires
        responses@.len() == worker_rank(cluster.node@, cluster.node@.len()),
    ensures
        ({
            let nodes = cluster.node@;
            let found = discovered_nodes(nodes, *local, responses@);
            match result {
                Ok(discovered) => discoveries_rejection(nodes, *sizes, responses@, nodes.len())
                    is None && cluster_rejection(found) is None && discovered.node@ == found,
                Err(error) => match discoveries_rejection(
                    nodes,
                    *sizes,
                    responses@,
                    nodes.len(),
                ) {
                    Some(first) => error == first,
                    None => cluster_rejection(found) matches Some(e) && error
                        == CoordinatorError::Cluster(e),
                },
            }
        }),
{
    let mut discovered: Vec<ClusterNodeConfig> = Vec::new();
    let mut rank: usize = 0;
    let mut i: usize = 0;
    while i < cluster.node.len()
        invariant
            i <= cluster.node@.len(),
            rank == worker_rank(cluster.node@, i as nat),
            responses@.len() == worker_rank(cluster.node@, cluster.node@.len()),
            discoveries_rejection(cluster.node@, *sizes, responses@, i as nat) is None,
            discovered@ == discovered_nodes(cluster.node@, *local, responses@).take(i as int),
        decreases cluster.node.len() - i,
    {
        let node = &cluster.node[i];
        proof {
            lemma_worker_rank_grows(cluster.node@, (i + 1) as nat, cluster.node@.len());
            if discoveries_rejection(cluster.node@, *sizes, responses@, (i + 1) as nat) is Some {
                lemma_first_discovery_rejection(
                    cluster.node@,
                    *sizes,
                    responses@,
                    (i + 1) as nat,
                    cluster.node@.len(),
                );
            }
        }
        let (cpus, memory) = if node.role == ClusterNodeRole::Coordinator {
            (local.logical_cpu_count, local.memory_bytes)
        } else {
            let response = &responses[rank];
            match check_discovery(node, sizes, response) {
                Ok(_) => {},
                Err(error) => return Err(error),
            }
            assert(rank < responses.len());
            rank = rank + 1;
            (response.logical_cpu_count, response.memory_bytes)
        };
        discovered.push(
            ClusterNodeConfig {
                id: node.id.clone(),
                address: node.address.clone(),
                role: node.role,
                logical_cpu_count: Some(cpus),
                discovered_memory_bytes: Some(memory),
            },
        );
        assert(discovered@ =~= discovered_nodes(cluster.node@, *local, responses@).take(i + 1));
        i = i + 1;
    }
    assert(discovered@ =~= discovered_nodes(cluster.node@, *local, responses@));
    let found = ClusterConfig { node: discovered };
    match found.validate() {
        Ok(_) => Ok(found),
        Err(error) => Err(CoordinatorError::Cluster(error)),
    }
}

/// Why a readiness answer does not fit the greeting, if it does not.
pub open spec fn ready_mismatch(
    hello: HelloView,
    ready: ReadyView,
    result: Result<(), CoordinatorError>,
    address: Seq<char>,
) -> bool {
    if hello.node_address != ready.node_address || hello.dim != ready.dim || hello.n_layers
        != ready.n_layers || hello.n_experts != ready.n_experts || hello.activation_dtype
        != ready.activation_dtype {
        result matches Err(CoordinatorError::ReadyMismatch(a)) && a@ == address
    } else if ready.loaded_expert_count != hello.assigned_experts.len() {
        result matches Err(
            CoordinatorError::ReadyExpertCount { address: a, loaded, assigned },
        ) && a@ == address && loaded == ready.loaded_expert_count && assigned
            == hello.assigned_experts.len()
    } else {
        result is Ok
    }
}

/// Checks a readiness answer against the greeting.
pub fn validate_ready_frame(hello: &HelloFrame, ready: &ReadyFrame, worker_address: &str) -> (
result: Result<(), CoordinatorError>)
    ensures
        ready_mismatch(hello@, ready@, result, worker_address@),
{
    if hello.node_address != ready.node_address || hello.dim != ready.dim || hello.n_layers
        != ready.n_layers || hello.n_experts != ready.n_experts || hello.activation_dtype
        != ready.activation_dtype {
        return Err(CoordinatorError::ReadyMismatch(worker_address.to_owned()));
    }
    if ready.loaded_expert_count != hello.assigned_experts.len() {
        return Err(
            CoordinatorError::ReadyExpertCount {
                address: worker_address.to_owned(),
                loaded: ready.loaded_expert_count,
                assigned: hello.assigned_experts.len(),
            },
        );
    }
    Ok(())
}

/// What the reply to a greeting means.
pub open spec fn reads_handshake(
    hello: HelloView,
    address: Seq<char>,
    kind: FrameKind,
    payload: Seq<u8>,
    result: Result<(), CoordinatorError>,
) -> bool {
    match kind {
        FrameKind::Ready => match decoded_ready(payload) {
            Ok(ready) => ready_mismatch(hello, ready, result, address),
            Err(e) => result == Err::<(), CoordinatorError>(CoordinatorError::Protocol(e)),
        },
        FrameKind::Error => match decoded_error(payload) {
            Ok(text) => result matches Err(
                CoordinatorError::HelloRejected { address: a, reason },
            ) && a@ == address && reason@ == text,
            Err(e) => result == Err::<(), CoordinatorError>(CoordinatorError::Protocol(e)),
        },
        other => result matches Err(
            CoordinatorError::HandshakeUnexpected { address: a, kind: k },
        ) && a@ == address && k == other,
    }
}

/// Interprets the reply to a greeting.
pub fn interpret_handshake_reply(
    hello: &HelloFrame,
    worker_address: &str,
    kind: FrameKind,
    payload: &[u8],
) -> (result: Result<(), CoordinatorError>)
    ensures
        reads_handshake(hello@, worker_address@, kind, payload@, result),
{
    match kind {
        FrameKind::Ready => match decode_ready_frame(payload) {
            Ok(ready) => validate_ready_frame(hello, &ready, worker_address),
            Err(error) => Err(CoordinatorError::Protocol(error)),
        },
        FrameKind::Error => match decode_error_frame(payload) {
            Ok(reason) => Err(
                CoordinatorError::HelloRejected { address: worker_address.to_owned(), reason },
            ),
            Err(error) => Err(CoordinatorError::Protocol(error)),
        },
        other => Err(
            CoordinatorError::HandshakeUnexpected {
                address: worker_address.to_owned(),
                kind: other,
            },
        ),
    }
}

/// What the reply to a batch of experts means.
pub open spec fn reads_batch(
    layer: usize,
    dim: usize,
    kind: FrameKind,
    payload: Seq<u8>,
    result: Result<Vec<ActivationValues>, CoordinatorError>,
) -> bool {
    match kind {
        FrameKind::ExpertBatchResponse => match decoded_response(payload) {
            Ok((v, _)) => if v.layer != layer || v.dim != dim {
                result == Err::<Vec<ActivationValues>, CoordinatorError>(
                    CoordinatorError::BatchShape { layer: v.layer, dim: v.dim },
                )
            } else {
                result matches Ok(outputs) && views(outputs@) == v.outputs
            },
            Err(e) => result == Err::<Vec<ActivationValues>, CoordinatorError>(
                CoordinatorError::Protocol(e),
            ),
        },
        FrameKind::Error => match decoded_error(payload) {
            Ok(text) => result matches Err(CoordinatorError::BatchRejected(reason)) && reason@
                == text,
            Err(e) => result == Err::<Vec<ActivationValues>, CoordinatorError>(
                CoordinatorError::Protocol(e),
            ),
        },
        other => result == Err::<Vec<ActivationValues>, CoordinatorError>(
            CoordinatorError::BatchUnexpected(other),
        ),
    }
}

/// Interprets the reply to a batch of experts.
pub fn interpret_batch_reply(layer: usize, dim: usize, kind: FrameKind, payload: &[u8]) -> (result:
    Result<Vec<ActivationValues>, CoordinatorError>)
    ensures
        reads_batch(layer, dim, kind, payload@, result),
{
    match kind {
        FrameKind::ExpertBatchResponse => match decode_expert_batch_response(payload) {
            Ok(response) => {
                if response.layer != layer || response.dim != dim {
                    Err(
                        CoordinatorError::BatchShape { layer: response.layer, dim: response.dim },
                    )
                } else {
                    Ok(response.outputs)
                }
            },
            Err(error) => Err(CoordinatorError::Protocol(error)),
        },
        FrameKind::Error => match decode_error_frame(payload) {
            Ok(reason) => Err(CoordinatorError::BatchRejected(reason)),
            Err(error) => Err(CoordinatorError::Protocol(error)),
        },
        other => Err(CoordinatorError::BatchUnexpected(other)),
    }
}

/// What the reply to a recurrent layer request means.
pub open spec fn reads_ssm(
    dim: usize,
    kind: FrameKind,
    payload: Seq<u8>,
    result: Result<Vec<u32>, CoordinatorError>,
) -> bool {
    match kind {
        FrameKind::SsmLayerResponse => match decoded_vector(
            payload,
            ProtocolError::TruncatedSsmResponse,
        ) {
            Ok((_, values)) => if values.len() != dim {
                result == Err::<Vec<u32>, CoordinatorError>(
                    CoordinatorError::SsmDim { got: values.len() as usize, wanted: dim },
                )
            } else {
                result matches Ok(xb2) && xb2@ == values
            },
            Err(e) => result == Err::<Vec<u32>, CoordinatorError>(CoordinatorError::Protocol(e)),
        },
        FrameKind::Error => match decoded_error(payload) {
            Ok(text) => result matches Err(CoordinatorError::SsmRejected(reason)) && reason@
                == text,
            Err(e) => result == Err::<Vec<u32>, CoordinatorError>(CoordinatorError::Protocol(e)),
        },
        other => result == Err::<Vec<u32>, CoordinatorError>(
            CoordinatorError::SsmUnexpected(other),
        ),
    }
}

/// Interprets the reply to a recurrent layer request.
pub fn interpret_ssm_reply(dim: usize, kind: FrameKind, payload: &[u8]) -> (result: Result<
    Vec<u32>,
    CoordinatorError,
>)
    ensures
        reads_ssm(dim, kind, payload@, result),
{
    match kind {
        FrameKind::SsmLayerResponse => match decode_ssm_layer_response(payload) {
            Ok(response) => {
                if response.xb2.len() != dim {
                    Err(CoordinatorError::SsmDim { got: response.xb2.len(), wanted: dim })
                } else {
                    Ok(response.xb2)
                }
            },
            Err(error) => Err(CoordinatorError::Protocol(error)),
        },
        FrameKind::Error => match decode_error_frame(payload) {
            Ok(reason) => Err(CoordinatorError::SsmRejected(reason)),
            Err(error) => Err(CoordinatorError::Protocol(error)),
        },
        other => Err(CoordinatorError::SsmUnexpected(other)),
    }
}

/// What was exchanged with a worker.
#[derive(Clone, Copy, Debug, PartialEq, Eq, Structural)]
pub struct RemoteWorkerStats {
    pub request_batches: u64,
    pub expert_count: u64,
    pub bytes_sent: u64,
    pub bytes_received: u64,
    pub wait_ns: u64,
}

impl RemoteWorkerStats {
    /// Nothing was exchanged yet.
    pub fn new() -> (stats: RemoteWorkerStats)
        ensures
            stats == (RemoteWorkerStats {
                request_batches: 0,
                expert_count: 0,
                bytes_sent: 0,
                bytes_received: 0,
                wait_ns: 0,
            }),
    {
        RemoteWorkerStats {
            request_batches: 0,
            expert_count: 0,
            bytes_sent: 0,
            bytes_received: 0,
            wait_ns: 0,
        }
    }

    /// Counts one more batch.
    pub fn record_request(
        &mut self,
        experts: usize,
        bytes_sent: usize,
        bytes_received: usize,
        wait_ns: u64,
    )
        requires
            old(self).request_batches + 1 <= u64::MAX,
            old(self).expert_count + experts <= u64::MAX,
            old(self).bytes_sent + bytes_sent <= u64::MAX,
            old(self).bytes_received + bytes_received <= u64::MAX,
            old(self).wait_ns + wait_ns <= u64::MAX,
        ensures
            final(self).request_batches == old(self).request_batches + 1,
            final(self).expert_count == old(self).expert_count + experts,
            final(self).bytes_sent == old(self).bytes_sent + bytes_sent,
            final(self).bytes_received == old(self).bytes_received + bytes_received,
            final(self).wait_ns == old(self).wait_ns + wait_ns,
    {
        self.request_batches = self.request_batches + 1;
        self.expert_count = self.expert_count + experts as u64;
        self.bytes_sent = self.bytes_sent + bytes_sent as u64;
        self.bytes_received = self.bytes_received + bytes_received as u64;
        self.wait_ns = self.wait_ns + wait_ns;
    }
}

/// Buffers that are handed out and taken back.
pub struct ActivationBufferPool<T> {
    buffer_size: usize,
    zero: T,
    buffers: Vec<Vec<T>>,
}

impl<T: Copy> ActivationBufferPool<T> {
    /// The length of every buffer.
    pub closed spec fn size(&self) -> nat {
        self.buffer_size as nat
    }

    /// The value that new buffers are filled with.
    pub closed spec fn fill(&self) -> T {
        self.zero
    }

    /// The buffers that wait for use.
    pub closed spec fn pooled(&self) -> Seq<Vec<T>> {
        self.buffers@
    }

    /// Every pooled buffer has the length of the pool.
    pub open spec fn wf(&self) -> bool {
        forall|i: int|
            0 <= i < self.pooled().len() ==> (#[trigger] self.pooled()[i])@.len() == self.size()
    }

    fn filled(size: usize, zero: T) -> (buffer: Vec<T>)
        ensures
            buffer@ == Seq::new(size as nat, |i: int| zero),
    {
        let mut buffer: Vec<T> = Vec::new();
        while buffer.len() < size
            invariant
                buffer@.len() <= size,
                buffer@ == Seq::new(buffer@.len(), |i: int| zero),
            decreases size - buffer.len(),
        {
            buffer.push(zero);
            assert(buffer@ =~= Seq::new(buffer@.len(), |i: int| zero));
        }
        buffer
    }

    /// A pool of `max_concurrent` buffers of length `dim`.
    pub fn new(dim: usize, max_concurrent: usize, zero: T) -> (pool: ActivationBufferPool<T>)
        ensures
            pool.wf(),
            pool.size() == dim,
            pool.fill() == zero,
            pool.pooled().len() == max_concurrent,
            forall|i: int|
                0 <= i < max_concurrent ==> (#[trigger] pool.pooled()[i])@ == Seq::new(
                    dim as nat,
                    |j: int| zero,
                ),
    {
        let mut buffers: Vec<Vec<T>> = Vec::new();
        while buffers.len() < max_concurrent
            invariant
                buffers@.len() <= max_concurrent,
                forall|i: int|
                    0 <= i < buffers@.len() ==> (#[trigger] buffers@[i])@ == Seq::new(
                        dim as nat,
                        |j: int| zero,
                    ),
            decreases max_concurrent - buffers.len(),
        {
            buffers.push(Self::filled(dim, zero));
        }
        ActivationBufferPool { buffer_size: dim, zero, buffers }
    }

    /// Takes a buffer out: the last one put back, or a new one where none waits.
    pub fn get_buffer(&mut self) -> (buffer: Vec<T>)
        requires
            old(self).wf(),
        ensures
            final(self).wf(),
            final(self).size() == old(self).size(),
            final(self).fill() == old(self).fill(),
            buffer@.len() == old(self).size(),
            if old(self).pooled().len() > 0 {
                buffer == old(self).pooled().last() && final(self).pooled()
                    == old(self).pooled().drop_last()
            } else {
                buffer@ == Seq::new(old(self).size(), |i: int| old(self).fill()) && final(
                    self
                ).pooled() == old(self).pooled()
            },
    {
        let ghost before = self.buffers@;
        match self.buffers.pop() {
            Some(buffer) => {
                proof {
                    assert(buffer == before.last());
                    assert(self.pooled() =~= before.drop_last());
                    assert forall|i: int| 0 <= i < self.pooled().len() implies (
                    #[trigger] self.pooled()[i])@.len() == self.size() by {
                        assert(before[i]@.len() == self.size());
                    }
                    assert(before[before.len() - 1]@.len() == self.size());
                }
                buffer
            },
            None => Self::filled(self.buffer_size, self.zero),
        }
    }

    /// Puts a buffer back; one of another length is dropped.
    pub fn put_buffer(&mut self, buffer: Vec<T>)
        requires
            old(self).wf(),
        ensures
            final(self).wf(),
            final(self).size() == old(self).size(),
            final(self).fill() == old(self).fill(),
            final(self).pooled() == if buffer@.len() == old(self).size() {
                old(self).pooled().push(buffer)
            } else {
                old(self).pooled()
            },
    {
        let ghost before = self.buffers@;
        if buffer.len() == self.buffer_size {
            self.buffers.push(buffer);
            proof {
                assert forall|i: int| 0 <= i < self.pooled().len() implies (
                #[trigger] self.pooled()[i])@.len() == self.size() by {
                    if i < before.len() {
                        assert(old(self).pooled()[i]@.len() == self.size());
                    }
                }
            }
        }
    }
}

/// Whether a node is another than the coordinator.
pub open spec fn working() -> spec_fn(ClusterNodeConfig) -> bool {
    |node: ClusterNodeConfig| node.role != ClusterNodeRole::Coordinator
}

/// The answer of a worker is the one at its place among the workers.
pub proof fn answers_are_in_the_order_of_the_workers(nodes: Seq<ClusterNodeConfig>, k: nat)
    requires
        k <= nodes.len(),
    ensures
        worker_rank(nodes, k) == nodes.take(k as int).filter(working()).len(),
    decreases k,
{
    reveal(Seq::filter);
    if k > 0 {
        answers_are_in_the_order_of_the_workers(nodes, (k - 1) as nat);
        let now = nodes.take(k as int);
        assert(now.drop_last() =~= nodes.take(k - 1));
        assert(now.last() == nodes[k - 1]);
    }
}

/// Discovery changes nothing of a node but its resources: the coordinator has those of this
/// machine, a worker those that it answered.
pub proof fn discovery_fills_in_resources(
    nodes: Seq<ClusterNodeConfig>,
    local: NodeResourceSnapshot,
    responses: Seq<DiscoverResponseFrame>,
    i: int,
)
    requires
        0 <= i < nodes.len(),
    ensures
        ({
            let found = discovered_nodes(nodes, local, responses);
            let answer = responses[nodes.take(i).filter(working()).len() as int];
            &&& found.len() == nodes.len()
            &&& found[i].id == nodes[i].id
            &&& found[i].address == nodes[i].address
            &&& found[i].role == nodes[i].role
            &&& nodes[i].role == ClusterNodeRole::Coordinator ==> found[i].logical_cpu_count
                == Some(local.logical_cpu_count) && found[i].discovered_memory_bytes == Some(
                local.memory_bytes,
            )
            &&& nodes[i].role != ClusterNodeRole::Coordinator ==> found[i].logical_cpu_count
                == Some(answer.logical_cpu_count) && found[i].discovered_memory_bytes == Some(
                answer.memory_bytes,
            )
        }),
{
    answers_are_in_the_order_of_the_workers(nodes, i as nat);
}

/// Whether an answer is that of a node: from its address, and either without a model or with the
/// same one.
pub open spec fn answers_for(
    node: ClusterNodeConfig,
    sizes: ModelSizes,
    response: DiscoverResponseFrame,
) -> bool {
    &&& response.node_address@ == node.address@
    &&& response.dim == 0 || (response.dim == sizes.dim && response.n_layers == sizes.n_layers
        && response.n_experts == sizes.n_experts)
}

/// Discovery is refused exactly where the answer of some worker is not its own or names another
/// model.
pub proof fn discoveries_are_accepted_where_all_fit(
    nodes: Seq<ClusterNodeConfig>,
    sizes: ModelSizes,
    responses: Seq<DiscoverResponseFrame>,
    k: nat,
)
    requires
        k <= nodes.len(),
    ensures
        discoveries_rejection(nodes, sizes, responses, k) is None <==> forall|i: int|
            0 <= i < k && (#[trigger] nodes[i]).role != ClusterNodeRole::Coordinator
                ==> answers_for(
                nodes[i],
                sizes,
                responses[nodes.take(i).filter(working()).len() as int],
            ),
    decreases k,
{
    if k > 0 {
        let m = (k - 1) as nat;
        discoveries_are_accepted_where_all_fit(nodes, sizes, responses, m);
        answers_are_in_the_order_of_the_workers(nodes, m);
        assert(nodes[m as int] == nodes[k - 1]);
    }
}

/// A handshake goes on step by step. A failed contact starts it over after a pause, twice at most
/// and the second time after twice the pause; a failed transfer or a refused reply does not.
pub proof fn failed_contacts_are_repeated_twice(state: HandshakeState)
    ensures
        handshake_action(state, true) matches HandshakeAction::Perform(next) && next.attempt
            == state.attempt && next.step.rank() == if state.step.rank() < 7 {
            state.step.rank() + 1
        } else {
            7
        },
        ({
            let contact = state.step == HandshakeStep::Connect || state.step
                == HandshakeStep::SendHello || state.step == HandshakeStep::SendShardHeader
                || state.step == HandshakeStep::ReceiveReply;
            match handshake_action(state, false) {
                HandshakeAction::Pause { backoff_ms, then } => contact && state.attempt < 2
                    && backoff_ms == 200 * (state.attempt + 1) && then.attempt == state.attempt + 1
                    && then.step == HandshakeStep::Connect,
                HandshakeAction::GiveUp => !contact || state.attempt >= 2,
                HandshakeAction::Perform(_) => false,
            }
        }),
{
}

/// A worker is taken as ready exactly where it repeats the address, the sizes and the number format
/// of its greeting and has loaded as many experts as it was assigned.
pub proof fn ready_workers_repeat_their_greeting(
    hello: HelloView,
    ready: ReadyView,
    result: Result<(), CoordinatorError>,
    address: Seq<char>,
)
    requires
        ready_mismatch(hello, ready, result, address),
    ensures
        result is Ok <==> hello.node_address == ready.node_address && hello.dim == ready.dim
            && hello.n_layers == ready.n_layers && hello.n_experts == ready.n_experts
            && hello.activation_dtype == ready.activation_dtype && ready.loaded_expert_count
            == hello.assigned_experts.len(),
{
}

/// A reply is accepted exactly where it is of the awaited kind, can be read and is for what was
/// asked; an error frame is passed on in its own words.
pub proof fn replies_are_accepted_where_they_answer(
    address: Seq<char>,
    layer: usize,
    dim: usize,
    kind: FrameKind,
    payload: Seq<u8>,
    discovery: Result<DiscoverResponseFrame, CoordinatorError>,
    batch: Result<Vec<ActivationValues>, CoordinatorError>,
    recurrent: Result<Vec<u32>, CoordinatorError>,
)
    requires
        reads_discovery(address, kind, payload, discovery),
        reads_batch(layer, dim, kind, payload, batch),
        reads_ssm(dim, kind, payload, recurrent),
    ensures
        discovery is Ok <==> kind == FrameKind::DiscoverResponse && decoded_discover(payload) is Ok,
        discovery matches Ok(frame) ==> frame@ == decoded_discover(payload)->Ok_0,
        batch is Ok <==> kind == FrameKind::ExpertBatchResponse && (decoded_response(
            payload,
        ) matches Ok((v, _)) && v.layer == layer && v.dim == dim),
        batch matches Ok(outputs) ==> views(outputs@) == decoded_response(payload)->Ok_0.0.outputs,
        recurrent is Ok <==> kind == FrameKind::SsmLayerResponse && (decoded_vector(
            payload,
            ProtocolError::TruncatedSsmResponse,
        ) matches Ok((_, values)) && values.len() == dim),
        recurrent matches Ok(xb2) ==> xb2@ == decoded_vector(
            payload,
            ProtocolError::TruncatedSsmResponse,
        )->Ok_0.1,
        kind == FrameKind::Error && decoded_error(payload) is Ok ==> {
            &&& discovery matches Err(CoordinatorError::DiscoveryRejected { address: a, reason })
                && a@ == address && reason@ == decoded_error(payload)->Ok_0
            &&& batch matches Err(CoordinatorError::BatchRejected(reason)) && reason@
                == decoded_error(payload)->Ok_0
            &&& recurrent matches Err(CoordinatorError::SsmRejected(reason)) && reason@
                == decoded_error(payload)->Ok_0
        },
{
}

} // verus!
