//! Placing the experts of every layer on the nodes of a cluster.
use crate::gguf::StorageError;
use crate::text::{blank, decimal, is_blank, Text};
use vstd::prelude::*;
use vstd::string::*;

verus! {

/// What a node does in the cluster.
#[derive(Clone, Copy, Debug, PartialEq, Eq, Structural)]
pub enum ClusterNodeRole {
    Coordinator,
    Worker,
}

impl ClusterNodeRole {
    /// The name of the role.
    pub open spec fn name(self) -> Seq<char> {
        match self {
            ClusterNodeRole::Coordinator => "coordinator"@,
            ClusterNodeRole::Worker => "worker"@,
        }
    }

    /// The name of the role.
    pub fn as_str(self) -> (name: &'static str)
        ensures
            name@ == self.name(),
    {
        match self {
            ClusterNodeRole::Coordinator => "coordinator",
            ClusterNodeRole::Worker => "worker",
        }
    }
}

/// A node as configured and discovered.
#[derive(Debug)]
pub struct ClusterNodeConfig {
    pub id: String,
    pub address: String,
    pub role: ClusterNodeRole,
    pub logical_cpu_count: Option<usize>,
    pub discovered_memory_bytes: Option<usize>,
}

/// The nodes of a cluster.
#[derive(Debug)]
pub struct ClusterConfig {
    pub node: Vec<ClusterNodeConfig>,
}

/// What the experts of a model need.
#[derive(Clone, Copy, Debug)]
pub struct MoePlacementInventory {
    pub n_layers: usize,
    pub n_experts: usize,
    pub n_experts_used: usize,
    pub dim: usize,
    pub expert_hidden_dim: usize,
    pub checkpoint_bytes: usize,
    pub non_expert_checkpoint_bytes: usize,
    pub gate_bytes_per_expert: usize,
    pub up_bytes_per_expert: usize,
    pub down_bytes_per_expert: usize,
    pub total_bytes_per_expert: usize,
    pub total_bytes_all_experts: usize,
}

/// A node with its budget and its load.
#[derive(Debug)]
pub struct MoePlacementNode {
    pub node_id: String,
    pub role: ClusterNodeRole,
    pub address: String,
    pub logical_cpu_count: usize,
    pub capacity_bytes: usize,
    pub reserved_bytes: usize,
    pub assigned_expert_count: usize,
    pub assigned_bytes: usize,
}

/// Which node holds which expert.
#[derive(Debug)]
pub struct MoePlacementPlan {
    pub inventory: MoePlacementInventory,
    pub coordinator_node_id: String,
    pub nodes: Vec<MoePlacementNode>,
    /// The node of expert `e` of layer `l`, at index `l * n_experts + e`.
    pub expert_node_indices: Vec<usize>,
}

/// The sizes of a model with routed experts.
#[derive(Clone, Copy, Debug)]
pub struct MoeModelConfig {
    pub n_layers: usize,
    pub n_experts: usize,
    pub n_experts_used: usize,
    pub dim: usize,
    pub expert_hidden_dim: usize,
}

/// Why a cluster or a placement is not accepted.
#[derive(Debug)]
pub enum PlacementError {
    NoNodes,
    CoordinatorCount(usize),
    EmptyId,
    EmptyAddress(String),
    NoCoordinator,
    MissingMemory(String),
    BaselineTooLarge { node: String, reserved: usize, capacity: usize },
    CapacityTooSmall { capacity: usize, required: usize },
    ZeroCapacity,
    WeightOverflow,
    AssignmentCountOverflow,
    Unplaceable { expert: usize, layer: usize, expert_bytes: usize },
    NotRouted,
    NoHiddenDim,
    TensorNotFound(String),
    Storage(StorageError),
    UnevenExperts,
    ExpertBytesOverflow,
}

impl PlacementError {
    /// The message text of the error.
    pub open spec fn text(self) -> Seq<char> {
        match self {
            PlacementError::NoNodes => "cluster config must contain at least one [[node]] entry"@,
            PlacementError::CoordinatorCount(found) =>
                "cluster config must contain exactly one coordinator node, found "@ + decimal(
                found as nat,
            ),
            PlacementError::EmptyId => "cluster config contains a node with an empty id"@,
            PlacementError::EmptyAddress(id) => "cluster node '"@ + id@ + "' has an empty address"@,
            PlacementError::NoCoordinator => "cluster config has no coordinator node"@,
            PlacementError::MissingMemory(id) => "node '"@ + id@
                + "' is missing discovered memory bytes for placement"@,
            PlacementError::BaselineTooLarge { node, reserved, capacity } => "node '"@ + node@
                + "' cannot fit its baseline reservation: reserved_bytes="@ + decimal(
                reserved as nat,
            ) + " capacity_bytes="@ + decimal(capacity as nat),
            PlacementError::CapacityTooSmall { capacity, required } => "cluster expert capacity "@
                + decimal(capacity as nat) + " is smaller than required routed-expert bytes "@
                + decimal(required as nat),
            PlacementError::ZeroCapacity =>
                "cluster has zero assignable expert capacity after reservations"@,
            PlacementError::WeightOverflow => "ideal placement weighting overflow"@,
            PlacementError::AssignmentCountOverflow => "expert assignment count overflow"@,
            PlacementError::Unplaceable { expert, layer, expert_bytes } =>
                "unable to place expert "@ + decimal(expert as nat) + " in layer "@ + decimal(
                layer as nat,
            ) + " within declared node memory budgets (expert_bytes="@ + decimal(
                expert_bytes as nat,
            ) + ")"@,
            PlacementError::NotRouted =>
                "distributed planning requires a routed-MoE model with n_experts > 0"@,
            PlacementError::NoHiddenDim =>
                "distributed planning requires expert_hidden_dim > 0 for the current model"@,
            PlacementError::TensorNotFound(name) => "tensor not found: "@ + name@,
            PlacementError::Storage(error) => error.text(),
            PlacementError::UnevenExperts =>
                "expert tensor bytes are not evenly divisible by n_experts; packed expert layout assumption failed"@,
            PlacementError::ExpertBytesOverflow =>
                "expert byte count overflow while building placement plan"@,
        }
    }

    /// The message text of the error.
    pub fn message(&self) -> (message: String)
        ensures
            message@ == self.text(),
    {
        match self {
            PlacementError::NoNodes => Text::start(
                "cluster config must contain at least one [[node]] entry",
            ).finish(),
            PlacementError::CoordinatorCount(found) => Text::start(
                "cluster config must contain exactly one coordinator node, found ",
            ).size(*found).finish(),
            PlacementError::EmptyId => Text::start(
                "cluster config contains a node with an empty id",
            ).finish(),
            PlacementError::EmptyAddress(id) => Text::start("cluster node '").text(
                id.as_str(),
            ).text("' has an empty address").finish(),
            PlacementError::NoCoordinator => Text::start(
                "cluster config has no coordinator node",
            ).finish(),
            PlacementError::MissingMemory(id) => Text::start("node '").text(id.as_str()).text(
                "' is missing discovered memory bytes for placement",
            ).finish(),
            PlacementError::BaselineTooLarge { node, reserved, capacity } => Text::start(
                "node '",
            ).text(node.as_str()).text(
                "' cannot fit its baseline reservation: reserved_bytes=",
            ).size(*reserved).text(" capacity_bytes=").size(*capacity).finish(),
            PlacementError::CapacityTooSmall { capacity, required } => Text::start(
                "cluster expert capacity ",
            ).size(*capacity).text(" is smaller than required routed-expert bytes ").size(
                *required,
            ).finish(),
            PlacementError::ZeroCapacity => Text::start(
                "cluster has zero assignable expert capacity after reservations",
            ).finish(),
            PlacementError::WeightOverflow => Text::start(
                "ideal placement weighting overflow",
            ).finish(),
            PlacementError::AssignmentCountOverflow => Text::start(
                "expert assignment count overflow",
            ).finish(),
            PlacementError::Unplaceable { expert, layer, expert_bytes } => Text::start(
                "unable to place expert ",
            ).size(*expert).text(" in layer ").size(*layer).text(
                " within declared node memory budgets (expert_bytes=",
            ).size(*expert_bytes).text(")").finish(),
            PlacementError::NotRouted => Text::start(
                "distributed planning requires a routed-MoE model with n_experts > 0",
            ).finish(),
            PlacementError::NoHiddenDim => Text::start(
                "distributed planning requires expert_hidden_dim > 0 for the current model",
            ).finish(),
            PlacementError::TensorNotFound(name) => Text::start("tensor not found: ").text(
                name.as_str(),
            ).finish(),
            PlacementError::Storage(error) => error.message(),
            PlacementError::UnevenExperts => Text::start(
                "expert tensor bytes are not evenly divisible by n_experts; packed expert layout assumption failed",
            ).finish(),
            PlacementError::ExpertBytesOverflow => Text::start(
                "expert byte count overflow while building placement plan",
            ).finish(),
        }
    }
}

/// The number of coordinators among nodes.
pub open spec fn coordinators(nodes: Seq<ClusterNodeConfig>) -> nat
    decreases nodes.len(),
{
    if nodes.len() == 0 {
        0
    } else {
        coordinators(nodes.drop_last()) + if nodes.last().role == ClusterNodeRole::Coordinator {
            1nat
        } else {
            0nat
        }
    }
}

/// What is wrong with the names of a node, if anything.
pub open spec fn name_rejection(node: ClusterNodeConfig) -> Option<PlacementError> {
    if is_blank(node.id@) {
        Some(PlacementError::EmptyId)
    } else if is_blank(node.address@) {
        Some(PlacementError::EmptyAddress(node.id))
    } else {
        None
    }
}

/// What is wrong with the names of the first node where anything is.
pub open spec fn names_rejection(nodes: Seq<ClusterNodeConfig>) -> Option<PlacementError>
    decreases nodes.len(),
{
    if nodes.len() == 0 {
        None
    } else {
        match names_rejection(nodes.drop_last()) {
            Some(error) => Some(error),
            None => name_rejection(nodes.last()),
        }
    }
}

/// Why a cluster is not accepted, if it is not.
pub open spec fn cluster_rejection(nodes: Seq<ClusterNodeConfig>) -> Option<PlacementError> {
    if nodes.len() == 0 {
        Some(PlacementError::NoNodes)
    } else if coordinators(nodes) != 1 {
        Some(PlacementError::CoordinatorCount(coordinators(nodes) as usize))
    } else {
        names_rejection(nodes)
    }
}

/// The index of the first coordinator, if there is one.
pub open spec fn first_coordinator(nodes: Seq<ClusterNodeConfig>) -> Option<int>
    decreases nodes.len(),
{
    if nodes.len() == 0 {
        None
    } else {
        match first_coordinator(nodes.drop_last()) {
            Some(i) => Some(i),
            None => if nodes.last().role == ClusterNodeRole::Coordinator {
                Some(nodes.len() - 1)
            } else {
                None
            },
        }
    }
}

proof fn lemma_first_name_rejection(nodes: Seq<ClusterNodeConfig>, k: int)
    requires
        0 < k <= nodes.len(),
        names_rejection(nodes.take(k)) is Some,
    ensures
        names_rejection(nodes) == names_rejection(nodes.take(k)),
    decreases nodes.len() - k,
{
    if k < nodes.len() {
        assert(nodes.take(k + 1).drop_last() =~= nodes.take(k));
        lemma_first_name_rejection(nodes, k + 1);
    } else {
        assert(nodes.take(k) =~= nodes);
    }
}

proof fn lemma_first_coordinator(nodes: Seq<ClusterNodeConfig>, k: int)
    requires
        0 < k <= nodes.len(),
        first_coordinator(nodes.take(k)) is Some,
    ensures
        first_coordinator(nodes) == first_coordinator(nodes.take(k)),
    decreases nodes.len() - k,
{
    if k < nodes.len() {
        assert(nodes.take(k + 1).drop_last() =~= nodes.take(k));
        lemma_first_coordinator(nodes, k + 1);
    } else {
        assert(nodes.take(k) =~= nodes);
    }
}

/// The index found is that of a coordinator, with none before it.
pub proof fn first_coordinator_is_first(nodes: Seq<ClusterNodeConfig>)
    ensures
        match first_coordinator(nodes) {
            Some(i) => 0 <= i < nodes.len() && nodes[i].role == ClusterNodeRole::Coordinator
                && forall|j: int| 0 <= j < i ==> (#[trigger] nodes[j]).role
                != ClusterNodeRole::Coordinator,
            None => forall|j: int| 0 <= j < nodes.len() ==> (#[trigger] nodes[j]).role
                != ClusterNodeRole::Coordinator,
        },
    decreases nodes.len(),
{
    if nodes.len() > 0 {
        let front = nodes.drop_last();
        first_coordinator_is_first(front);
        assert forall|j: int| 0 <= j < front.len() implies front[j] == #[trigger] nodes[j] by {}
    }
}

impl ClusterConfig {
    /// Checks that the cluster has one coordinator and that its nodes are named.
    pub fn validate(&self) -> (result: Result<(), PlacementError>)
        ensures
            match result {
                Ok(_) => cluster_rejection(self.node@) is None,
                Err(error) => cluster_rejection(self.node@) == Some(error),
            },
    {
        if self.node.is_empty() {
            return Err(PlacementError::NoNodes);
        }
        let mut coordinator_count: usize = 0;
        let mut i: usize = 0;
        while i < self.node.len()
            invariant
                i <= self.node@.len(),
                coordinator_count <= i,
                coordinator_count == coordinators(self.node@.take(i as int)),
            decreases self.node.len() - i,
        {
            assert(self.node@.take(i + 1).drop_last() =~= self.node@.take(i as int));
            if self.node[i].role == ClusterNodeRole::Coordinator {
                coordinator_count = coordinator_count + 1;
            }
            i = i + 1;
        }
        assert(self.node@.take(i as int) =~= self.node@);
        if coordinator_count != 1 {
            return Err(PlacementError::CoordinatorCount(coordinator_count));
        }
        let mut k: usize = 0;
        while k < self.node.len()
            invariant
                k <= self.node@.len(),
                self.node@.len() > 0,
                coordinators(self.node@) == 1,
                names_rejection(self.node@.take(k as int)) is None,
            decreases self.node.len() - k,
        {
            let node = &self.node[k];
            proof {
                assert(self.node@.take(k + 1).drop_last() =~= self.node@.take(k as int));
                if names_rejection(self.node@.take(k + 1)) is Some {
                    lemma_first_name_rejection(self.node@, k + 1);
                }
            }
            if blank(node.id.as_str()) {
                return Err(PlacementError::EmptyId);
            }
            if blank(node.address.as_str()) {
                return Err(PlacementError::EmptyAddress(node.id.clone()));
            }
            k = k + 1;
        }
        assert(self.node@.take(k as int) =~= self.node@);
        Ok(())
    }

    /// The index of the coordinator.
    pub fn coordinator_index(&self) -> (result: Result<usize, PlacementError>)
        ensures
            match result {
                Ok(index) => index < self.node@.len() && first_coordinator(self.node@) == Some(
                    index as int,
                ),
                Err(error) => first_coordinator(self.node@) is None && error
                    == PlacementError::NoCoordinator,
            },
    {
        let mut i: usize = 0;
        while i < self.node.len()
            invariant
                i <= self.node@.len(),
                first_coordinator(self.node@.take(i as int)) is None,
            decreases self.node.len() - i,
        {
            proof {
                assert(self.node@.take(i + 1).drop_last() =~= self.node@.take(i as int));
                if first_coordinator(self.node@.take(i + 1)) is Some {
                    lemma_first_coordinator(self.node@, i + 1);
                }
            }
            if self.node[i].role == ClusterNodeRole::Coordinator {
                return Ok(i);
            }
            i = i + 1;
        }
        assert(self.node@.take(i as int) =~= self.node@);
        Err(PlacementError::NoCoordinator)
    }
}

/// The memory a node can give to experts.
pub open spec fn assignable(node: MoePlacementNode) -> int {
    if node.capacity_bytes >= node.reserved_bytes {
        node.capacity_bytes - node.reserved_bytes
    } else {
        0
    }
}

/// The share of a node: its assignable memory times its processors, at least one.
pub open spec fn weight(node: MoePlacementNode) -> int {
    assignable(node) * if node.logical_cpu_count == 0 {
        1
    } else {
        node.logical_cpu_count as int
    }
}

/// Whether a node has room for another expert.
pub open spec fn has_room(node: MoePlacementNode, expert_bytes: int) -> bool {
    node.reserved_bytes + node.assigned_bytes + expert_bytes <= node.capacity_bytes
}

/// The memory a node can give to experts.
pub fn node_assignable_capacity_bytes(node: &MoePlacementNode) -> (bytes: usize)
    ensures
        bytes == assignable(*node),
{
    node.capacity_bytes.saturating_sub(node.reserved_bytes)
}

/// The share of a node.
pub fn node_weight(node: &MoePlacementNode) -> (w: u128)
    ensures
        w == weight(*node),
{
    let bytes: usize = node_assignable_capacity_bytes(node);
    let cpus: usize = if node.logical_cpu_count == 0 { 1 } else { node.logical_cpu_count };
    proof {
        assert(0 <= bytes * cpus <= 0xffff_ffff_ffff_ffff * 0xffff_ffff_ffff_ffff)
            by (nonlinear_arith)
            requires
                0 <= bytes <= 0xffff_ffff_ffff_ffff,
                0 <= cpus <= 0xffff_ffff_ffff_ffff,
        ;
    }
    bytes as u128 * cpus as u128
}

/// The memory of a node that is neither reserved nor assigned.
pub fn available_capacity_bytes(node: &MoePlacementNode) -> (bytes: Option<usize>)
    ensures
        match bytes {
            Some(b) => b == node.capacity_bytes - node.reserved_bytes - node.assigned_bytes,
            None => node.reserved_bytes + node.assigned_bytes > node.capacity_bytes,
        },
{
    match node.reserved_bytes.checked_add(node.assigned_bytes) {
        Some(used) => node.capacity_bytes.checked_sub(used),
        None => None,
    }
}

/// Whether a node has room for another expert.
pub fn can_fit_additional_expert(node: &MoePlacementNode, expert_bytes: usize) -> (r: bool)
    ensures
        r == has_room(*node, expert_bytes as int),
{
    match available_capacity_bytes(node) {
        Some(remaining) => remaining >= expert_bytes,
        None => false,
    }
}

/// Whether a node is a coordinator.
pub open spec fn coordinating() -> spec_fn(ClusterNodeConfig) -> bool {
    |node: ClusterNodeConfig| node.role == ClusterNodeRole::Coordinator
}

/// A cluster is accepted exactly where one of its nodes coordinates and every node has an id and an
/// address.
pub proof fn clusters_have_one_coordinator_and_names(nodes: Seq<ClusterNodeConfig>)
    ensures
        cluster_rejection(nodes) is None <==> {
            &&& nodes.filter(coordinating()).len() == 1
            &&& forall|i: int|
                0 <= i < nodes.len() ==> !is_blank((#[trigger] nodes[i]).id@) && !is_blank(
                    nodes[i].address@,
                )
        },
        nodes.len() > 0 && nodes.filter(coordinating()).len() != 1 ==> cluster_rejection(nodes)
            == Some(
            PlacementError::CoordinatorCount(nodes.filter(coordinating()).len() as usize),
        ),
{
    lemma_coordinators(nodes);
    lemma_names(nodes);
    reveal(Seq::filter);
}

proof fn lemma_coordinators(nodes: Seq<ClusterNodeConfig>)
    ensures
        coordinators(nodes) == nodes.filter(coordinating()).len(),
    decreases nodes.len(),
{
    reveal(Seq::filter);
    if nodes.len() > 0 {
        lemma_coordinators(nodes.drop_last());
    }
}

proof fn lemma_names(nodes: Seq<ClusterNodeConfig>)
    ensures
        names_rejection(nodes) is None <==> forall|i: int|
            0 <= i < nodes.len() ==> !is_blank((#[trigger] nodes[i]).id@) && !is_blank(
                nodes[i].address@,
            ),
    decreases nodes.len(),
{
    if nodes.len() > 0 {
        let front = nodes.drop_last();
        lemma_names(front);
        assert forall|i: int| 0 <= i < front.len() implies front[i] == #[trigger] nodes[i] by {}
        assert(nodes.last() == nodes[nodes.len() - 1]);
        if names_rejection(nodes) is None {
            assert forall|i: int| 0 <= i < nodes.len() implies !is_blank((#[trigger] nodes[i]).id@)
                && !is_blank(nodes[i].address@) by {
                if i < front.len() {
                    assert(front[i] == nodes[i]);
                }
            }
        }
    }
}

} // verus!
