//! The placement plan: local windows on the coordinator, the rest on the preferred workers.
use crate::distributed::placement::{
    assignable, can_fit_additional_expert, first_coordinator, has_room,
    node_assignable_capacity_bytes, ClusterConfig, ClusterNodeConfig, ClusterNodeRole,
    MoePlacementInventory, MoePlacementNode, MoePlacementPlan, PlacementError,
};
use crate::distributed::shares::{ideal_assigned_bytes_by_node, ideals_outcome, pick,
    pick_next_node, picked_node_is_preferred};
use vstd::prelude::*;
use vstd::string::*;

verus! {

/// Marks an expert that has no node yet.
pub const UNASSIGNED_NODE_INDEX: usize = usize::MAX;

/// The first configured node with the given id.
pub open spec fn node_with_id(nodes: Seq<ClusterNodeConfig>, id: Seq<char>) -> Option<
    ClusterNodeConfig,
>
    decreases nodes.len(),
{
    if nodes.len() == 0 {
        None
    } else if nodes[0].id@ == id {
        Some(nodes[0])
    } else {
        node_with_id(nodes.skip(1), id)
    }
}

/// The memory discovered for the node with the given id.
pub open spec fn memory_of(nodes: Seq<ClusterNodeConfig>, id: Seq<char>) -> Option<usize> {
    match node_with_id(nodes, id) {
        Some(node) => node.discovered_memory_bytes,
        None => None,
    }
}

/// The memory reserved on a node for what is not an expert.
pub open spec fn reservation(inventory: MoePlacementInventory, role: ClusterNodeRole) -> usize {
    if role == ClusterNodeRole::Coordinator {
        inventory.non_expert_checkpoint_bytes
    } else {
        0
    }
}

/// A node before any expert is placed.
pub open spec fn empty_node(
    nodes: Seq<ClusterNodeConfig>,
    inventory: MoePlacementInventory,
    i: int,
) -> MoePlacementNode {
    MoePlacementNode {
        node_id: nodes[i].id,
        role: nodes[i].role,
        address: nodes[i].address,
        logical_cpu_count: match nodes[i].logical_cpu_count {
            Some(count) => count,
            None => 1,
        },
        capacity_bytes: memory_of(nodes, nodes[i].id@)->0,
        reserved_bytes: reservation(inventory, nodes[i].role),
        assigned_expert_count: 0,
        assigned_bytes: 0,
    }
}

/// The nodes before any expert is placed.
pub open spec fn empty_nodes(
    nodes: Seq<ClusterNodeConfig>,
    inventory: MoePlacementInventory,
) -> Seq<MoePlacementNode> {
    Seq::new(nodes.len(), |i: int| empty_node(nodes, inventory, i))
}

/// What keeps one of the first `k` nodes from taking part, the first one where anything does.
pub open spec fn budget_rejection(
    nodes: Seq<ClusterNodeConfig>,
    inventory: MoePlacementInventory,
    k: nat,
) -> Option<PlacementError>
    decreases k,
{
    if k == 0 {
        None
    } else {
        match budget_rejection(nodes, inventory, (k - 1) as nat) {
            Some(error) => Some(error),
            None => {
                let node = nodes[k - 1];
                match memory_of(nodes, node.id@) {
                    None => Some(PlacementError::MissingMemory(node.id)),
                    Some(capacity) => if reservation(inventory, node.role) > capacity {
                        Some(
                            PlacementError::BaselineTooLarge {
                                node: node.id,
                                reserved: reservation(inventory, node.role),
                                capacity,
                            },
                        )
                    } else {
                        None
                    },
                }
            },
        }
    }
}

/// The memory that nodes can give to experts.
pub open spec fn assignable_sum(nodes: Seq<MoePlacementNode>) -> int
    decreases nodes.len(),
{
    if nodes.len() == 0 {
        0
    } else {
        assignable_sum(nodes.drop_last()) + assignable(nodes.last())
    }
}

/// The memory that nodes can give to experts, saturating.
pub open spec fn assignable_total(nodes: Seq<MoePlacementNode>) -> int {
    if assignable_sum(nodes) > usize::MAX {
        usize::MAX as int
    } else {
        assignable_sum(nodes)
    }
}

/// The state of a placement: loads, the nodes of experts, and the order of the workers.
#[verifier::ext_equal]
pub struct Placement {
    pub nodes: Seq<MoePlacementNode>,
    pub indices: Seq<usize>,
    pub order: Seq<usize>,
}

/// Nodes after one more expert was placed on node `i`.
pub open spec fn loaded(nodes: Seq<MoePlacementNode>, i: int, expert_bytes: usize) -> Seq<
    MoePlacementNode,
> {
    nodes.update(
        i,
        MoePlacementNode {
            assigned_expert_count: (nodes[i].assigned_expert_count + 1) as usize,
            assigned_bytes: (nodes[i].assigned_bytes + expert_bytes) as usize,
            ..nodes[i]
        },
    )
}

/// The placement after the expert at `flat` was placed on node `i`.
pub open spec fn placed(p: Placement, flat: int, i: usize, expert_bytes: usize) -> Placement {
    Placement {
        nodes: loaded(p.nodes, i as int, expert_bytes),
        indices: p.indices.update(flat, i),
        order: p.order,
    }
}

/// The number of experts of a layer that the coordinator should hold.
pub open spec fn local_target(inventory: MoePlacementInventory) -> int {
    let used = if inventory.n_experts_used == 0 {
        1
    } else {
        inventory.n_experts_used as int
    };
    if used < inventory.n_experts {
        used
    } else {
        inventory.n_experts as int
    }
}

/// The first expert of a layer that the coordinator should hold.
pub open spec fn local_offset(inventory: MoePlacementInventory, layer: int) -> int {
    if inventory.n_experts == 0 || layer * local_target(inventory) > usize::MAX {
        0
    } else {
        layer * local_target(inventory) % inventory.n_experts as int
    }
}

/// The expert of the given rank in the local window of a layer.
pub open spec fn local_expert(inventory: MoePlacementInventory, layer: int, rank: int) -> int {
    let e = local_offset(inventory, layer) + rank;
    if e < inventory.n_experts {
        e
    } else {
        e - inventory.n_experts
    }
}

/// The placement after the first `ranks` experts of a local window were tried, and how many of
/// them the coordinator had room for.
pub open spec fn after_local(
    p: Placement,
    inventory: MoePlacementInventory,
    coordinator: usize,
    layer: int,
    ranks: nat,
) -> (Placement, nat)
    decreases ranks,
{
    if ranks == 0 {
        (p, 0)
    } else {
        let (q, k) = after_local(p, inventory, coordinator, layer, (ranks - 1) as nat);
        if has_room(q.nodes[coordinator as int], inventory.total_bytes_per_expert as int) {
            (
                placed(
                    q,
                    layer * inventory.n_experts + local_expert(inventory, layer, ranks - 1),
                    coordinator,
                    inventory.total_bytes_per_expert,
                ),
                k + 1,
            )
        } else {
            (q, k)
        }
    }
}

/// A sequence with its first `k` items moved to the end.
pub open spec fn rotated(order: Seq<usize>, k: int) -> Seq<usize> {
    order.skip(k) + order.take(k)
}

/// The worker order of the rest of a layer.
pub open spec fn reordered(p: Placement, layer: int, placed_local: nat) -> Placement {
    if p.order.len() == 0 {
        p
    } else {
        Placement { order: rotated(p.order, (layer + placed_local) % p.order.len() as int), ..p }
    }
}

/// The indices of all nodes.
pub open spec fn all_indices(n: nat) -> Seq<usize> {
    Seq::new(n, |i: int| i as usize)
}

/// The node for the next expert: a worker where one has room, else any node with room.
pub open spec fn next_node(p: Placement, ideals: Seq<usize>, expert_bytes: usize) -> Option<usize> {
    match pick(p.nodes, p.order, ideals, expert_bytes as int) {
        Some(i) => Some(i),
        None => pick(p.nodes, all_indices(p.nodes.len()), ideals, expert_bytes as int),
    }
}

/// The placement after the first `experts` experts of a layer that were not local were placed.
pub open spec fn after_rest(
    p: Placement,
    inventory: MoePlacementInventory,
    ideals: Seq<usize>,
    layer: int,
    experts: nat,
) -> Result<Placement, PlacementError>
    decreases experts,
{
    if experts == 0 {
        Ok(p)
    } else {
        let expert = experts - 1;
        match after_rest(p, inventory, ideals, layer, (experts - 1) as nat) {
            Err(error) => Err(error),
            Ok(q) => {
                let flat = layer * inventory.n_experts + expert;
                if q.indices[flat] != UNASSIGNED_NODE_INDEX {
                    Ok(q)
                } else {
                    match next_node(q, ideals, inventory.total_bytes_per_expert) {
                        Some(i) => Ok(placed(q, flat, i, inventory.total_bytes_per_expert)),
                        None => Err(
                            PlacementError::Unplaceable {
                                expert: expert as usize,
                                layer: layer as usize,
                                expert_bytes: inventory.total_bytes_per_expert,
                            },
                        ),
                    }
                }
            },
        }
    }
}

/// The placement after one more layer.
pub open spec fn after_layer(
    p: Placement,
    inventory: MoePlacementInventory,
    coordinator: usize,
    ideals: Seq<usize>,
    layer: int,
) -> Result<Placement, PlacementError> {
    let (q, k) = after_local(p, inventory, coordinator, layer, local_target(inventory) as nat);
    after_rest(reordered(q, layer, k), inventory, ideals, layer, inventory.n_experts as nat)
}

/// The placement after the first `layers` layers.
pub open spec fn after_layers(
    p: Placement,
    inventory: MoePlacementInventory,
    coordinator: usize,
    ideals: Seq<usize>,
    layers: nat,
) -> Result<Placement, PlacementError>
    decreases layers,
{
    if layers == 0 {
        Ok(p)
    } else {
        match after_layers(p, inventory, coordinator, ideals, (layers - 1) as nat) {
            Err(error) => Err(error),
            Ok(q) => after_layer(q, inventory, coordinator, ideals, layers - 1),
        }
    }
}

/// The indices of the workers among the first `k` nodes.
pub open spec fn workers(nodes: Seq<MoePlacementNode>, k: nat) -> Seq<usize>
    decreases k,
{
    if k == 0 {
        Seq::empty()
    } else if nodes[k - 1].role == ClusterNodeRole::Worker {
        workers(nodes, (k - 1) as nat).push((k - 1) as usize)
    } else {
        workers(nodes, (k - 1) as nat)
    }
}

/// The placement before any expert is placed.
pub open spec fn empty_placement(
    nodes: Seq<ClusterNodeConfig>,
    inventory: MoePlacementInventory,
) -> Placement {
    let empty = empty_nodes(nodes, inventory);
    Placement {
        nodes: empty,
        indices: Seq::new(
            (inventory.n_layers * inventory.n_experts) as nat,
            |i: int| UNASSIGNED_NODE_INDEX,
        ),
        order: workers(empty, empty.len()),
    }
}

/// What placing the experts of a model on a cluster gives.
pub open spec fn placement_outcome(
    inventory: MoePlacementInventory,
    nodes: Seq<ClusterNodeConfig>,
) -> Result<Placement, PlacementError> {
    let empty = empty_nodes(nodes, inventory);
    match first_coordinator(nodes) {
        None => Err(PlacementError::NoCoordinator),
        Some(coordinator) => match budget_rejection(nodes, inventory, nodes.len()) {
            Some(error) => Err(error),
            None => if assignable_total(empty) < inventory.total_bytes_all_experts {
                Err(
                    PlacementError::CapacityTooSmall {
                        capacity: assignable_total(empty) as usize,
                        required: inventory.total_bytes_all_experts,
                    },
                )
            } else {
                match ideals_outcome(empty, inventory.total_bytes_all_experts as int) {
                    Err(error) => Err(error),
                    Ok(ideals) => if inventory.n_layers * inventory.n_experts > usize::MAX {
                        Err(PlacementError::AssignmentCountOverflow)
                    } else {
                        after_layers(
                            empty_placement(nodes, inventory),
                            inventory,
                            coordinator as usize,
                            ideals,
                            inventory.n_layers as nat,
                        )
                    },
                }
            },
        },
    }
}

/// The number of places of `x` in a sequence.
pub open spec fn occurrences(s: Seq<usize>, x: usize) -> nat
    decreases s.len(),
{
    if s.len() == 0 {
        0
    } else {
        occurrences(s.drop_last(), x) + if s.last() == x {
            1nat
        } else {
            0nat
        }
    }
}

/// What every step of a placement keeps: loads within memory, loads that agree with the nodes of
/// the experts, and nodes that exist.
pub open spec fn sound(p: Placement, expert_bytes: usize) -> bool {
    &&& forall|i: int|
        0 <= i < p.nodes.len() ==> {
            let node = #[trigger] p.nodes[i];
            &&& node.reserved_bytes + node.assigned_bytes <= node.capacity_bytes
            &&& node.assigned_expert_count == occurrences(p.indices, i as usize)
            &&& node.assigned_bytes == node.assigned_expert_count * expert_bytes
        }
    &&& forall|j: int|
        0 <= j < p.indices.len() ==> #[trigger] p.indices[j] == UNASSIGNED_NODE_INDEX
            || p.indices[j] < p.nodes.len()
    &&& forall|k: int| 0 <= k < p.order.len() ==> #[trigger] p.order[k] < p.nodes.len()
    &&& p.nodes.len() <= usize::MAX
    &&& p.indices.len() <= usize::MAX
}

proof fn lemma_occurrences_update(s: Seq<usize>, j: int, v: usize, x: usize)
    requires
        0 <= j < s.len(),
    ensures
        occurrences(s.update(j, v), x) + (if s[j] == x {
            1nat
        } else {
            0nat
        }) == occurrences(s, x) + (if v == x {
            1nat
        } else {
            0nat
        }),
    decreases s.len(),
{
    let u = s.update(j, v);
    if j == s.len() - 1 {
        assert(u.drop_last() =~= s.drop_last());
    } else {
        assert(u.drop_last() =~= s.drop_last().update(j, v));
        lemma_occurrences_update(s.drop_last(), j, v, x);
    }
}

proof fn lemma_occurrences_bound(s: Seq<usize>, x: usize)
    ensures
        occurrences(s, x) <= s.len(),
    decreases s.len(),
{
    if s.len() > 0 {
        lemma_occurrences_bound(s.drop_last(), x);
    }
}

/// A list that holds another item holds fewer of the first.
pub proof fn lemma_occurrences_missing(s: Seq<usize>, x: usize, j: int)
    requires
        0 <= j < s.len(),
        s[j] != x,
    ensures
        occurrences(s, x) < s.len(),
    decreases s.len(),
{
    if j < s.len() - 1 {
        lemma_occurrences_missing(s.drop_last(), x, j);
    } else {
        lemma_occurrences_bound(s.drop_last(), x);
    }
}

proof fn lemma_no_occurrences(s: Seq<usize>, x: usize)
    requires
        forall|j: int| 0 <= j < s.len() ==> #[trigger] s[j] != x,
    ensures
        occurrences(s, x) == 0,
    decreases s.len(),
{
    if s.len() > 0 {
        assert(s[s.len() - 1] != x);
        assert forall|j: int| 0 <= j < s.drop_last().len() implies #[trigger] s.drop_last()[j]
            != x by {
            assert(s[j] != x);
        }
        lemma_no_occurrences(s.drop_last(), x);
    }
}

/// Placing an expert that has no node on a node with room keeps a placement sound.
proof fn lemma_placed_sound(p: Placement, flat: int, i: usize, expert_bytes: usize)
    requires
        sound(p, expert_bytes),
        0 <= flat < p.indices.len(),
        p.indices[flat] == UNASSIGNED_NODE_INDEX,
        i < p.nodes.len(),
        has_room(p.nodes[i as int], expert_bytes as int),
    ensures
        sound(placed(p, flat, i, expert_bytes), expert_bytes),
        p.nodes[i as int].assigned_expert_count < usize::MAX,
        p.nodes[i as int].assigned_bytes + expert_bytes <= usize::MAX,
{
    let q = placed(p, flat, i, expert_bytes);
    lemma_occurrences_missing(p.indices, i, flat);
    let c = p.nodes[i as int].assigned_expert_count as int;
    assert((c + 1) * expert_bytes == c * expert_bytes + expert_bytes) by (nonlinear_arith);
    assert forall|k: int| 0 <= k < q.nodes.len() implies ({
        let node = #[trigger] q.nodes[k];
        &&& node.reserved_bytes + node.assigned_bytes <= node.capacity_bytes
        &&& node.assigned_expert_count == occurrences(q.indices, k as usize)
        &&& node.assigned_bytes == node.assigned_expert_count * expert_bytes
    }) by {
        lemma_occurrences_update(p.indices, flat, i, k as usize);
        let old_node = p.nodes[k];
    }
    assert forall|j: int| 0 <= j < q.indices.len() implies #[trigger] q.indices[j]
        == UNASSIGNED_NODE_INDEX || q.indices[j] < q.nodes.len() by {
        let old_index = p.indices[j];
    }
}

/// Records that an expert was placed on a node.
pub fn assign_expert_to_node(
    nodes: &mut Vec<MoePlacementNode>,
    expert_node_indices: &mut Vec<usize>,
    flat_idx: usize,
    node_index: usize,
    expert_bytes: usize,
)
    requires
        flat_idx < old(expert_node_indices)@.len(),
        node_index < old(nodes)@.len(),
        old(nodes)@[node_index as int].assigned_expert_count < usize::MAX,
        old(nodes)@[node_index as int].assigned_bytes + expert_bytes <= usize::MAX,
    ensures
        final(nodes)@ == loaded(old(nodes)@, node_index as int, expert_bytes),
        final(expert_node_indices)@ == old(expert_node_indices)@.update(
            flat_idx as int,
            node_index,
        ),
{
    expert_node_indices.set(flat_idx, node_index);
    let count: usize = nodes[node_index].assigned_expert_count + 1;
    let bytes: usize = nodes[node_index].assigned_bytes + expert_bytes;
    nodes[node_index].assigned_expert_count = count;
    nodes[node_index].assigned_bytes = bytes;
    assert(nodes@ =~= loaded(old(nodes)@, node_index as int, expert_bytes));
}

fn find_memory(cluster: &ClusterConfig, id: &String) -> (result: Option<usize>)
    ensures
        result == memory_of(cluster.node@, id@),
{
    let mut i: usize = 0;
    assert(cluster.node@.skip(0) =~= cluster.node@);
    while i < cluster.node.len()
        invariant
            i <= cluster.node@.len(),
            node_with_id(cluster.node@, id@) == node_with_id(cluster.node@.skip(i as int), id@),
        decreases cluster.node.len() - i,
    {
        let node = &cluster.node[i];
        assert(cluster.node@.skip(i as int)[0] == *node);
        assert(cluster.node@.skip(i as int).skip(1) =~= cluster.node@.skip(i + 1));
        if node.id == *id {
            return node.discovered_memory_bytes;
        }
        i = i + 1;
    }
    None
}

proof fn lemma_first_budget_rejection(
    nodes: Seq<ClusterNodeConfig>,
    inventory: MoePlacementInventory,
    k: nat,
    n: nat,
)
    requires
        k <= n,
        budget_rejection(nodes, inventory, k) is Some,
    ensures
        budget_rejection(nodes, inventory, n) == budget_rejection(nodes, inventory, k),
    decreases n,
{
    if k < n {
        lemma_first_budget_rejection(nodes, inventory, k, (n - 1) as nat);
    }
}

fn prepare_nodes(inventory: &MoePlacementInventory, cluster: &ClusterConfig) -> (result: Result<
    Vec<MoePlacementNode>,
    PlacementError,
>)
    ensures
        match result {
            Ok(nodes) => budget_rejection(cluster.node@, *inventory, cluster.node@.len()) is None
                && nodes@ == empty_nodes(cluster.node@, *inventory),
            Err(error) => budget_rejection(cluster.node@, *inventory, cluster.node@.len()) == Some(
                error,
            ),
        },
{
    let mut nodes: Vec<MoePlacementNode> = Vec::new();
    let mut i: usize = 0;
    while i < cluster.node.len()
        invariant
            i <= cluster.node@.len(),
            budget_rejection(cluster.node@, *inventory, i as nat) is None,
            nodes@ == empty_nodes(cluster.node@, *inventory).take(i as int),
        decreases cluster.node.len() - i,
    {
        let node = &cluster.node[i];
        proof {
            if budget_rejection(cluster.node@, *inventory, (i + 1) as nat) is Some {
                lemma_first_budget_rejection(
                    cluster.node@,
                    *inventory,
                    (i + 1) as nat,
                    cluster.node@.len(),
                );
            }
        }
        let capacity: usize = match find_memory(cluster, &node.id) {
            Some(bytes) => bytes,
            None => return Err(PlacementError::MissingMemory(node.id.clone())),
        };
        let reserved: usize = if node.role == ClusterNodeRole::Coordinator {
            inventory.non_expert_checkpoint_bytes
        } else {
            0
        };
        if reserved > capacity {
            return Err(
                PlacementError::BaselineTooLarge { node: node.id.clone(), reserved, capacity },
            );
        }
        let logical_cpu_count: usize = match node.logical_cpu_count {
            Some(count) => count,
            None => 1,
        };
        nodes.push(
            MoePlacementNode {
                node_id: node.id.clone(),
                role: node.role,
                address: node.address.clone(),
                logical_cpu_count,
                capacity_bytes: capacity,
                reserved_bytes: reserved,
                assigned_expert_count: 0,
                assigned_bytes: 0,
            },
        );
        assert(nodes@ =~= empty_nodes(cluster.node@, *inventory).take(i + 1));
        i = i + 1;
    }
    assert(nodes@ =~= empty_nodes(cluster.node@, *inventory));
    Ok(nodes)
}

proof fn lemma_assignable_sum_grows(nodes: Seq<MoePlacementNode>, k: int)
    requires
        0 <= k <= nodes.len(),
    ensures
        0 <= assignable_sum(nodes.take(k)) <= assignable_sum(nodes),
    decreases nodes.len(),
{
    if k == nodes.len() {
        assert(nodes.take(k) =~= nodes);
        if nodes.len() > 0 {
            lemma_assignable_sum_grows(nodes.drop_last(), k - 1);
        }
    } else {
        assert(nodes.drop_last().take(k) =~= nodes.take(k));
        lemma_assignable_sum_grows(nodes.drop_last(), k);
    }
}

fn sum_assignable(nodes: &Vec<MoePlacementNode>) -> (total: usize)
    ensures
        total == assignable_total(nodes@),
{
    let mut total: usize = 0;
    let mut i: usize = 0;
    while i < nodes.len()
        invariant
            i <= nodes@.len(),
            total == assignable_total(nodes@.take(i as int)),
        decreases nodes.len() - i,
    {
        proof {
            assert(nodes@.take(i + 1).drop_last() =~= nodes@.take(i as int));
            lemma_assignable_sum_grows(nodes@.take(i + 1), i as int);
            assert(nodes@.take(i + 1).take(i as int) =~= nodes@.take(i as int));
        }
        total = total.saturating_add(node_assignable_capacity_bytes(&nodes[i]));
        i = i + 1;
    }
    assert(nodes@.take(i as int) =~= nodes@);
    total
}

fn worker_indices(nodes: &Vec<MoePlacementNode>) -> (order: Vec<usize>)
    ensures
        order@ == workers(nodes@, nodes@.len()),
        forall|k: int| 0 <= k < order@.len() ==> #[trigger] order@[k] < nodes@.len(),
{
    let mut order: Vec<usize> = Vec::new();
    let mut i: usize = 0;
    while i < nodes.len()
        invariant
            i <= nodes@.len(),
            order@ == workers(nodes@, i as nat),
            forall|k: int| 0 <= k < order@.len() ==> #[trigger] order@[k] < nodes@.len(),
        decreases nodes.len() - i,
    {
        if nodes[i].role == ClusterNodeRole::Worker {
            order.push(i);
        }
        i = i + 1;
    }
    order
}

fn rotate(order: &Vec<usize>, k: usize) -> (out: Vec<usize>)
    requires
        k <= order@.len(),
    ensures
        out@ == rotated(order@, k as int),
{
    let mut out: Vec<usize> = Vec::new();
    let mut i: usize = k;
    while i < order.len()
        invariant
            k <= i <= order@.len(),
            out@ == order@.subrange(k as int, i as int),
        decreases order.len() - i,
    {
        out.push(order[i]);
        assert(out@ =~= order@.subrange(k as int, i + 1));
        i = i + 1;
    }
    let ghost tail = out@;
    let mut j: usize = 0;
    while j < k
        invariant
            j <= k <= order@.len(),
            out@ == tail + order@.take(j as int),
        decreases k - j,
    {
        out.push(order[j]);
        assert(out@ =~= tail + order@.take(j + 1));
        j = j + 1;
    }
    assert(out@ =~= rotated(order@, k as int));
    out
}

/// Whether the experts of a layer from `from` on have no node.
pub open spec fn unassigned_from(indices: Seq<usize>, from: int) -> bool {
    forall|j: int| from <= j < indices.len() ==> #[trigger] indices[j] == UNASSIGNED_NODE_INDEX
}

/// The place of an expert lies in the part of its layer.
pub proof fn lemma_flat_in_range(layer: int, n: int, layers: int, e: int)
    requires
        0 <= layer < layers,
        0 <= e < n,
    ensures
        0 <= layer * n + e < (layer + 1) * n <= layers * n,
        (layer + 1) * n == layer * n + n,
        0 <= layer * n,
{
    assert((layer + 1) * n == layer * n + n) by (nonlinear_arith);
    assert((layer + 1) * n <= layers * n) by (nonlinear_arith)
        requires
            layer + 1 <= layers,
            n >= 0,
    ;
    assert(0 <= layer * n) by (nonlinear_arith)
        requires
            layer >= 0,
            n >= 0,
    ;
}

/// What a local pass keeps: the placement stays sound, no later layer is touched, and a place of
/// the layer has a node only if its rank was tried.
pub proof fn lemma_after_local(
    p: Placement,
    inventory: MoePlacementInventory,
    coordinator: usize,
    layer: int,
    ranks: nat,
)
    requires
        sound(p, inventory.total_bytes_per_expert),
        0 <= layer < inventory.n_layers,
        p.indices.len() == inventory.n_layers * inventory.n_experts,
        unassigned_from(p.indices, layer * inventory.n_experts),
        coordinator < p.nodes.len(),
        ranks <= local_target(inventory),
    ensures
        ({
            let (q, k) = after_local(p, inventory, coordinator, layer, ranks);
            &&& sound(q, inventory.total_bytes_per_expert)
            &&& q.nodes.len() == p.nodes.len()
            &&& q.indices.len() == p.indices.len()
            &&& q.order == p.order
            &&& k <= ranks
            &&& unassigned_from(q.indices, (layer + 1) * inventory.n_experts)
            &&& forall|e: int|
                0 <= e < inventory.n_experts && (forall|r: int|
                    0 <= r < ranks ==> #[trigger] local_expert(inventory, layer, r) != e)
                    ==> #[trigger] q.indices[layer * inventory.n_experts + e]
                    == UNASSIGNED_NODE_INDEX
        }),
    decreases ranks,
{
    let n = inventory.n_experts as int;
    if ranks == 0 {
        assert(layer * n <= (layer + 1) * n) by (nonlinear_arith)
            requires
                n >= 0,
        ;
        assert forall|e: int| 0 <= e < n implies #[trigger] p.indices[layer * n + e]
            == UNASSIGNED_NODE_INDEX by {
            lemma_flat_in_range(layer, n, inventory.n_layers as int, e);
        }
    } else {
        lemma_after_local(p, inventory, coordinator, layer, (ranks - 1) as nat);
        let (q, k) = after_local(p, inventory, coordinator, layer, (ranks - 1) as nat);
        let e0 = local_expert(inventory, layer, ranks - 1);
        lemma_local_expert_range(inventory, layer, ranks - 1);
        lemma_flat_in_range(layer, n, inventory.n_layers as int, e0);
        let flat = layer * n + e0;
        if has_room(q.nodes[coordinator as int], inventory.total_bytes_per_expert as int) {
            assert forall|r: int| 0 <= r < ranks - 1 implies #[trigger] local_expert(
                inventory,
                layer,
                r,
            ) != e0 by {
                lemma_local_expert_range(inventory, layer, r);
            }
            assert(q.indices[layer * n + e0] == UNASSIGNED_NODE_INDEX);
            lemma_placed_sound(q, flat, coordinator, inventory.total_bytes_per_expert);
            let s = placed(q, flat, coordinator, inventory.total_bytes_per_expert);
            assert forall|j: int| (layer + 1) * n <= j < s.indices.len() implies #[trigger] s.indices[j]
                == UNASSIGNED_NODE_INDEX by {
                assert(q.indices[j] == UNASSIGNED_NODE_INDEX);
            }
            assert forall|e: int|
                0 <= e < n && (forall|r: int|
                    0 <= r < ranks ==> #[trigger] local_expert(inventory, layer, r)
                        != e) implies #[trigger] s.indices[layer * n + e]
                == UNASSIGNED_NODE_INDEX by {
                assert(local_expert(inventory, layer, ranks - 1) != e);
                assert(q.indices[layer * n + e] == UNASSIGNED_NODE_INDEX);
            }
        } else {
            assert forall|e: int|
                0 <= e < n && (forall|r: int|
                    0 <= r < ranks ==> #[trigger] local_expert(inventory, layer, r)
                        != e) implies #[trigger] q.indices[layer * n + e]
                == UNASSIGNED_NODE_INDEX by {
                assert forall|r: int| 0 <= r < ranks - 1 implies #[trigger] local_expert(
                    inventory,
                    layer,
                    r,
                ) != e by {}
            }
        }
    }
}

/// The experts kept on the coordinator are experts of the model.
pub proof fn lemma_local_expert_range(inventory: MoePlacementInventory, layer: int, rank: int)
    requires
        0 <= rank < local_target(inventory),
    ensures
        0 <= local_expert(inventory, layer, rank) < inventory.n_experts,
        0 <= local_offset(inventory, layer) < inventory.n_experts,
{
    let n = inventory.n_experts as int;
    let t = local_target(inventory);
    assert(0 <= (layer * t) % n < n) by (nonlinear_arith)
        requires
            n > 0,
    ;
}

/// Placing the remaining experts of a layer keeps the placement sound.
pub proof fn lemma_after_rest(
    p: Placement,
    inventory: MoePlacementInventory,
    ideals: Seq<usize>,
    layer: int,
    experts: nat,
)
    requires
        sound(p, inventory.total_bytes_per_expert),
        0 <= layer < inventory.n_layers,
        p.indices.len() == inventory.n_layers * inventory.n_experts,
        unassigned_from(p.indices, (layer + 1) * inventory.n_experts),
        experts <= inventory.n_experts,
    ensures
        after_rest(p, inventory, ideals, layer, experts) matches Ok(q) ==> {
            &&& sound(q, inventory.total_bytes_per_expert)
            &&& q.nodes.len() == p.nodes.len()
            &&& q.indices.len() == p.indices.len()
            &&& q.order == p.order
            &&& unassigned_from(q.indices, (layer + 1) * inventory.n_experts)
            &&& forall|e: int|
                0 <= e < experts ==> #[trigger] q.indices[layer * inventory.n_experts + e]
                    != UNASSIGNED_NODE_INDEX
            &&& forall|j: int|
                0 <= j < p.indices.len() && p.indices[j] != UNASSIGNED_NODE_INDEX
                    ==> #[trigger] q.indices[j] == p.indices[j]
        },
    decreases experts,
{
    let n = inventory.n_experts as int;
    if experts > 0 {
        lemma_after_rest(p, inventory, ideals, layer, (experts - 1) as nat);
        match after_rest(p, inventory, ideals, layer, (experts - 1) as nat) {
            Err(_) => {},
            Ok(q) => {
                let flat = layer * n + (experts - 1);
                lemma_flat_in_range(layer, n, inventory.n_layers as int, experts - 1);
                if q.indices[flat] == UNASSIGNED_NODE_INDEX {
                    match next_node(q, ideals, inventory.total_bytes_per_expert) {
                        None => {},
                        Some(i) => {
                            lemma_next_node(q, ideals, inventory.total_bytes_per_expert);
                            lemma_placed_sound(q, flat, i, inventory.total_bytes_per_expert);
                            let s = placed(q, flat, i, inventory.total_bytes_per_expert);
                            assert forall|j: int| (layer + 1) * n <= j
                                < s.indices.len() implies #[trigger] s.indices[j]
                                == UNASSIGNED_NODE_INDEX by {
                                assert(q.indices[j] == UNASSIGNED_NODE_INDEX);
                            }
                            assert forall|e: int| 0 <= e < experts implies #[trigger] s.indices[layer
                                * n + e] != UNASSIGNED_NODE_INDEX by {
                                if e < experts - 1 {
                                    assert(q.indices[layer * n + e] != UNASSIGNED_NODE_INDEX);
                                }
                            }
                        },
                    }
                }
            },
        }
    }
}

/// The next node has room for an expert.
pub proof fn lemma_next_node(p: Placement, ideals: Seq<usize>, expert_bytes: usize)
    requires
        sound(p, expert_bytes),
    ensures
        next_node(p, ideals, expert_bytes) matches Some(i) ==> i < p.nodes.len() && has_room(
            p.nodes[i as int],
            expert_bytes as int,
        ),
{
    picked_node_is_preferred(p.nodes, p.order, ideals, expert_bytes as int);
    let all = all_indices(p.nodes.len());
    picked_node_is_preferred(p.nodes, all, ideals, expert_bytes as int);
}

/// Another order of the nodes keeps the placement sound.
pub proof fn lemma_reordered_sound(p: Placement, layer: int, k: nat, expert_bytes: usize)
    requires
        sound(p, expert_bytes),
        layer >= 0,
    ensures
        sound(reordered(p, layer, k), expert_bytes),
{
    if p.order.len() > 0 {
        let m = (layer + k) % p.order.len() as int;
        let q = reordered(p, layer, k);
        assert forall|j: int| 0 <= j < q.order.len() implies #[trigger] q.order[j]
            < q.nodes.len() by {
            if j < p.order.len() - m {
                assert(q.order[j] == p.order[j + m]);
            } else {
                assert(q.order[j] == p.order[j - (p.order.len() - m)]);
            }
        }
    }
}

/// What every finished layer keeps.
pub proof fn lemma_after_layers(
    p: Placement,
    inventory: MoePlacementInventory,
    coordinator: usize,
    ideals: Seq<usize>,
    layers: nat,
)
    requires
        sound(p, inventory.total_bytes_per_expert),
        p.indices.len() == inventory.n_layers * inventory.n_experts,
        unassigned_from(p.indices, 0),
        coordinator < p.nodes.len(),
        layers <= inventory.n_layers,
    ensures
        after_layers(p, inventory, coordinator, ideals, layers) matches Ok(q) ==> {
            &&& sound(q, inventory.total_bytes_per_expert)
            &&& q.nodes.len() == p.nodes.len()
            &&& q.indices.len() == p.indices.len()
            &&& unassigned_from(q.indices, layers * inventory.n_experts)
            &&& forall|j: int|
                0 <= j < layers * inventory.n_experts ==> #[trigger] q.indices[j]
                    != UNASSIGNED_NODE_INDEX
        },
    decreases layers,
{
    let n = inventory.n_experts as int;
    if layers == 0 {
        assert(0 * n == 0) by (nonlinear_arith);
    } else {
        let layer = layers - 1;
        lemma_after_layers(p, inventory, coordinator, ideals, (layers - 1) as nat);
        match after_layers(p, inventory, coordinator, ideals, (layers - 1) as nat) {
            Err(_) => {},
            Ok(q) => {
                let t = local_target(inventory) as nat;
                lemma_after_local(q, inventory, coordinator, layer, t);
                let (r, k) = after_local(q, inventory, coordinator, layer, t);
                lemma_after_local_keeps(q, inventory, coordinator, layer, t);
                lemma_reordered_sound(r, layer, k, inventory.total_bytes_per_expert);
                let s = reordered(r, layer, k);
                lemma_after_rest(s, inventory, ideals, layer, inventory.n_experts as nat);
                match after_rest(s, inventory, ideals, layer, inventory.n_experts as nat) {
                    Err(_) => {},
                    Ok(u) => {
                        assert((layer + 1) * n == layer * n + n) by (nonlinear_arith);
                        assert forall|j: int| 0 <= j < layers * n implies #[trigger] u.indices[j]
                            != UNASSIGNED_NODE_INDEX by {
                            assert(layers * n <= u.indices.len()) by (nonlinear_arith)
                                requires
                                    layers <= inventory.n_layers,
                                    u.indices.len() == inventory.n_layers * n,
                                    n >= 0,
                            ;
                            if j < layer * n {
                                assert(q.indices[j] != UNASSIGNED_NODE_INDEX);
                                assert(r.indices[j] == q.indices[j]);
                            } else {
                                let e = j - layer * n;
                                assert(u.indices[layer * n + e] != UNASSIGNED_NODE_INDEX);
                            }
                        }
                    },
                }
            },
        }
    }
}

/// A local pass leaves the experts of other layers where they are.
pub proof fn lemma_after_local_keeps(
    p: Placement,
    inventory: MoePlacementInventory,
    coordinator: usize,
    layer: int,
    ranks: nat,
)
    requires
        0 <= layer < inventory.n_layers,
        p.indices.len() == inventory.n_layers * inventory.n_experts,
        ranks <= local_target(inventory),
    ensures
        ({
            let (q, k) = after_local(p, inventory, coordinator, layer, ranks);
            &&& q.indices.len() == p.indices.len()
            &&& forall|j: int|
                0 <= j < layer * inventory.n_experts ==> #[trigger] q.indices[j] == p.indices[j]
        }),
    decreases ranks,
{
    if ranks > 0 {
        lemma_after_local_keeps(p, inventory, coordinator, layer, (ranks - 1) as nat);
        lemma_local_expert_range(inventory, layer, ranks - 1);
        lemma_flat_in_range(
            layer,
            inventory.n_experts as int,
            inventory.n_layers as int,
            local_expert(inventory, layer, ranks - 1),
        );
    }
}

proof fn lemma_rest_stays_rejected(
    p: Placement,
    inventory: MoePlacementInventory,
    ideals: Seq<usize>,
    layer: int,
    k: nat,
    n: nat,
)
    requires
        k <= n,
        after_rest(p, inventory, ideals, layer, k) is Err,
    ensures
        after_rest(p, inventory, ideals, layer, n) == after_rest(p, inventory, ideals, layer, k),
    decreases n,
{
    if k < n {
        lemma_rest_stays_rejected(p, inventory, ideals, layer, k, (n - 1) as nat);
    }
}

proof fn lemma_layers_stay_rejected(
    p: Placement,
    inventory: MoePlacementInventory,
    coordinator: usize,
    ideals: Seq<usize>,
    k: nat,
    n: nat,
)
    requires
        k <= n,
        after_layers(p, inventory, coordinator, ideals, k) is Err,
    ensures
        after_layers(p, inventory, coordinator, ideals, n) == after_layers(
            p,
            inventory,
            coordinator,
            ideals,
            k,
        ),
    decreases n,
{
    if k < n {
        lemma_layers_stay_rejected(p, inventory, coordinator, ideals, k, (n - 1) as nat);
    }
}

fn place_local_window(
    nodes: &mut Vec<MoePlacementNode>,
    indices: &mut Vec<usize>,
    order: &Vec<usize>,
    inventory: &MoePlacementInventory,
    coordinator: usize,
    layer: usize,
) -> (placed_local: usize)
    requires
        sound(
            Placement { nodes: old(nodes)@, indices: old(indices)@, order: order@ },
            inventory.total_bytes_per_expert,
        ),
        layer < inventory.n_layers,
        old(indices)@.len() == inventory.n_layers * inventory.n_experts,
        unassigned_from(old(indices)@, layer * inventory.n_experts),
        coordinator < old(nodes)@.len(),
    ensures
        after_local(
            Placement { nodes: old(nodes)@, indices: old(indices)@, order: order@ },
            *inventory,
            coordinator,
            layer as int,
            local_target(*inventory) as nat,
        ) == (
            Placement { nodes: final(nodes)@, indices: final(indices)@, order: order@ },
            placed_local as nat,
        ),
        placed_local <= inventory.n_experts,
{
    let used: usize = if inventory.n_experts_used == 0 { 1 } else { inventory.n_experts_used };
    let target: usize = if used < inventory.n_experts { used } else { inventory.n_experts };
    let n: usize = inventory.n_experts;
    let offset: usize = if n == 0 {
        0
    } else {
        match layer.checked_mul(target) {
            Some(value) => value % n,
            None => 0,
        }
    };
    assert(offset == local_offset(*inventory, layer as int));
    let ghost p = Placement { nodes: nodes@, indices: indices@, order: order@ };
    let mut placed_local: usize = 0;
    let mut rank: usize = 0;
    while rank < target
        invariant
            rank <= target <= n,
            target == local_target(*inventory),
            n == inventory.n_experts,
            target > 0 ==> offset < n,
            offset == local_offset(*inventory, layer as int),
            placed_local <= rank,
            layer < inventory.n_layers,
            p.indices.len() == inventory.n_layers * inventory.n_experts,
            indices@.len() == p.indices.len(),
            coordinator < p.nodes.len(),
            p.nodes.len() == nodes@.len(),
            sound(p, inventory.total_bytes_per_expert),
            unassigned_from(p.indices, layer * inventory.n_experts),
            after_local(p, *inventory, coordinator, layer as int, rank as nat) == (
                Placement { nodes: nodes@, indices: indices@, order: order@ },
                placed_local as nat,
            ),
            p.order == order@,
        decreases target - rank,
    {
        let ghost q = Placement { nodes: nodes@, indices: indices@, order: order@ };
        proof {
            lemma_after_local(p, *inventory, coordinator, layer as int, rank as nat);
        }
        if can_fit_additional_expert(&nodes[coordinator], inventory.total_bytes_per_expert) {
            let expert: usize = if rank < n - offset { offset + rank } else { rank - (n - offset) };
            assert(expert == local_expert(*inventory, layer as int, rank as int));
            proof {
                lemma_flat_in_range(
                    layer as int,
                    n as int,
                    inventory.n_layers as int,
                    expert as int,
                );
                assert forall|r: int| 0 <= r < rank implies #[trigger] local_expert(
                    *inventory,
                    layer as int,
                    r,
                ) != expert by {
                    lemma_local_expert_range(*inventory, layer as int, r);
                }
                assert(q.indices[layer * n + expert] == UNASSIGNED_NODE_INDEX);
                lemma_placed_sound(
                    q,
                    layer * n + expert,
                    coordinator,
                    inventory.total_bytes_per_expert,
                );
                assert(layer * n <= indices@.len());
            }
            let flat: usize = layer * n + expert;
            assign_expert_to_node(
                nodes,
                indices,
                flat,
                coordinator,
                inventory.total_bytes_per_expert,
            );
            placed_local = placed_local + 1;
        }
        rank = rank + 1;
    }
    placed_local
}

fn place_rest(
    nodes: &mut Vec<MoePlacementNode>,
    indices: &mut Vec<usize>,
    order: &Vec<usize>,
    all: &Vec<usize>,
    ideals: &Vec<usize>,
    inventory: &MoePlacementInventory,
    layer: usize,
) -> (result: Result<(), PlacementError>)
    requires
        sound(
            Placement { nodes: old(nodes)@, indices: old(indices)@, order: order@ },
            inventory.total_bytes_per_expert,
        ),
        layer < inventory.n_layers,
        old(indices)@.len() == inventory.n_layers * inventory.n_experts,
        unassigned_from(old(indices)@, (layer + 1) * inventory.n_experts),
        all@ == all_indices(old(nodes)@.len()),
        ideals@.len() == old(nodes)@.len(),
    ensures
        ({
            let p = Placement { nodes: old(nodes)@, indices: old(indices)@, order: order@ };
            let outcome = after_rest(
                p,
                *inventory,
                ideals@,
                layer as int,
                inventory.n_experts as nat,
            );
            match result {
                Ok(_) => outcome == Ok::<Placement, PlacementError>(
                    Placement { nodes: final(nodes)@, indices: final(indices)@, order: order@ },
                ),
                Err(error) => outcome == Err::<Placement, PlacementError>(error),
            }
        }),
{
    let n: usize = inventory.n_experts;
    let ghost p = Placement { nodes: nodes@, indices: indices@, order: order@ };
    let mut expert: usize = 0;
    while expert < n
        invariant
            expert <= n,
            n == inventory.n_experts,
            layer < inventory.n_layers,
            p.indices.len() == inventory.n_layers * inventory.n_experts,
            indices@.len() == p.indices.len(),
            nodes@.len() == p.nodes.len(),
            all@ == all_indices(p.nodes.len()),
            ideals@.len() == p.nodes.len(),
            p == (Placement { nodes: old(nodes)@, indices: old(indices)@, order: order@ }),
            sound(p, inventory.total_bytes_per_expert),
            unassigned_from(p.indices, (layer + 1) * inventory.n_experts),
            after_rest(p, *inventory, ideals@, layer as int, expert as nat) == Ok::<
                Placement,
                PlacementError,
            >(Placement { nodes: nodes@, indices: indices@, order: order@ }),
        decreases n - expert,
    {
        let ghost q = Placement { nodes: nodes@, indices: indices@, order: order@ };
        proof {
            lemma_after_rest(p, *inventory, ideals@, layer as int, expert as nat);
            lemma_flat_in_range(layer as int, n as int, inventory.n_layers as int, expert as int);
            assert(layer * n <= indices@.len());
            if after_rest(p, *inventory, ideals@, layer as int, (expert + 1) as nat) is Err {
                lemma_rest_stays_rejected(
                    p,
                    *inventory,
                    ideals@,
                    layer as int,
                    (expert + 1) as nat,
                    n as nat,
                );
            }
        }
        let flat: usize = layer * n + expert;
        if indices[flat] == UNASSIGNED_NODE_INDEX {
            let first = pick_next_node(nodes, order, ideals, inventory.total_bytes_per_expert);
            let choice = match first {
                Some(i) => Some(i),
                None => pick_next_node(nodes, all, ideals, inventory.total_bytes_per_expert),
            };
            match choice {
                None => return Err(
                    PlacementError::Unplaceable {
                        expert,
                        layer,
                        expert_bytes: inventory.total_bytes_per_expert,
                    },
                ),
                Some(i) => {
                    proof {
                        lemma_placed_sound(q, flat as int, i, inventory.total_bytes_per_expert);
                    }
                    assign_expert_to_node(
                        nodes,
                        indices,
                        flat,
                        i,
                        inventory.total_bytes_per_expert,
                    );
                },
            }
        }
        expert = expert + 1;
    }
    Ok(())
}

proof fn lemma_workers_exist(nodes: Seq<MoePlacementNode>, k: nat)
    requires
        k <= nodes.len() <= usize::MAX,
    ensures
        forall|j: int| 0 <= j < workers(nodes, k).len() ==> #[trigger] workers(nodes, k)[j] < k,
    decreases k,
{
    if k > 0 {
        lemma_workers_exist(nodes, (k - 1) as nat);
        let w = workers(nodes, (k - 1) as nat);
        assert forall|j: int| 0 <= j < workers(nodes, k).len() implies #[trigger] workers(
            nodes,
            k,
        )[j] < k by {
            if j < w.len() {
                assert(w[j] < k - 1);
            }
        }
    }
}

/// A placement without experts is sound.
pub proof fn lemma_empty_placement(nodes: Seq<ClusterNodeConfig>, inventory: MoePlacementInventory)
    requires
        budget_rejection(nodes, inventory, nodes.len()) is None,
        nodes.len() <= usize::MAX,
        inventory.n_layers * inventory.n_experts <= usize::MAX,
    ensures
        ({
            let p = empty_placement(nodes, inventory);
            &&& sound(p, inventory.total_bytes_per_expert)
            &&& p.nodes.len() == nodes.len()
            &&& p.indices.len() == inventory.n_layers * inventory.n_experts
            &&& unassigned_from(p.indices, 0)
        }),
{
    let p = empty_placement(nodes, inventory);
    assert(inventory.n_layers * inventory.n_experts >= 0) by (nonlinear_arith);
    lemma_workers_exist(p.nodes, p.nodes.len());
    assert forall|i: int| 0 <= i < p.nodes.len() implies ({
        let node = #[trigger] p.nodes[i];
        &&& node.reserved_bytes + node.assigned_bytes <= node.capacity_bytes
        &&& node.assigned_expert_count == occurrences(p.indices, i as usize)
        &&& node.assigned_bytes == node.assigned_expert_count
            * inventory.total_bytes_per_expert
    }) by {
        lemma_no_occurrences(p.indices, i as usize);
        lemma_budget_accepted(nodes, inventory, nodes.len(), i);
        assert(p.nodes[i] == empty_node(nodes, inventory, i));
        assert(0 * inventory.total_bytes_per_expert == 0) by (nonlinear_arith);
    }
}

/// A node of an accepted cluster has memory, and room for its reservation.
pub proof fn lemma_budget_accepted(
    nodes: Seq<ClusterNodeConfig>,
    inventory: MoePlacementInventory,
    k: nat,
    i: int,
)
    requires
        budget_rejection(nodes, inventory, k) is None,
        0 <= i < k,
    ensures
        memory_of(nodes, nodes[i].id@) is Some,
        reservation(inventory, nodes[i].role) <= memory_of(nodes, nodes[i].id@)->0,
    decreases k,
{
    if i < k - 1 {
        lemma_budget_accepted(nodes, inventory, (k - 1) as nat, i);
    }
}

fn unassigned(total: usize) -> (indices: Vec<usize>)
    ensures
        indices@ == Seq::new(total as nat, |i: int| UNASSIGNED_NODE_INDEX),
{
    let mut indices: Vec<usize> = Vec::new();
    while indices.len() < total
        invariant
            indices@.len() <= total,
            indices@ == Seq::new(indices@.len(), |i: int| UNASSIGNED_NODE_INDEX),
        decreases total - indices.len(),
    {
        indices.push(UNASSIGNED_NODE_INDEX);
        assert(indices@ =~= Seq::new(indices@.len(), |i: int| UNASSIGNED_NODE_INDEX));
    }
    indices
}

fn index_list(n: usize) -> (all: Vec<usize>)
    ensures
        all@ == all_indices(n as nat),
{
    let mut all: Vec<usize> = Vec::new();
    let mut i: usize = 0;
    while i < n
        invariant
            i <= n,
            all@ == all_indices(i as nat),
        decreases n - i,
    {
        all.push(i);
        i = i + 1;
        assert(all@ =~= all_indices(i as nat));
    }
    all
}

/// Places the experts of a model on the nodes of a cluster.
pub fn build_moe_placement_plan_from_inventory(
    inventory: MoePlacementInventory,
    cluster: &ClusterConfig,
) -> (result: Result<MoePlacementPlan, PlacementError>)
    ensures
        match result {
            Ok(plan) => {
                &&& placement_outcome(inventory, cluster.node@) is Ok
                &&& plan.nodes@ == placement_outcome(inventory, cluster.node@)->Ok_0.nodes
                &&& plan.expert_node_indices@ == placement_outcome(
                    inventory,
                    cluster.node@,
                )->Ok_0.indices
                &&& plan.inventory == inventory
                &&& plan.coordinator_node_id == cluster.node@[first_coordinator(
                    cluster.node@,
                )->0].id
            },
            Err(error) => placement_outcome(inventory, cluster.node@) == Err::<
                Placement,
                PlacementError,
            >(error),
        },
{
    let coordinator: usize = match cluster.coordinator_index() {
        Ok(index) => index,
        Err(error) => return Err(error),
    };
    let mut nodes: Vec<MoePlacementNode> = match prepare_nodes(&inventory, cluster) {
        Ok(nodes) => nodes,
        Err(error) => return Err(error),
    };
    let capacity: usize = sum_assignable(&nodes);
    if capacity < inventory.total_bytes_all_experts {
        return Err(
            PlacementError::CapacityTooSmall {
                capacity,
                required: inventory.total_bytes_all_experts,
            },
        );
    }
    let ideals: Vec<usize> = match ideal_assigned_bytes_by_node(
        &nodes,
        inventory.total_bytes_all_experts,
    ) {
        Ok(ideals) => ideals,
        Err(error) => return Err(error),
    };
    let total: usize = match inventory.n_layers.checked_mul(inventory.n_experts) {
        Some(total) => total,
        None => return Err(PlacementError::AssignmentCountOverflow),
    };
    let mut indices: Vec<usize> = unassigned(total);
    let mut order: Vec<usize> = worker_indices(&nodes);
    let all: Vec<usize> = index_list(nodes.len());
    let ghost p = empty_placement(cluster.node@, inventory);
    proof {
        assert(cluster.node@.len() == cluster.node.len());
        lemma_empty_placement(cluster.node@, inventory);
        assert(indices@ =~= p.indices);
    }
    let mut layer: usize = 0;
    while layer < inventory.n_layers
        invariant
            layer <= inventory.n_layers,
            inventory.n_layers * inventory.n_experts <= usize::MAX,
            p == empty_placement(cluster.node@, inventory),
            sound(p, inventory.total_bytes_per_expert),
            p.indices.len() == inventory.n_layers * inventory.n_experts,
            unassigned_from(p.indices, 0),
            coordinator < p.nodes.len(),
            nodes@.len() == p.nodes.len(),
            all@ == all_indices(p.nodes.len()),
            ideals@.len() == p.nodes.len(),
            first_coordinator(cluster.node@) == Some(coordinator as int),
            budget_rejection(cluster.node@, inventory, cluster.node@.len()) is None,
            assignable_total(p.nodes) >= inventory.total_bytes_all_experts,
            ideals_outcome(p.nodes, inventory.total_bytes_all_experts as int) == Ok::<
                Seq<usize>,
                PlacementError,
            >(ideals@),
            after_layers(p, inventory, coordinator, ideals@, layer as nat) == Ok::<
                Placement,
                PlacementError,
            >(Placement { nodes: nodes@, indices: indices@, order: order@ }),
        decreases inventory.n_layers - layer,
    {
        proof {
            lemma_after_layers(p, inventory, coordinator, ideals@, layer as nat);
            if after_layers(p, inventory, coordinator, ideals@, (layer + 1) as nat) is Err {
                lemma_layers_stay_rejected(
                    p,
                    inventory,
                    coordinator,
                    ideals@,
                    (layer + 1) as nat,
                    inventory.n_layers as nat,
                );
            }
            lemma_after_local(
                Placement { nodes: nodes@, indices: indices@, order: order@ },
                inventory,
                coordinator,
                layer as int,
                local_target(inventory) as nat,
            );
        }
        let ghost start = Placement { nodes: nodes@, indices: indices@, order: order@ };
        let placed_local: usize = place_local_window(
            &mut nodes,
            &mut indices,
            &order,
            &inventory,
            coordinator,
            layer,
        );
        let ghost local = Placement { nodes: nodes@, indices: indices@, order: order@ };
        if order.len() > 0 {
            proof {
                lemma_step_fits(inventory, layer as int, placed_local as int);
            }
            let rotate_by: usize = (layer + placed_local) % order.len();
            order = rotate(&order, rotate_by);
        }
        proof {
            let s = Placement { nodes: nodes@, indices: indices@, order: order@ };
            assert(s =~= reordered(local, layer as int, placed_local as nat));
            lemma_reordered_sound(
                local,
                layer as int,
                placed_local as nat,
                inventory.total_bytes_per_expert,
            );
            lemma_after_rest(
                s,
                inventory,
                ideals@,
                layer as int,
                inventory.n_experts as nat,
            );
        }
        match place_rest(
            &mut nodes,
            &mut indices,
            &order,
            &all,
            &ideals,
            &inventory,
            layer,
        ) {
            Ok(_) => {},
            Err(error) => return Err(error),
        }
        layer = layer + 1;
    }
    Ok(
        MoePlacementPlan {
            inventory,
            coordinator_node_id: cluster.node[coordinator].id.clone(),
            nodes,
            expert_node_indices: indices,
        },
    )
}

proof fn lemma_step_fits(inventory: MoePlacementInventory, layer: int, placed_local: int)
    requires
        0 <= layer < inventory.n_layers,
        0 <= placed_local <= inventory.n_experts,
        inventory.n_layers * inventory.n_experts <= usize::MAX,
    ensures
        layer + placed_local <= usize::MAX,
{
    let a = inventory.n_layers as int;
    let b = inventory.n_experts as int;
    if b > 0 {
        assert(a - 1 + b <= a * b) by (nonlinear_arith)
            requires
                a >= 1,
                b >= 1,
        ;
    }
}

/// Workers take turns: the order in which they are asked begins, for each layer, as many places
/// further on as the number of the layer and the experts that stayed on the coordinator.
pub proof fn workers_take_turns(p: Placement, layer: int, placed_local: nat, i: int)
    requires
        0 <= i < p.order.len(),
        0 <= layer,
    ensures
        reordered(p, layer, placed_local).nodes == p.nodes,
        reordered(p, layer, placed_local).indices == p.indices,
        reordered(p, layer, placed_local).order.len() == p.order.len(),
        reordered(p, layer, placed_local).order[i] == p.order[(i + layer + placed_local)
            % p.order.len() as int],
{
    let n = p.order.len() as int;
    let turn = layer + placed_local;
    let k = turn % n;
    vstd::arithmetic::div_mod::lemma_fundamental_div_mod(turn, n);
    let q = turn / n;
    if i + k < n {
        assert(i + turn == q * n + (i + k)) by (nonlinear_arith)
            requires
                turn == n * q + k,
        ;
        vstd::arithmetic::div_mod::lemma_fundamental_div_mod_converse(i + turn, n, q, i + k);
    } else {
        assert(i + turn == (q + 1) * n + (i + k - n)) by (nonlinear_arith)
            requires
                turn == n * q + k,
        ;
        vstd::arithmetic::div_mod::lemma_fundamental_div_mod_converse(
            i + turn,
            n,
            q + 1,
            i + k - n,
        );
    }
}

/// The memory of a node is that of the first node with its id.
pub proof fn the_first_node_of_an_id_counts(nodes: Seq<ClusterNodeConfig>, id: Seq<char>)
    ensures
        forall|i: int|
            0 <= i < nodes.len() && (#[trigger] nodes[i]).id@ == id && (forall|j: int|
                0 <= j < i ==> (#[trigger] nodes[j]).id@ != id) ==> memory_of(nodes, id)
                == nodes[i].discovered_memory_bytes,
        (forall|j: int| 0 <= j < nodes.len() ==> (#[trigger] nodes[j]).id@ != id) ==> memory_of(
            nodes,
            id,
        ) is None,
    decreases nodes.len(),
{
    if nodes.len() > 0 && nodes[0].id@ != id {
        let rest = nodes.skip(1);
        the_first_node_of_an_id_counts(rest, id);
        assert forall|i: int|
            0 <= i < nodes.len() && (#[trigger] nodes[i]).id@ == id && (forall|j: int|
                0 <= j < i ==> (#[trigger] nodes[j]).id@ != id) implies memory_of(nodes, id)
            == nodes[i].discovered_memory_bytes by {
            assert(rest[i - 1] == nodes[i]);
            assert forall|j: int| 0 <= j < i - 1 implies (#[trigger] rest[j]).id@ != id by {
                assert(rest[j] == nodes[j + 1]);
            }
        }
        if forall|j: int| 0 <= j < nodes.len() ==> (#[trigger] nodes[j]).id@ != id {
            assert forall|j: int| 0 <= j < rest.len() implies (#[trigger] rest[j]).id@ != id by {
                assert(rest[j] == nodes[j + 1]);
            }
        }
    }
}

/// Every node takes part exactly where the memory of each is known and that of the coordinator holds
/// what is not an expert.
pub proof fn nodes_take_part_where_memory_is_known(
    nodes: Seq<ClusterNodeConfig>,
    inventory: MoePlacementInventory,
    k: nat,
)
    requires
        k <= nodes.len(),
    ensures
        budget_rejection(nodes, inventory, k) is None <==> forall|i: int|
            0 <= i < k ==> (memory_of(nodes, (#[trigger] nodes[i]).id@) matches Some(memory) && (
            nodes[i].role == ClusterNodeRole::Coordinator
                ==> inventory.non_expert_checkpoint_bytes <= memory)),
    decreases k,
{
    if k > 0 {
        nodes_take_part_where_memory_is_known(nodes, inventory, (k - 1) as nat);
        assert(nodes[k - 1] == nodes[k - 1]);
    }
}

/// Before anything is placed, a node has its memory, the coordinator what is not an expert in it, and
/// as many processors as it has told, or one.
pub proof fn nodes_begin_empty(
    nodes: Seq<ClusterNodeConfig>,
    inventory: MoePlacementInventory,
    i: int,
)
    requires
        0 <= i < nodes.len(),
    ensures
        ({
            let node = empty_nodes(nodes, inventory)[i];
            &&& empty_nodes(nodes, inventory).len() == nodes.len()
            &&& memory_of(nodes, nodes[i].id@) matches Some(memory) ==> node.capacity_bytes
                == memory
            &&& nodes[i].role == ClusterNodeRole::Coordinator ==> node.reserved_bytes
                == inventory.non_expert_checkpoint_bytes
            &&& nodes[i].role != ClusterNodeRole::Coordinator ==> node.reserved_bytes == 0
            &&& nodes[i].logical_cpu_count matches Some(count) ==> node.logical_cpu_count == count
            &&& nodes[i].logical_cpu_count is None ==> node.logical_cpu_count == 1
            &&& node.assigned_expert_count == 0 && node.assigned_bytes == 0
        }),
{
}

} // verus!
