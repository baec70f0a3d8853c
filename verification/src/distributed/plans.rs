//! What holds of every placement plan, the experts of a node, and the plan of a model file.
use crate::distributed::placement::{assignable, cluster_rejection, first_coordinator,
    first_coordinator_is_first, has_room, ClusterConfig, ClusterNodeConfig, ClusterNodeRole,
    MoeModelConfig, MoePlacementInventory, MoePlacementNode, MoePlacementPlan, PlacementError};
use crate::distributed::planner::{
    after_layers, after_local, after_rest, all_indices, budget_rejection,
    build_moe_placement_plan_from_inventory, empty_nodes, empty_placement, lemma_after_layers,
    lemma_after_local, lemma_after_local_keeps, lemma_after_rest, lemma_budget_accepted,
    lemma_empty_placement, lemma_flat_in_range, lemma_local_expert_range, lemma_next_node,
    lemma_occurrences_missing, lemma_reordered_sound, local_expert, local_target, next_node,
    node_with_id, occurrences, placed, placement_outcome, reordered, sound, unassigned_from,
    workers, Placement, UNASSIGNED_NODE_INDEX,
};
use crate::distributed::shares::{pick, picked_node_is_preferred};
use crate::gguf::{
    find_by_name, find_gguf_tensor, named_fits, storage_outcome, tensor_storage_bytes,
    TensorDirectory,
};
use crate::tables::lemma_row_place;
use crate::text::{decimal, Text};
use vstd::prelude::*;
use vstd::string::*;

verus! {

/// Every expert of a finished plan has a node of the cluster, the experts and reservations of a
/// node fit its memory, and the loads agree with the nodes of the experts.
pub proof fn finished_plans_are_sound(
    inventory: MoePlacementInventory,
    nodes: Seq<ClusterNodeConfig>,
)
    requires
        nodes.len() <= usize::MAX,
    ensures
        placement_outcome(inventory, nodes) matches Ok(p) ==> {
            &&& p.nodes.len() == nodes.len()
            &&& p.indices.len() == inventory.n_layers * inventory.n_experts
            &&& forall|j: int| 0 <= j < p.indices.len() ==> #[trigger] p.indices[j] < nodes.len()
            &&& forall|i: int|
                0 <= i < p.nodes.len() ==> {
                    let node = #[trigger] p.nodes[i];
                    &&& node.reserved_bytes + node.assigned_bytes <= node.capacity_bytes
                    &&& node.assigned_expert_count == occurrences(p.indices, i as usize)
                    &&& node.assigned_bytes == node.assigned_expert_count
                        * inventory.total_bytes_per_expert
                }
        },
{
    match placement_outcome(inventory, nodes) {
        Err(_) => {},
        Ok(p) => {
            let coordinator = first_coordinator(nodes)->0;
            first_coordinator_is_first(nodes);
            lemma_empty_placement(nodes, inventory);
            let ideals = crate::distributed::shares::ideals_outcome(
                empty_nodes(nodes, inventory),
                inventory.total_bytes_all_experts as int,
            )->Ok_0;
            lemma_after_layers(
                empty_placement(nodes, inventory),
                inventory,
                coordinator as usize,
                ideals,
                inventory.n_layers as nat,
            );
        },
    }
}

/// Whether two lists of nodes differ in their loads only.
pub open spec fn same_budgets(a: Seq<MoePlacementNode>, b: Seq<MoePlacementNode>) -> bool {
    &&& a.len() == b.len()
    &&& forall|i: int|
        0 <= i < a.len() ==> (#[trigger] a[i]).capacity_bytes == b[i].capacity_bytes
            && a[i].reserved_bytes == b[i].reserved_bytes && a[i].role == b[i].role && a[i].node_id
            == b[i].node_id
}

proof fn lemma_local_budgets(
    p: Placement,
    inventory: MoePlacementInventory,
    coordinator: usize,
    layer: int,
    ranks: nat,
)
    requires
        coordinator < p.nodes.len(),
    ensures
        same_budgets(p.nodes, after_local(p, inventory, coordinator, layer, ranks).0.nodes),
    decreases ranks,
{
    if ranks > 0 {
        lemma_local_budgets(p, inventory, coordinator, layer, (ranks - 1) as nat);
    }
}

proof fn lemma_rest_budgets(
    p: Placement,
    inventory: MoePlacementInventory,
    ideals: Seq<usize>,
    layer: int,
    experts: nat,
)
    requires
        sound(p, inventory.total_bytes_per_expert),
        0 <= layer < inventory.n_layers,
        p.indices.len() == inventory.n_layers * inventory.n_experts,
        unassigned_from(p.indices, (layer + 1) * inventory.n_experts),
        experts <= inventory.n_experts,
    ensures
        after_rest(p, inventory, ideals, layer, experts) matches Ok(q) ==> same_budgets(
            p.nodes,
            q.nodes,
        ),
    decreases experts,
{
    if experts > 0 {
        lemma_rest_budgets(p, inventory, ideals, layer, (experts - 1) as nat);
        lemma_after_rest(p, inventory, ideals, layer, (experts - 1) as nat);
        match after_rest(p, inventory, ideals, layer, (experts - 1) as nat) {
            Err(_) => {},
            Ok(q) => lemma_next_node(q, ideals, inventory.total_bytes_per_expert),
        }
    }
}

/// Whether a node could hold all experts of the model.
pub open spec fn holds_all(node: MoePlacementNode, inventory: MoePlacementInventory) -> bool {
    inventory.n_layers * inventory.n_experts * inventory.total_bytes_per_expert <= assignable(node)
}

proof fn lemma_always_room(p: Placement, inventory: MoePlacementInventory, i: int, flat: int)
    requires
        sound(p, inventory.total_bytes_per_expert),
        p.indices.len() == inventory.n_layers * inventory.n_experts,
        0 <= i < p.nodes.len(),
        0 <= flat < p.indices.len(),
        p.indices[flat] == UNASSIGNED_NODE_INDEX,
        holds_all(p.nodes[i], inventory),
    ensures
        has_room(p.nodes[i], inventory.total_bytes_per_expert as int),
{
    lemma_occurrences_missing(p.indices, i as usize, flat);
    let node = p.nodes[i];
    let c = node.assigned_expert_count as int;
    let e = inventory.total_bytes_per_expert as int;
    let t = inventory.n_layers * inventory.n_experts;
    assert((c + 1) * e <= t * e) by (nonlinear_arith)
        requires
            c + 1 <= t,
            e >= 0,
    ;
    assert((c + 1) * e == c * e + e) by (nonlinear_arith);
}

proof fn lemma_local_window(
    p: Placement,
    inventory: MoePlacementInventory,
    coordinator: usize,
    layer: int,
    ranks: nat,
)
    requires
        sound(p, inventory.total_bytes_per_expert),
        0 <= layer < inventory.n_layers,
        p.indices.len() == inventory.n_layers * inventory.n_experts,
        unassigned_from(p.indices, layer * inventory.n_experts),
        coordinator < p.nodes.len(),
        ranks <= local_target(inventory),
        holds_all(p.nodes[coordinator as int], inventory),
    ensures
        forall|r: int|
            0 <= r < ranks ==> after_local(
                p,
                inventory,
                coordinator,
                layer,
                ranks,
            ).0.indices[layer * inventory.n_experts + #[trigger] local_expert(inventory, layer, r)]
                == coordinator,
    decreases ranks,
{
    if ranks > 0 {
        let k = (ranks - 1) as nat;
        lemma_local_window(p, inventory, coordinator, layer, k);
        lemma_after_local(p, inventory, coordinator, layer, k);
        lemma_local_budgets(p, inventory, coordinator, layer, k);
        let q = after_local(p, inventory, coordinator, layer, k).0;
        let n = inventory.n_experts as int;
        let e0 = local_expert(inventory, layer, ranks - 1);
        lemma_local_expert_range(inventory, layer, ranks - 1);
        lemma_flat_in_range(layer, n, inventory.n_layers as int, e0);
        assert forall|r: int| 0 <= r < k implies #[trigger] local_expert(inventory, layer, r)
            != e0 by {
            lemma_local_expert_range(inventory, layer, r);
        }
        assert(q.indices[layer * n + e0] == UNASSIGNED_NODE_INDEX);
        assert(p.nodes[coordinator as int].capacity_bytes
            == q.nodes[coordinator as int].capacity_bytes);
        lemma_always_room(q, inventory, coordinator as int, layer * n + e0);
        let s = after_local(p, inventory, coordinator, layer, ranks).0;
        assert forall|r: int| 0 <= r < ranks implies s.indices[layer * n
            + #[trigger] local_expert(inventory, layer, r)] == coordinator by {
            lemma_local_expert_range(inventory, layer, r);
            lemma_flat_in_range(
                layer,
                n,
                inventory.n_layers as int,
                local_expert(inventory, layer, r),
            );
        }
    }
}

/// The nodes of the local windows of the first `layers` layers.
pub open spec fn windows_local(
    indices: Seq<usize>,
    inventory: MoePlacementInventory,
    coordinator: usize,
    layers: int,
) -> bool {
    forall|l: int, r: int|
        0 <= l < layers && 0 <= r < local_target(inventory) ==> indices[l * inventory.n_experts
            + #[trigger] local_expert(inventory, l, r)] == coordinator
}

proof fn lemma_windows(
    p: Placement,
    inventory: MoePlacementInventory,
    coordinator: usize,
    ideals: Seq<usize>,
    layers: nat,
)
    requires
        sound(p, inventory.total_bytes_per_expert),
        p.indices.len() == inventory.n_layers * inventory.n_experts,
        unassigned_from(p.indices, 0),
        coordinator < p.nodes.len(),
        layers <= inventory.n_layers,
        holds_all(p.nodes[coordinator as int], inventory),
    ensures
        after_layers(p, inventory, coordinator, ideals, layers) matches Ok(q) ==> {
            &&& same_budgets(p.nodes, q.nodes)
            &&& windows_local(q.indices, inventory, coordinator, layers as int)
        },
    decreases layers,
{
    let n = inventory.n_experts as int;
    if layers > 0 {
        let layer = layers - 1;
        lemma_windows(p, inventory, coordinator, ideals, (layers - 1) as nat);
        lemma_after_layers(p, inventory, coordinator, ideals, (layers - 1) as nat);
        match after_layers(p, inventory, coordinator, ideals, (layers - 1) as nat) {
            Err(_) => {},
            Ok(q) => {
                let t = local_target(inventory) as nat;
                assert(p.nodes[coordinator as int].capacity_bytes
                    == q.nodes[coordinator as int].capacity_bytes);
                lemma_after_local(q, inventory, coordinator, layer, t);
                lemma_after_local_keeps(q, inventory, coordinator, layer, t);
                lemma_local_budgets(q, inventory, coordinator, layer, t);
                lemma_local_window(q, inventory, coordinator, layer, t);
                let (r, k) = after_local(q, inventory, coordinator, layer, t);
                lemma_reordered_sound(r, layer, k, inventory.total_bytes_per_expert);
                let s = reordered(r, layer, k);
                lemma_after_rest(s, inventory, ideals, layer, inventory.n_experts as nat);
                lemma_rest_budgets(s, inventory, ideals, layer, inventory.n_experts as nat);
                match after_rest(s, inventory, ideals, layer, inventory.n_experts as nat) {
                    Err(_) => {},
                    Ok(u) => {
                        assert forall|l: int, rank: int|
                            0 <= l < layers && 0 <= rank < local_target(
                                inventory,
                            ) implies u.indices[l * n + #[trigger] local_expert(
                            inventory,
                            l,
                            rank,
                        )] == coordinator by {
                            lemma_local_expert_range(inventory, l, rank);
                            let x = local_expert(inventory, l, rank);
                            lemma_flat_in_range(l, n, layers as int, x);
                            lemma_flat_in_range(l, n, inventory.n_layers as int, x);
                            if l < layer {
                                lemma_flat_in_range(l, n, layer, x);
                                assert(r.indices[l * n + x] == q.indices[l * n + x]);
                            }
                            assert(s.indices[l * n + x] == coordinator);
                        }
                    },
                }
            },
        }
    }
}

/// Where the coordinator has room for every expert, it holds the whole local window of every
/// layer: as many experts as a token uses, all different.
pub proof fn local_windows_are_kept(
    inventory: MoePlacementInventory,
    nodes: Seq<ClusterNodeConfig>,
    coordinator: int,
)
    requires
        nodes.len() <= usize::MAX,
        first_coordinator(nodes) == Some(coordinator),
        holds_all(empty_nodes(nodes, inventory)[coordinator], inventory),
    ensures
        placement_outcome(inventory, nodes) matches Ok(p) ==> windows_local(
            p.indices,
            inventory,
            coordinator as usize,
            inventory.n_layers as int,
        ),
        forall|l: int, r: int, s: int|
            0 <= r < s < local_target(inventory) ==> #[trigger] local_expert(inventory, l, r)
                != #[trigger] local_expert(inventory, l, s),
        local_target(inventory) >= inventory.n_experts_used || local_target(inventory)
            == inventory.n_experts,
{
    first_coordinator_is_first(nodes);
    assert forall|l: int, r: int, s: int|
        0 <= r < s < local_target(inventory) implies #[trigger] local_expert(inventory, l, r)
        != #[trigger] local_expert(inventory, l, s) by {
        lemma_local_expert_range(inventory, l, r);
        lemma_local_expert_range(inventory, l, s);
    }
    match placement_outcome(inventory, nodes) {
        Err(_) => {},
        Ok(p) => {
            lemma_empty_placement(nodes, inventory);
            let ideals = crate::distributed::shares::ideals_outcome(
                empty_nodes(nodes, inventory),
                inventory.total_bytes_all_experts as int,
            )->Ok_0;
            lemma_windows(
                empty_placement(nodes, inventory),
                inventory,
                coordinator as usize,
                ideals,
                inventory.n_layers as nat,
            );
        },
    }
}

/// The expert of rank `r` in the local window of a layer: windows follow each other from layer to
/// layer and wrap around.
pub open spec fn window_expert(inventory: MoePlacementInventory, layer: int, r: int) -> int {
    let used = if inventory.n_experts_used == 0 {
        1int
    } else {
        inventory.n_experts_used as int
    };
    let size = if used < inventory.n_experts {
        used
    } else {
        inventory.n_experts as int
    };
    (layer * size + r) % inventory.n_experts as int
}

/// Whether an expert is in the local window of its layer: one of as many experts as a token uses,
/// at least one.
pub open spec fn in_window(inventory: MoePlacementInventory, layer: int, expert: int) -> bool {
    exists|r: int|
        0 <= r < inventory.n_experts && (r < inventory.n_experts_used || r == 0)
            && #[trigger] window_expert(inventory, layer, r) == expert
}

proof fn lemma_window_expert(inventory: MoePlacementInventory, layer: int, r: int)
    requires
        0 <= layer < inventory.n_layers,
        0 <= r < local_target(inventory),
        inventory.n_layers * inventory.n_experts <= usize::MAX,
    ensures
        local_expert(inventory, layer, r) == window_expert(inventory, layer, r),
{
    let n = inventory.n_experts as int;
    let t = local_target(inventory);
    assert(0 <= layer * t <= inventory.n_layers * inventory.n_experts) by (nonlinear_arith)
        requires
            0 <= layer < inventory.n_layers,
            0 <= t <= inventory.n_experts,
    ;
    vstd::arithmetic::div_mod::lemma_fundamental_div_mod(layer * t, n);
    let q = layer * t / n;
    let off = layer * t % n;
    assert(0 <= off < n) by (nonlinear_arith)
        requires
            n > 0,
            off == layer * t % n,
    ;
    if off + r < n {
        assert(q * n == n * q) by (nonlinear_arith);
        vstd::arithmetic::div_mod::lemma_fundamental_div_mod_converse(
            layer * t + r,
            n,
            q,
            off + r,
        );
    } else {
        assert((q + 1) * n == n * q + n) by (nonlinear_arith);
        vstd::arithmetic::div_mod::lemma_fundamental_div_mod_converse(
            layer * t + r,
            n,
            q + 1,
            off + r - n,
        );
    }
}

/// Whether a node has no room for another expert.
pub open spec fn is_full(node: MoePlacementNode, expert_bytes: usize) -> bool {
    node.reserved_bytes + node.assigned_bytes + expert_bytes > node.capacity_bytes
}

/// Whether no worker has room for another expert.
pub open spec fn workers_full(nodes: Seq<MoePlacementNode>, expert_bytes: usize) -> bool {
    forall|w: int|
        0 <= w < nodes.len() && (#[trigger] nodes[w]).role == ClusterNodeRole::Worker ==> is_full(
            nodes[w],
            expert_bytes,
        )
}

/// Whether nodes differ only in loads that have grown.
spec fn grown(a: Seq<MoePlacementNode>, b: Seq<MoePlacementNode>) -> bool {
    &&& a.len() == b.len()
    &&& forall|i: int|
        0 <= i < a.len() ==> {
            let was = #[trigger] a[i];
            let is = b[i];
            &&& was.node_id == is.node_id
            &&& was.role == is.role
            &&& was.address == is.address
            &&& was.logical_cpu_count == is.logical_cpu_count
            &&& was.capacity_bytes == is.capacity_bytes
            &&& was.reserved_bytes == is.reserved_bytes
            &&& was.assigned_bytes <= is.assigned_bytes
        }
}

proof fn lemma_full_stays_full(
    a: Seq<MoePlacementNode>,
    b: Seq<MoePlacementNode>,
    expert_bytes: usize,
)
    requires
        grown(a, b),
    ensures
        workers_full(a, expert_bytes) ==> workers_full(b, expert_bytes),
        forall|i: int|
            0 <= i < a.len() && is_full(#[trigger] a[i], expert_bytes) ==> is_full(
                b[i],
                expert_bytes,
            ),
{
    if workers_full(a, expert_bytes) {
        assert forall|w: int|
            0 <= w < b.len() && (#[trigger] b[w]).role
                == ClusterNodeRole::Worker implies is_full(b[w], expert_bytes) by {
            assert(a[w].role == ClusterNodeRole::Worker);
        }
    }
}

/// Whether the order lists the workers, all of them and nothing else.
spec fn lists_workers(p: Placement) -> bool {
    &&& forall|k: int|
        0 <= k < p.order.len() ==> #[trigger] p.order[k] < p.nodes.len()
            && p.nodes[p.order[k] as int].role == ClusterNodeRole::Worker
    &&& forall|w: int|
        0 <= w < p.nodes.len() && (#[trigger] p.nodes[w]).role == ClusterNodeRole::Worker
            ==> p.order.contains(w as usize)
}

proof fn lemma_workers_listed(nodes: Seq<MoePlacementNode>, k: nat)
    requires
        k <= nodes.len() <= usize::MAX,
    ensures
        forall|j: int|
            0 <= j < workers(nodes, k).len() ==> #[trigger] workers(nodes, k)[j] < k
                && nodes[workers(nodes, k)[j] as int].role == ClusterNodeRole::Worker,
        forall|w: int|
            0 <= w < k && (#[trigger] nodes[w]).role == ClusterNodeRole::Worker ==> workers(
                nodes,
                k,
            ).contains(w as usize),
    decreases k,
{
    if k > 0 {
        let m = (k - 1) as nat;
        lemma_workers_listed(nodes, m);
        let before = workers(nodes, m);
        let now = workers(nodes, k);
        assert forall|j: int| 0 <= j < now.len() implies #[trigger] now[j] < k
            && nodes[now[j] as int].role == ClusterNodeRole::Worker by {
            if j < before.len() {
                assert(now[j] == before[j]);
            }
        }
        assert forall|w: int|
            0 <= w < k && (#[trigger] nodes[w]).role
                == ClusterNodeRole::Worker implies now.contains(w as usize) by {
            if w < m {
                let j = choose|j: int| 0 <= j < before.len() && before[j] == w as usize;
                assert(now[j] == w as usize);
            } else {
                assert(now[now.len() - 1] == w as usize);
            }
        }
    }
}

proof fn lemma_reordered_lists_workers(p: Placement, layer: int, k: nat)
    requires
        lists_workers(p),
        layer >= 0,
    ensures
        lists_workers(reordered(p, layer, k)),
{
    if p.order.len() > 0 {
        let n = p.order.len() as int;
        let m = (layer + k) % n;
        assert(0 <= m < n);
        let q = reordered(p, layer, k);
        assert forall|j: int| 0 <= j < q.order.len() implies #[trigger] q.order[j]
            < q.nodes.len() && q.nodes[q.order[j] as int].role == ClusterNodeRole::Worker by {
            if j < n - m {
                assert(q.order[j] == p.order[j + m]);
            } else {
                assert(q.order[j] == p.order[j - (n - m)]);
            }
        }
        assert forall|w: int|
            0 <= w < q.nodes.len() && (#[trigger] q.nodes[w]).role
                == ClusterNodeRole::Worker implies q.order.contains(w as usize) by {
            assert(p.nodes[w].role == ClusterNodeRole::Worker);
            let j = choose|j: int| 0 <= j < p.order.len() && p.order[j] == w as usize;
            if j < m {
                assert(q.order[j + (n - m)] == w as usize);
            } else {
                assert(q.order[j - m] == w as usize);
            }
        }
    }
}

/// Whether a placement leaves the coordinator to the local windows: an expert outside its window
/// is off the workers only if they are full, and one inside is off the coordinator only if that
/// is full.
spec fn windowed(p: Placement, inventory: MoePlacementInventory, coordinator: usize) -> bool {
    let n = inventory.n_experts as int;
    &&& forall|j: int|
        0 <= j < p.indices.len() && #[trigger] p.indices[j] != UNASSIGNED_NODE_INDEX && !in_window(
            inventory,
            j / n,
            j % n,
        ) ==> p.nodes[p.indices[j] as int].role == ClusterNodeRole::Worker || workers_full(
            p.nodes,
            inventory.total_bytes_per_expert,
        )
    &&& forall|j: int|
        0 <= j < p.indices.len() && #[trigger] p.indices[j] != UNASSIGNED_NODE_INDEX && in_window(
            inventory,
            j / n,
            j % n,
        ) ==> p.indices[j] == coordinator || is_full(
            p.nodes[coordinator as int],
            inventory.total_bytes_per_expert,
        )
}

proof fn lemma_placed_grows(p: Placement, flat: int, i: usize, expert_bytes: usize)
    requires
        sound(p, expert_bytes),
        0 <= flat < p.indices.len(),
        p.indices[flat] == UNASSIGNED_NODE_INDEX,
        i < p.nodes.len(),
        has_room(p.nodes[i as int], expert_bytes as int),
    ensures
        grown(p.nodes, placed(p, flat, i, expert_bytes).nodes),
{
    let node = p.nodes[i as int];
    assert(node.assigned_bytes + expert_bytes <= usize::MAX);
}

proof fn lemma_grown_through(
    a: Seq<MoePlacementNode>,
    b: Seq<MoePlacementNode>,
    c: Seq<MoePlacementNode>,
)
    requires
        grown(a, b),
        grown(b, c),
    ensures
        grown(a, c),
{
    assert forall|i: int| 0 <= i < a.len() implies ({
        let was = #[trigger] a[i];
        let is = c[i];
        &&& was.node_id == is.node_id
        &&& was.role == is.role
        &&& was.address == is.address
        &&& was.logical_cpu_count == is.logical_cpu_count
        &&& was.capacity_bytes == is.capacity_bytes
        &&& was.reserved_bytes == is.reserved_bytes
        &&& was.assigned_bytes <= is.assigned_bytes
    }) by {
        let mid = b[i];
    }
}

/// A placement that grows by one expert stays windowed where that expert belongs where it went.
proof fn lemma_windowed_step(
    p: Placement,
    inventory: MoePlacementInventory,
    coordinator: usize,
    flat: int,
    i: usize,
)
    requires
        sound(p, inventory.total_bytes_per_expert),
        windowed(p, inventory, coordinator),
        coordinator < p.nodes.len(),
        0 <= flat < p.indices.len(),
        p.indices[flat] == UNASSIGNED_NODE_INDEX,
        i < p.nodes.len(),
        has_room(p.nodes[i as int], inventory.total_bytes_per_expert as int),
        !in_window(
            inventory,
            flat / inventory.n_experts as int,
            flat % inventory.n_experts as int,
        ) ==> p.nodes[i as int].role == ClusterNodeRole::Worker || workers_full(
            p.nodes,
            inventory.total_bytes_per_expert,
        ),
        in_window(
            inventory,
            flat / inventory.n_experts as int,
            flat % inventory.n_experts as int,
        ) ==> i == coordinator || is_full(
            p.nodes[coordinator as int],
            inventory.total_bytes_per_expert,
        ),
    ensures
        windowed(placed(p, flat, i, inventory.total_bytes_per_expert), inventory, coordinator),
{
    let q = placed(p, flat, i, inventory.total_bytes_per_expert);
    let n = inventory.n_experts as int;
    lemma_placed_grows(p, flat, i, inventory.total_bytes_per_expert);
    lemma_full_stays_full(p.nodes, q.nodes, inventory.total_bytes_per_expert);
    let c = p.nodes[coordinator as int];
    assert forall|j: int|
        0 <= j < q.indices.len() && #[trigger] q.indices[j] != UNASSIGNED_NODE_INDEX && !in_window(
            inventory,
            j / n,
            j % n,
        ) implies q.nodes[q.indices[j] as int].role == ClusterNodeRole::Worker || workers_full(
        q.nodes,
        inventory.total_bytes_per_expert,
    ) by {
        if j != flat {
            assert(p.indices[j] == q.indices[j]);
            assert(p.indices[j] < p.nodes.len());
        }
        let role = p.nodes[q.indices[j] as int].role;
    }
    assert forall|j: int|
        0 <= j < q.indices.len() && #[trigger] q.indices[j] != UNASSIGNED_NODE_INDEX && in_window(
            inventory,
            j / n,
            j % n,
        ) implies q.indices[j] == coordinator || is_full(
        q.nodes[coordinator as int],
        inventory.total_bytes_per_expert,
    ) by {
        if j != flat {
            assert(p.indices[j] == q.indices[j]);
        }
    }
}

proof fn lemma_local_windowed(
    p: Placement,
    inventory: MoePlacementInventory,
    coordinator: usize,
    layer: int,
    ranks: nat,
)
    requires
        sound(p, inventory.total_bytes_per_expert),
        0 <= layer < inventory.n_layers,
        p.indices.len() == inventory.n_layers * inventory.n_experts,
        unassigned_from(p.indices, layer * inventory.n_experts),
        coordinator < p.nodes.len(),
        ranks <= local_target(inventory),
        windowed(p, inventory, coordinator),
        lists_workers(p),
    ensures
        ({
            let q = after_local(p, inventory, coordinator, layer, ranks).0;
            &&& windowed(q, inventory, coordinator)
            &&& lists_workers(q)
            &&& grown(p.nodes, q.nodes)
            &&& forall|r: int|
                0 <= r < ranks ==> q.indices[layer * inventory.n_experts
                    + #[trigger] local_expert(inventory, layer, r)] == coordinator || is_full(
                    q.nodes[coordinator as int],
                    inventory.total_bytes_per_expert,
                )
        }),
    decreases ranks,
{
    if ranks > 0 {
        let k = (ranks - 1) as nat;
        let n = inventory.n_experts as int;
        let bytes = inventory.total_bytes_per_expert;
        lemma_local_windowed(p, inventory, coordinator, layer, k);
        lemma_after_local(p, inventory, coordinator, layer, k);
        let q = after_local(p, inventory, coordinator, layer, k).0;
        let e0 = local_expert(inventory, layer, ranks - 1);
        lemma_local_expert_range(inventory, layer, ranks - 1);
        lemma_window_expert(inventory, layer, ranks - 1);
        lemma_flat_in_range(layer, n, inventory.n_layers as int, e0);
        lemma_row_place(inventory.n_layers as int, n, layer, e0);
        let flat = layer * n + e0;
        assert forall|r: int| 0 <= r < k implies #[trigger] local_expert(inventory, layer, r)
            != e0 by {
            lemma_local_expert_range(inventory, layer, r);
        }
        assert(q.indices[layer * n + e0] == UNASSIGNED_NODE_INDEX);
        assert(window_expert(inventory, layer, ranks - 1) == e0);
        assert(in_window(inventory, layer, e0));
        let s = after_local(p, inventory, coordinator, layer, ranks).0;
        if has_room(q.nodes[coordinator as int], bytes as int) {
            lemma_windowed_step(q, inventory, coordinator, flat, coordinator);
            lemma_placed_grows(q, flat, coordinator, bytes);
            lemma_grown_through(p.nodes, q.nodes, s.nodes);
            lemma_full_stays_full(q.nodes, s.nodes, bytes);
            let c = q.nodes[coordinator as int];
            lemma_listed_still(q, s);
            assert forall|r: int| 0 <= r < ranks implies s.indices[layer * n
                + #[trigger] local_expert(inventory, layer, r)] == coordinator || is_full(
                s.nodes[coordinator as int],
                bytes,
            ) by {
                lemma_local_expert_range(inventory, layer, r);
                let e = local_expert(inventory, layer, r);
                lemma_flat_in_range(layer, n, inventory.n_layers as int, e);
                if r < k {
                    assert(q.indices[layer * n + e] == coordinator || is_full(
                        q.nodes[coordinator as int],
                        bytes,
                    ));
                }
            }
        }
    }
}

proof fn lemma_listed_still(p: Placement, q: Placement)
    requires
        lists_workers(p),
        grown(p.nodes, q.nodes),
        q.order == p.order,
    ensures
        lists_workers(q),
{
    assert forall|k: int| 0 <= k < q.order.len() implies #[trigger] q.order[k] < q.nodes.len()
        && q.nodes[q.order[k] as int].role == ClusterNodeRole::Worker by {
        let w = p.nodes[p.order[k] as int];
    }
    assert forall|w: int|
        0 <= w < q.nodes.len() && (#[trigger] q.nodes[w]).role
            == ClusterNodeRole::Worker implies q.order.contains(w as usize) by {
        assert(p.nodes[w].role == ClusterNodeRole::Worker);
    }
}

/// The node for the next expert is a worker, or all workers are full.
proof fn lemma_workers_come_first(p: Placement, ideals: Seq<usize>, expert_bytes: usize)
    requires
        sound(p, expert_bytes),
        lists_workers(p),
    ensures
        next_node(p, ideals, expert_bytes) matches Some(i) ==> i < p.nodes.len() && has_room(
            p.nodes[i as int],
            expert_bytes as int,
        ) && (p.nodes[i as int].role == ClusterNodeRole::Worker || workers_full(
            p.nodes,
            expert_bytes,
        )),
        next_node(p, ideals, expert_bytes) is None ==> forall|i: int|
            0 <= i < p.nodes.len() ==> is_full(#[trigger] p.nodes[i], expert_bytes),
{
    lemma_next_node(p, ideals, expert_bytes);
    picked_node_is_preferred(p.nodes, p.order, ideals, expert_bytes as int);
    match pick(p.nodes, p.order, ideals, expert_bytes as int) {
        Some(i) => {
            let k = choose|k: int| 0 <= k < p.order.len() && p.order[k] == i;
            assert(p.nodes[p.order[k] as int].role == ClusterNodeRole::Worker);
        },
        None => {
            assert forall|w: int|
                0 <= w < p.nodes.len() && (#[trigger] p.nodes[w]).role
                    == ClusterNodeRole::Worker implies is_full(p.nodes[w], expert_bytes) by {
                let k = choose|k: int| 0 <= k < p.order.len() && p.order[k] == w as usize;
                assert(!has_room(p.nodes[p.order[k] as int], expert_bytes as int));
            }
            let all = all_indices(p.nodes.len());
            picked_node_is_preferred(p.nodes, all, ideals, expert_bytes as int);
            if pick(p.nodes, all, ideals, expert_bytes as int) is None {
                assert forall|i: int| 0 <= i < p.nodes.len() implies is_full(
                    #[trigger] p.nodes[i],
                    expert_bytes,
                ) by {
                    assert(all[i] == i);
                    assert(!has_room(p.nodes[all[i] as int], expert_bytes as int));
                }
            }
        },
    }
}

proof fn lemma_rest_windowed(
    p: Placement,
    inventory: MoePlacementInventory,
    coordinator: usize,
    ideals: Seq<usize>,
    layer: int,
    experts: nat,
)
    requires
        sound(p, inventory.total_bytes_per_expert),
        0 <= layer < inventory.n_layers,
        p.indices.len() == inventory.n_layers * inventory.n_experts,
        unassigned_from(p.indices, (layer + 1) * inventory.n_experts),
        experts <= inventory.n_experts,
        coordinator < p.nodes.len(),
        windowed(p, inventory, coordinator),
        lists_workers(p),
        forall|e: int|
            0 <= e < inventory.n_experts && #[trigger] in_window(inventory, layer, e)
                ==> p.indices[layer * inventory.n_experts + e] == coordinator || is_full(
                p.nodes[coordinator as int],
                inventory.total_bytes_per_expert,
            ),
    ensures
        after_rest(p, inventory, ideals, layer, experts) matches Ok(q) ==> {
            &&& windowed(q, inventory, coordinator)
            &&& lists_workers(q)
            &&& grown(p.nodes, q.nodes)
        },
    decreases experts,
{
    if experts > 0 {
        let k = (experts - 1) as nat;
        let n = inventory.n_experts as int;
        let bytes = inventory.total_bytes_per_expert;
        lemma_rest_windowed(p, inventory, coordinator, ideals, layer, k);
        lemma_after_rest(p, inventory, ideals, layer, k);
        match after_rest(p, inventory, ideals, layer, k) {
            Err(_) => {},
            Ok(q) => {
                let flat = layer * n + k;
                lemma_flat_in_range(layer, n, inventory.n_layers as int, k as int);
                lemma_row_place(inventory.n_layers as int, n, layer, k as int);
                if q.indices[flat] == UNASSIGNED_NODE_INDEX {
                    lemma_workers_come_first(q, ideals, bytes);
                    match next_node(q, ideals, bytes) {
                        None => {},
                        Some(i) => {
                            lemma_full_stays_full(p.nodes, q.nodes, bytes);
                            let c = p.nodes[coordinator as int];
                            if in_window(inventory, layer, k as int) {
                                assert(p.indices[layer * n + k] != coordinator) by {
                                    if p.indices[flat] != UNASSIGNED_NODE_INDEX {
                                        assert(q.indices[flat] == p.indices[flat]);
                                    }
                                    assert(coordinator < p.nodes.len() <= usize::MAX);
                                }
                                assert(is_full(q.nodes[coordinator as int], bytes));
                            }
                            lemma_windowed_step(q, inventory, coordinator, flat, i);
                            lemma_placed_grows(q, flat, i, bytes);
                            let s = placed(q, flat, i, bytes);
                            lemma_grown_through(p.nodes, q.nodes, s.nodes);
                            lemma_listed_still(q, s);
                        },
                    }
                }
            },
        }
    }
}

proof fn lemma_layers_windowed(
    p: Placement,
    inventory: MoePlacementInventory,
    coordinator: usize,
    ideals: Seq<usize>,
    layers: nat,
)
    requires
        sound(p, inventory.total_bytes_per_expert),
        p.indices.len() == inventory.n_layers * inventory.n_experts,
        unassigned_from(p.indices, 0),
        coordinator < p.nodes.len(),
        layers <= inventory.n_layers,
        lists_workers(p),
    ensures
        after_layers(p, inventory, coordinator, ideals, layers) matches Ok(q) ==> {
            &&& windowed(q, inventory, coordinator)
            &&& lists_workers(q)
            &&& grown(p.nodes, q.nodes)
        },
    decreases layers,
{
    if layers > 0 {
        let n = inventory.n_experts as int;
        let layer = layers - 1;
        lemma_layers_windowed(p, inventory, coordinator, ideals, (layers - 1) as nat);
        lemma_after_layers(p, inventory, coordinator, ideals, (layers - 1) as nat);
        match after_layers(p, inventory, coordinator, ideals, (layers - 1) as nat) {
            Err(_) => {},
            Ok(q) => {
                let t = local_target(inventory) as nat;
                lemma_after_local(q, inventory, coordinator, layer, t);
                lemma_local_windowed(q, inventory, coordinator, layer, t);
                let (r, k) = after_local(q, inventory, coordinator, layer, t);
                lemma_reordered_sound(r, layer, k, inventory.total_bytes_per_expert);
                lemma_reordered_lists_workers(r, layer, k);
                let s = reordered(r, layer, k);
                assert forall|e: int|
                    0 <= e < n && #[trigger] in_window(
                        inventory,
                        layer,
                        e,
                    ) implies s.indices[layer * n + e] == coordinator || is_full(
                    s.nodes[coordinator as int],
                    inventory.total_bytes_per_expert,
                ) by {
                    let rank = choose|rank: int|
                        0 <= rank < inventory.n_experts && (rank < inventory.n_experts_used
                            || rank == 0) && #[trigger] window_expert(inventory, layer, rank)
                            == e;
                    lemma_window_expert(inventory, layer, rank);
                    assert(local_expert(inventory, layer, rank) == e);
                }
                assert(windowed(s, inventory, coordinator));
                lemma_rest_windowed(
                    s,
                    inventory,
                    coordinator,
                    ideals,
                    layer,
                    inventory.n_experts as nat,
                );
                match after_rest(s, inventory, ideals, layer, inventory.n_experts as nat) {
                    Err(_) => {},
                    Ok(u) => {
                        lemma_grown_through(p.nodes, q.nodes, r.nodes);
                        lemma_grown_through(p.nodes, s.nodes, u.nodes);
                    },
                }
            },
        }
    }
}

proof fn lemma_outcome_windowed(inventory: MoePlacementInventory, nodes: Seq<ClusterNodeConfig>)
    requires
        nodes.len() <= usize::MAX,
    ensures
        placement_outcome(inventory, nodes) matches Ok(p) ==> {
            &&& windowed(p, inventory, first_coordinator(nodes)->0 as usize)
            &&& grown(empty_nodes(nodes, inventory), p.nodes)
        },
{
    match placement_outcome(inventory, nodes) {
        Err(_) => {},
        Ok(p) => {
            let coordinator = first_coordinator(nodes)->0;
            first_coordinator_is_first(nodes);
            lemma_empty_placement(nodes, inventory);
            let empty = empty_placement(nodes, inventory);
            lemma_workers_listed(empty.nodes, empty.nodes.len());
            let ideals = crate::distributed::shares::ideals_outcome(
                empty_nodes(nodes, inventory),
                inventory.total_bytes_all_experts as int,
            )->Ok_0;
            lemma_layers_windowed(
                empty,
                inventory,
                coordinator as usize,
                ideals,
                inventory.n_layers as nat,
            );
        },
    }
}

/// Workers come first: in a finished plan an expert outside the local window of its layer is on a
/// node that is not a worker only if every worker is full, and an expert inside the window is off
/// the coordinator only if the coordinator is full.
pub proof fn workers_come_first_beyond_the_window(
    inventory: MoePlacementInventory,
    nodes: Seq<ClusterNodeConfig>,
    coordinator: int,
    layer: int,
    expert: int,
)
    requires
        nodes.len() <= usize::MAX,
        0 <= layer < inventory.n_layers,
        0 <= expert < inventory.n_experts,
        0 <= coordinator < nodes.len(),
        nodes[coordinator].role == ClusterNodeRole::Coordinator,
        forall|i: int|
            0 <= i < coordinator ==> (#[trigger] nodes[i]).role != ClusterNodeRole::Coordinator,
    ensures
        placement_outcome(inventory, nodes) matches Ok(p) ==> {
            let node = p.indices[layer * inventory.n_experts + expert];
            &&& !in_window(inventory, layer, expert) && p.nodes[node as int].role
                != ClusterNodeRole::Worker ==> forall|w: int|
                0 <= w < p.nodes.len() && (#[trigger] p.nodes[w]).role == ClusterNodeRole::Worker
                    ==> p.nodes[w].reserved_bytes + p.nodes[w].assigned_bytes
                    + inventory.total_bytes_per_expert > p.nodes[w].capacity_bytes
            &&& in_window(inventory, layer, expert) && node != coordinator
                ==> p.nodes[coordinator].reserved_bytes + p.nodes[coordinator].assigned_bytes
                + inventory.total_bytes_per_expert > p.nodes[coordinator].capacity_bytes
        },
{
    first_coordinator_is_first(nodes);
    lemma_outcome_windowed(inventory, nodes);
    finished_plans_are_sound(inventory, nodes);
    match placement_outcome(inventory, nodes) {
        Err(_) => {},
        Ok(p) => {
            let n = inventory.n_experts as int;
            assert(first_coordinator(nodes) == Some(coordinator)) by {
                assert(first_coordinator(nodes) is Some);
                let found = first_coordinator(nodes)->0;
                assert(nodes[found].role == ClusterNodeRole::Coordinator);
            }
            lemma_row_place(inventory.n_layers as int, n, layer, expert);
            let node = p.indices[layer * n + expert];
            assert(node < nodes.len());
            if !in_window(inventory, layer, expert) && p.nodes[node as int].role
                != ClusterNodeRole::Worker {
                assert(workers_full(p.nodes, inventory.total_bytes_per_expert));
                assert forall|w: int|
                    0 <= w < p.nodes.len() && (#[trigger] p.nodes[w]).role
                        == ClusterNodeRole::Worker implies p.nodes[w].reserved_bytes
                    + p.nodes[w].assigned_bytes + inventory.total_bytes_per_expert
                    > p.nodes[w].capacity_bytes by {
                    assert(is_full(p.nodes[w], inventory.total_bytes_per_expert));
                }
            }
        },
    }
}

/// Where one worker could hold all experts of the model, every expert outside the local windows is
/// on a worker.
pub proof fn a_large_worker_keeps_the_rest_off_the_coordinator(
    inventory: MoePlacementInventory,
    nodes: Seq<ClusterNodeConfig>,
    worker: int,
    layer: int,
    expert: int,
)
    requires
        nodes.len() <= usize::MAX,
        0 <= layer < inventory.n_layers,
        0 <= expert < inventory.n_experts,
        !in_window(inventory, layer, expert),
        0 <= worker < nodes.len(),
        nodes[worker].role == ClusterNodeRole::Worker,
    ensures
        placement_outcome(inventory, nodes) matches Ok(p) ==> {
            p.nodes[worker].reserved_bytes + inventory.n_layers * inventory.n_experts
                * inventory.total_bytes_per_expert <= p.nodes[worker].capacity_bytes
                ==> p.nodes[p.indices[layer * inventory.n_experts + expert] as int].role
                == ClusterNodeRole::Worker
        },
{
    first_coordinator_is_first(nodes);
    lemma_outcome_windowed(inventory, nodes);
    finished_plans_are_sound(inventory, nodes);
    match placement_outcome(inventory, nodes) {
        Err(_) => {},
        Ok(p) => {
            let n = inventory.n_experts as int;
            let e = inventory.total_bytes_per_expert as int;
            let t = inventory.n_layers * inventory.n_experts;
            lemma_row_place(inventory.n_layers as int, n, layer, expert);
            let flat = layer * n + expert;
            let node = p.indices[flat];
            assert(node < nodes.len());
            let empty = empty_nodes(nodes, inventory)[worker];
            assert(p.nodes[worker].role == ClusterNodeRole::Worker);
            if p.nodes[node as int].role != ClusterNodeRole::Worker {
                assert(workers_full(p.nodes, inventory.total_bytes_per_expert));
                assert(is_full(p.nodes[worker], inventory.total_bytes_per_expert));
                assert(node != worker);
                lemma_occurrences_missing(p.indices, worker as usize, flat);
                let c = p.nodes[worker].assigned_expert_count as int;
                assert((c + 1) * e <= t * e) by (nonlinear_arith)
                    requires
                        c + 1 <= t,
                        e >= 0,
                ;
                assert((c + 1) * e == c * e + e) by (nonlinear_arith);
            }
        },
    }
}

/// A plan keeps the cluster: its nodes are the configured ones in their order, with their memory,
/// the memory that is not for experts is reserved on coordinators only, and a node's load is what
/// its experts take.
pub proof fn plans_keep_the_cluster(
    inventory: MoePlacementInventory,
    nodes: Seq<ClusterNodeConfig>,
    i: int,
)
    requires
        nodes.len() <= usize::MAX,
        0 <= i < nodes.len(),
        forall|a: int, b: int|
            0 <= a < b < nodes.len() ==> (#[trigger] nodes[a]).id@ != (#[trigger] nodes[b]).id@,
    ensures
        placement_outcome(inventory, nodes) matches Ok(p) ==> {
            &&& p.nodes.len() == nodes.len()
            &&& p.nodes[i].node_id == nodes[i].id
            &&& p.nodes[i].role == nodes[i].role
            &&& p.nodes[i].address == nodes[i].address
            &&& nodes[i].logical_cpu_count is Some ==> nodes[i].logical_cpu_count == Some(
                p.nodes[i].logical_cpu_count,
            )
            &&& nodes[i].discovered_memory_bytes == Some(p.nodes[i].capacity_bytes)
            &&& nodes[i].role == ClusterNodeRole::Coordinator ==> p.nodes[i].reserved_bytes
                == inventory.non_expert_checkpoint_bytes
            &&& nodes[i].role == ClusterNodeRole::Worker ==> p.nodes[i].reserved_bytes == 0
            &&& p.nodes[i].reserved_bytes + p.nodes[i].assigned_bytes
                <= p.nodes[i].capacity_bytes
        },
{
    first_coordinator_is_first(nodes);
    lemma_outcome_windowed(inventory, nodes);
    finished_plans_are_sound(inventory, nodes);
    match placement_outcome(inventory, nodes) {
        Err(_) => {},
        Ok(p) => {
            lemma_node_with_id(nodes, i);
            lemma_budget_accepted(nodes, inventory, nodes.len(), i);
            let empty = empty_nodes(nodes, inventory)[i];
            let own = p.nodes[i];
        },
    }
}

proof fn lemma_node_with_id(nodes: Seq<ClusterNodeConfig>, i: int)
    requires
        0 <= i < nodes.len(),
        forall|a: int| 0 <= a < i ==> (#[trigger] nodes[a]).id@ != nodes[i].id@,
    ensures
        node_with_id(nodes, nodes[i].id@) == Some(nodes[i]),
    decreases nodes.len(),
{
    if i > 0 {
        assert(nodes[0].id@ != nodes[i].id@);
        let rest = nodes.skip(1);
        assert(rest[i - 1] == nodes[i]);
        assert forall|a: int| 0 <= a < i - 1 implies (#[trigger] rest[a]).id@ != rest[i
            - 1].id@ by {
            assert(nodes[a + 1].id@ != nodes[i].id@);
        }
        lemma_node_with_id(rest, i - 1);
    }
}

proof fn lemma_rest_places_all(
    p: Placement,
    inventory: MoePlacementInventory,
    ideals: Seq<usize>,
    layer: int,
    experts: nat,
    large: int,
)
    requires
        sound(p, inventory.total_bytes_per_expert),
        0 <= layer < inventory.n_layers,
        p.indices.len() == inventory.n_layers * inventory.n_experts,
        unassigned_from(p.indices, (layer + 1) * inventory.n_experts),
        experts <= inventory.n_experts,
        lists_workers(p),
        0 <= large < p.nodes.len(),
        holds_all(p.nodes[large], inventory),
    ensures
        after_rest(p, inventory, ideals, layer, experts) matches Ok(q) && grown(p.nodes, q.nodes)
            && lists_workers(q),
    decreases experts,
{
    if experts > 0 {
        let k = (experts - 1) as nat;
        let n = inventory.n_experts as int;
        let bytes = inventory.total_bytes_per_expert;
        lemma_rest_places_all(p, inventory, ideals, layer, k, large);
        lemma_after_rest(p, inventory, ideals, layer, k);
        let q = after_rest(p, inventory, ideals, layer, k)->Ok_0;
        let flat = layer * n + k;
        lemma_flat_in_range(layer, n, inventory.n_layers as int, k as int);
        if q.indices[flat] == UNASSIGNED_NODE_INDEX {
            let was = p.nodes[large];
            lemma_always_room(q, inventory, large, flat);
            lemma_workers_come_first(q, ideals, bytes);
            if next_node(q, ideals, bytes) is None {
                assert(is_full(q.nodes[large], bytes));
            }
            let i = next_node(q, ideals, bytes)->0;
            lemma_placed_grows(q, flat, i, bytes);
            let s = placed(q, flat, i, bytes);
            lemma_grown_through(p.nodes, q.nodes, s.nodes);
            lemma_listed_still(q, s);
        }
    }
}

proof fn lemma_layers_place_all(
    p: Placement,
    inventory: MoePlacementInventory,
    coordinator: usize,
    ideals: Seq<usize>,
    layers: nat,
    large: int,
)
    requires
        sound(p, inventory.total_bytes_per_expert),
        p.indices.len() == inventory.n_layers * inventory.n_experts,
        unassigned_from(p.indices, 0),
        coordinator < p.nodes.len(),
        layers <= inventory.n_layers,
        lists_workers(p),
        0 <= large < p.nodes.len(),
        holds_all(p.nodes[large], inventory),
    ensures
        after_layers(p, inventory, coordinator, ideals, layers) is Ok,
    decreases layers,
{
    if layers > 0 {
        let layer = layers - 1;
        lemma_layers_place_all(p, inventory, coordinator, ideals, (layers - 1) as nat, large);
        lemma_layers_windowed(p, inventory, coordinator, ideals, (layers - 1) as nat);
        lemma_after_layers(p, inventory, coordinator, ideals, (layers - 1) as nat);
        let q = after_layers(p, inventory, coordinator, ideals, (layers - 1) as nat)->Ok_0;
        let t = local_target(inventory) as nat;
        lemma_after_local(q, inventory, coordinator, layer, t);
        lemma_local_windowed(q, inventory, coordinator, layer, t);
        let (r, k) = after_local(q, inventory, coordinator, layer, t);
        lemma_reordered_sound(r, layer, k, inventory.total_bytes_per_expert);
        lemma_reordered_lists_workers(r, layer, k);
        let s = reordered(r, layer, k);
        let a = p.nodes[large];
        let b = q.nodes[large];
        lemma_rest_places_all(s, inventory, ideals, layer, inventory.n_experts as nat, large);
    }
}

/// Placing fails for want of room only where no node could hold all experts.
pub proof fn a_large_node_is_enough(
    inventory: MoePlacementInventory,
    nodes: Seq<ClusterNodeConfig>,
    large: int,
)
    requires
        nodes.len() <= usize::MAX,
        0 <= large < nodes.len(),
        holds_all(empty_nodes(nodes, inventory)[large], inventory),
    ensures
        !(placement_outcome(inventory, nodes) matches Err(PlacementError::Unplaceable { .. })),
{
    first_coordinator_is_first(nodes);
    if first_coordinator(nodes) is Some && budget_rejection(nodes, inventory, nodes.len()) is None
        && inventory.n_layers * inventory.n_experts <= usize::MAX {
        lemma_empty_placement(nodes, inventory);
        let empty = empty_placement(nodes, inventory);
        lemma_workers_listed(empty.nodes, empty.nodes.len());
        match crate::distributed::shares::ideals_outcome(
            empty_nodes(nodes, inventory),
            inventory.total_bytes_all_experts as int,
        ) {
            Err(_) => {},
            Ok(ideals) => {
                lemma_layers_place_all(
                    empty,
                    inventory,
                    first_coordinator(nodes)->0 as usize,
                    ideals,
                    inventory.n_layers as nat,
                    large,
                );
            },
        }
    }
    lemma_budget_errors(nodes, inventory, nodes.len());
}

proof fn lemma_budget_errors(
    nodes: Seq<ClusterNodeConfig>,
    inventory: MoePlacementInventory,
    k: nat,
)
    requires
        k <= nodes.len(),
    ensures
        !(budget_rejection(nodes, inventory, k) matches Some(PlacementError::Unplaceable { .. })),
    decreases k,
{
    if k > 0 {
        lemma_budget_errors(nodes, inventory, (k - 1) as nat);
    }
}

/// The experts, as layer and number, at the first `k` places whose node is `node`.
pub open spec fn experts_of(indices: Seq<usize>, n_experts: int, node: usize, k: nat) -> Seq<
    (usize, usize),
>
    decreases k,
{
    if k == 0 {
        Seq::empty()
    } else {
        let front = experts_of(indices, n_experts, node, (k - 1) as nat);
        if indices[k - 1] == node {
            front.push((((k - 1) / n_experts) as usize, ((k - 1) % n_experts) as usize))
        } else {
            front
        }
    }
}

impl MoePlacementPlan {
    /// The experts of a node, as layer and number, in the order of their places.
    pub fn assigned_experts_for_node(&self, node_index: usize) -> (experts: Vec<(usize, usize)>)
        requires
            self.inventory.n_experts > 0 || self.expert_node_indices@.len() == 0,
        ensures
            experts@ == experts_of(
                self.expert_node_indices@,
                self.inventory.n_experts as int,
                node_index,
                self.expert_node_indices@.len(),
            ),
    {
        let n: usize = self.inventory.n_experts;
        let mut experts: Vec<(usize, usize)> = Vec::new();
        let mut i: usize = 0;
        while i < self.expert_node_indices.len()
            invariant
                i <= self.expert_node_indices@.len(),
                n == self.inventory.n_experts,
                n > 0 || self.expert_node_indices@.len() == 0,
                experts@ == experts_of(
                    self.expert_node_indices@,
                    n as int,
                    node_index,
                    i as nat,
                ),
            decreases self.expert_node_indices.len() - i,
        {
            if self.expert_node_indices[i] == node_index {
                experts.push((i / n, i % n));
            }
            i = i + 1;
        }
        experts
    }
}

/// An expert is listed for a node exactly where its place names that node, so every expert of a
/// finished plan is listed for one node and no other.
pub proof fn experts_are_listed_once(indices: Seq<usize>, n_experts: int, node: usize, k: nat)
    requires
        n_experts > 0,
        k <= indices.len() <= usize::MAX,
        n_experts <= usize::MAX,
    ensures
        forall|j: int|
            #![trigger indices[j]]
            0 <= j < k ==> (experts_of(indices, n_experts, node, k).contains(
                ((j / n_experts) as usize, (j % n_experts) as usize),
            ) <==> indices[j] == node),
        experts_of(indices, n_experts, node, k).len() == occurrences(indices.take(k as int), node),
    decreases k,
{
    if k == 0 {
        assert(indices.take(0).len() == 0);
    } else {
        let m = (k - 1) as nat;
        experts_are_listed_once(indices, n_experts, node, m);
        let front = experts_of(indices, n_experts, node, m);
        let all = experts_of(indices, n_experts, node, k);
        assert(indices.take(k as int).drop_last() =~= indices.take(m as int));
        lemma_places_below(indices, n_experts, node, m);
        let here = ((m as int / n_experts) as usize, (m as int % n_experts) as usize);
        assert forall|j: int| #![trigger indices[j]] 0 <= j < k implies (all.contains(
            ((j / n_experts) as usize, (j % n_experts) as usize),
        ) <==> indices[j] == node) by {
            let pair = ((j / n_experts) as usize, (j % n_experts) as usize);
            lemma_place_of_pair(j, n_experts);
            lemma_place_of_pair(m as int, n_experts);
            if j < m {
                if all.contains(pair) && !front.contains(pair) {
                    assert(pair == here);
                    assert(false);
                }
                if front.contains(pair) {
                    let x = choose|x: int| 0 <= x < front.len() && front[x] == pair;
                    assert(all[x] == pair);
                }
            } else {
                if indices[j] == node {
                    assert(all[front.len() as int] == pair);
                } else if front.contains(pair) {
                    let x = choose|x: int| 0 <= x < front.len() && front[x] == pair;
                    assert(front[x].0 * n_experts + front[x].1 < m);
                    assert(false);
                }
            }
        }
    }
}

proof fn lemma_place_of_pair(j: int, n: int)
    requires
        0 <= j <= usize::MAX,
        0 < n <= usize::MAX,
    ensures
        0 <= j / n <= usize::MAX,
        0 <= j % n < n,
        (j / n) * n + j % n == j,
{
    vstd::arithmetic::div_mod::lemma_fundamental_div_mod(j, n);
    assert((j / n) * n == n * (j / n)) by (nonlinear_arith);
    assert(0 <= j / n <= j) by (nonlinear_arith)
        requires
            j >= 0,
            n > 0,
    ;
}

proof fn lemma_places_below(indices: Seq<usize>, n_experts: int, node: usize, k: nat)
    requires
        0 < n_experts <= usize::MAX,
        k <= indices.len() <= usize::MAX,
    ensures
        forall|x: int|
            0 <= x < experts_of(indices, n_experts, node, k).len() ==> (#[trigger] experts_of(
                indices,
                n_experts,
                node,
                k,
            )[x]).0 * n_experts + experts_of(indices, n_experts, node, k)[x].1 < k,
    decreases k,
{
    if k > 0 {
        let m = (k - 1) as nat;
        lemma_places_below(indices, n_experts, node, m);
        lemma_place_of_pair(m as int, n_experts);
        let front = experts_of(indices, n_experts, node, m);
        let all = experts_of(indices, n_experts, node, k);
        assert forall|x: int| 0 <= x < all.len() implies (#[trigger] all[x]).0 * n_experts
            + all[x].1 < k by {
            if x < front.len() {
                assert(front[x].0 * n_experts + front[x].1 < m);
            }
        }
    }
}

/// The name of an expert tensor of a layer.
pub open spec fn expert_tensor_name(layer: usize, suffix: Seq<char>) -> Seq<char> {
    "blk."@ + decimal(layer as nat) + "."@ + suffix
}

/// What sizing an expert tensor of a layer gives; a missing tensor is reported under its name.
pub open spec fn sizes_expert_tensor(
    gguf: TensorDirectory,
    layer: usize,
    suffix: Seq<char>,
    result: Result<usize, PlacementError>,
) -> bool {
    let name = expert_tensor_name(layer, suffix);
    match find_by_name(gguf.tensors@, name) {
        None => result matches Err(PlacementError::TensorNotFound(missing)) && missing@ == name,
        Some(tensor) => match storage_outcome(tensor) {
            Ok(bytes) => result matches Ok(b) && b == bytes,
            Err(error) => result == Err::<usize, PlacementError>(PlacementError::Storage(error)),
        },
    }
}

/// The bytes of all experts of one kind in a layer.
pub fn layer_expert_tensor_bytes(gguf: &TensorDirectory, layer: usize, suffix: &str) -> (result:
    Result<usize, PlacementError>)
    requires
        named_fits(gguf.tensors@, expert_tensor_name(layer, suffix@)),
    ensures
        sizes_expert_tensor(*gguf, layer, suffix@, result),
{
    let name: String = Text::start("blk.").size(layer).text(".").text(suffix).finish();
    match find_gguf_tensor(gguf, &name) {
        None => Err(PlacementError::TensorNotFound(name)),
        Some(tensor) => match tensor_storage_bytes(tensor) {
            Ok(bytes) => Ok(bytes),
            Err(error) => Err(PlacementError::Storage(error)),
        },
    }
}

/// The needs of the experts of a model, from the bytes of the expert tensors of one layer.
pub open spec fn inventory_outcome(
    config: MoeModelConfig,
    checkpoint_bytes: usize,
    gate: int,
    up: int,
    down: int,
) -> Result<MoePlacementInventory, PlacementError> {
    let n = config.n_experts as int;
    let each = gate / n + up / n + down / n;
    let all = each * n * config.n_layers;
    if gate % n != 0 || up % n != 0 || down % n != 0 {
        Err(PlacementError::UnevenExperts)
    } else if each * n > usize::MAX || all > usize::MAX {
        Err(PlacementError::ExpertBytesOverflow)
    } else {
        Ok(
            MoePlacementInventory {
                n_layers: config.n_layers,
                n_experts: config.n_experts,
                n_experts_used: config.n_experts_used,
                dim: config.dim,
                expert_hidden_dim: config.expert_hidden_dim,
                checkpoint_bytes,
                non_expert_checkpoint_bytes: if checkpoint_bytes >= all {
                    (checkpoint_bytes - all) as usize
                } else {
                    0
                },
                gate_bytes_per_expert: (gate / n) as usize,
                up_bytes_per_expert: (up / n) as usize,
                down_bytes_per_expert: (down / n) as usize,
                total_bytes_per_expert: each as usize,
                total_bytes_all_experts: all as usize,
            },
        )
    }
}

/// The needs of the experts of a model.
pub fn expert_inventory(
    config: &MoeModelConfig,
    checkpoint_bytes: usize,
    gate: usize,
    up: usize,
    down: usize,
) -> (result: Result<MoePlacementInventory, PlacementError>)
    requires
        config.n_experts > 0,
        gate % config.n_experts == 0 && up % config.n_experts == 0 && down % config.n_experts == 0
            ==> gate / config.n_experts + up / config.n_experts + down / config.n_experts
            <= usize::MAX,
    ensures
        result == inventory_outcome(
            *config,
            checkpoint_bytes,
            gate as int,
            up as int,
            down as int,
        ),
{
    let n: usize = config.n_experts;
    if gate % n != 0 || up % n != 0 || down % n != 0 {
        return Err(PlacementError::UnevenExperts);
    }
    let each: usize = gate / n + up / n + down / n;
    let per_layer: usize = match each.checked_mul(n) {
        Some(value) => value,
        None => return Err(PlacementError::ExpertBytesOverflow),
    };
    let all: usize = match per_layer.checked_mul(config.n_layers) {
        Some(value) => value,
        None => return Err(PlacementError::ExpertBytesOverflow),
    };
    Ok(
        MoePlacementInventory {
            n_layers: config.n_layers,
            n_experts: n,
            n_experts_used: config.n_experts_used,
            dim: config.dim,
            expert_hidden_dim: config.expert_hidden_dim,
            checkpoint_bytes,
            non_expert_checkpoint_bytes: checkpoint_bytes.saturating_sub(all),
            gate_bytes_per_expert: gate / n,
            up_bytes_per_expert: up / n,
            down_bytes_per_expert: down / n,
            total_bytes_per_expert: each,
            total_bytes_all_experts: all,
        },
    )
}

/// The bytes of the expert tensor of layer 0 with the given name, where it can be sized.
pub open spec fn layer_bytes(gguf: TensorDirectory, suffix: Seq<char>) -> Option<int> {
    match find_by_name(gguf.tensors@, expert_tensor_name(0, suffix)) {
        None => None,
        Some(tensor) => match storage_outcome(tensor) {
            Ok(bytes) => Some(bytes),
            Err(_) => None,
        },
    }
}

/// Whether the expert tensor of layer 0 with the given name has a size that is a machine number,
/// where there is one.
pub open spec fn layer_fits(gguf: TensorDirectory, suffix: Seq<char>) -> bool {
    named_fits(gguf.tensors@, expert_tensor_name(0, suffix))
}

/// Whether the expert tensors of layer 0 have sizes that are machine numbers and the bytes per
/// expert add up without overflow, as far as they are looked at.
pub open spec fn model_fits(
    gguf: TensorDirectory,
    config: MoeModelConfig,
    nodes: Seq<ClusterNodeConfig>,
) -> bool {
    let n = config.n_experts as int;
    let gate = layer_bytes(gguf, "ffn_gate_exps.weight"@);
    let up = layer_bytes(gguf, "ffn_up_exps.weight"@);
    let down = layer_bytes(gguf, "ffn_down_exps.weight"@);
    cluster_rejection(nodes) is None && n > 0 && config.expert_hidden_dim > 0 ==> {
        &&& layer_fits(gguf, "ffn_gate_exps.weight"@)
        &&& gate is Some ==> layer_fits(gguf, "ffn_up_exps.weight"@)
        &&& gate is Some && up is Some ==> layer_fits(gguf, "ffn_down_exps.weight"@)
        &&& gate is Some && up is Some && down is Some && gate->0 % n == 0 && up->0 % n == 0
            && down->0 % n == 0 ==> gate->0 / n + up->0 / n + down->0 / n <= usize::MAX
    }
}

/// What the plan of a model is: the checks of the cluster and the model first, then the sizes of
/// the expert tensors of layer 0, then the placement.
pub open spec fn plans_model(
    gguf: TensorDirectory,
    config: MoeModelConfig,
    nodes: Seq<ClusterNodeConfig>,
    result: Result<MoePlacementPlan, PlacementError>,
) -> bool {
    match cluster_rejection(nodes) {
        Some(error) => result == Err::<MoePlacementPlan, PlacementError>(error),
        None => if config.n_experts == 0 {
            result == Err::<MoePlacementPlan, PlacementError>(PlacementError::NotRouted)
        } else if config.expert_hidden_dim == 0 {
            result == Err::<MoePlacementPlan, PlacementError>(PlacementError::NoHiddenDim)
        } else {
            match (
                layer_bytes(gguf, "ffn_gate_exps.weight"@),
                layer_bytes(gguf, "ffn_up_exps.weight"@),
                layer_bytes(gguf, "ffn_down_exps.weight"@),
            ) {
                (Some(gate), Some(up), Some(down)) => match inventory_outcome(
                    config,
                    gguf.mapped_len,
                    gate,
                    up,
                    down,
                ) {
                    Err(error) => result == Err::<MoePlacementPlan, PlacementError>(error),
                    Ok(inventory) => match placement_outcome(inventory, nodes) {
                        Err(error) => result == Err::<MoePlacementPlan, PlacementError>(error),
                        Ok(p) => result matches Ok(plan) && plan.inventory == inventory
                            && plan.nodes@ == p.nodes && plan.expert_node_indices@ == p.indices
                            && plan.coordinator_node_id == nodes[first_coordinator(nodes)->0].id,
                    },
                },
                (None, _, _) => fails_to_size(gguf, "ffn_gate_exps.weight"@, result),
                (_, None, _) => fails_to_size(gguf, "ffn_up_exps.weight"@, result),
                (_, _, None) => fails_to_size(gguf, "ffn_down_exps.weight"@, result),
            }
        },
    }
}

/// Whether the result is the failure to size the named expert tensor of layer 0.
pub open spec fn fails_to_size(
    gguf: TensorDirectory,
    suffix: Seq<char>,
    result: Result<MoePlacementPlan, PlacementError>,
) -> bool {
    result matches Err(error) && sizes_expert_tensor(gguf, 0, suffix, Err(error))
}

/// Plans the placement of the experts of a model file on a cluster.
pub fn build_moe_placement_plan(
    gguf: &TensorDirectory,
    config: &MoeModelConfig,
    cluster: &ClusterConfig,
) -> (result: Result<MoePlacementPlan, PlacementError>)
    requires
        model_fits(*gguf, *config, cluster.node@),
    ensures
        plans_model(*gguf, *config, cluster.node@, result),
{
    match cluster.validate() {
        Ok(_) => {},
        Err(error) => return Err(error),
    }
    if config.n_experts == 0 {
        return Err(PlacementError::NotRouted);
    }
    if config.expert_hidden_dim == 0 {
        return Err(PlacementError::NoHiddenDim);
    }
    let gate: usize = match layer_expert_tensor_bytes(gguf, 0, "ffn_gate_exps.weight") {
        Ok(bytes) => bytes,
        Err(error) => return Err(error),
    };
    let up: usize = match layer_expert_tensor_bytes(gguf, 0, "ffn_up_exps.weight") {
        Ok(bytes) => bytes,
        Err(error) => return Err(error),
    };
    let down: usize = match layer_expert_tensor_bytes(gguf, 0, "ffn_down_exps.weight") {
        Ok(bytes) => bytes,
        Err(error) => return Err(error),
    };
    match expert_inventory(config, gguf.mapped_len, gate, up, down) {
        Ok(inventory) => build_moe_placement_plan_from_inventory(inventory, cluster),
        Err(error) => Err(error),
    }
}

/// The inventory of a model accounts for its checkpoint: the experts share each kind of tensor
/// evenly, all layers hold as many expert bytes, and what the experts leave of the checkpoint is
/// counted as the rest. A model has an inventory exactly where the experts share evenly and their
/// bytes can be counted.
pub proof fn inventories_account_for_the_checkpoint(
    config: MoeModelConfig,
    checkpoint_bytes: usize,
    gate: int,
    up: int,
    down: int,
)
    requires
        config.n_experts > 0,
        0 <= gate,
        0 <= up,
        0 <= down,
    ensures
        inventory_outcome(config, checkpoint_bytes, gate, up, down) is Ok <==> {
            &&& gate % config.n_experts as int == 0
            &&& up % config.n_experts as int == 0
            &&& down % config.n_experts as int == 0
            &&& gate + up + down <= usize::MAX
            &&& (gate + up + down) * config.n_layers <= usize::MAX
        },
        inventory_outcome(config, checkpoint_bytes, gate, up, down) matches Err(error) ==> (error
            is UnevenExperts <==> !(gate % config.n_experts as int == 0 && up
            % config.n_experts as int == 0 && down % config.n_experts as int == 0)),
        inventory_outcome(config, checkpoint_bytes, gate, up, down) matches Ok(inventory) ==> {
            &&& inventory.gate_bytes_per_expert * config.n_experts == gate
            &&& inventory.up_bytes_per_expert * config.n_experts == up
            &&& inventory.down_bytes_per_expert * config.n_experts == down
            &&& inventory.total_bytes_per_expert == inventory.gate_bytes_per_expert
                + inventory.up_bytes_per_expert + inventory.down_bytes_per_expert
            &&& inventory.total_bytes_all_experts == (gate + up + down) * config.n_layers
            &&& inventory.total_bytes_all_experts <= checkpoint_bytes
                ==> inventory.total_bytes_all_experts + inventory.non_expert_checkpoint_bytes
                == checkpoint_bytes
            &&& inventory.total_bytes_all_experts >= checkpoint_bytes
                ==> inventory.non_expert_checkpoint_bytes == 0
            &&& inventory.checkpoint_bytes == checkpoint_bytes
            &&& inventory.n_layers == config.n_layers
            &&& inventory.n_experts == config.n_experts
            &&& inventory.n_experts_used == config.n_experts_used
            &&& inventory.dim == config.dim
            &&& inventory.expert_hidden_dim == config.expert_hidden_dim
        },
{
    let n = config.n_experts as int;
    let each = gate / n + up / n + down / n;
    vstd::arithmetic::div_mod::lemma_fundamental_div_mod(gate, n);
    vstd::arithmetic::div_mod::lemma_fundamental_div_mod(up, n);
    vstd::arithmetic::div_mod::lemma_fundamental_div_mod(down, n);
    vstd::arithmetic::div_mod::lemma_div_pos_is_pos(gate, n);
    vstd::arithmetic::div_mod::lemma_div_pos_is_pos(up, n);
    vstd::arithmetic::div_mod::lemma_div_pos_is_pos(down, n);
    assert((gate / n) * n == n * (gate / n)) by (nonlinear_arith);
    assert((up / n) * n == n * (up / n)) by (nonlinear_arith);
    assert((down / n) * n == n * (down / n)) by (nonlinear_arith);
    assert(each * n == n * (gate / n) + n * (up / n) + n * (down / n)) by (nonlinear_arith)
        requires
            each == gate / n + up / n + down / n,
    ;
    assert(each <= each * n) by (nonlinear_arith)
        requires
            0 <= each,
            1 <= n,
    ;
    if gate % n == 0 && up % n == 0 && down % n == 0 {
        assert(each * n == gate + up + down);
        assert(0 <= (gate + up + down) * config.n_layers) by (nonlinear_arith)
            requires
                0 <= gate + up + down,
        ;
    }
}

} // verus!
