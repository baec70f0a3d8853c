//! The share of the expert bytes that each node should carry, and the choice of the next node.
use crate::distributed::placement::{assignable, can_fit_additional_expert, has_room,
    node_assignable_capacity_bytes, node_weight, weight, MoePlacementNode, PlacementError};
use crate::distributed::planner::assignable_sum;
use vstd::prelude::*;

verus! {

/// The sum of the shares of nodes.
pub open spec fn weight_sum(nodes: Seq<MoePlacementNode>) -> int
    decreases nodes.len(),
{
    if nodes.len() == 0 {
        0
    } else {
        weight_sum(nodes.drop_last()) + weight(nodes.last())
    }
}

/// The sum of the shares of nodes, saturating.
pub open spec fn total_weight(nodes: Seq<MoePlacementNode>) -> int {
    if weight_sum(nodes) > u128::MAX {
        u128::MAX as int
    } else {
        weight_sum(nodes)
    }
}

/// The part of `total` that is proportional to the share of a node, within its memory.
pub open spec fn quota(node: MoePlacementNode, total: int, all: int) -> int {
    let q = total * weight(node) / all;
    if q < assignable(node) {
        q
    } else {
        assignable(node)
    }
}

/// The proportional part of each node.
pub open spec fn quotas(nodes: Seq<MoePlacementNode>, total: int) -> Seq<usize> {
    Seq::new(nodes.len(), |i: int| quota(nodes[i], total, total_weight(nodes)) as usize)
}

/// The sum of sizes.
pub open spec fn size_sum(sizes: Seq<usize>) -> int
    decreases sizes.len(),
{
    if sizes.len() == 0 {
        0
    } else {
        size_sum(sizes.drop_last()) + sizes.last()
    }
}

/// The memory of a node beyond its ideal load.
pub open spec fn slack(node: MoePlacementNode, ideal: usize) -> int {
    if assignable(node) > ideal {
        assignable(node) - ideal
    } else {
        0
    }
}

/// The first of the first `k` nodes with the widest slack, where any has slack.
pub open spec fn widest(nodes: Seq<MoePlacementNode>, ideals: Seq<usize>, k: nat) -> Option<int>
    decreases k,
{
    if k == 0 {
        None
    } else {
        let i = k - 1;
        match widest(nodes, ideals, (k - 1) as nat) {
            None => if slack(nodes[i], ideals[i]) > 0 {
                Some(i)
            } else {
                None
            },
            Some(b) => if slack(nodes[i], ideals[i]) > slack(nodes[b], ideals[b]) {
                Some(i)
            } else {
                Some(b)
            },
        }
    }
}

/// Hands `remaining` bytes out, each time to the node with the widest slack.
pub open spec fn filled(
    nodes: Seq<MoePlacementNode>,
    ideals: Seq<usize>,
    remaining: int,
) -> Seq<usize>
    decreases remaining,
{
    match widest(nodes, ideals, nodes.len()) {
        None => ideals,
        Some(i) => {
            let room = slack(nodes[i], ideals[i]);
            let add = if remaining < room {
                remaining
            } else {
                room
            };
            if remaining <= 0 || add <= 0 {
                ideals
            } else {
                filled(nodes, ideals.update(i, (ideals[i] + add) as usize), remaining - add)
            }
        },
    }
}

/// What is left of `total` after the proportional parts.
pub open spec fn left_over(nodes: Seq<MoePlacementNode>, total: int) -> int {
    if total > size_sum(quotas(nodes, total)) {
        total - size_sum(quotas(nodes, total))
    } else {
        0
    }
}

/// Whether the proportional part of some node cannot be computed in 128 bits.
pub open spec fn weights_overflow(nodes: Seq<MoePlacementNode>, total: int) -> bool {
    exists|i: int| 0 <= i < nodes.len() && total * weight(#[trigger] nodes[i]) > u128::MAX
}

/// The ideal load of each node.
pub open spec fn ideals_outcome(nodes: Seq<MoePlacementNode>, total: int) -> Result<
    Seq<usize>,
    PlacementError,
> {
    if weight_sum(nodes) == 0 {
        Err(PlacementError::ZeroCapacity)
    } else if weights_overflow(nodes, total) {
        Err(PlacementError::WeightOverflow)
    } else {
        Ok(filled(nodes, quotas(nodes, total), left_over(nodes, total)))
    }
}

proof fn lemma_weight_nonnegative(node: MoePlacementNode)
    ensures
        0 <= weight(node),
{
    let a = assignable(node);
    let c = if node.logical_cpu_count == 0 {
        1
    } else {
        node.logical_cpu_count as int
    };
    assert(a * c >= 0) by (nonlinear_arith)
        requires
            a >= 0,
            c >= 0,
    ;
}

proof fn lemma_weight_sum(nodes: Seq<MoePlacementNode>, i: int)
    requires
        0 <= i < nodes.len(),
    ensures
        0 <= weight(nodes[i]) <= weight_sum(nodes),
    decreases nodes.len(),
{
    lemma_weight_nonnegative(nodes.last());
    lemma_weight_nonnegative(nodes[i]);
    if i < nodes.len() - 1 {
        lemma_weight_sum(nodes.drop_last(), i);
    } else {
        lemma_weight_sum_nonnegative(nodes.drop_last());
    }
}

proof fn lemma_weight_sum_nonnegative(nodes: Seq<MoePlacementNode>)
    ensures
        0 <= weight_sum(nodes),
    decreases nodes.len(),
{
    if nodes.len() > 0 {
        lemma_weight_nonnegative(nodes.last());
        lemma_weight_sum_nonnegative(nodes.drop_last());
    }
}

proof fn lemma_weight_sum_grows(nodes: Seq<MoePlacementNode>, k: int)
    requires
        0 <= k <= nodes.len(),
    ensures
        0 <= weight_sum(nodes.take(k)) <= weight_sum(nodes),
    decreases nodes.len(),
{
    if k == nodes.len() {
        assert(nodes.take(k) =~= nodes);
        lemma_weight_sum_nonnegative(nodes);
    } else {
        assert(nodes.drop_last().take(k) =~= nodes.take(k));
        lemma_weight_nonnegative(nodes.last());
        lemma_weight_sum_grows(nodes.drop_last(), k);
    }
}

proof fn lemma_quota_range(node: MoePlacementNode, total: int, all: int)
    requires
        0 <= total,
        all > 0,
    ensures
        0 <= quota(node, total, all) <= assignable(node),
{
    lemma_weight_nonnegative(node);
    assert(total * weight(node) >= 0) by (nonlinear_arith)
        requires
            total >= 0,
            weight(node) >= 0,
    ;
    assert(total * weight(node) / all >= 0) by (nonlinear_arith)
        requires
            total * weight(node) >= 0,
            all > 0,
    ;
}

fn sum_weights(nodes: &Vec<MoePlacementNode>) -> (total: u128)
    ensures
        total == total_weight(nodes@),
{
    let mut total: u128 = 0;
    let mut i: usize = 0;
    while i < nodes.len()
        invariant
            i <= nodes@.len(),
            total == total_weight(nodes@.take(i as int)),
        decreases nodes.len() - i,
    {
        proof {
            assert(nodes@.take(i + 1).drop_last() =~= nodes@.take(i as int));
            lemma_weight_sum_grows(nodes@.take(i + 1), i as int);
            assert(nodes@.take(i + 1).take(i as int) =~= nodes@.take(i as int));
            lemma_weight_nonnegative(nodes@[i as int]);
        }
        total = total.saturating_add(node_weight(&nodes[i]));
        i = i + 1;
    }
    assert(nodes@.take(i as int) =~= nodes@);
    total
}

fn widest_node(nodes: &Vec<MoePlacementNode>, ideals: &Vec<usize>) -> (result: (
    Option<usize>,
    usize,
))
    requires
        nodes@.len() == ideals@.len(),
    ensures
        match result.0 {
            Some(i) => i < nodes@.len() && widest(nodes@, ideals@, nodes@.len()) == Some(i as int)
                && result.1 == slack(nodes@[i as int], ideals@[i as int]) && result.1 > 0,
            None => widest(nodes@, ideals@, nodes@.len()) is None && result.1 == 0,
        },
{
    let mut best: Option<usize> = None;
    let mut best_slack: usize = 0;
    let mut i: usize = 0;
    while i < nodes.len()
        invariant
            i <= nodes@.len() == ideals@.len(),
            match best {
                Some(b) => b < i && widest(nodes@, ideals@, i as nat) == Some(b as int)
                    && best_slack == slack(nodes@[b as int], ideals@[b as int]) && best_slack > 0,
                None => widest(nodes@, ideals@, i as nat) is None && best_slack == 0,
            },
        decreases nodes.len() - i,
    {
        let room: usize = node_assignable_capacity_bytes(&nodes[i]).saturating_sub(ideals[i]);
        assert(room == slack(nodes@[i as int], ideals@[i as int]));
        if room > best_slack {
            best_slack = room;
            best = Some(i);
        }
        i = i + 1;
    }
    (best, best_slack)
}

/// The ideal load of each node: proportional to its share and within its memory, what is left
/// over going to the nodes with the widest slack.
pub fn ideal_assigned_bytes_by_node(nodes: &Vec<MoePlacementNode>, total_expert_bytes: usize) -> (
result: Result<Vec<usize>, PlacementError>)
    ensures
        match result {
            Ok(ideals) => ideals@.len() == nodes@.len() && ideals_outcome(
                nodes@,
                total_expert_bytes as int,
            ) == Ok::<Seq<usize>, PlacementError>(ideals@),
            Err(error) => ideals_outcome(nodes@, total_expert_bytes as int) == Err::<
                Seq<usize>,
                PlacementError,
            >(error),
        },
{
    let all: u128 = sum_weights(nodes);
    let ghost total = total_expert_bytes as int;
    proof {
        lemma_weight_sum_nonnegative(nodes@);
    }
    if all == 0 {
        return Err(PlacementError::ZeroCapacity);
    }
    let mut ideals: Vec<usize> = Vec::new();
    let mut assigned_total: usize = 0;
    let mut i: usize = 0;
    while i < nodes.len()
        invariant
            i <= nodes@.len(),
            i == ideals@.len(),
            total == total_expert_bytes,
            all == total_weight(nodes@),
            all > 0,
            weight_sum(nodes@) != 0,
            ideals@ == quotas(nodes@, total).take(i as int),
            0 <= size_sum(ideals@),
            assigned_total == if size_sum(ideals@) > usize::MAX {
                usize::MAX as int
            } else {
                size_sum(ideals@)
            },
            forall|k: int| 0 <= k < i ==> total * weight(#[trigger] nodes@[k]) <= u128::MAX,
        decreases nodes.len() - i,
    {
        let node = &nodes[i];
        let w: u128 = node_weight(node);
        let weighted: u128 = match (total_expert_bytes as u128).checked_mul(w) {
            Some(product) => product / all,
            None => {
                assert(total * weight(nodes@[i as int]) > u128::MAX);
                return Err(PlacementError::WeightOverflow);
            },
        };
        proof {
            lemma_weight_sum(nodes@, i as int);
            assert(w <= all);
            assert(total * w / all as int <= total) by (nonlinear_arith)
                requires
                    0 <= total,
                    0 <= w <= all,
                    all > 0,
            ;
            lemma_quota_range(*node, total, all as int);
        }
        let ideal: usize = weighted as usize;
        let limit: usize = node_assignable_capacity_bytes(node);
        let share: usize = if ideal < limit { ideal } else { limit };
        let ghost before = ideals@;
        ideals.push(share);
        proof {
            assert(ideals@.drop_last() =~= before);
            assert(share == quotas(nodes@, total)[i as int]);
            assert(ideals@ =~= quotas(nodes@, total).take(i + 1));
        }
        assigned_total = assigned_total.saturating_add(share);
        i = i + 1;
    }
    assert(ideals@ =~= quotas(nodes@, total));
    assert(!weights_overflow(nodes@, total)) by {
        assert forall|k: int| 0 <= k < nodes@.len() implies total * weight(#[trigger] nodes@[k])
            <= u128::MAX by {}
    }
    let mut remaining: usize = total_expert_bytes.saturating_sub(assigned_total);
    assert(remaining == left_over(nodes@, total));
    let ghost target = filled(nodes@, ideals@, remaining as int);
    loop
        invariant_except_break
            filled(nodes@, ideals@, remaining as int) == target,
        invariant
            ideals@.len() == nodes@.len(),
        ensures
            ideals@ == target,
        decreases remaining,
    {
        let (best, room) = widest_node(nodes, &ideals);
        match best {
            None => {
                break;
            },
            Some(idx) => {
                if remaining == 0 {
                    break;
                }
                let add: usize = if remaining < room { remaining } else { room };
                let raised: usize = ideals[idx] + add;
                ideals.set(idx, raised);
                remaining = remaining - add;
            },
        }
    }
    Ok(ideals)
}

/// The bytes that a node is short of its ideal load.
pub open spec fn deficit(node: MoePlacementNode, ideal: usize) -> int {
    if ideal > node.assigned_bytes {
        ideal - node.assigned_bytes
    } else {
        0
    }
}

/// Whether node `c` is preferred to node `b`: further below its ideal load, then with fewer
/// assigned bytes, then with fewer experts.
pub open spec fn preferred(
    nodes: Seq<MoePlacementNode>,
    ideals: Seq<usize>,
    c: int,
    b: int,
) -> bool {
    let dc = deficit(nodes[c], ideals[c]);
    let db = deficit(nodes[b], ideals[b]);
    dc > db || (dc == db && (nodes[c].assigned_bytes < nodes[b].assigned_bytes || (
    nodes[c].assigned_bytes == nodes[b].assigned_bytes && nodes[c].assigned_expert_count
        < nodes[b].assigned_expert_count)))
}

/// The first of the candidates with room that no other one with room is preferred to.
pub open spec fn pick(
    nodes: Seq<MoePlacementNode>,
    candidates: Seq<usize>,
    ideals: Seq<usize>,
    expert_bytes: int,
) -> Option<usize>
    decreases candidates.len(),
{
    if candidates.len() == 0 {
        None
    } else {
        let c = candidates.last();
        match pick(nodes, candidates.drop_last(), ideals, expert_bytes) {
            None => if has_room(nodes[c as int], expert_bytes) {
                Some(c)
            } else {
                None
            },
            Some(b) => if has_room(nodes[c as int], expert_bytes) && preferred(
                nodes,
                ideals,
                c as int,
                b as int,
            ) {
                Some(c)
            } else {
                Some(b)
            },
        }
    }
}

/// Chooses the node for the next expert.
pub fn pick_next_node(
    nodes: &Vec<MoePlacementNode>,
    candidate_indices: &Vec<usize>,
    ideal_assigned_bytes: &Vec<usize>,
    expert_bytes: usize,
) -> (result: Option<usize>)
    requires
        forall|i: int|
            0 <= i < candidate_indices@.len() ==> #[trigger] candidate_indices@[i] < nodes@.len()
                && candidate_indices@[i] < ideal_assigned_bytes@.len(),
    ensures
        result == pick(
            nodes@,
            candidate_indices@,
            ideal_assigned_bytes@,
            expert_bytes as int,
        ),
        result matches Some(i) ==> i < nodes@.len() && has_room(
            nodes@[i as int],
            expert_bytes as int,
        ),
{
    let mut best: Option<usize> = None;
    let mut k: usize = 0;
    while k < candidate_indices.len()
        invariant
            k <= candidate_indices@.len(),
            forall|i: int|
                0 <= i < candidate_indices@.len() ==> #[trigger] candidate_indices@[i]
                    < nodes@.len() && candidate_indices@[i] < ideal_assigned_bytes@.len(),
            best == pick(
                nodes@,
                candidate_indices@.take(k as int),
                ideal_assigned_bytes@,
                expert_bytes as int,
            ),
            best matches Some(i) ==> i < nodes@.len() && i < ideal_assigned_bytes@.len()
                && has_room(nodes@[i as int], expert_bytes as int),
        decreases candidate_indices.len() - k,
    {
        let idx: usize = candidate_indices[k];
        assert(candidate_indices@.take(k + 1).drop_last() =~= candidate_indices@.take(k as int));
        if can_fit_additional_expert(&nodes[idx], expert_bytes) {
            match best {
                None => {
                    best = Some(idx);
                },
                Some(current) => {
                    let candidate = &nodes[idx];
                    let other = &nodes[current];
                    let candidate_deficit: usize = ideal_assigned_bytes[idx].saturating_sub(
                        candidate.assigned_bytes,
                    );
                    let best_deficit: usize = ideal_assigned_bytes[current].saturating_sub(
                        other.assigned_bytes,
                    );
                    if candidate_deficit > best_deficit || (candidate_deficit == best_deficit && (
                    candidate.assigned_bytes < other.assigned_bytes || (candidate.assigned_bytes
                        == other.assigned_bytes && candidate.assigned_expert_count
                        < other.assigned_expert_count))) {
                        best = Some(idx);
                    }
                },
            }
        }
        k = k + 1;
    }
    assert(candidate_indices@.take(k as int) =~= candidate_indices@);
    best
}

/// The node picked has room, no candidate with room is preferred to it, and it is preferred to
/// every candidate with room that comes before its first place among the candidates; where there
/// is none, no candidate has room.
pub proof fn picked_node_is_preferred(
    nodes: Seq<MoePlacementNode>,
    candidates: Seq<usize>,
    ideals: Seq<usize>,
    expert_bytes: int,
)
    ensures
        match pick(nodes, candidates, ideals, expert_bytes) {
            Some(b) => {
                &&& candidates.contains(b)
                &&& has_room(nodes[b as int], expert_bytes)
                &&& forall|i: int|
                    0 <= i < candidates.len() && has_room(
                        nodes[#[trigger] candidates[i] as int],
                        expert_bytes,
                    ) ==> !preferred(nodes, ideals, candidates[i] as int, b as int)
                &&& forall|i: int|
                    0 <= i < candidates.index_of_first(b)->0 && has_room(
                        nodes[#[trigger] candidates[i] as int],
                        expert_bytes,
                    ) ==> preferred(nodes, ideals, b as int, candidates[i] as int)
            },
            None => forall|i: int|
                0 <= i < candidates.len() ==> !has_room(
                    nodes[#[trigger] candidates[i] as int],
                    expert_bytes,
                ),
        },
    decreases candidates.len(),
{
    if candidates.len() > 0 {
        let front = candidates.drop_last();
        picked_node_is_preferred(nodes, front, ideals, expert_bytes);
        let last = candidates.last();
        assert(candidates[candidates.len() - 1] == last);
        assert forall|i: int| 0 <= i < front.len() implies front[i] == #[trigger] candidates[i] by {
        }
        match pick(nodes, front, ideals, expert_bytes) {
            Some(b) => {
                let k = choose|k: int| 0 <= k < front.len() && front[k] == b;
                assert(candidates[k] == b);
                front.index_of_first_ensures(b);
                candidates.index_of_first_ensures(b);
                let f = front.index_of_first(b)->0;
                assert(candidates[f] == b);
                assert(candidates.index_of_first(b)->0 <= f);
            },
            None => {},
        }
        candidates.index_of_first_ensures(last);
    }
}

proof fn lemma_size_sum_update(sizes: Seq<usize>, i: int, value: usize)
    requires
        0 <= i < sizes.len(),
    ensures
        size_sum(sizes.update(i, value)) == size_sum(sizes) - sizes[i] + value,
    decreases sizes.len(),
{
    let updated = sizes.update(i, value);
    if i == sizes.len() - 1 {
        assert(updated.drop_last() =~= sizes.drop_last());
    } else {
        assert(updated.drop_last() =~= sizes.drop_last().update(i, value));
        lemma_size_sum_update(sizes.drop_last(), i, value);
    }
}

proof fn lemma_widest_has_slack(nodes: Seq<MoePlacementNode>, ideals: Seq<usize>, k: nat)
    requires
        k <= nodes.len(),
        nodes.len() == ideals.len(),
    ensures
        match widest(nodes, ideals, k) {
            Some(i) => 0 <= i < k && slack(nodes[i], ideals[i]) > 0,
            None => forall|i: int| 0 <= i < k ==> slack(#[trigger] nodes[i], ideals[i]) == 0,
        },
    decreases k,
{
    if k > 0 {
        lemma_widest_has_slack(nodes, ideals, (k - 1) as nat);
    }
}

/// Handing out what is left over takes nothing from a node, keeps every ideal load within the
/// memory of its node, hands out no more than there is, and stops early only where no node has
/// slack.
pub proof fn filling_respects_memory(
    nodes: Seq<MoePlacementNode>,
    ideals: Seq<usize>,
    remaining: int,
)
    requires
        nodes.len() == ideals.len(),
        remaining >= 0,
        forall|i: int| 0 <= i < nodes.len() ==> ideals[i] <= assignable(#[trigger] nodes[i]),
    ensures
        ({
            let out = filled(nodes, ideals, remaining);
            &&& out.len() == nodes.len()
            &&& forall|i: int| 0 <= i < nodes.len() ==> out[i] <= assignable(#[trigger] nodes[i])
            &&& forall|i: int| 0 <= i < nodes.len() ==> ideals[i] <= #[trigger] out[i]
            &&& size_sum(ideals) <= size_sum(out) <= size_sum(ideals) + remaining
            &&& size_sum(out) == size_sum(ideals) + remaining || forall|i: int|
                0 <= i < nodes.len() ==> out[i] == assignable(#[trigger] nodes[i])
        }),
    decreases remaining,
{
    lemma_widest_has_slack(nodes, ideals, nodes.len());
    match widest(nodes, ideals, nodes.len()) {
        None => {},
        Some(i) => {
            let room = slack(nodes[i], ideals[i]);
            let add = if remaining < room {
                remaining
            } else {
                room
            };
            if remaining > 0 {
                let raised = (ideals[i] + add) as usize;
                lemma_size_sum_update(ideals, i, raised);
                let next = ideals.update(i, raised);
                filling_respects_memory(nodes, next, remaining - add);
                let out = filled(nodes, ideals, remaining);
                assert forall|j: int| 0 <= j < nodes.len() implies ideals[j]
                    <= #[trigger] out[j] by {
                    assert(next[j] <= out[j]);
                }
            }
        },
    }
}

/// Whether no node is to carry more than its memory.
pub open spec fn within_memory(nodes: Seq<MoePlacementNode>, ideals: Seq<usize>) -> bool {
    &&& ideals.len() == nodes.len()
    &&& forall|i: int| 0 <= i < nodes.len() ==> #[trigger] ideals[i] <= assignable(nodes[i])
}

proof fn lemma_sums_compare(nodes: Seq<MoePlacementNode>, ideals: Seq<usize>)
    requires
        within_memory(nodes, ideals),
    ensures
        size_sum(ideals) <= assignable_sum(nodes),
        (forall|i: int| 0 <= i < nodes.len() ==> #[trigger] ideals[i] == assignable(nodes[i]))
            ==> size_sum(ideals) == assignable_sum(nodes),
    decreases nodes.len(),
{
    if nodes.len() > 0 {
        let last = nodes.len() - 1;
        assert(ideals[last] <= assignable(nodes[last]));
        let front = ideals.drop_last();
        assert forall|i: int| 0 <= i < last implies #[trigger] front[i] <= assignable(
            nodes.drop_last()[i],
        ) by {
            assert(ideals[i] <= assignable(nodes[i]));
        }
        lemma_sums_compare(nodes.drop_last(), front);
        if forall|i: int| 0 <= i < nodes.len() ==> #[trigger] ideals[i] == assignable(nodes[i]) {
            assert(ideals[last] == assignable(nodes[last]));
            assert forall|i: int| 0 <= i < last implies #[trigger] front[i] == assignable(
                nodes.drop_last()[i],
            ) by {
                assert(ideals[i] == assignable(nodes[i]));
            }
        }
    }
}

proof fn lemma_quota_sum(nodes: Seq<MoePlacementNode>, total: int, all: int, k: nat)
    requires
        k <= nodes.len(),
        total >= 0,
        all > 0,
    ensures
        all * size_sum(Seq::new(k, |i: int| quota(nodes[i], total, all) as usize)) <= total
            * weight_sum(nodes.take(k as int)),
    decreases k,
{
    let parts = Seq::new(k, |i: int| quota(nodes[i], total, all) as usize);
    if k > 0 {
        let last = k - 1;
        lemma_quota_sum(nodes, total, all, last as nat);
        lemma_quota_range(nodes[last], total, all);
        assert(parts.drop_last() =~= Seq::new(
            last as nat,
            |i: int| quota(nodes[i], total, all) as usize,
        ));
        assert(nodes.take(k as int).drop_last() =~= nodes.take(last));
        let w = weight(nodes[last]);
        let q = quota(nodes[last], total, all);
        let s = size_sum(parts.drop_last());
        let t = weight_sum(nodes.take(last));
        vstd::arithmetic::div_mod::lemma_fundamental_div_mod(total * w, all);
        lemma_weight_nonnegative(nodes[last]);
        let d = total * w / all;
        assert(all * q <= total * w) by (nonlinear_arith)
            requires
                q <= d,
                all > 0,
                total * w == all * d + (total * w) % all,
                (total * w) % all >= 0,
        ;
        assert(all * (s + q) == all * s + all * q) by (nonlinear_arith);
        assert(total * (t + w) == total * t + total * w) by (nonlinear_arith);
    } else {
        assert(parts.len() == 0);
        assert(nodes.take(0).len() == 0);
        assert(all * 0 == 0 && total * 0 == 0);
    }
}

/// All bytes are handed out as far as the nodes together have room for them: to no node more than
/// it has memory for, and to none less than its proportional part.
pub proof fn ideals_hand_out_everything(nodes: Seq<MoePlacementNode>, total: int)
    requires
        0 <= total,
        weight_sum(nodes) <= u128::MAX,
        ideals_outcome(nodes, total) is Ok,
    ensures
        within_memory(nodes, ideals_outcome(nodes, total)->Ok_0),
        size_sum(ideals_outcome(nodes, total)->Ok_0) == if total < assignable_sum(nodes) {
            total
        } else {
            assignable_sum(nodes)
        },
        forall|i: int|
            0 <= i < nodes.len() ==> quota(nodes[i], total, weight_sum(nodes))
                <= #[trigger] ideals_outcome(nodes, total)->Ok_0[i],
{
    let all = weight_sum(nodes);
    let parts = quotas(nodes, total);
    lemma_weight_sum_nonnegative(nodes);
    assert forall|i: int| 0 <= i < nodes.len() implies #[trigger] parts[i] <= assignable(
        nodes[i],
    ) && parts[i] == quota(nodes[i], total, all) by {
        lemma_quota_range(nodes[i], total, all);
    }
    lemma_quota_sum(nodes, total, all, nodes.len());
    assert(nodes.take(nodes.len() as int) =~= nodes);
    let s = size_sum(parts);
    assert(s <= total) by (nonlinear_arith)
        requires
            all * s <= total * all,
            all > 0,
    ;
    filling_respects_memory(nodes, parts, total - s);
    let out = filled(nodes, parts, total - s);
    lemma_sums_compare(nodes, out);
    assert forall|i: int| 0 <= i < nodes.len() implies quota(nodes[i], total, all)
        <= #[trigger] out[i] by {
        assert(parts[i] <= out[i]);
    }
}

/// A node with more memory and a larger weight is not given a smaller proportional part.
pub proof fn larger_nodes_have_larger_quotas(
    a: MoePlacementNode,
    b: MoePlacementNode,
    total: int,
    all: int,
)
    requires
        weight(a) <= weight(b),
        assignable(a) <= assignable(b),
        total >= 0,
        all > 0,
    ensures
        quota(a, total, all) <= quota(b, total, all),
{
    let wa = weight(a);
    let wb = weight(b);
    assert(total * wa <= total * wb) by (nonlinear_arith)
        requires
            wa <= wb,
            total >= 0,
    ;
    vstd::arithmetic::div_mod::lemma_div_is_ordered(total * wa, total * wb, all);
}

/// Of the candidates that have room for one more expert, the node picked lies furthest below its
/// ideal load; among equals it carries the fewest bytes, and then the fewest experts.
pub proof fn the_node_furthest_below_its_ideal_is_picked(
    nodes: Seq<MoePlacementNode>,
    candidates: Seq<usize>,
    ideals: Seq<usize>,
    expert_bytes: int,
    i: int,
)
    requires
        0 <= i < candidates.len(),
        ({
            let other = nodes[candidates[i] as int];
            other.reserved_bytes + other.assigned_bytes + expert_bytes <= other.capacity_bytes
        }),
    ensures
        pick(nodes, candidates, ideals, expert_bytes) is Some,
        ({
            let b = pick(nodes, candidates, ideals, expert_bytes)->0 as int;
            let c = candidates[i] as int;
            let best = nodes[b];
            let other = nodes[c];
            let below = if ideals[b] > best.assigned_bytes {
                ideals[b] - best.assigned_bytes
            } else {
                0
            };
            let below_other = if ideals[c] > other.assigned_bytes {
                ideals[c] - other.assigned_bytes
            } else {
                0
            };
            &&& best.reserved_bytes + best.assigned_bytes + expert_bytes <= best.capacity_bytes
            &&& candidates.contains(b as usize)
            &&& below >= below_other
            &&& below == below_other ==> best.assigned_bytes <= other.assigned_bytes
            &&& below == below_other && best.assigned_bytes == other.assigned_bytes
                ==> best.assigned_expert_count <= other.assigned_expert_count
        }),
{
    picked_node_is_preferred(nodes, candidates, ideals, expert_bytes);
    assert(has_room(nodes[candidates[i] as int], expert_bytes));
    let b = pick(nodes, candidates, ideals, expert_bytes)->0;
    assert(!preferred(nodes, ideals, candidates[i] as int, b as int));
}

/// The proportional part of a node is to all bytes as its memory times its processors is to that of
/// all nodes, rounded down, unless its memory is smaller.
pub proof fn quotas_are_proportional(node: MoePlacementNode, total: int, all: int)
    requires
        0 <= total,
        0 < all,
        node.reserved_bytes <= node.capacity_bytes,
    ensures
        ({
            let memory = node.capacity_bytes - node.reserved_bytes;
            let processors = if node.logical_cpu_count > 1 {
                node.logical_cpu_count as int
            } else {
                1
            };
            let part = quota(node, total, all);
            &&& 0 <= part <= memory
            &&& part * all <= total * (memory * processors)
            &&& part < memory ==> total * (memory * processors) < (part + 1) * all
        }),
{
    let memory = node.capacity_bytes - node.reserved_bytes;
    let processors = if node.logical_cpu_count > 1 {
        node.logical_cpu_count as int
    } else {
        1
    };
    lemma_quota_range(node, total, all);
    let w = memory * processors;
    assert(weight(node) == w);
    vstd::arithmetic::div_mod::lemma_fundamental_div_mod(total * w, all);
    let d = total * w / all;
    let part = quota(node, total, all);
    assert(all * d == d * all) by (nonlinear_arith);
    assert(part * all <= d * all) by (nonlinear_arith)
        requires
            part <= d,
            all > 0,
    ;
    assert((d + 1) * all == d * all + all) by (nonlinear_arith);
}

/// What is left over goes to the first of the nodes with the most memory beyond their ideal load,
/// as much of it as that node has memory for.
pub proof fn what_is_left_goes_where_most_memory_is_free(
    nodes: Seq<MoePlacementNode>,
    ideals: Seq<usize>,
    remaining: int,
    i: int,
)
    requires
        within_memory(nodes, ideals),
        remaining > 0,
        0 <= i < nodes.len(),
        ideals[i] < assignable(nodes[i]),
        forall|j: int|
            0 <= j < nodes.len() ==> assignable(nodes[j]) - #[trigger] ideals[j] <= assignable(
                nodes[i],
            ) - ideals[i],
        forall|j: int|
            0 <= j < i ==> assignable(nodes[j]) - #[trigger] ideals[j] < assignable(nodes[i])
                - ideals[i],
    ensures
        ({
            let free = assignable(nodes[i]) - ideals[i];
            filled(nodes, ideals, remaining) == if remaining <= free {
                ideals.update(i, (ideals[i] + remaining) as usize)
            } else {
                filled(
                    nodes,
                    ideals.update(i, assignable(nodes[i]) as usize),
                    remaining - free,
                )
            }
        }),
{
    lemma_widest_is_first(nodes, ideals, nodes.len());
    let w = widest(nodes, ideals, nodes.len());
    assert(ideals[i] <= assignable(nodes[i]));
    match w {
        Some(b) => {
            assert(ideals[b] <= assignable(nodes[b]));
            assert(slack(nodes[i], ideals[i]) <= slack(nodes[b], ideals[b]));
            assert(b == i);
        },
        None => {
            assert(slack(nodes[i], ideals[i]) == 0);
        },
    }
    let free = assignable(nodes[i]) - ideals[i];
    if remaining <= free {
        let next = ideals.update(i, (ideals[i] + remaining) as usize);
        assert(filled(nodes, ideals, remaining) == filled(nodes, next, 0));
    }
}

proof fn lemma_widest_is_first(nodes: Seq<MoePlacementNode>, ideals: Seq<usize>, k: nat)
    requires
        k <= nodes.len(),
        nodes.len() == ideals.len(),
    ensures
        match widest(nodes, ideals, k) {
            Some(b) => 0 <= b < k && slack(nodes[b], ideals[b]) > 0 && (forall|j: int|
                0 <= j < k ==> slack(#[trigger] nodes[j], ideals[j]) <= slack(nodes[b], ideals[b]))
                && (forall|j: int|
                0 <= j < b ==> slack(#[trigger] nodes[j], ideals[j]) < slack(nodes[b], ideals[b])),
            None => forall|j: int| 0 <= j < k ==> slack(#[trigger] nodes[j], ideals[j]) == 0,
        },
    decreases k,
{
    if k > 0 {
        lemma_widest_is_first(nodes, ideals, (k - 1) as nat);
    }
}

} // verus!
