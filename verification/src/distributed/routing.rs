//! Splitting the experts of a token between the coordinator and the workers.
use crate::distributed::coordinator::CoordinatorError;
use crate::distributed::placement::{ClusterNodeRole, MoePlacementNode, MoePlacementPlan};
use vstd::prelude::*;

verus! {

/// Where the selected experts of a token are computed.
#[derive(Debug)]
pub struct Routing<W> {
    /// The experts of the coordinator with their weights.
    pub local: Vec<(usize, W)>,
    /// The experts of each worker node.
    pub remote: Vec<(usize, Vec<usize>)>,
}

/// The contents of a [`Routing`].
#[verifier::ext_equal]
pub struct RoutingView<W> {
    pub local: Seq<(usize, W)>,
    pub remote: Seq<(usize, Seq<usize>)>,
}

/// The contents of groups of experts.
pub open spec fn groups(remote: Seq<(usize, Vec<usize>)>) -> Seq<(usize, Seq<usize>)> {
    remote.map(|i: int, g: (usize, Vec<usize>)| (g.0, g.1@))
}

impl<W> View for Routing<W> {
    type V = RoutingView<W>;

    open spec fn view(&self) -> RoutingView<W> {
        RoutingView { local: self.local@, remote: groups(self.remote@) }
    }
}

/// The weight of the first selection of an expert.
pub open spec fn first_weight<W>(selected: Seq<(usize, W)>, expert: usize) -> Option<W>
    decreases selected.len(),
{
    if selected.len() == 0 {
        None
    } else if selected[0].0 == expert {
        Some(selected[0].1)
    } else {
        first_weight(selected.skip(1), expert)
    }
}

/// The index of the first group of a node.
pub open spec fn group_of(remote: Seq<(usize, Seq<usize>)>, node: usize) -> Option<int>
    decreases remote.len(),
{
    if remote.len() == 0 {
        None
    } else {
        match group_of(remote.drop_last(), node) {
            Some(i) => Some(i),
            None => if remote.last().0 == node {
                Some(remote.len() - 1)
            } else {
                None
            },
        }
    }
}

/// Groups after one more expert was added to the group of its node.
pub open spec fn grouped(remote: Seq<(usize, Seq<usize>)>, node: usize, expert: usize) -> Seq<
    (usize, Seq<usize>),
> {
    match group_of(remote, node) {
        Some(i) => remote.update(i, (remote[i].0, remote[i].1.push(expert))),
        None => remote.push((node, seq![expert])),
    }
}

/// The routing of the first `k` selected experts of a layer.
pub open spec fn routed<W>(
    nodes: Seq<MoePlacementNode>,
    indices: Seq<usize>,
    n_experts: usize,
    layer: usize,
    selected: Seq<(usize, W)>,
    k: nat,
) -> Result<RoutingView<W>, CoordinatorError>
    decreases k,
{
    if k == 0 {
        Ok(RoutingView { local: Seq::empty(), remote: Seq::empty() })
    } else {
        match routed(nodes, indices, n_experts, layer, selected, (k - 1) as nat) {
            Err(error) => Err(error),
            Ok(v) => {
                let expert = selected[k - 1].0;
                let place = layer * n_experts + expert;
                if place > usize::MAX {
                    Err(CoordinatorError::PlanIndexOverflow)
                } else if place >= indices.len() {
                    Err(CoordinatorError::PlanIndexOutOfBounds)
                } else if nodes[indices[place] as int].role == ClusterNodeRole::Coordinator {
                    Ok(
                        RoutingView {
                            local: v.local.push((expert, first_weight(selected, expert)->0)),
                            remote: v.remote,
                        },
                    )
                } else {
                    Ok(
                        RoutingView {
                            local: v.local,
                            remote: grouped(v.remote, indices[place], expert),
                        },
                    )
                }
            },
        }
    }
}

proof fn lemma_routing_stays_rejected<W>(
    nodes: Seq<MoePlacementNode>,
    indices: Seq<usize>,
    n_experts: usize,
    layer: usize,
    selected: Seq<(usize, W)>,
    k: nat,
    n: nat,
)
    requires
        k <= n,
        routed(nodes, indices, n_experts, layer, selected, k) is Err,
    ensures
        routed(nodes, indices, n_experts, layer, selected, n) == routed(
            nodes,
            indices,
            n_experts,
            layer,
            selected,
            k,
        ),
    decreases n,
{
    if k < n {
        lemma_routing_stays_rejected(
            nodes,
            indices,
            n_experts,
            layer,
            selected,
            k,
            (n - 1) as nat,
        );
    }
}

fn find_weight<W: Copy>(selected: &[(usize, W)], expert: usize) -> (weight: Option<W>)
    ensures
        weight == first_weight(selected@, expert),
{
    let mut i: usize = 0;
    assert(selected@.skip(0) =~= selected@);
    while i < selected.len()
        invariant
            i <= selected@.len(),
            first_weight(selected@, expert) == first_weight(selected@.skip(i as int), expert),
        decreases selected.len() - i,
    {
        assert(selected@.skip(i as int)[0] == selected@[i as int]);
        assert(selected@.skip(i as int).skip(1) =~= selected@.skip(i + 1));
        let (id, weight) = selected[i];
        if id == expert {
            return Some(weight);
        }
        i = i + 1;
    }
    None
}

proof fn lemma_weight_exists<W>(selected: Seq<(usize, W)>, i: int)
    requires
        0 <= i < selected.len(),
    ensures
        first_weight(selected, selected[i].0) is Some,
    decreases selected.len(),
{
    if selected[0].0 != selected[i].0 {
        assert(selected.skip(1)[i - 1] == selected[i]);
        lemma_weight_exists(selected.skip(1), i - 1);
    }
}

proof fn lemma_group_of(remote: Seq<(usize, Seq<usize>)>, node: usize)
    ensures
        match group_of(remote, node) {
            Some(i) => 0 <= i < remote.len() && remote[i].0 == node && forall|j: int|
                0 <= j < i ==> (#[trigger] remote[j]).0 != node,
            None => forall|j: int| 0 <= j < remote.len() ==> (#[trigger] remote[j]).0 != node,
        },
    decreases remote.len(),
{
    if remote.len() > 0 {
        let front = remote.drop_last();
        lemma_group_of(front, node);
        assert forall|j: int| 0 <= j < front.len() implies front[j] == #[trigger] remote[j] by {}
    }
}

proof fn lemma_group_is(remote: Seq<(usize, Seq<usize>)>, node: usize, i: int)
    requires
        0 <= i < remote.len(),
        remote[i].0 == node,
        forall|j: int| 0 <= j < i ==> (#[trigger] remote[j]).0 != node,
    ensures
        group_of(remote, node) == Some(i),
{
    lemma_group_of(remote, node);
}

fn find_group(remote: &Vec<(usize, Vec<usize>)>, node: usize) -> (group: Option<usize>)
    ensures
        match group {
            Some(i) => i < remote@.len() && group_of(groups(remote@), node) == Some(i as int),
            None => group_of(groups(remote@), node) is None,
        },
{
    let mut i: usize = 0;
    while i < remote.len()
        invariant
            i <= remote@.len(),
            forall|j: int| 0 <= j < i ==> (#[trigger] groups(remote@)[j]).0 != node,
        decreases remote.len() - i,
    {
        assert(groups(remote@)[i as int].0 == remote@[i as int].0);
        if remote[i].0 == node {
            proof {
                lemma_group_is(groups(remote@), node, i as int);
            }
            return Some(i);
        }
        i = i + 1;
    }
    proof {
        lemma_group_of(groups(remote@), node);
    }
    None
}

/// Splits the selected experts of a layer between the coordinator and the workers.
pub fn route_experts<W: Copy>(
    plan: &MoePlacementPlan,
    layer: usize,
    selected: &[(usize, W)],
) -> (result: Result<Routing<W>, CoordinatorError>)
    requires
        forall|j: int|
            0 <= j < plan.expert_node_indices@.len() ==> #[trigger] plan.expert_node_indices@[j]
                < plan.nodes@.len(),
    ensures
        ({
            let outcome = routed(
                plan.nodes@,
                plan.expert_node_indices@,
                plan.inventory.n_experts,
                layer,
                selected@,
                selected@.len(),
            );
            match result {
                Ok(routing) => outcome == Ok::<RoutingView<W>, CoordinatorError>(routing@),
                Err(error) => outcome == Err::<RoutingView<W>, CoordinatorError>(error),
            }
        }),
{
    let n_experts: usize = plan.inventory.n_experts;
    let mut local: Vec<(usize, W)> = Vec::new();
    let mut remote: Vec<(usize, Vec<usize>)> = Vec::new();
    let mut i: usize = 0;
    assert(groups(remote@) =~= Seq::empty());
    while i < selected.len()
        invariant
            i <= selected@.len(),
            n_experts == plan.inventory.n_experts,
            forall|j: int|
                0 <= j < plan.expert_node_indices@.len()
                    ==> #[trigger] plan.expert_node_indices@[j] < plan.nodes@.len(),
            routed(
                plan.nodes@,
                plan.expert_node_indices@,
                n_experts,
                layer,
                selected@,
                i as nat,
            ) == Ok::<RoutingView<W>, CoordinatorError>(
                RoutingView { local: local@, remote: groups(remote@) },
            ),
        decreases selected.len() - i,
    {
        let expert: usize = selected[i].0;
        proof {
            lemma_weight_exists(selected@, i as int);
            if routed(
                plan.nodes@,
                plan.expert_node_indices@,
                n_experts,
                layer,
                selected@,
                (i + 1) as nat,
            ) is Err {
                lemma_routing_stays_rejected(
                    plan.nodes@,
                    plan.expert_node_indices@,
                    n_experts,
                    layer,
                    selected@,
                    (i + 1) as nat,
                    selected@.len(),
                );
            }
            assert(layer * n_experts >= 0) by (nonlinear_arith);
        }
        let base: usize = match layer.checked_mul(n_experts) {
            Some(value) => value,
            None => return Err(CoordinatorError::PlanIndexOverflow),
        };
        let place: usize = match base.checked_add(expert) {
            Some(value) => value,
            None => return Err(CoordinatorError::PlanIndexOverflow),
        };
        if place >= plan.expert_node_indices.len() {
            return Err(CoordinatorError::PlanIndexOutOfBounds);
        }
        let node: usize = plan.expert_node_indices[place];
        if plan.nodes[node].role == ClusterNodeRole::Coordinator {
            match find_weight(selected, expert) {
                Some(weight) => local.push((expert, weight)),
                None => {},
            }
        } else {
            let ghost before = remote@;
            match find_group(&remote, node) {
                Some(g) => {
                    remote[g].1.push(expert);
                    proof {
                        lemma_group_of(groups(before), node);
                        let target = grouped(groups(before), node, expert);
                        assert forall|j: int| 0 <= j < target.len() implies #[trigger] groups(
                            remote@,
                        )[j] == target[j] by {
                            if j != g {
                                assert(remote@[j] == before[j]);
                            }
                        }
                        assert(groups(remote@) =~= target);
                    }
                },
                None => {
                    let mut ids: Vec<usize> = Vec::new();
                    ids.push(expert);
                    assert(ids@ =~= seq![expert]);
                    remote.push((node, ids));
                    proof {
                        let target = grouped(groups(before), node, expert);
                        assert forall|j: int| 0 <= j < target.len() implies #[trigger] groups(
                            remote@,
                        )[j] == target[j] by {
                            if j < before.len() {
                                assert(remote@[j] == before[j]);
                            }
                        }
                        assert(groups(remote@) =~= target);
                    }
                },
            }
        }
        i = i + 1;
    }
    Ok(Routing { local, remote })
}

/// Whether the `i`-th selected expert is computed where it is placed: by the coordinator with its
/// first weight, or in the group of its worker node.
pub open spec fn computed_where_placed<W>(
    v: RoutingView<W>,
    nodes: Seq<MoePlacementNode>,
    indices: Seq<usize>,
    n_experts: usize,
    layer: usize,
    selected: Seq<(usize, W)>,
    i: int,
) -> bool {
    let expert = selected[i].0;
    let node = indices[layer * n_experts + expert];
    if nodes[node as int].role == ClusterNodeRole::Coordinator {
        exists|x: int|
            0 <= x < v.local.len() && #[trigger] v.local[x] == (
                expert,
                first_weight(selected, expert)->0,
            )
    } else {
        exists|g: int|
            0 <= g < v.remote.len() && (#[trigger] v.remote[g]).0 == node
                && v.remote[g].1.contains(expert)
    }
}

/// What holds of every routing: each worker node has one group, whose experts are all placed on
/// it; and each of the selected experts is computed where it is placed.
pub proof fn routing_follows_the_plan<W>(
    nodes: Seq<MoePlacementNode>,
    indices: Seq<usize>,
    n_experts: usize,
    layer: usize,
    selected: Seq<(usize, W)>,
    k: nat,
)
    requires
        k <= selected.len(),
    ensures
        routed(nodes, indices, n_experts, layer, selected, k) matches Ok(v) ==> {
            &&& forall|a: int, b: int|
                0 <= a < b < v.remote.len() ==> (#[trigger] v.remote[a]).0 != (
                #[trigger] v.remote[b]).0
            &&& forall|g: int, x: int|
                0 <= g < v.remote.len() && 0 <= x < v.remote[g].1.len()
                    ==> indices[layer * n_experts + #[trigger] v.remote[g].1[x]] == v.remote[g].0
            &&& forall|i: int|
                0 <= i < k ==> #[trigger] computed_where_placed(
                    v,
                    nodes,
                    indices,
                    n_experts,
                    layer,
                    selected,
                    i,
                )
        },
    decreases k,
{
    if k > 0 {
        let m = (k - 1) as nat;
        routing_follows_the_plan(nodes, indices, n_experts, layer, selected, m);
        match routed(nodes, indices, n_experts, layer, selected, k) {
            Err(_) => {},
            Ok(v) => {
                let u = routed(nodes, indices, n_experts, layer, selected, m)->Ok_0;
                let expert = selected[m as int].0;
                let node = indices[layer * n_experts + expert];
                lemma_group_of(u.remote, node);
                let at = match group_of(u.remote, node) {
                    Some(i) => i,
                    None => u.remote.len() as int,
                };
                if nodes[node as int].role == ClusterNodeRole::Coordinator {
                    assert(v.local[u.local.len() as int] == (
                        expert,
                        first_weight(selected, expert)->0,
                    ));
                } else {
                    assert(v.remote[at].0 == node);
                    assert(v.remote[at].1[v.remote[at].1.len() - 1] == expert);
                    assert forall|a: int, b: int| 0 <= a < b < v.remote.len() implies (
                    #[trigger] v.remote[a]).0 != (#[trigger] v.remote[b]).0 by {
                        assert(a < u.remote.len() ==> u.remote[a].0 == v.remote[a].0);
                        assert(b < u.remote.len() ==> u.remote[b].0 == v.remote[b].0);
                    }
                    assert forall|g: int, x: int|
                        0 <= g < v.remote.len() && 0 <= x
                            < v.remote[g].1.len() implies indices[layer * n_experts
                        + #[trigger] v.remote[g].1[x]] == v.remote[g].0 by {
                        if g < u.remote.len() && x < u.remote[g].1.len() {
                            assert(v.remote[g].1[x] == u.remote[g].1[x]);
                        }
                    }
                }
                assert forall|i: int| 0 <= i < k implies #[trigger] computed_where_placed(
                    v,
                    nodes,
                    indices,
                    n_experts,
                    layer,
                    selected,
                    i,
                ) by {
                    let e = selected[i].0;
                    let n = indices[layer * n_experts + e];
                    if i < m {
                        assert(computed_where_placed(
                            u,
                            nodes,
                            indices,
                            n_experts,
                            layer,
                            selected,
                            i,
                        ));
                        if nodes[n as int].role == ClusterNodeRole::Coordinator {
                            let x = choose|x: int|
                                0 <= x < u.local.len() && #[trigger] u.local[x] == (
                                    e,
                                    first_weight(selected, e)->0,
                                );
                            assert(v.local[x] == u.local[x]);
                        } else {
                            let g = choose|g: int|
                                0 <= g < u.remote.len() && (#[trigger] u.remote[g]).0 == n
                                    && u.remote[g].1.contains(e);
                            let x = choose|x: int|
                                0 <= x < u.remote[g].1.len() && u.remote[g].1[x] == e;
                            assert(v.remote[g].1[x] == e);
                            assert(v.remote[g].0 == n);
                        }
                    }
                }
            },
        }
    }
}

/// The last of the first `k` places of an expert in a group.
pub open spec fn last_place(ids: Seq<usize>, expert: usize, k: nat) -> Option<int>
    decreases k,
{
    if k == 0 {
        None
    } else if ids[k - 1] == expert {
        Some(k - 1)
    } else {
        last_place(ids, expert, (k - 1) as nat)
    }
}

/// The number of outputs of a group that belong to its experts.
pub open spec fn paired(ids: Seq<usize>, outputs: usize) -> nat {
    if ids.len() < outputs {
        ids.len()
    } else {
        outputs as nat
    }
}

/// The last output that the first `k` groups gave for an expert: group and place.
pub open spec fn output_of(
    remote: Seq<(usize, Seq<usize>)>,
    counts: Seq<usize>,
    expert: usize,
    k: nat,
) -> Option<(int, int)>
    decreases k,
{
    if k == 0 {
        None
    } else {
        match last_place(remote[k - 1].1, expert, paired(remote[k - 1].1, counts[k - 1])) {
            Some(x) => Some((k - 1, x)),
            None => output_of(remote, counts, expert, (k - 1) as nat),
        }
    }
}

/// One remote output to be added to the result.
#[derive(Clone, Copy, Debug, PartialEq, Eq, Structural)]
pub struct WeightedOutput {
    /// The place of the expert among the selected ones.
    pub selected: usize,
    /// The group that computed it.
    pub group: usize,
    /// The place of the output in the group.
    pub output: usize,
}

/// The remote outputs of the first `k` selected experts, in their order.
pub open spec fn weighted<W>(
    selected: Seq<(usize, W)>,
    remote: Seq<(usize, Seq<usize>)>,
    counts: Seq<usize>,
    k: nat,
) -> Seq<WeightedOutput>
    decreases k,
{
    if k == 0 {
        Seq::empty()
    } else {
        let front = weighted(selected, remote, counts, (k - 1) as nat);
        match output_of(remote, counts, selected[k - 1].0, remote.len()) {
            Some((g, x)) => front.push(
                WeightedOutput {
                    selected: (k - 1) as usize,
                    group: g as usize,
                    output: x as usize,
                },
            ),
            None => front,
        }
    }
}

fn find_output(remote: &Vec<(usize, Vec<usize>)>, counts: &Vec<usize>, expert: usize) -> (found:
    Option<(usize, usize)>)
    requires
        counts@.len() == remote@.len(),
    ensures
        match found {
            Some((g, x)) => g < remote@.len() && x < remote@[g as int].1@.len() && x
                < counts@[g as int] && output_of(
                groups(remote@),
                counts@,
                expert,
                remote@.len(),
            ) == Some((g as int, x as int)),
            None => output_of(groups(remote@), counts@, expert, remote@.len()) is None,
        },
{
    let mut g: usize = remote.len();
    while g > 0
        invariant
            g <= remote@.len() == counts@.len(),
            output_of(groups(remote@), counts@, expert, remote@.len()) == output_of(
                groups(remote@),
                counts@,
                expert,
                g as nat,
            ),
        decreases g,
    {
        let ids = &remote[g - 1].1;
        let count: usize = counts[g - 1];
        assert(groups(remote@)[g - 1].1 == ids@);
        let mut x: usize = if ids.len() < count { ids.len() } else { count };
        assert(x == paired(ids@, count));
        while x > 0
            invariant
                x <= ids@.len(),
                x <= count,
                last_place(ids@, expert, paired(ids@, count)) == last_place(
                    ids@,
                    expert,
                    x as nat,
                ),
                0 < g <= remote@.len() == counts@.len(),
                ids@ == remote@[g - 1].1@,
                count == counts@[g - 1],
                groups(remote@)[g - 1].1 == ids@,
                output_of(groups(remote@), counts@, expert, remote@.len()) == output_of(
                    groups(remote@),
                    counts@,
                    expert,
                    g as nat,
                ),
            decreases x,
        {
            if ids[x - 1] == expert {
                return Some((g - 1, x - 1));
            }
            x = x - 1;
        }
        g = g - 1;
    }
    None
}

/// Which remote outputs are added to the result, in the order of the selected experts.
pub fn weighted_outputs<W: Copy>(
    selected: &[(usize, W)],
    remote: &Vec<(usize, Vec<usize>)>,
    counts: &Vec<usize>,
) -> (outputs: Vec<WeightedOutput>)
    requires
        counts@.len() == remote@.len(),
    ensures
        outputs@ == weighted(selected@, groups(remote@), counts@, selected@.len()),
        forall|i: int|
            0 <= i < outputs@.len() ==> (#[trigger] outputs@[i]).selected < selected@.len()
                && outputs@[i].group < counts@.len() && outputs@[i].output
                < counts@[outputs@[i].group as int],
        forall|i: int|
            0 <= i < outputs@.len() ==> remote@[(#[trigger] outputs@[i]).group as int].1@[outputs@[i].output as int]
                == selected@[outputs@[i].selected as int].0,
        forall|i: int, j: int|
            0 <= i < j < outputs@.len() ==> (#[trigger] outputs@[i]).selected < (
            #[trigger] outputs@[j]).selected,
        forall|i: int, g: int, x: int|
            0 <= i < selected@.len() && 0 <= g < remote@.len() && 0 <= x < remote@[g].1@.len() && x
                < counts@[g] && #[trigger] remote@[g].1@[x] == (#[trigger] selected@[i]).0
                ==> exists|j: int| 0 <= j < outputs@.len() && (#[trigger] outputs@[j]).selected == i,
{
    let mut outputs: Vec<WeightedOutput> = Vec::new();
    let mut i: usize = 0;
    while i < selected.len()
        invariant
            i <= selected@.len(),
            counts@.len() == remote@.len(),
            outputs@ == weighted(selected@, groups(remote@), counts@, i as nat),
            forall|j: int|
                0 <= j < outputs@.len() ==> (#[trigger] outputs@[j]).selected < selected@.len()
                    && outputs@[j].group < counts@.len() && outputs@[j].output
                    < counts@[outputs@[j].group as int],
        decreases selected.len() - i,
    {
        assert(groups(remote@).len() == remote@.len());
        match find_output(remote, counts, selected[i].0) {
            Some((group, output)) => outputs.push(WeightedOutput { selected: i, group, output }),
            None => {},
        }
        i = i + 1;
    }
    proof {
        let g = groups(remote@);
        assert(selected@.len() == selected.len() && remote@.len() == remote.len());
        every_answered_expert_is_added_once(selected@, g, counts@);
        assert forall|i: int, k: int, x: int|
            0 <= i < selected@.len() && 0 <= k < remote@.len() && 0 <= x < remote@[k].1@.len() && x
                < counts@[k] && #[trigger] remote@[k].1@[x] == (
            #[trigger] selected@[i]).0 implies exists|j: int|
            0 <= j < outputs@.len() && (#[trigger] outputs@[j]).selected == i by {
            assert(g[k].1[x] == selected@[i].0);
        }
        assert forall|i: int| 0 <= i < outputs@.len() implies remote@[(
        #[trigger] outputs@[i]).group as int].1@[outputs@[i].output as int]
            == selected@[outputs@[i].selected as int].0 by {
            assert(g[outputs@[i].group as int].1[outputs@[i].output as int]
                == selected@[outputs@[i].selected as int].0);
        }
    }
    outputs
}

proof fn lemma_last_place(ids: Seq<usize>, expert: usize, k: nat)
    ensures
        match last_place(ids, expert, k) {
            Some(x) => 0 <= x < k && ids[x] == expert && forall|y: int|
                x < y < k ==> #[trigger] ids[y] != expert,
            None => forall|y: int| 0 <= y < k ==> #[trigger] ids[y] != expert,
        },
    decreases k,
{
    if k > 0 && ids[k - 1] != expert {
        lemma_last_place(ids, expert, (k - 1) as nat);
    }
}

proof fn lemma_output_of(
    remote: Seq<(usize, Seq<usize>)>,
    counts: Seq<usize>,
    expert: usize,
    k: nat,
)
    requires
        k <= remote.len() == counts.len(),
    ensures
        match output_of(remote, counts, expert, k) {
            Some((g, x)) => {
                &&& 0 <= g < k
                &&& 0 <= x < remote[g].1.len()
                &&& x < counts[g]
                &&& remote[g].1[x] == expert
                &&& forall|h: int, y: int|
                    0 <= h < k && 0 <= y < remote[h].1.len() && y < counts[h]
                        && #[trigger] remote[h].1[y] == expert ==> h < g || h == g && y <= x
            },
            None => forall|h: int, y: int|
                0 <= h < k && 0 <= y < remote[h].1.len() && y < counts[h]
                    ==> #[trigger] remote[h].1[y] != expert,
        },
    decreases k,
{
    if k > 0 {
        lemma_last_place(
            remote[k - 1].1,
            expert,
            paired(remote[k - 1].1, counts[k - 1]),
        );
        lemma_output_of(remote, counts, expert, (k - 1) as nat);
    }
}

proof fn lemma_weighted<W>(
    selected: Seq<(usize, W)>,
    remote: Seq<(usize, Seq<usize>)>,
    counts: Seq<usize>,
    k: nat,
)
    requires
        counts.len() == remote.len() <= usize::MAX,
        k <= selected.len() <= usize::MAX,
    ensures
        ({
            let out = weighted(selected, remote, counts, k);
            &&& forall|j: int|
                0 <= j < out.len() ==> {
                    let e = #[trigger] out[j];
                    &&& e.selected < k
                    &&& e.group < remote.len()
                    &&& e.output < remote[e.group as int].1.len()
                    &&& e.output < counts[e.group as int]
                    &&& remote[e.group as int].1[e.output as int]
                        == selected[e.selected as int].0
                    &&& forall|h: int, y: int|
                        0 <= h < remote.len() && 0 <= y < remote[h].1.len() && y < counts[h]
                            && #[trigger] remote[h].1[y] == selected[e.selected as int].0 ==> h
                            < e.group || h == e.group && y <= e.output
                }
            &&& forall|i: int, j: int|
                0 <= i < j < out.len() ==> (#[trigger] out[i]).selected < (
                #[trigger] out[j]).selected
            &&& forall|i: int, h: int, y: int|
                0 <= i < k && 0 <= h < remote.len() && 0 <= y < remote[h].1.len() && y < counts[h]
                    && #[trigger] remote[h].1[y] == (#[trigger] selected[i]).0 ==> exists|j: int|
                    0 <= j < out.len() && (#[trigger] out[j]).selected == i
        }),
    decreases k,
{
    if k > 0 {
        let m = (k - 1) as nat;
        lemma_weighted(selected, remote, counts, m);
        let expert = selected[m as int].0;
        lemma_output_of(remote, counts, expert, remote.len());
        let front = weighted(selected, remote, counts, m);
        let out = weighted(selected, remote, counts, k);
        assert forall|j: int| 0 <= j < front.len() implies #[trigger] out[j] == front[j] by {}
        assert forall|i: int, h: int, y: int|
            0 <= i < k && 0 <= h < remote.len() && 0 <= y < remote[h].1.len() && y < counts[h]
                && #[trigger] remote[h].1[y] == (#[trigger] selected[i]).0 implies exists|j: int|
            0 <= j < out.len() && (#[trigger] out[j]).selected == i by {
            if i < m {
                let j = choose|j: int| 0 <= j < front.len() && (#[trigger] front[j]).selected == i;
                assert(out[j].selected == i);
            } else {
                assert(out[front.len() as int].selected == i);
            }
        }
    }
}

/// Every selected expert that some worker gave an output for is added to the result, once: for
/// each selected place whose expert stands at an answered place of any group there is exactly one
/// entry, and the entry names an answered place of that expert, the last one there is. The
/// entries follow the order of the selected experts, and nothing else is added.
pub proof fn every_answered_expert_is_added_once<W>(
    selected: Seq<(usize, W)>,
    remote: Seq<(usize, Seq<usize>)>,
    counts: Seq<usize>,
)
    requires
        counts.len() == remote.len() <= usize::MAX,
        selected.len() <= usize::MAX,
    ensures
        ({
            let out = weighted(selected, remote, counts, selected.len());
            &&& forall|i: int, g: int, x: int|
                0 <= i < selected.len() && 0 <= g < remote.len() && 0 <= x < remote[g].1.len() && x
                    < counts[g] && #[trigger] remote[g].1[x] == (#[trigger] selected[i]).0
                    ==> exists|j: int| 0 <= j < out.len() && (#[trigger] out[j]).selected == i
            &&& forall|i: int, j: int|
                0 <= i < j < out.len() ==> (#[trigger] out[i]).selected < (
                #[trigger] out[j]).selected
            &&& forall|j: int|
                0 <= j < out.len() ==> {
                    let e = #[trigger] out[j];
                    &&& e.selected < selected.len()
                    &&& e.group < remote.len()
                    &&& e.output < remote[e.group as int].1.len()
                    &&& e.output < counts[e.group as int]
                    &&& remote[e.group as int].1[e.output as int]
                        == selected[e.selected as int].0
                    &&& forall|g: int, x: int|
                        0 <= g < remote.len() && 0 <= x < remote[g].1.len() && x < counts[g]
                            && #[trigger] remote[g].1[x] == selected[e.selected as int].0 ==> g
                            < e.group || g == e.group && x <= e.output
                }
        }),
{
    lemma_weighted(selected, remote, counts, selected.len());
}

proof fn lemma_first_weight<W>(selected: Seq<(usize, W)>, i: int)
    requires
        0 <= i < selected.len(),
        forall|j: int| 0 <= j < i ==> (#[trigger] selected[j]).0 != selected[i].0,
    ensures
        first_weight(selected, selected[i].0) == Some(selected[i].1),
    decreases selected.len(),
{
    if i > 0 {
        assert(selected[0].0 != selected[i].0);
        let rest = selected.skip(1);
        assert forall|j: int| 0 <= j < i - 1 implies (#[trigger] rest[j]).0 != rest[i - 1].0 by {
            assert(selected[j + 1].0 != selected[i].0);
        }
        lemma_first_weight(rest, i - 1);
    }
}

/// The selections whose expert is placed on the coordinator.
pub open spec fn on_coordinator<W>(
    nodes: Seq<MoePlacementNode>,
    indices: Seq<usize>,
    n_experts: usize,
    layer: usize,
) -> spec_fn((usize, W)) -> bool {
    |s: (usize, W)|
        nodes[indices[layer * n_experts + s.0] as int].role == ClusterNodeRole::Coordinator
}

/// The selections whose expert is placed on a node.
pub open spec fn on_node<W>(
    indices: Seq<usize>,
    n_experts: usize,
    layer: usize,
    node: usize,
) -> spec_fn((usize, W)) -> bool {
    |s: (usize, W)| indices[layer * n_experts + s.0] == node
}

/// The experts of selections.
pub open spec fn experts<W>(selected: Seq<(usize, W)>) -> Seq<usize> {
    selected.map(|i: int, s: (usize, W)| s.0)
}

/// A routing neither drops nor repeats an expert, nor changes a weight: where the selected experts
/// differ, the local list is exactly the selections placed on the coordinator, each with its own
/// weight; the group of a node is exactly the selected experts placed on it, in their order; and
/// every worker node that holds a selected expert has a group.
pub proof fn routing_splits_the_selection<W>(
    nodes: Seq<MoePlacementNode>,
    indices: Seq<usize>,
    n_experts: usize,
    layer: usize,
    selected: Seq<(usize, W)>,
    k: nat,
)
    requires
        k <= selected.len(),
        forall|i: int, j: int|
            0 <= i < j < selected.len() ==> (#[trigger] selected[i]).0 != (
            #[trigger] selected[j]).0,
    ensures
        routed(nodes, indices, n_experts, layer, selected, k) matches Ok(v) ==> {
            &&& v.local == selected.take(k as int).filter(
                on_coordinator(nodes, indices, n_experts, layer),
            )
            &&& forall|g: int|
                0 <= g < v.remote.len() ==> (#[trigger] v.remote[g]).1 == experts(
                    selected.take(k as int).filter(
                        on_node(indices, n_experts, layer, v.remote[g].0),
                    ),
                )
            &&& forall|g: int|
                0 <= g < v.remote.len() ==> nodes[(#[trigger] v.remote[g]).0 as int].role
                    != ClusterNodeRole::Coordinator
            &&& forall|i: int|
                0 <= i < k && nodes[indices[layer * n_experts + (
                #[trigger] selected[i]).0] as int].role != ClusterNodeRole::Coordinator
                    ==> exists|g: int|
                    0 <= g < v.remote.len() && (#[trigger] v.remote[g]).0 == indices[layer
                        * n_experts + selected[i].0]
        },
    decreases k,
{
    reveal(Seq::filter);
    if k > 0 {
        let m = (k - 1) as nat;
        routing_splits_the_selection(nodes, indices, n_experts, layer, selected, m);
        routing_follows_the_plan(nodes, indices, n_experts, layer, selected, k);
        let all = selected.take(k as int);
        assert(all.drop_last() =~= selected.take(m as int));
        assert(all.last() == selected[m as int]);
        match routed(nodes, indices, n_experts, layer, selected, k) {
            Err(_) => {},
            Ok(v) => {
                let u = routed(nodes, indices, n_experts, layer, selected, m)->Ok_0;
                let expert = selected[m as int].0;
                let node = indices[layer * n_experts + expert];
                let here = on_coordinator::<W>(nodes, indices, n_experts, layer);
                lemma_first_weight(selected, m as int);
                lemma_group_of(u.remote, node);
                let at = match group_of(u.remote, node) {
                    Some(i) => i,
                    None => u.remote.len() as int,
                };
                assert forall|g: int| 0 <= g < v.remote.len() implies (
                #[trigger] v.remote[g]).1 == experts(
                    all.filter(on_node(indices, n_experts, layer, v.remote[g].0)),
                ) by {
                    let n = v.remote[g].0;
                    let on = on_node::<W>(indices, n_experts, layer, n);
                    let before = all.drop_last().filter(on);
                    if n == node {
                        assert(all.filter(on) == before.push(all.last()));
                        assert(experts(before.push(all.last())) =~= experts(before).push(expert));
                        if g < u.remote.len() {
                            assert(u.remote[g].0 == n);
                            assert(nodes[u.remote[g].0 as int].role
                                != ClusterNodeRole::Coordinator);
                            assert(v.remote[at].0 == node);
                            assert(g == at);
                        } else {
                            lemma_none_on_node(
                                nodes,
                                indices,
                                n_experts,
                                layer,
                                selected,
                                m,
                                u.remote,
                                node,
                            );
                            assert(experts(before) =~= Seq::empty());
                            assert(seq![expert] =~= Seq::<usize>::empty().push(expert));
                        }
                    } else {
                        assert(u.remote[g] == v.remote[g]);
                        assert(all.filter(on) == before);
                    }
                }
                assert forall|i: int|
                    0 <= i < k && nodes[indices[layer * n_experts + (
                    #[trigger] selected[i]).0] as int].role
                        != ClusterNodeRole::Coordinator implies exists|g: int|
                    0 <= g < v.remote.len() && (#[trigger] v.remote[g]).0 == indices[layer
                        * n_experts + selected[i].0] by {
                    if i < m {
                        let g = choose|g: int|
                            0 <= g < u.remote.len() && (#[trigger] u.remote[g]).0 == indices[layer
                                * n_experts + selected[i].0];
                        assert(v.remote[g].0 == u.remote[g].0);
                    } else {
                        assert(v.remote[at].0 == node);
                    }
                }
            },
        }
    }
}

proof fn lemma_none_on_node<W>(
    nodes: Seq<MoePlacementNode>,
    indices: Seq<usize>,
    n_experts: usize,
    layer: usize,
    selected: Seq<(usize, W)>,
    m: nat,
    remote: Seq<(usize, Seq<usize>)>,
    node: usize,
)
    requires
        m <= selected.len(),
        nodes[node as int].role != ClusterNodeRole::Coordinator,
        forall|j: int| 0 <= j < remote.len() ==> (#[trigger] remote[j]).0 != node,
        forall|i: int|
            0 <= i < m && nodes[indices[layer * n_experts + (
            #[trigger] selected[i]).0] as int].role != ClusterNodeRole::Coordinator
                ==> exists|g: int|
                0 <= g < remote.len() && (#[trigger] remote[g]).0 == indices[layer * n_experts
                    + selected[i].0],
    ensures
        selected.take(m as int).filter(on_node::<W>(indices, n_experts, layer, node)).len() == 0,
    decreases m,
{
    reveal(Seq::filter);
    if m > 0 {
        let all = selected.take(m as int);
        assert(all.drop_last() =~= selected.take(m - 1));
        assert(all.last() == selected[m - 1]);
        lemma_none_on_node(
            nodes,
            indices,
            n_experts,
            layer,
            selected,
            (m - 1) as nat,
            remote,
            node,
        );
    }
}

/// Routing fails only where an expert has no place in the plan: it succeeds exactly where the
/// places of all selected experts are in the plan.
pub proof fn routing_succeeds_within_the_plan<W>(
    nodes: Seq<MoePlacementNode>,
    indices: Seq<usize>,
    n_experts: usize,
    layer: usize,
    selected: Seq<(usize, W)>,
    k: nat,
)
    requires
        k <= selected.len(),
        indices.len() <= usize::MAX,
    ensures
        routed(nodes, indices, n_experts, layer, selected, k) is Ok <==> forall|i: int|
            0 <= i < k ==> layer * n_experts + (#[trigger] selected[i]).0 < indices.len(),
    decreases k,
{
    if k > 0 {
        routing_succeeds_within_the_plan(
            nodes,
            indices,
            n_experts,
            layer,
            selected,
            (k - 1) as nat,
        );
        assert(layer * n_experts + selected[k - 1].0 < indices.len() || routed(
            nodes,
            indices,
            n_experts,
            layer,
            selected,
            k,
        ) is Err);
    }
}

/// A layer run across workers that answer all of their experts: each selected expert is counted
/// exactly once, on the coordinator with its weight or by one output of the worker that holds it.
pub proof fn every_selected_expert_counts_once<W>(
    nodes: Seq<MoePlacementNode>,
    indices: Seq<usize>,
    n_experts: usize,
    layer: usize,
    selected: Seq<(usize, W)>,
    counts: Seq<usize>,
    i: int,
)
    requires
        selected.len() <= usize::MAX,
        forall|a: int, b: int|
            0 <= a < b < selected.len() ==> (#[trigger] selected[a]).0 != (
            #[trigger] selected[b]).0,
        0 <= i < selected.len(),
        routed(nodes, indices, n_experts, layer, selected, selected.len()) matches Ok(v)
            && counts.len() == v.remote.len() <= usize::MAX && forall|g: int|
            0 <= g < counts.len() ==> #[trigger] counts[g] == v.remote[g].1.len(),
    ensures
        ({
            let v = routed(nodes, indices, n_experts, layer, selected, selected.len())->Ok_0;
            let out = weighted(selected, v.remote, counts, selected.len());
            let node = indices[layer * n_experts + selected[i].0];
            if nodes[node as int].role == ClusterNodeRole::Coordinator {
                &&& v.local.contains(selected[i])
                &&& forall|j: int| 0 <= j < out.len() ==> (#[trigger] out[j]).selected != i
            } else {
                &&& !v.local.contains(selected[i])
                &&& exists|j: int|
                    0 <= j < out.len() && (#[trigger] out[j]).selected == i
                        && v.remote[out[j].group as int].0 == node
                        && v.remote[out[j].group as int].1[out[j].output as int] == selected[i].0
            }
        }),
{
    let v = routed(nodes, indices, n_experts, layer, selected, selected.len())->Ok_0;
    let out = weighted(selected, v.remote, counts, selected.len());
    let node = indices[layer * n_experts + selected[i].0];
    let all = selected.take(selected.len() as int);
    assert(all =~= selected);
    let here = on_coordinator::<W>(nodes, indices, n_experts, layer);
    routing_splits_the_selection(nodes, indices, n_experts, layer, selected, selected.len());
    routing_follows_the_plan(nodes, indices, n_experts, layer, selected, selected.len());
    every_answered_expert_is_added_once(selected, v.remote, counts);
    if nodes[node as int].role == ClusterNodeRole::Coordinator {
        all.lemma_filter_contains(here, i);
        assert forall|j: int| 0 <= j < out.len() implies (#[trigger] out[j]).selected != i by {
            let g = out[j].group as int;
            if out[j].selected == i {
                assert(v.remote[g].1[out[j].output as int] == selected[i].0);
                assert(indices[layer * n_experts + v.remote[g].1[out[j].output as int]]
                    == v.remote[g].0);
                assert(nodes[v.remote[g].0 as int].role != ClusterNodeRole::Coordinator);
            }
        }
    } else {
        if v.local.contains(selected[i]) {
            let x = choose|x: int| 0 <= x < v.local.len() && v.local[x] == selected[i];
            all.lemma_filter_pred(here, x);
        }
        assert(computed_where_placed(v, nodes, indices, n_experts, layer, selected, i));
        let g = choose|g: int|
            0 <= g < v.remote.len() && (#[trigger] v.remote[g]).0 == node
                && v.remote[g].1.contains(selected[i].0);
        let x = choose|x: int| 0 <= x < v.remote[g].1.len() && v.remote[g].1[x] == selected[i].0;
        assert(counts[g] == v.remote[g].1.len());
        assert(v.remote[g].1[x] == selected[i].0);
        let j = choose|j: int| 0 <= j < out.len() && (#[trigger] out[j]).selected == i;
        let h = out[j].group as int;
        assert(indices[layer * n_experts + v.remote[h].1[out[j].output as int]]
            == v.remote[h].0);
    }
}

} // verus!
