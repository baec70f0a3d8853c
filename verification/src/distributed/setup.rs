//! What the coordinator prepares for each worker: greetings and model shards.
use crate::distributed::control::{HelloFrame, HelloView};
use crate::distributed::placement::{ClusterNodeRole, MoePlacementNode, MoePlacementPlan};
use crate::distributed::plans::experts_of;
use crate::distributed::protocol::{ActivationDtype, ProtocolError};
use crate::distributed::shard::{decode_model_shard_header, decoded_header,
    encode_model_shard_header, header_bytes, header_rejection, ModelShardHeaderFrame,
    ModelShardHeaderView, ShardTensorEntry};
use crate::distributed::transport::total_len;
use crate::text::Text;
use vstd::prelude::*;
use vstd::string::*;

verus! {

/// What is prepared for a worker before its shard is collected.
#[derive(Debug)]
pub struct WorkerSetup {
    pub node_index: usize,
    pub address: String,
    pub hello: HelloFrame,
    /// The experts of the worker, layer by layer.
    pub assigned_by_layer: Vec<Vec<usize>>,
}

/// The indices of the workers with experts among the first `k` nodes.
pub open spec fn loaded_workers(nodes: Seq<MoePlacementNode>, k: nat) -> Seq<int>
    decreases k,
{
    if k == 0 {
        Seq::empty()
    } else {
        let front = loaded_workers(nodes, (k - 1) as nat);
        if nodes[k - 1].role == ClusterNodeRole::Worker && nodes[k - 1].assigned_expert_count > 0 {
            front.push(k - 1)
        } else {
            front
        }
    }
}

/// The experts of one layer among assigned experts, in their order.
pub open spec fn layer_experts(assigned: Seq<(usize, usize)>, layer: usize) -> Seq<usize>
    decreases assigned.len(),
{
    if assigned.len() == 0 {
        Seq::empty()
    } else {
        let front = layer_experts(assigned.drop_last(), layer);
        if assigned.last().0 == layer {
            front.push(assigned.last().1)
        } else {
            front
        }
    }
}

/// Whether `lists` holds the experts of each layer.
pub open spec fn by_layer(
    lists: Seq<Vec<usize>>,
    assigned: Seq<(usize, usize)>,
    n_layers: nat,
) -> bool {
    &&& lists.len() == n_layers
    &&& forall|l: int|
        0 <= l < n_layers ==> (#[trigger] lists[l])@ == layer_experts(assigned, l as usize)
}

/// Whether a setup is that of node `node`.
pub open spec fn prepares(
    setup: WorkerSetup,
    plan: MoePlacementPlan,
    n_layers: usize,
    dtype: ActivationDtype,
    node: int,
) -> bool {
    let assigned = experts_of(
        plan.expert_node_indices@,
        plan.inventory.n_experts as int,
        node as usize,
        plan.expert_node_indices@.len(),
    );
    &&& setup.node_index == node
    &&& setup.address == plan.nodes@[node].address
    &&& setup.hello@ == HelloView {
        node_address: plan.nodes@[node].address@,
        dim: plan.inventory.dim,
        n_layers: plan.inventory.n_layers,
        n_experts: plan.inventory.n_experts,
        activation_dtype: dtype,
        assigned_experts: assigned,
        speculative_push: false,
    }
    &&& by_layer(setup.assigned_by_layer@, assigned, n_layers as nat)
}

fn group_by_layer(assigned: &Vec<(usize, usize)>, n_layers: usize) -> (lists: Vec<Vec<usize>>)
    requires
        forall|i: int| 0 <= i < assigned@.len() ==> (#[trigger] assigned@[i]).0 < n_layers,
    ensures
        by_layer(lists@, assigned@, n_layers as nat),
{
    let mut lists: Vec<Vec<usize>> = Vec::new();
    while lists.len() < n_layers
        invariant
            lists@.len() <= n_layers,
            forall|l: int| 0 <= l < lists@.len() ==> (#[trigger] lists@[l])@.len() == 0,
        decreases n_layers - lists.len(),
    {
        lists.push(Vec::new());
    }
    let mut i: usize = 0;
    assert forall|l: int| 0 <= l < n_layers implies (#[trigger] lists@[l])@ == layer_experts(
        assigned@.take(0),
        l as usize,
    ) by {
        assert(lists@[l]@ =~= Seq::empty());
    }
    while i < assigned.len()
        invariant
            i <= assigned@.len(),
            lists@.len() == n_layers,
            forall|k: int| 0 <= k < assigned@.len() ==> (#[trigger] assigned@[k]).0 < n_layers,
            forall|l: int|
                0 <= l < n_layers ==> (#[trigger] lists@[l])@ == layer_experts(
                    assigned@.take(i as int),
                    l as usize,
                ),
        decreases assigned.len() - i,
    {
        let (layer, expert) = assigned[i];
        let ghost before = lists@;
        assert(assigned@[i as int].0 < n_layers);
        lists[layer].push(expert);
        proof {
            assert(assigned@.take(i + 1).drop_last() =~= assigned@.take(i as int));
            assert forall|l: int| 0 <= l < n_layers implies (#[trigger] lists@[l])@
                == layer_experts(assigned@.take(i + 1), l as usize) by {
                assert(before[l]@ == layer_experts(assigned@.take(i as int), l as usize));
            }
        }
        i = i + 1;
    }
    assert(assigned@.take(i as int) =~= assigned@);
    lists
}

proof fn lemma_assigned_layers(
    indices: Seq<usize>,
    n_experts: int,
    node: usize,
    n_layers: int,
    k: nat,
)
    requires
        n_experts > 0,
        0 <= n_layers <= usize::MAX,
        k <= indices.len() <= n_layers * n_experts,
        indices.len() <= usize::MAX,
    ensures
        forall|i: int|
            0 <= i < experts_of(indices, n_experts, node, k).len() ==> (#[trigger] experts_of(
                indices,
                n_experts,
                node,
                k,
            )[i]).0 < n_layers,
    decreases k,
{
    if k > 0 {
        let m = (k - 1) as int;
        lemma_assigned_layers(indices, n_experts, node, n_layers, m as nat);
        assert(0 <= m / n_experts < n_layers) by (nonlinear_arith)
            requires
                0 <= m < n_layers * n_experts,
                n_experts > 0,
        ;
        let front = experts_of(indices, n_experts, node, m as nat);
        let all = experts_of(indices, n_experts, node, k);
        assert forall|i: int| 0 <= i < all.len() implies (#[trigger] all[i]).0 < n_layers by {
            if i < front.len() {
                assert(front[i].0 < n_layers);
            }
        }
    }
}

/// Prepares a setup for every worker with experts.
pub fn plan_worker_setups(
    plan: &MoePlacementPlan,
    n_layers: usize,
    activation_dtype: ActivationDtype,
) -> (setups: Vec<WorkerSetup>)
    requires
        plan.inventory.n_experts > 0,
        plan.expert_node_indices@.len() <= n_layers * plan.inventory.n_experts,
    ensures
        setups@.len() == loaded_workers(plan.nodes@, plan.nodes@.len()).len(),
        forall|i: int|
            0 <= i < setups@.len() ==> prepares(
                #[trigger] setups@[i],
                *plan,
                n_layers,
                activation_dtype,
                loaded_workers(plan.nodes@, plan.nodes@.len())[i],
            ),
{
    let mut setups: Vec<WorkerSetup> = Vec::new();
    let mut k: usize = 0;
    while k < plan.nodes.len()
        invariant
            k <= plan.nodes@.len(),
            plan.inventory.n_experts > 0,
            plan.expert_node_indices@.len() <= n_layers * plan.inventory.n_experts,
            setups@.len() == loaded_workers(plan.nodes@, k as nat).len(),
            forall|i: int|
                0 <= i < setups@.len() ==> prepares(
                    #[trigger] setups@[i],
                    *plan,
                    n_layers,
                    activation_dtype,
                    loaded_workers(plan.nodes@, k as nat)[i],
                ),
        decreases plan.nodes.len() - k,
    {
        let node = &plan.nodes[k];
        if node.role == ClusterNodeRole::Worker && node.assigned_expert_count > 0 {
            let assigned: Vec<(usize, usize)> = plan.assigned_experts_for_node(k);
            proof {
                assert(plan.expert_node_indices@.len() == plan.expert_node_indices.len());
                lemma_assigned_layers(
                    plan.expert_node_indices@,
                    plan.inventory.n_experts as int,
                    k,
                    n_layers as int,
                    plan.expert_node_indices@.len(),
                );
            }
            let assigned_by_layer = group_by_layer(&assigned, n_layers);
            let setup = WorkerSetup {
                node_index: k,
                address: node.address.clone(),
                hello: HelloFrame {
                    node_address: node.address.clone(),
                    dim: plan.inventory.dim,
                    n_layers: plan.inventory.n_layers,
                    n_experts: plan.inventory.n_experts,
                    activation_dtype,
                    assigned_experts: assigned,
                    speculative_push: false,
                },
                assigned_by_layer,
            };
            assert(prepares(setup, *plan, n_layers, activation_dtype, k as int));
            setups.push(setup);
        }
        k = k + 1;
    }
    setups
}

/// The concatenated bytes of ranges.
pub open spec fn gathered(mapped: Seq<u8>, ranges: Seq<(usize, usize)>) -> Seq<u8>
    decreases ranges.len(),
{
    if ranges.len() == 0 {
        Seq::empty()
    } else {
        gathered(mapped, ranges.drop_last()) + mapped.subrange(
            ranges.last().0 as int,
            ranges.last().0 + ranges.last().1,
        )
    }
}

/// Appends the bytes of ranges of the mapped model file.
pub fn gather_ranges(mapped: &[u8], ranges: &[(usize, usize)], data: &mut Vec<u8>)
    requires
        forall|i: int|
            0 <= i < ranges@.len() ==> (#[trigger] ranges@[i]).0 + ranges@[i].1 <= mapped@.len(),
    ensures
        final(data)@ == old(data)@ + gathered(mapped@, ranges@),
{
    let mut i: usize = 0;
    assert(data@ =~= old(data)@ + gathered(mapped@, ranges@.take(0)));
    while i < ranges.len()
        invariant
            i <= ranges@.len(),
            forall|k: int|
                0 <= k < ranges@.len() ==> (#[trigger] ranges@[k]).0 + ranges@[k].1
                    <= mapped@.len(),
            data@ == old(data)@ + gathered(mapped@, ranges@.take(i as int)),
        decreases ranges.len() - i,
    {
        let (offset, len) = ranges[i];
        assert(ranges@[i as int].0 + ranges@[i as int].1 <= mapped@.len());
        assert(mapped@.len() == mapped.len());
        let part = vstd::slice::slice_subrange(mapped, offset, offset + len);
        crate::bytes::extend(data, part);
        proof {
            assert(ranges@.take(i + 1).drop_last() =~= ranges@.take(i as int));
            assert(data@ =~= old(data)@ + gathered(mapped@, ranges@.take(i + 1)));
        }
        i = i + 1;
    }
    assert(ranges@.take(i as int) =~= ranges@);
}

/// The gathered bytes are as many as the ranges announce.
pub proof fn gathered_len(mapped: Seq<u8>, ranges: Seq<(usize, usize)>)
    requires
        forall|i: int|
            0 <= i < ranges.len() ==> (#[trigger] ranges[i]).0 + ranges[i].1 <= mapped.len(),
    ensures
        gathered(mapped, ranges).len() == total_len(ranges),
    decreases ranges.len(),
{
    if ranges.len() > 0 {
        let front = ranges.drop_last();
        assert forall|i: int| 0 <= i < front.len() implies (#[trigger] front[i]).0 + front[i].1
            <= mapped.len() by {
            assert(front[i] == ranges[i]);
        }
        assert(ranges[ranges.len() - 1].0 + ranges[ranges.len() - 1].1 <= mapped.len());
        gathered_len(mapped, front);
    }
}

/// The recurrent tensors added to the shard of the first worker.
#[derive(Debug)]
pub struct SsmShardData {
    pub entries: Vec<ShardTensorEntry>,
    pub total_bytes: u64,
    pub ssm_inner_size: usize,
    pub ssm_group_count: usize,
    pub ssm_time_step_rank: usize,
    pub ssm_state_size: usize,
    pub ssm_conv_kernel: usize,
    /// The single-precision pattern of the normalisation epsilon.
    pub eps: u32,
    pub float_payload: Vec<u8>,
}

/// The routing tensors added to the shard of every worker.
#[derive(Debug)]
pub struct GateShardData {
    pub entries: Vec<ShardTensorEntry>,
    pub total_bytes: u64,
    pub n_experts_per_tok: usize,
    pub moe_n_group: usize,
    pub moe_topk_group: usize,
}

/// An entry moved behind `base` bytes.
pub open spec fn shifted(entry: ShardTensorEntry, base: int) -> ShardTensorEntry {
    ShardTensorEntry { byte_offset: (entry.byte_offset + base) as u64, ..entry }
}

/// Entries moved behind `base` bytes.
pub open spec fn shifted_entries(entries: Seq<ShardTensorEntry>, base: int) -> Seq<
    ShardTensorEntry,
> {
    entries.map(|i: int, e: ShardTensorEntry| shifted(e, base))
}

/// Whether entries can be moved behind `base` bytes.
pub open spec fn can_shift(entries: Seq<ShardTensorEntry>, base: int) -> bool {
    forall|i: int| 0 <= i < entries.len() ==> (#[trigger] entries[i]).byte_offset + base <= u64::MAX
}

/// A header with recurrent tensors added.
pub open spec fn with_ssm(
    h: ModelShardHeaderView,
    ssm: SsmShardData,
) -> ModelShardHeaderView {
    ModelShardHeaderView {
        entries: h.entries + shifted_entries(ssm.entries@, h.total_bytes as int),
        total_bytes: (h.total_bytes + ssm.total_bytes) as u64,
        ssm_inner_size: ssm.ssm_inner_size,
        ssm_group_count: ssm.ssm_group_count,
        ssm_time_step_rank: ssm.ssm_time_step_rank,
        ssm_state_size: ssm.ssm_state_size,
        ssm_conv_kernel: ssm.ssm_conv_kernel,
        ssm_eps: ssm.eps,
        ssm_float_payload: ssm.float_payload@,
        ..h
    }
}

/// A header with routing tensors added.
pub open spec fn with_gate(
    h: ModelShardHeaderView,
    gate: GateShardData,
) -> ModelShardHeaderView {
    ModelShardHeaderView {
        entries: h.entries + shifted_entries(gate.entries@, h.total_bytes as int),
        total_bytes: (h.total_bytes + gate.total_bytes) as u64,
        n_experts_per_tok: gate.n_experts_per_tok,
        moe_n_group: gate.moe_n_group,
        moe_topk_group: gate.moe_topk_group,
        ..h
    }
}

/// Why a header payload cannot be extended.
#[derive(Clone, Copy, Debug, PartialEq, Eq, Structural)]
pub enum MergeError {
    /// The header cannot be read again before recurrent tensors are added.
    Decode(ProtocolError),
    /// The header cannot be read again before routing tensors are added.
    DecodeForRouting(ProtocolError),
    Encode(ProtocolError),
}

impl MergeError {
    /// The message text of the error.
    pub open spec fn text(self) -> Seq<char> {
        match self {
            MergeError::Decode(error) => "failed to re-decode shard header: "@ + error.text(),
            MergeError::DecodeForRouting(error) =>
                "failed to re-decode shard header for gate merge: "@ + error.text(),
            MergeError::Encode(error) => error.text(),
        }
    }

    /// The message text of the error.
    pub fn message(self) -> (message: String)
        ensures
            message@ == self.text(),
    {
        match self {
            MergeError::Decode(error) => Text::start("failed to re-decode shard header: ").text(
                error.message().as_str(),
            ).finish(),
            MergeError::DecodeForRouting(error) => Text::start(
                "failed to re-decode shard header for gate merge: ",
            ).text(error.message().as_str()).finish(),
            MergeError::Encode(error) => error.message(),
        }
    }
}

fn append_shifted(header: &mut ModelShardHeaderFrame, entries: &Vec<ShardTensorEntry>)
    requires
        can_shift(entries@, old(header).total_bytes as int),
    ensures
        final(header)@ == (ModelShardHeaderView {
            entries: old(header)@.entries + shifted_entries(
                entries@,
                old(header).total_bytes as int,
            ),
            ..old(header)@
        }),
{
    let base: u64 = header.total_bytes;
    let ghost before = header@;
    let ghost target = shifted_entries(entries@, base as int);
    let mut i: usize = 0;
    assert(before.entries + target.take(0) =~= before.entries);
    while i < entries.len()
        invariant
            i <= entries@.len(),
            base == before.total_bytes,
            can_shift(entries@, base as int),
            target == shifted_entries(entries@, base as int),
            header@ == (ModelShardHeaderView {
                entries: before.entries + target.take(i as int),
                ..before
            }),
        decreases entries.len() - i,
    {
        let entry = entries[i];
        assert(entries@[i as int].byte_offset + base <= u64::MAX);
        let moved = ShardTensorEntry {
            layer: entry.layer,
            expert_idx: entry.expert_idx,
            kind: entry.kind,
            ttype: entry.ttype,
            rows: entry.rows,
            cols: entry.cols,
            byte_offset: entry.byte_offset + base,
            byte_len: entry.byte_len,
        };
        header.entries.push(moved);
        assert(header.entries@ =~= before.entries + target.take(i + 1));
        i = i + 1;
    }
    assert(target.take(i as int) =~= target);
}

/// Adds recurrent tensors to an encoded shard header.
pub fn merge_ssm_shard(payload: &[u8], ssm: SsmShardData) -> (result: Result<Vec<u8>, MergeError>)
    requires
        decoded_header(payload@) matches Ok(h) ==> can_shift(ssm.entries@, h.total_bytes as int)
            && h.total_bytes + ssm.total_bytes <= u64::MAX,
    ensures
        match decoded_header(payload@) {
            Err(error) => result == Err::<Vec<u8>, MergeError>(MergeError::Decode(error)),
            Ok(h) => match header_rejection(with_ssm(h, ssm)) {
                Some(error) => result == Err::<Vec<u8>, MergeError>(MergeError::Encode(error)),
                None => result matches Ok(out) && out@ == header_bytes(with_ssm(h, ssm)),
            },
        },
{
    let mut header = match decode_model_shard_header(payload) {
        Ok(header) => header,
        Err(error) => return Err(MergeError::Decode(error)),
    };
    let ghost h = header@;
    append_shifted(&mut header, &ssm.entries);
    header.total_bytes = header.total_bytes + ssm.total_bytes;
    header.ssm_inner_size = ssm.ssm_inner_size;
    header.ssm_group_count = ssm.ssm_group_count;
    header.ssm_time_step_rank = ssm.ssm_time_step_rank;
    header.ssm_state_size = ssm.ssm_state_size;
    header.ssm_conv_kernel = ssm.ssm_conv_kernel;
    header.ssm_eps = ssm.eps;
    let ghost data = ssm;
    header.ssm_float_payload = ssm.float_payload;
    assert(header@ =~= with_ssm(h, data));
    match encode_model_shard_header(&header) {
        Ok(out) => Ok(out),
        Err(error) => Err(MergeError::Encode(error)),
    }
}

/// Adds routing tensors to an encoded shard header.
pub fn merge_gate_shard(payload: &[u8], gate: &GateShardData) -> (result: Result<
    Vec<u8>,
    MergeError,
>)
    requires
        decoded_header(payload@) matches Ok(h) ==> can_shift(gate.entries@, h.total_bytes as int)
            && h.total_bytes + gate.total_bytes <= u64::MAX,
    ensures
        match decoded_header(payload@) {
            Err(error) => result == Err::<Vec<u8>, MergeError>(
                MergeError::DecodeForRouting(error),
            ),
            Ok(h) => match header_rejection(with_gate(h, *gate)) {
                Some(error) => result == Err::<Vec<u8>, MergeError>(MergeError::Encode(error)),
                None => result matches Ok(out) && out@ == header_bytes(with_gate(h, *gate)),
            },
        },
{
    let mut header = match decode_model_shard_header(payload) {
        Ok(header) => header,
        Err(error) => return Err(MergeError::DecodeForRouting(error)),
    };
    let ghost h = header@;
    append_shifted(&mut header, &gate.entries);
    header.total_bytes = header.total_bytes + gate.total_bytes;
    header.n_experts_per_tok = gate.n_experts_per_tok;
    header.moe_n_group = gate.moe_n_group;
    header.moe_topk_group = gate.moe_topk_group;
    assert(header@ =~= with_gate(h, *gate));
    match encode_model_shard_header(&header) {
        Ok(out) => Ok(out),
        Err(error) => Err(MergeError::Encode(error)),
    }
}

/// Whether every entry lies within the first `total` bytes of a shard.
pub open spec fn within(entries: Seq<ShardTensorEntry>, total: int) -> bool {
    forall|i: int|
        0 <= i < entries.len() ==> (#[trigger] entries[i]).byte_offset + entries[i].byte_len
            <= total
}

/// Adding tensors keeps every entry within its shard, and leaves the entries that were there.
pub proof fn merged_entries_stay_within(
    entries: Seq<ShardTensorEntry>,
    total: int,
    added: Seq<ShardTensorEntry>,
    added_total: int,
)
    requires
        within(entries, total),
        within(added, added_total),
        0 <= total,
        0 <= added_total,
        total + added_total <= u64::MAX,
    ensures
        within(entries + shifted_entries(added, total), total + added_total),
        (entries + shifted_entries(added, total)).take(entries.len() as int) == entries,
{
    let all = entries + shifted_entries(added, total);
    assert forall|i: int| 0 <= i < all.len() implies (#[trigger] all[i]).byte_offset
        + all[i].byte_len <= total + added_total by {
        if i < entries.len() {
            assert(entries[i].byte_offset + entries[i].byte_len <= total);
        } else {
            let j = i - entries.len();
            assert(added[j].byte_offset + added[j].byte_len <= added_total);
        }
    }
    assert(all.take(entries.len() as int) =~= entries);
}

/// The node places, and whether a node is a worker with experts.
pub open spec fn loaded(nodes: Seq<MoePlacementNode>) -> spec_fn(int) -> bool {
    |k: int| nodes[k].role == ClusterNodeRole::Worker && nodes[k].assigned_expert_count > 0
}

/// Exactly the workers with experts are set up, in the order of the nodes.
pub proof fn workers_with_experts_are_set_up(nodes: Seq<MoePlacementNode>, k: nat)
    requires
        k <= nodes.len(),
    ensures
        loaded_workers(nodes, k) == Seq::new(k, |i: int| i).filter(loaded(nodes)),
    decreases k,
{
    reveal(Seq::filter);
    let places = Seq::new(k, |i: int| i);
    if k > 0 {
        workers_with_experts_are_set_up(nodes, (k - 1) as nat);
        assert(places.drop_last() =~= Seq::new((k - 1) as nat, |i: int| i));
        assert(places.last() == k - 1);
    }
}

/// Whether an assigned expert is of a layer.
pub open spec fn of_layer(layer: usize) -> spec_fn((usize, usize)) -> bool {
    |pair: (usize, usize)| pair.0 == layer
}

/// The list of a layer holds exactly the assigned experts of that layer, in their order.
pub proof fn layers_list_their_experts(assigned: Seq<(usize, usize)>, layer: usize)
    ensures
        layer_experts(assigned, layer) == assigned.filter(of_layer(layer)).map(
            |i: int, pair: (usize, usize)| pair.1,
        ),
    decreases assigned.len(),
{
    reveal(Seq::filter);
    if assigned.len() > 0 {
        layers_list_their_experts(assigned.drop_last(), layer);
        let front = assigned.drop_last().filter(of_layer(layer));
        if assigned.last().0 == layer {
            assert(front.push(assigned.last()).map(|i: int, pair: (usize, usize)| pair.1)
                =~= front.map(|i: int, pair: (usize, usize)| pair.1).push(assigned.last().1));
        }
    }
    assert(layer_experts(assigned, layer) =~= assigned.filter(of_layer(layer)).map(
        |i: int, pair: (usize, usize)| pair.1,
    ));
}

/// Ranges are gathered one after the other: those of two lists follow each other, and one range
/// gives the bytes from its offset on.
pub proof fn ranges_are_gathered_in_order(
    mapped: Seq<u8>,
    a: Seq<(usize, usize)>,
    b: Seq<(usize, usize)>,
    range: (usize, usize),
)
    ensures
        gathered(mapped, a + b) == gathered(mapped, a) + gathered(mapped, b),
        gathered(mapped, seq![range]) == mapped.subrange(range.0 as int, range.0 + range.1),
    decreases b.len(),
{
    let one = seq![range];
    assert(one.drop_last() =~= Seq::empty());
    assert(gathered(mapped, one.drop_last()) =~= Seq::empty());
    assert(gathered(mapped, one) =~= mapped.subrange(range.0 as int, range.0 + range.1));
    if b.len() == 0 {
        assert(a + b =~= a);
        assert(gathered(mapped, a) + gathered(mapped, b) =~= gathered(mapped, a));
    } else {
        ranges_are_gathered_in_order(mapped, a, b.drop_last(), range);
        assert((a + b).drop_last() =~= a + b.drop_last());
        assert(gathered(mapped, a + b) =~= gathered(mapped, a) + gathered(mapped, b));
    }
}

/// Added tensors follow those that a header has: each keeps its sizes and is found as far behind the
/// bytes that were there as it was found in its own.
pub proof fn added_tensors_follow(
    h: ModelShardHeaderView,
    ssm: SsmShardData,
    gate: GateShardData,
    i: int,
)
    requires
        can_shift(ssm.entries@, h.total_bytes as int),
        can_shift(gate.entries@, h.total_bytes as int),
        h.total_bytes + ssm.total_bytes <= u64::MAX,
        h.total_bytes + gate.total_bytes <= u64::MAX,
    ensures
        with_ssm(h, ssm).entries.len() == h.entries.len() + ssm.entries@.len(),
        with_gate(h, gate).entries.len() == h.entries.len() + gate.entries@.len(),
        with_ssm(h, ssm).total_bytes == h.total_bytes + ssm.total_bytes,
        with_gate(h, gate).total_bytes == h.total_bytes + gate.total_bytes,
        0 <= i < h.entries.len() ==> with_ssm(h, ssm).entries[i] == h.entries[i] && with_gate(
            h,
            gate,
        ).entries[i] == h.entries[i],
        0 <= i < ssm.entries@.len() ==> moved_by(
            with_ssm(h, ssm).entries[h.entries.len() + i],
            ssm.entries@[i],
            h.total_bytes as int,
        ),
        0 <= i < gate.entries@.len() ==> moved_by(
            with_gate(h, gate).entries[h.entries.len() + i],
            gate.entries@[i],
            h.total_bytes as int,
        ),
{
    if 0 <= i < ssm.entries@.len() {
        assert(ssm.entries@[i].byte_offset + h.total_bytes <= u64::MAX);
    }
    if 0 <= i < gate.entries@.len() {
        assert(gate.entries@[i].byte_offset + h.total_bytes <= u64::MAX);
    }
}

/// Whether an entry names the same tensor as another, `distance` bytes further on.
pub open spec fn moved_by(entry: ShardTensorEntry, other: ShardTensorEntry, distance: int) -> bool {
    &&& entry.layer == other.layer
    &&& entry.expert_idx == other.expert_idx
    &&& entry.kind == other.kind
    &&& entry.ttype == other.ttype
    &&& entry.rows == other.rows
    &&& entry.cols == other.cols
    &&& entry.byte_len == other.byte_len
    &&& entry.byte_offset == other.byte_offset + distance
}

} // verus!
