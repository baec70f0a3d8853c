//! Which rows of which matrices a selected expert is computed with on the coordinator.
use crate::distributed::worker_shard::{ExpertSlots, WorkerExpertTensors};
use vstd::prelude::*;

verus! {

/// The matrices of an expert and the rows in them that are its own.
#[derive(Clone, Copy, Debug, PartialEq, Eq, Structural)]
pub struct ExpertRows {
    pub tensors: WorkerExpertTensors,
    /// The first row of the matrices that expand a vector.
    pub ffn_row: usize,
    /// The first row of the matrix that contracts it.
    pub down_row: usize,
}

/// The extents of the experts of a model.
#[derive(Clone, Copy, Debug, PartialEq, Eq, Structural)]
pub struct ExpertExtents {
    pub expert_hidden: usize,
    pub dim: usize,
}

/// The matrices that are held for an expert alone, if there are any.
pub open spec fn own_tensors(sliced: Option<ExpertSlots>, layer: int, expert: int) -> Option<
    WorkerExpertTensors,
> {
    match sliced {
        Some(slots) => slots.at(layer, expert),
        None => None,
    }
}

/// The matrices and rows of an expert: its own matrices where they are held separately, else its
/// part of the matrices that hold all experts of the layer behind each other.
pub open spec fn rows_of(
    sliced: Option<ExpertSlots>,
    packed: WorkerExpertTensors,
    extents: ExpertExtents,
    layer: int,
    expert: int,
) -> ExpertRows {
    match own_tensors(sliced, layer, expert) {
        Some(tensors) => ExpertRows { tensors, ffn_row: 0, down_row: 0 },
        None => ExpertRows {
            tensors: packed,
            ffn_row: (expert * extents.expert_hidden) as usize,
            down_row: (expert * extents.dim) as usize,
        },
    }
}

/// Whether the rows of an expert in packed matrices are machine numbers.
pub open spec fn rows_fit(extents: ExpertExtents, expert: int) -> bool {
    expert * extents.expert_hidden <= usize::MAX && expert * extents.dim <= usize::MAX
}

/// The matrices and rows of the selected experts, in the order of the selection.
pub fn plan_local_experts<W>(
    sliced: &Option<ExpertSlots>,
    packed: WorkerExpertTensors,
    extents: ExpertExtents,
    layer: usize,
    selected: &[(usize, W)],
) -> (rows: Vec<ExpertRows>)
    requires
        *sliced matches Some(slots) ==> slots.wf(),
        forall|i: int|
            0 <= i < selected@.len() ==> own_tensors(
                *sliced,
                layer as int,
                (#[trigger] selected@[i]).0 as int,
            ) is Some || rows_fit(extents, selected@[i].0 as int),
    ensures
        rows@.len() == selected@.len(),
        forall|i: int|
            0 <= i < selected@.len() ==> #[trigger] rows@[i] == rows_of(
                *sliced,
                packed,
                extents,
                layer as int,
                selected@[i].0 as int,
            ),
{
    let mut rows: Vec<ExpertRows> = Vec::new();
    let mut i: usize = 0;
    while i < selected.len()
        invariant
            i == rows@.len(),
            i <= selected@.len(),
            *sliced matches Some(slots) ==> slots.wf(),
            forall|j: int|
                0 <= j < selected@.len() ==> own_tensors(
                    *sliced,
                    layer as int,
                    (#[trigger] selected@[j]).0 as int,
                ) is Some || rows_fit(extents, selected@[j].0 as int),
            forall|j: int|
                0 <= j < i ==> #[trigger] rows@[j] == rows_of(
                    *sliced,
                    packed,
                    extents,
                    layer as int,
                    selected@[j].0 as int,
                ),
        decreases selected.len() - i,
    {
        let expert: usize = selected[i].0;
        let own: Option<WorkerExpertTensors> = match sliced {
            Some(slots) => slots.get(layer, expert),
            None => None,
        };
        let found = match own {
            Some(tensors) => ExpertRows { tensors, ffn_row: 0, down_row: 0 },
            None => {
                assert(0 <= expert * extents.expert_hidden) by (nonlinear_arith);
                assert(0 <= expert * extents.dim) by (nonlinear_arith);
                ExpertRows {
                    tensors: packed,
                    ffn_row: expert * extents.expert_hidden,
                    down_row: expert * extents.dim,
                }
            },
        };
        rows.push(found);
        i = i + 1;
    }
    rows
}

/// Whether experts are computed beside each other: only where that is allowed and there are two
/// at least.
pub fn computes_in_parallel(selected: usize, allow_parallel: bool) -> (parallel: bool)
    ensures
        parallel == (selected >= 2 && allow_parallel),
{
    selected >= 2 && allow_parallel
}

/// Experts that share packed matrices do not share rows.
pub proof fn packed_experts_do_not_share_rows(
    packed: WorkerExpertTensors,
    extents: ExpertExtents,
    layer: int,
    a: int,
    b: int,
)
    requires
        0 <= a < b,
        rows_fit(extents, b),
    ensures
        ({
            let first = rows_of(None, packed, extents, layer, a);
            let second = rows_of(None, packed, extents, layer, b);
            &&& first.ffn_row + extents.expert_hidden <= second.ffn_row
            &&& first.down_row + extents.dim <= second.down_row
        }),
{
    let h = extents.expert_hidden as int;
    let d = extents.dim as int;
    assert(a * h + h <= b * h && a * h >= 0) by (nonlinear_arith)
        requires
            0 <= a < b,
            h >= 0,
    ;
    assert(a * d + d <= b * d && a * d >= 0) by (nonlinear_arith)
        requires
            0 <= a < b,
            d >= 0,
    ;
}

/// An expert with matrices of its own is computed with all their rows; one in packed matrices with
/// those behind the rows of all experts before it.
pub proof fn experts_are_computed_with_their_rows(
    sliced: Option<ExpertSlots>,
    packed: WorkerExpertTensors,
    extents: ExpertExtents,
    layer: int,
    expert: int,
)
    requires
        0 <= expert,
        rows_fit(extents, expert),
        sliced matches Some(slots) ==> slots.wf(),
    ensures
        ({
            let rows = rows_of(sliced, packed, extents, layer, expert);
            let own = sliced matches Some(slots) && 0 <= layer < slots.n_layers && expert
                < slots.n_experts && slots.slots@[layer * slots.n_experts + expert] is Some;
            if own {
                &&& Some(rows.tensors) == sliced->0.slots@[layer * sliced->0.n_experts + expert]
                &&& rows.ffn_row == 0
                &&& rows.down_row == 0
            } else {
                &&& rows.tensors == packed
                &&& rows.ffn_row == expert * extents.expert_hidden
                &&& rows.down_row == expert * extents.dim
            }
        }),
{
    assert(0 <= expert * extents.expert_hidden) by (nonlinear_arith)
        requires
            0 <= expert,
    ;
    assert(0 <= expert * extents.dim) by (nonlinear_arith)
        requires
            0 <= expert,
    ;
}

} // verus!
