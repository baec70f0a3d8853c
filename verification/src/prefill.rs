//! The evaluation of complete image blocks, and the context length of a model.
use crate::attention::{ImageAttentionMode, MediaAttentionPlan};
use crate::bits::{finite_bits, is_finite_bits};
use crate::text::Text;
use vstd::prelude::*;

verus! {

/// The rows and columns of a matrix.
#[derive(Clone, Copy, Debug, PartialEq, Eq, Structural)]
pub struct MatrixShape {
    pub rows: usize,
    pub cols: usize,
}

/// What the evaluation of an image block reads of a model and its state.
#[derive(Debug)]
pub struct BlockModel {
    pub image_mode: ImageAttentionMode,
    pub seq_len: usize,
    pub dim: usize,
    pub q_dim: usize,
    pub kv_dim: usize,
    pub n_layers: usize,
    pub n_deepstack_layers: usize,
    pub n_experts: usize,
    pub wq: Vec<MatrixShape>,
    pub wk: Vec<MatrixShape>,
    pub wv: Vec<MatrixShape>,
    pub attn_qkv: Vec<MatrixShape>,
}

/// Why an image block cannot be evaluated.
#[derive(Clone, Copy, Debug, PartialEq, Eq, Structural)]
pub enum PrefillError {
    RangeOverflow,
    NoBlock,
    IncompleteBlock,
    BadEmbeddings,
    PackedLayout,
    ScratchOverflow,
}

impl PrefillError {
    /// The message text of the error.
    pub open spec fn text(self) -> Seq<char> {
        match self {
            PrefillError::RangeOverflow => "image-block prefill range overflow"@,
            PrefillError::NoBlock => "image-block prefill has no matching attention block"@,
            PrefillError::IncompleteBlock =>
                "image-block prefill must evaluate one complete supported block within context"@,
            PrefillError::BadEmbeddings =>
                "image-block prefill requires finite, language-dimension embeddings"@,
            PrefillError::PackedLayout =>
                "image-block prefill requires a dense separate-QKV layout"@,
            PrefillError::ScratchOverflow => "image-block scratch size overflow"@,
        }
    }

    /// The message text of the error.
    pub fn message(self) -> (message: String)
        ensures
            message@ == self.text(),
    {
        match self {
            PrefillError::RangeOverflow => Text::start(
                "image-block prefill range overflow",
            ).finish(),
            PrefillError::NoBlock => Text::start(
                "image-block prefill has no matching attention block",
            ).finish(),
            PrefillError::IncompleteBlock => Text::start(
                "image-block prefill must evaluate one complete supported block within context",
            ).finish(),
            PrefillError::BadEmbeddings => Text::start(
                "image-block prefill requires finite, language-dimension embeddings",
            ).finish(),
            PrefillError::PackedLayout => Text::start(
                "image-block prefill requires a dense separate-QKV layout",
            ).finish(),
            PrefillError::ScratchOverflow => Text::start(
                "image-block scratch size overflow",
            ).finish(),
        }
    }
}

/// Whether a row has the dimension of the model and holds finite values only.
pub open spec fn good_row(row: Seq<u32>, dim: int) -> bool {
    row.len() == dim && forall|i: int| 0 <= i < row.len() ==> is_finite_bits(#[trigger] row[i])
}

/// Whether every row is good.
pub open spec fn good_rows(rows: Seq<Vec<u32>>, dim: int) -> bool {
    forall|r: int| 0 <= r < rows.len() ==> good_row((#[trigger] rows[r])@, dim)
}

fn check_row(row: &Vec<u32>, dim: usize) -> (good: bool)
    ensures
        good == good_row(row@, dim as int),
{
    if row.len() != dim {
        return false;
    }
    let mut i: usize = 0;
    while i < row.len()
        invariant
            i <= row@.len(),
            forall|j: int| 0 <= j < i ==> is_finite_bits(#[trigger] row@[j]),
        decreases row.len() - i,
    {
        if !finite_bits(row[i]) {
            assert(!is_finite_bits(row@[i as int]));
            return false;
        }
        i = i + 1;
    }
    true
}

fn check_rows(rows: &[Vec<u32>], dim: usize) -> (good: bool)
    ensures
        good == good_rows(rows@, dim as int),
{
    let mut r: usize = 0;
    while r < rows.len()
        invariant
            r <= rows@.len(),
            forall|i: int| 0 <= i < r ==> good_row((#[trigger] rows@[i])@, dim as int),
        decreases rows.len() - r,
    {
        if !check_row(&rows[r], dim) {
            assert(!good_row(rows@[r as int]@, dim as int));
            return false;
        }
        r = r + 1;
    }
    true
}

/// Whether the matrices of a layer are dense, with separate queries, keys and values.
pub open spec fn dense_layer(model: BlockModel, layer: int) -> bool {
    &&& layer < model.wq@.len()
    &&& model.wq@[layer] == (MatrixShape { rows: model.q_dim, cols: model.dim })
    &&& layer < model.wk@.len()
    &&& model.wk@[layer] == (MatrixShape { rows: model.kv_dim, cols: model.dim })
    &&& layer < model.wv@.len()
    &&& model.wv@[layer] == (MatrixShape { rows: model.kv_dim, cols: model.dim })
    &&& layer >= model.attn_qkv@.len() || model.attn_qkv@[layer].rows == 0
}

/// Whether a model has the layout that staged evaluation supports.
pub open spec fn dense_layout(model: BlockModel) -> bool {
    &&& model.n_deepstack_layers == 0
    &&& model.n_experts == 0
    &&& forall|layer: int| 0 <= layer < model.n_layers ==> #[trigger] dense_layer(model, layer)
}

fn matches_shape(shapes: &Vec<MatrixShape>, layer: usize, rows: usize, cols: usize) -> (ok: bool)
    ensures
        ok == (layer < shapes@.len() && shapes@[layer as int] == (MatrixShape { rows, cols })),
{
    layer < shapes.len() && shapes[layer].rows == rows && shapes[layer].cols == cols
}

fn check_layout(model: &BlockModel) -> (dense: bool)
    ensures
        dense == dense_layout(*model),
{
    if model.n_deepstack_layers != 0 || model.n_experts != 0 {
        return false;
    }
    let mut layer: usize = 0;
    while layer < model.n_layers
        invariant
            layer <= model.n_layers,
            forall|l: int| 0 <= l < layer ==> #[trigger] dense_layer(*model, l),
        decreases model.n_layers - layer,
    {
        let separate = matches_shape(&model.wq, layer, model.q_dim, model.dim) && matches_shape(
            &model.wk,
            layer,
            model.kv_dim,
            model.dim,
        ) && matches_shape(&model.wv, layer, model.kv_dim, model.dim);
        let packed = layer < model.attn_qkv.len() && model.attn_qkv[layer].rows != 0;
        if !separate || packed {
            assert(!dense_layer(*model, layer as int));
            return false;
        }
        assert(dense_layer(*model, layer as int));
        layer = layer + 1;
    }
    true
}

/// Whether a block of the plan covers exactly the given tokens.
pub open spec fn exact_block(plan: MediaAttentionPlan, start: int, len: int) -> bool {
    exists|i: int| #[trigger]
        plan.holds(i, start) && plan.block_list()[i].token_start == start
            && plan.block_list()[i].token_len == len
}

/// Why a block of embeddings at a position cannot be evaluated, if it cannot.
pub open spec fn block_rejection(
    model: BlockModel,
    plan: MediaAttentionPlan,
    embeddings: Seq<Vec<u32>>,
    base: int,
) -> Option<PrefillError> {
    let n = embeddings.len() as int;
    if base + n > usize::MAX {
        Some(PrefillError::RangeOverflow)
    } else if plan.outside(base) {
        Some(PrefillError::NoBlock)
    } else if model.image_mode != ImageAttentionMode::Bidirectional || !exact_block(plan, base, n)
        || base + n > model.seq_len {
        Some(PrefillError::IncompleteBlock)
    } else if !good_rows(embeddings, model.dim as int) {
        Some(PrefillError::BadEmbeddings)
    } else if !dense_layout(model) {
        Some(PrefillError::PackedLayout)
    } else if n * model.dim > usize::MAX || n * model.q_dim > usize::MAX {
        Some(PrefillError::ScratchOverflow)
    } else {
        None
    }
}

/// Checks that a block of embeddings can be evaluated at a position, and gives the lengths of the
/// buffers for its residuals and queries.
pub fn check_image_block(
    model: &BlockModel,
    plan: &MediaAttentionPlan,
    embeddings: &[Vec<u32>],
    base_pos: usize,
) -> (result: Result<(usize, usize), PrefillError>)
    requires
        plan.wf(),
    ensures
        match result {
            Ok((residuals, queries)) => {
                &&& block_rejection(*model, *plan, embeddings@, base_pos as int) is None
                &&& residuals == embeddings@.len() * model.dim
                &&& queries == embeddings@.len() * model.q_dim
            },
            Err(error) => block_rejection(*model, *plan, embeddings@, base_pos as int) == Some(
                error,
            ),
        },
{
    let end: usize = match base_pos.checked_add(embeddings.len()) {
        Some(end) => end,
        None => return Err(PrefillError::RangeOverflow),
    };
    let block = match plan.block_at(base_pos) {
        Some(block) => block,
        None => return Err(PrefillError::NoBlock),
    };
    proof {
        let found = choose|i: int| #[trigger]
            plan.holds(i, base_pos as int) && plan.block_list()[i] == block;
        assert(plan.holds(found, base_pos as int));
        assert(!plan.outside(base_pos as int));
        assert forall|i: int| #[trigger] plan.holds(i, base_pos as int) implies i == found by {
            plan.lemma_one_holder(i, found, base_pos as int);
        }
        assert(exact_block(*plan, base_pos as int, embeddings@.len() as int) <==> (
        block.token_start == base_pos && block.token_len == embeddings@.len()));
    }
    let bidirectional = match model.image_mode {
        ImageAttentionMode::Bidirectional => true,
        _ => false,
    };
    if !bidirectional || block.token_start != base_pos || block.token_len != embeddings.len()
        || end > model.seq_len {
        return Err(PrefillError::IncompleteBlock);
    }
    if !check_rows(embeddings, model.dim) {
        return Err(PrefillError::BadEmbeddings);
    }
    if !check_layout(model) {
        return Err(PrefillError::PackedLayout);
    }
    let residuals: usize = match embeddings.len().checked_mul(model.dim) {
        Some(len) => len,
        None => return Err(PrefillError::ScratchOverflow),
    };
    let queries: usize = match embeddings.len().checked_mul(model.q_dim) {
        Some(len) => len,
        None => return Err(PrefillError::ScratchOverflow),
    };
    Ok((residuals, queries))
}

/// A step of the evaluation of an image block.
#[derive(Clone, Copy, Debug, PartialEq, Eq, Structural)]
pub enum BlockStep {
    /// Compute the query of a row and stage its key and value.
    Stage { layer: usize, row: usize },
    /// Attend from a row to all staged keys, and finish the layer for it.
    Attend { layer: usize, row: usize },
    /// Compute the logits of the last row.
    Logits,
    Finished,
}

/// The step of a number: at each layer all rows are staged before any row attends.
pub open spec fn step_at(n_layers: int, rows: int, logits: bool, number: int) -> BlockStep {
    let per_layer = 2 * rows;
    if number < n_layers * per_layer {
        let layer = number / per_layer;
        let place = number % per_layer;
        if place < rows {
            BlockStep::Stage { layer: layer as usize, row: place as usize }
        } else {
            BlockStep::Attend { layer: layer as usize, row: (place - rows) as usize }
        }
    } else if number == n_layers * per_layer && logits {
        BlockStep::Logits
    } else {
        BlockStep::Finished
    }
}

/// The first step.
pub fn first_step(n_layers: usize, rows: usize, logits: bool) -> (step: BlockStep)
    requires
        rows > 0,
    ensures
        step == step_at(n_layers as int, rows as int, logits, 0),
{
    proof {
        lemma_step(n_layers as int, rows as int, 0, 0);
    }
    if n_layers > 0 {
        BlockStep::Stage { layer: 0, row: 0 }
    } else if logits {
        BlockStep::Logits
    } else {
        BlockStep::Finished
    }
}

/// The number of the first step of a layer, and what division says of the steps of the layer.
proof fn lemma_step(n_layers: int, rows: int, layer: int, place: int)
    requires
        rows > 0,
        0 <= layer,
        0 <= n_layers,
        0 <= place < 2 * rows,
    ensures
        (layer * (2 * rows) + place) / (2 * rows) == layer,
        (layer * (2 * rows) + place) % (2 * rows) == place,
        layer * (2 * rows) + place < n_layers * (2 * rows) <==> layer < n_layers,
        layer * (2 * rows) + 2 * rows == (layer + 1) * (2 * rows),
{
    vstd::arithmetic::div_mod::lemma_fundamental_div_mod_converse(
        layer * (2 * rows) + place,
        2 * rows,
        layer,
        place,
    );
    assert(layer * (2 * rows) + 2 * rows == (layer + 1) * (2 * rows)) by (nonlinear_arith);
    if layer < n_layers {
        assert((layer + 1) * (2 * rows) <= n_layers * (2 * rows)) by (nonlinear_arith)
            requires
                layer + 1 <= n_layers,
                rows > 0,
        ;
    } else {
        assert(layer * (2 * rows) >= n_layers * (2 * rows)) by (nonlinear_arith)
            requires
                layer >= n_layers,
                rows > 0,
        ;
    }
}

/// The step after a step.
pub fn next_step(n_layers: usize, rows: usize, logits: bool, step: BlockStep) -> (next: BlockStep)
    requires
        rows > 0,
    ensures
        forall|number: int|
            0 <= number && step == #[trigger] step_at(
                n_layers as int,
                rows as int,
                logits,
                number,
            ) ==> next == step_at(n_layers as int, rows as int, logits, number + 1),
{
    let after_layers = if logits {
        BlockStep::Logits
    } else {
        BlockStep::Finished
    };
    let next = match step {
        BlockStep::Stage { layer, row } => if row < rows - 1 {
            BlockStep::Stage { layer, row: row + 1 }
        } else {
            BlockStep::Attend { layer, row: 0 }
        },
        BlockStep::Attend { layer, row } => if row < rows - 1 {
            BlockStep::Attend { layer, row: row + 1 }
        } else if n_layers > 0 && layer < n_layers - 1 {
            BlockStep::Stage { layer: layer + 1, row: 0 }
        } else {
            after_layers
        },
        BlockStep::Logits => BlockStep::Finished,
        BlockStep::Finished => BlockStep::Finished,
    };
    proof {
        assert forall|number: int|
            0 <= number && step == #[trigger] step_at(
                n_layers as int,
                rows as int,
                logits,
                number,
            ) implies next == step_at(n_layers as int, rows as int, logits, number + 1) by {
            lemma_next(n_layers, rows, logits, number);
        }
    }
    next
}

/// What comes after a step.
pub open spec fn following(n_layers: usize, rows: usize, logits: bool, step: BlockStep) -> BlockStep {
    match step {
        BlockStep::Stage { layer, row } => if row + 1 < rows {
            BlockStep::Stage { layer, row: (row + 1) as usize }
        } else {
            BlockStep::Attend { layer, row: 0 }
        },
        BlockStep::Attend { layer, row } => if row + 1 < rows {
            BlockStep::Attend { layer, row: (row + 1) as usize }
        } else if layer + 1 < n_layers {
            BlockStep::Stage { layer: (layer + 1) as usize, row: 0 }
        } else if logits {
            BlockStep::Logits
        } else {
            BlockStep::Finished
        },
        BlockStep::Logits => BlockStep::Finished,
        BlockStep::Finished => BlockStep::Finished,
    }
}

proof fn lemma_next(n_layers: usize, rows: usize, logits: bool, number: int)
    requires
        rows > 0,
        0 <= number,
    ensures
        step_at(n_layers as int, rows as int, logits, number + 1) == following(
            n_layers,
            rows,
            logits,
            step_at(n_layers as int, rows as int, logits, number),
        ),
{
    let n = n_layers as int;
    let r = rows as int;
    let per_layer = 2 * r;
    let layer = number / per_layer;
    let place = number % per_layer;
    vstd::arithmetic::div_mod::lemma_fundamental_div_mod(number, per_layer);
    vstd::arithmetic::div_mod::lemma_div_pos_is_pos(number, per_layer);
    assert(number == layer * per_layer + place) by (nonlinear_arith)
        requires
            number == per_layer * layer + place,
    ;
    lemma_step(n, r, layer, place);
    if place + 1 < per_layer {
        lemma_step(n, r, layer, place + 1);
    } else {
        lemma_step(n, r, layer + 1, 0);
        lemma_step(n, r, n, 0);
        if layer + 1 < n {
        } else if layer + 1 == n {
            assert(number + 1 == n * per_layer);
        }
    }
    if number >= n * per_layer {
        lemma_step(n, r, n, 0);
    }
}

/// At every layer each row is staged before any row attends: no query misses a key of its block.
pub proof fn staging_comes_before_attending(
    n_layers: int,
    rows: int,
    logits: bool,
    staged: int,
    attending: int,
    layer: usize,
    row: usize,
    other: usize,
)
    requires
        rows > 0,
        0 <= n_layers <= usize::MAX,
        rows <= usize::MAX,
        0 <= staged,
        0 <= attending,
        step_at(n_layers, rows, logits, staged) == (BlockStep::Stage { layer, row }),
        step_at(n_layers, rows, logits, attending) == (BlockStep::Attend { layer, row: other }),
    ensures
        staged < attending,
{
    let per_layer = 2 * rows;
    vstd::arithmetic::div_mod::lemma_fundamental_div_mod(staged, per_layer);
    vstd::arithmetic::div_mod::lemma_fundamental_div_mod(attending, per_layer);
    vstd::arithmetic::div_mod::lemma_div_pos_is_pos(staged, per_layer);
    vstd::arithmetic::div_mod::lemma_div_pos_is_pos(attending, per_layer);
    let ls = staged / per_layer;
    let la = attending / per_layer;
    assert(0 <= ls < n_layers) by (nonlinear_arith)
        requires
            0 <= ls,
            staged == per_layer * ls + staged % per_layer,
            0 <= staged % per_layer,
            staged < n_layers * per_layer,
            per_layer > 0,
    ;
    assert(0 <= la < n_layers) by (nonlinear_arith)
        requires
            0 <= la,
            attending == per_layer * la + attending % per_layer,
            0 <= attending % per_layer,
            attending < n_layers * per_layer,
            per_layer > 0,
    ;
    assert(ls == la);
}

/// What the choice of a context length reads and sets of a model's configuration.
#[derive(Clone, Copy, Debug, PartialEq, Eq, Structural)]
pub struct ContextConfig {
    pub seq_len: usize,
    pub is_qwen3moe: bool,
    pub is_qwen3next: bool,
    pub is_deepseek2: bool,
}

/// Sets the context length where one is asked for. Tells whether to note that the native context
/// length of a large model is in use.
pub fn apply_context_size_overrides(
    config: &mut ContextConfig,
    context_size: usize,
    debug_mode: bool,
) -> (note: bool)
    ensures
        *final(config) == (ContextConfig {
            seq_len: if context_size > 0 {
                context_size
            } else {
                old(config).seq_len
            },
            ..*old(config)
        }),
        note == (context_size == 0 && debug_mode && (old(config).is_qwen3moe || old(
            config,
        ).is_qwen3next || old(config).is_deepseek2)),
{
    if context_size > 0 {
        config.seq_len = context_size;
        false
    } else {
        debug_mode && (config.is_qwen3moe || config.is_qwen3next || config.is_deepseek2)
    }
}

/// An image block is evaluated layer by layer; in each layer every row is staged, in order, and then
/// every row attends, in order. The logits come last, where they are asked for.
pub proof fn blocks_are_evaluated_layer_by_layer(
    n_layers: int,
    rows: int,
    logits: bool,
    layer: int,
    row: int,
)
    requires
        0 < rows <= usize::MAX,
        0 <= layer < n_layers <= usize::MAX,
        0 <= row < rows,
    ensures
        step_at(n_layers, rows, logits, layer * (2 * rows) + row) == (BlockStep::Stage {
            layer: layer as usize,
            row: row as usize,
        }),
        step_at(n_layers, rows, logits, layer * (2 * rows) + rows + row) == (BlockStep::Attend {
            layer: layer as usize,
            row: row as usize,
        }),
        step_at(n_layers, rows, logits, n_layers * (2 * rows)) == if logits {
            BlockStep::Logits
        } else {
            BlockStep::Finished
        },
        step_at(n_layers, rows, logits, n_layers * (2 * rows) + 1) == BlockStep::Finished,
{
    lemma_step(n_layers, rows, layer, row);
    lemma_step(n_layers, rows, layer, rows + row);
}

/// A block of embeddings can be evaluated exactly where it is one whole block of the plan that may
/// be attended in both directions, lies within the context, has rows of finite values of the model's
/// dimension, the model is dense, and the buffers are machine numbers.
pub proof fn whole_blocks_are_accepted(
    model: BlockModel,
    plan: MediaAttentionPlan,
    embeddings: Seq<Vec<u32>>,
    base: int,
)
    ensures
        block_rejection(model, plan, embeddings, base) is None <==> {
            &&& model.image_mode == ImageAttentionMode::Bidirectional
            &&& exists|i: int| #[trigger]
                plan.holds(i, base) && plan.block_list()[i].token_start == base
                    && plan.block_list()[i].token_len == embeddings.len()
            &&& base + embeddings.len() <= model.seq_len
            &&& forall|r: int, c: int|
                #![trigger embeddings[r]@[c]]
                0 <= r < embeddings.len() && 0 <= c < embeddings[r]@.len() ==> is_finite_bits(
                    embeddings[r]@[c],
                )
            &&& forall|r: int|
                0 <= r < embeddings.len() ==> (#[trigger] embeddings[r])@.len() == model.dim
            &&& dense_layout(model)
            &&& embeddings.len() * model.dim <= usize::MAX
            &&& embeddings.len() * model.q_dim <= usize::MAX
        },
{
    let all = forall|r: int, c: int|
        #![trigger embeddings[r]@[c]]
        0 <= r < embeddings.len() && 0 <= c < embeddings[r]@.len() ==> is_finite_bits(
            embeddings[r]@[c],
        );
    let wide = forall|r: int|
        0 <= r < embeddings.len() ==> (#[trigger] embeddings[r])@.len() == model.dim;
    if good_rows(embeddings, model.dim as int) {
        assert forall|r: int, c: int|
            #![trigger embeddings[r]@[c]]
            0 <= r < embeddings.len() && 0 <= c < embeddings[r]@.len() implies is_finite_bits(
            embeddings[r]@[c],
        ) by {
            assert(good_row(embeddings[r]@, model.dim as int));
        }
    }
    if all && wide {
        assert(good_rows(embeddings, model.dim as int));
    }
    if exact_block(plan, base, embeddings.len() as int) {
        let i = choose|i: int| #[trigger]
            plan.holds(i, base) && plan.block_list()[i].token_start == base
                && plan.block_list()[i].token_len == embeddings.len();
        assert(plan.holds(i, base));
        assert(!plan.outside(base));
    }
}

} // verus!
