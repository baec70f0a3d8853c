//! Shapes, checks and index plans of recurrent (state-space) layers.
use crate::text::{decimal, Text};
use vstd::prelude::*;

verus! {

/// The sizes of a recurrent layer.
#[derive(Clone, Copy, Debug, PartialEq, Eq, Structural)]
pub struct SsmShape {
    pub d_inner: usize,
    pub n_k_heads: usize,
    pub n_v_heads: usize,
    pub head_dim: usize,
    pub conv_kernel: usize,
}

impl SsmShape {
    /// The number of channels that are convolved: queries, keys and values.
    pub open spec fn channels(self) -> int {
        self.d_inner + 2 * self.n_k_heads * self.head_dim
    }

    /// The number of past steps that the convolution sees.
    pub open spec fn history(self) -> int {
        if self.conv_kernel > 0 {
            self.conv_kernel - 1
        } else {
            0
        }
    }

    /// The values that the convolution keeps per layer.
    pub open spec fn history_stride(self) -> int {
        self.history() * self.channels()
    }

    /// The values of the state of one layer.
    pub open spec fn state_stride(self) -> int {
        self.n_v_heads * self.head_dim * self.head_dim
    }

    /// Whether the sizes of the projections can be computed.
    pub open spec fn projections_fit(self) -> bool {
        &&& 2 * self.n_k_heads <= usize::MAX
        &&& self.channels() <= usize::MAX
        &&& 2 * self.n_v_heads <= usize::MAX
        &&& self.n_v_heads * self.head_dim <= usize::MAX
    }

    /// Whether the sizes of the convolution of `n_layers` layers can be computed.
    pub open spec fn convolution_fits(self, n_layers: int) -> bool {
        &&& 2 * self.n_k_heads <= usize::MAX
        &&& self.channels() <= usize::MAX
        &&& self.conv_kernel * self.channels() <= usize::MAX
        &&& self.history_stride() <= usize::MAX
        &&& n_layers * self.history_stride() <= usize::MAX
    }

    /// Whether the sizes of the state of `n_layers` layers can be computed.
    pub open spec fn state_fits(self, n_layers: int) -> bool {
        &&& self.n_v_heads * self.head_dim <= usize::MAX
        &&& self.state_stride() <= usize::MAX
        &&& n_layers * self.state_stride() <= usize::MAX
    }

    /// Whether the sizes of what one layer keeps can be computed.
    pub open spec fn strides_fit(self) -> bool {
        &&& 2 * self.n_k_heads <= usize::MAX
        &&& self.channels() <= usize::MAX
        &&& self.history_stride() <= usize::MAX
        &&& self.n_v_heads * self.head_dim <= usize::MAX
        &&& self.state_stride() <= usize::MAX
    }

    /// Whether the sizes of what `n_layers` layers keep and of the buffers of a step can be
    /// computed.
    pub open spec fn buffers_fit(self, n_layers: int) -> bool {
        &&& n_layers * self.history_stride() <= usize::MAX
        &&& n_layers * self.state_stride() <= usize::MAX
        &&& 2 * self.n_v_heads <= usize::MAX
    }

    /// Whether the sizes describe a layer: nothing is empty, the key heads divide the value heads
    /// and the value heads fill the inner size.
    pub open spec fn valid(self) -> bool {
        &&& self.d_inner > 0
        &&& self.n_k_heads > 0
        &&& self.n_v_heads > 0
        &&& self.head_dim > 0
        &&& self.conv_kernel > 0
        &&& self.n_v_heads % self.n_k_heads == 0
        &&& self.head_dim * self.n_v_heads == self.d_inner
    }

    /// The number of channels that are convolved.
    pub fn conv_dim(&self) -> (r: usize)
        requires
            2 * self.n_k_heads <= usize::MAX,
            self.channels() <= usize::MAX,
        ensures
            r == self.channels(),
    {
        proof {
            assert(2 * self.n_k_heads * self.head_dim >= 0) by (nonlinear_arith);
        }
        self.d_inner + 2 * self.n_k_heads * self.head_dim
    }

    /// The number of past steps that the convolution sees.
    pub fn hist_steps(&self) -> (r: usize)
        ensures
            r == self.history(),
    {
        if self.conv_kernel > 0 {
            self.conv_kernel - 1
        } else {
            0
        }
    }
}

/// Where the parts of a head start among the convolved channels.
#[derive(Clone, Copy, Debug, PartialEq, Eq, Structural)]
pub struct HeadSource {
    pub q: usize,
    pub k: usize,
    pub v: usize,
}

/// A row of a table ends within the table.
pub proof fn lemma_rows_fit(i: int, n: int, d: int)
    requires
        0 <= i < n,
        0 <= d,
    ensures
        0 <= i * d,
        i * d + d <= n * d,
{
    assert(i * d + d == (i + 1) * d) by (nonlinear_arith);
    assert((i + 1) * d <= n * d) by (nonlinear_arith)
        requires
            i + 1 <= n,
            d >= 0,
    ;
    assert(0 <= i * d) by (nonlinear_arith)
        requires
            i >= 0,
            d >= 0,
    ;
}

/// Where the query, key and value of value head `h` start: key heads are repeated periodically.
pub fn head_source(shape: &SsmShape, h: usize) -> (source: HeadSource)
    requires
        shape.n_k_heads > 0,
        2 * shape.n_k_heads <= usize::MAX,
        shape.channels() <= usize::MAX,
        shape.n_v_heads * shape.head_dim <= shape.d_inner,
        h < shape.n_v_heads,
    ensures
        source.q == (h % shape.n_k_heads) * shape.head_dim,
        source.k == shape.n_k_heads * shape.head_dim + (h % shape.n_k_heads) * shape.head_dim,
        source.v == 2 * shape.n_k_heads * shape.head_dim + h * shape.head_dim,
        source.q + shape.head_dim <= shape.n_k_heads * shape.head_dim,
        source.k + shape.head_dim <= 2 * shape.n_k_heads * shape.head_dim,
        source.v + shape.head_dim <= shape.channels(),
{
    let src: usize = h % shape.n_k_heads;
    proof {
        lemma_rows_fit(src as int, shape.n_k_heads as int, shape.head_dim as int);
        lemma_rows_fit(h as int, shape.n_v_heads as int, shape.head_dim as int);
        assert(2 * shape.n_k_heads * shape.head_dim == shape.n_k_heads * shape.head_dim
            + shape.n_k_heads * shape.head_dim) by (nonlinear_arith);
        assert(0 <= shape.n_k_heads * shape.head_dim) by (nonlinear_arith);
    }
    let q: usize = src * shape.head_dim;
    let keys: usize = shape.n_k_heads * shape.head_dim;
    let values: usize = 2 * shape.n_k_heads * shape.head_dim;
    HeadSource { q, k: keys + q, v: values + h * shape.head_dim }
}

/// Where the beta of value head `h` stands in the fused projection: the heads of each key head
/// together, betas first.
pub open spec fn fused_beta(shape: SsmShape, h: int) -> int {
    let per_group = shape.n_v_heads as int / shape.n_k_heads as int;
    (h / per_group) * (2 * per_group) + h % per_group
}

/// Where its alpha stands.
pub open spec fn fused_alpha(shape: SsmShape, h: int) -> int {
    let per_group = shape.n_v_heads as int / shape.n_k_heads as int;
    (h / per_group) * (2 * per_group) + per_group + h % per_group
}

/// Where the beta and alpha of value head `h` stand in the fused projection.
pub fn fused_gate_indices(shape: &SsmShape, h: usize) -> (r: (usize, usize))
    requires
        0 < shape.n_k_heads <= shape.n_v_heads,
        2 * shape.n_v_heads <= usize::MAX,
        h < shape.n_v_heads,
        fused_alpha(*shape, h as int) <= usize::MAX,
    ensures
        r.0 == fused_beta(*shape, h as int),
        r.1 == fused_alpha(*shape, h as int),
        shape.n_v_heads % shape.n_k_heads == 0 ==> r.0 < r.1 < 2 * shape.n_v_heads,
{
    let per_group: usize = shape.n_v_heads / shape.n_k_heads;
    proof {
        let p = per_group as int;
        let v = shape.n_v_heads as int;
        let k = shape.n_k_heads as int;
        assert(0 < v / k <= v) by (nonlinear_arith)
            requires
                0 < k <= v,
        ;
        assert(0 <= h as int / p) by (nonlinear_arith)
            requires
                p > 0,
        ;
        assert(0 <= (h as int / p) * (2 * p)) by (nonlinear_arith)
            requires
                0 <= h as int / p,
                p > 0,
        ;
        if v % k == 0 {
            lemma_group_count(v, k);
            lemma_fused_bounds(h as int, v, k, p);
        }
    }
    let group: usize = h / per_group;
    let idx: usize = h % per_group;
    let base: usize = group * (2 * per_group);
    (base + idx, base + per_group + idx)
}

proof fn lemma_group_count(v: int, k: int)
    requires
        v > 0,
        k > 0,
        v % k == 0,
    ensures
        v / k > 0,
        (v / k) * k == v,
{
    vstd::arithmetic::div_mod::lemma_fundamental_div_mod(v, k);
    assert(k * (v / k) == (v / k) * k) by (nonlinear_arith);
    assert(v / k > 0) by (nonlinear_arith)
        requires
            (v / k) * k == v,
            v > 0,
            k > 0,
    ;
}

proof fn lemma_fused_bounds(h: int, v: int, k: int, per_group: int)
    requires
        0 <= h < v,
        per_group > 0,
        per_group * k == v,
        k > 0,
    ensures
        0 <= (h / per_group) * (2 * per_group),
        (h / per_group) * (2 * per_group) + 2 * per_group <= 2 * v,
        0 <= h % per_group < per_group,
        0 <= h / per_group < k,
{
    let g = h / per_group;
    assert(0 <= g < k) by (nonlinear_arith)
        requires
            0 <= h < per_group * k,
            per_group > 0,
            g == h / per_group,
    ;
    assert(g * (2 * per_group) + 2 * per_group == (g + 1) * (2 * per_group)) by (nonlinear_arith);
    assert((g + 1) * (2 * per_group) <= k * (2 * per_group)) by (nonlinear_arith)
        requires
            g + 1 <= k,
            per_group > 0,
    ;
    assert(k * (2 * per_group) == 2 * (per_group * k)) by (nonlinear_arith);
    assert(0 <= g * (2 * per_group)) by (nonlinear_arith)
        requires
            g >= 0,
            per_group > 0,
    ;
}

/// Two heads never share a beta or an alpha of the fused projection, and no beta is an alpha.
pub proof fn fused_gates_are_distinct(shape: SsmShape, a: int, b: int)
    requires
        shape.valid(),
        0 <= a < b < shape.n_v_heads,
    ensures
        fused_beta(shape, a) != fused_beta(shape, b),
        fused_alpha(shape, a) != fused_alpha(shape, b),
        fused_beta(shape, a) != fused_alpha(shape, b),
        fused_alpha(shape, a) != fused_beta(shape, b),
        fused_beta(shape, a) != fused_alpha(shape, a),
{
    let p = shape.n_v_heads as int / shape.n_k_heads as int;
    lemma_group_count(shape.n_v_heads as int, shape.n_k_heads as int);
    vstd::arithmetic::div_mod::lemma_fundamental_div_mod(a, p);
    vstd::arithmetic::div_mod::lemma_fundamental_div_mod(b, p);
    let ga = a / p;
    let gb = b / p;
    assert(0 <= a % p < p && 0 <= b % p < p);
    if ga != gb {
        assert(ga < gb) by (nonlinear_arith)
            requires
                a == p * ga + a % p,
                b == p * gb + b % p,
                a < b,
                0 <= a % p < p,
                0 <= b % p < p,
                ga != gb,
        ;
        assert(ga * (2 * p) + 2 * p <= gb * (2 * p)) by (nonlinear_arith)
            requires
                ga + 1 <= gb,
                p > 0,
        ;
    }
}

/// The history of a layer after one more step: the oldest row leaves, the new row is last.
pub open spec fn shifted_history<T>(
    state: Seq<T>,
    off: int,
    channels: int,
    steps: int,
    row: Seq<T>,
) -> Seq<T> {
    Seq::new(
        state.len(),
        |i: int|
            if off <= i < off + (steps - 1) * channels {
                state[i + channels]
            } else if off + (steps - 1) * channels <= i < off + steps * channels {
                row[i - off - (steps - 1) * channels]
            } else {
                state[i]
            },
    )
}

/// Moves the history of a layer on by one step.
pub fn shift_history<T: Copy>(
    state: &mut Vec<T>,
    off: usize,
    channels: usize,
    steps: usize,
    row: &[T],
)
    requires
        off + steps * channels <= old(state)@.len(),
        row@.len() == channels,
    ensures
        steps > 0 ==> final(state)@ == shifted_history(
            old(state)@,
            off as int,
            channels as int,
            steps as int,
            row@,
        ),
        steps == 0 ==> final(state)@ == old(state)@,
{
    if steps == 0 {
        return ;
    }
    assert(state@.len() == state.len());
    proof {
        lemma_rows_fit(steps - 1, steps as int, channels as int);
    }
    let tail: usize = (steps - 1) * channels;
    let ghost before = state@;
    let mut i: usize = 0;
    while i < tail
        invariant
            i <= tail,
            tail == (steps - 1) * channels,
            steps > 0,
            off + tail + channels <= before.len(),
            state@.len() == before.len(),
            before.len() <= usize::MAX,
            forall|j: int| 0 <= j < off ==> #[trigger] state@[j] == before[j],
            forall|j: int| off <= j < off + i ==> #[trigger] state@[j] == before[j + channels],
            forall|j: int| off + i <= j < before.len() ==> #[trigger] state@[j] == before[j],
        decreases tail - i,
    {
        let value = state[off + i + channels];
        state.set(off + i, value);
        i = i + 1;
    }
    let mut c: usize = 0;
    while c < channels
        invariant
            c <= channels,
            channels == row@.len(),
            tail == (steps - 1) * channels,
            off + tail + channels <= before.len(),
            state@.len() == before.len(),
            before.len() <= usize::MAX,
            forall|j: int| 0 <= j < off ==> #[trigger] state@[j] == before[j],
            forall|j: int| off <= j < off + tail ==> #[trigger] state@[j] == before[j + channels],
            forall|j: int|
                off + tail <= j < off + tail + c ==> #[trigger] state@[j] == row@[j - off - tail],
            forall|j: int| off + tail + c <= j < before.len() ==> #[trigger] state@[j] == before[j],
        decreases channels - c,
    {
        state.set(off + tail + c, row[c]);
        c = c + 1;
    }
    proof {
        let target = shifted_history(
            before,
            off as int,
            channels as int,
            steps as int,
            row@,
        );
        assert(steps * channels == (steps - 1) * channels + channels) by (nonlinear_arith);
        assert(state@ =~= target);
    }
}

/// Why a recurrent layer cannot be computed.
#[derive(Clone, Copy, Debug, PartialEq, Eq, Structural)]
pub enum RecurrentError {
    InvalidConfig,
    UnevenHeads { n_v_heads: usize, n_k_heads: usize },
    InnerSize { heads: usize, d_inner: usize },
    MissingTensors,
    LayerOutOfRange,
    MissingGates(usize),
    QkvRows { layer: usize, rows: usize, needed: usize },
    GateRows { layer: usize, rows: usize, needed: usize },
    FusedRows { layer: usize, rows: usize, needed: usize },
    SplitRows { layer: usize, alpha: usize, beta: usize, needed: usize },
    ConvolutionLen { layer: usize, len: usize, needed: usize },
    HistoryTooSmall,
    StateTooSmall,
}

impl RecurrentError {
    /// The message text of the error.
    pub open spec fn text(self) -> Seq<char> {
        match self {
            RecurrentError::InvalidConfig => "invalid qwen3next SSM config"@,
            RecurrentError::UnevenHeads { n_v_heads, n_k_heads } =>
                "unsupported qwen3next SSM shape: n_v_heads "@ + decimal(n_v_heads as nat)
                    + " not divisible by n_k_heads "@ + decimal(n_k_heads as nat),
            RecurrentError::InnerSize { heads, d_inner } =>
                "unsupported qwen3next SSM shape: head_dim*n_v_heads "@ + decimal(heads as nat)
                    + " != d_inner "@ + decimal(d_inner as nat),
            RecurrentError::MissingTensors => "missing qwen3next SSM tensors"@,
            RecurrentError::LayerOutOfRange => "qwen3next SSM layer index out of range"@,
            RecurrentError::MissingGates(layer) => "blk."@ + decimal(layer as nat)
                + " is missing qwen3next SSM gate tensors (need ssm_ba.weight or ssm_alpha.weight + ssm_beta.weight)"@,
            RecurrentError::QkvRows { layer, rows, needed } => "blk."@ + decimal(layer as nat)
                + ".attn_qkv.weight has "@ + decimal(rows as nat) + " rows, expected at least "@
                + decimal(needed as nat),
            RecurrentError::GateRows { layer, rows, needed } => "blk."@ + decimal(layer as nat)
                + ".attn_gate.weight has "@ + decimal(rows as nat) + " rows, expected at least "@
                + decimal(needed as nat),
            RecurrentError::FusedRows { layer, rows, needed } => "blk."@ + decimal(layer as nat)
                + ".ssm_ba.weight has "@ + decimal(rows as nat) + " rows, expected at least "@
                + decimal(needed as nat),
            RecurrentError::SplitRows { layer, alpha, beta, needed } => "blk."@ + decimal(
                layer as nat,
            ) + ".ssm_alpha/ssm_beta rows are ("@ + decimal(alpha as nat) + ", "@ + decimal(
                beta as nat,
            ) + "), expected at least ("@ + decimal(needed as nat) + ", "@ + decimal(
                needed as nat,
            ) + ")"@,
            RecurrentError::ConvolutionLen { layer, len, needed } => "blk."@ + decimal(
                layer as nat,
            ) + ".ssm_conv1d.weight has "@ + decimal(len as nat)
                + " elements, expected at least "@ + decimal(needed as nat),
            RecurrentError::HistoryTooSmall => "qwen3next conv state buffer too small"@,
            RecurrentError::StateTooSmall => "qwen3next state buffer too small"@,
        }
    }

    /// The message text of the error.
    pub fn message(self) -> (message: String)
        ensures
            message@ == self.text(),
    {
        match self {
            RecurrentError::InvalidConfig => Text::start("invalid qwen3next SSM config").finish(),
            RecurrentError::UnevenHeads { n_v_heads, n_k_heads } => Text::start(
                "unsupported qwen3next SSM shape: n_v_heads ",
            ).size(n_v_heads).text(" not divisible by n_k_heads ").size(n_k_heads).finish(),
            RecurrentError::InnerSize { heads, d_inner } => Text::start(
                "unsupported qwen3next SSM shape: head_dim*n_v_heads ",
            ).size(heads).text(" != d_inner ").size(d_inner).finish(),
            RecurrentError::MissingTensors => Text::start(
                "missing qwen3next SSM tensors",
            ).finish(),
            RecurrentError::LayerOutOfRange => Text::start(
                "qwen3next SSM layer index out of range",
            ).finish(),
            RecurrentError::MissingGates(layer) => Text::start("blk.").size(layer).text(
                " is missing qwen3next SSM gate tensors (need ssm_ba.weight or ssm_alpha.weight + ssm_beta.weight)",
            ).finish(),
            RecurrentError::QkvRows { layer, rows, needed } => Text::start("blk.").size(
                layer,
            ).text(".attn_qkv.weight has ").size(rows).text(" rows, expected at least ").size(
                needed,
            ).finish(),
            RecurrentError::GateRows { layer, rows, needed } => Text::start("blk.").size(
                layer,
            ).text(".attn_gate.weight has ").size(rows).text(" rows, expected at least ").size(
                needed,
            ).finish(),
            RecurrentError::FusedRows { layer, rows, needed } => Text::start("blk.").size(
                layer,
            ).text(".ssm_ba.weight has ").size(rows).text(" rows, expected at least ").size(
                needed,
            ).finish(),
            RecurrentError::SplitRows { layer, alpha, beta, needed } => Text::start("blk.").size(
                layer,
            ).text(".ssm_alpha/ssm_beta rows are (").size(alpha).text(", ").size(beta).text(
                "), expected at least (",
            ).size(needed).text(", ").size(needed).text(")").finish(),
            RecurrentError::ConvolutionLen { layer, len, needed } => Text::start("blk.").size(
                layer,
            ).text(".ssm_conv1d.weight has ").size(len).text(" elements, expected at least ").size(
                needed,
            ).finish(),
            RecurrentError::HistoryTooSmall => Text::start(
                "qwen3next conv state buffer too small",
            ).finish(),
            RecurrentError::StateTooSmall => Text::start(
                "qwen3next state buffer too small",
            ).finish(),
        }
    }
}

/// The recurrent tensors of a model: how many there are, and the rows of those of one layer.
#[derive(Clone, Copy, Debug)]
pub struct RecurrentTensors {
    pub conv1d_layers: usize,
    pub a_len: usize,
    pub dt_bias_len: usize,
    pub norm_len: usize,
    /// The rows of the fused projection of the layer; zero where it is missing.
    pub ba_rows: usize,
    /// The rows of the alpha projection of the layer; zero where it is missing.
    pub alpha_rows: usize,
    /// The rows of the beta projection of the layer; zero where it is missing.
    pub beta_rows: usize,
    pub qkv_rows: usize,
    pub gate_rows: usize,
}

/// Why the projections of a layer cannot be computed, if they cannot.
pub open spec fn projection_rejection(
    shape: SsmShape,
    t: RecurrentTensors,
    layer: usize,
) -> Option<RecurrentError> {
    let fused = t.ba_rows > 0;
    let split = t.alpha_rows > 0 && t.beta_rows > 0;
    if shape.d_inner == 0 || shape.n_k_heads == 0 || shape.n_v_heads == 0 || shape.head_dim == 0
        || shape.conv_kernel == 0 {
        Some(RecurrentError::InvalidConfig)
    } else if shape.n_v_heads % shape.n_k_heads != 0 {
        Some(
            RecurrentError::UnevenHeads { n_v_heads: shape.n_v_heads, n_k_heads: shape.n_k_heads },
        )
    } else if shape.head_dim * shape.n_v_heads != shape.d_inner {
        Some(
            RecurrentError::InnerSize {
                heads: (shape.head_dim * shape.n_v_heads) as usize,
                d_inner: shape.d_inner,
            },
        )
    } else if t.conv1d_layers == 0 || t.a_len == 0 || t.dt_bias_len == 0 || t.norm_len == 0 {
        Some(RecurrentError::MissingTensors)
    } else if layer >= t.conv1d_layers {
        Some(RecurrentError::LayerOutOfRange)
    } else if !fused && !split {
        Some(RecurrentError::MissingGates(layer))
    } else if t.qkv_rows < shape.channels() {
        Some(
            RecurrentError::QkvRows {
                layer,
                rows: t.qkv_rows,
                needed: shape.channels() as usize,
            },
        )
    } else if t.gate_rows < shape.d_inner {
        Some(RecurrentError::GateRows { layer, rows: t.gate_rows, needed: shape.d_inner })
    } else if fused && t.ba_rows < 2 * shape.n_v_heads {
        Some(
            RecurrentError::FusedRows {
                layer,
                rows: t.ba_rows,
                needed: (2 * shape.n_v_heads) as usize,
            },
        )
    } else if split && (t.alpha_rows < shape.n_v_heads || t.beta_rows < shape.n_v_heads) {
        Some(
            RecurrentError::SplitRows {
                layer,
                alpha: t.alpha_rows,
                beta: t.beta_rows,
                needed: shape.n_v_heads,
            },
        )
    } else {
        None
    }
}

/// Checks that the projections of a layer can be computed; tells whether beta and alpha are
/// fused.
pub fn check_projections(shape: &SsmShape, tensors: &RecurrentTensors, layer: usize) -> (result:
    Result<bool, RecurrentError>)
    requires
        shape.projections_fit(),
    ensures
        match result {
            Ok(fused) => projection_rejection(*shape, *tensors, layer) is None && fused == (
            tensors.ba_rows > 0) && shape.valid(),
            Err(error) => projection_rejection(*shape, *tensors, layer) == Some(error),
        },
{
    let conv_dim: usize = shape.conv_dim();
    if shape.d_inner == 0 || shape.n_k_heads == 0 || shape.n_v_heads == 0 || shape.head_dim == 0
        || shape.conv_kernel == 0 {
        return Err(RecurrentError::InvalidConfig);
    }
    if shape.n_v_heads % shape.n_k_heads != 0 {
        return Err(
            RecurrentError::UnevenHeads { n_v_heads: shape.n_v_heads, n_k_heads: shape.n_k_heads },
        );
    }
    proof {
        assert(shape.head_dim * shape.n_v_heads == shape.n_v_heads * shape.head_dim)
            by (nonlinear_arith);
        assert(shape.head_dim * shape.n_v_heads >= 0) by (nonlinear_arith);
    }
    let heads: usize = shape.head_dim * shape.n_v_heads;
    if heads != shape.d_inner {
        return Err(RecurrentError::InnerSize { heads, d_inner: shape.d_inner });
    }
    if tensors.conv1d_layers == 0 || tensors.a_len == 0 || tensors.dt_bias_len == 0
        || tensors.norm_len == 0 {
        return Err(RecurrentError::MissingTensors);
    }
    if layer >= tensors.conv1d_layers {
        return Err(RecurrentError::LayerOutOfRange);
    }
    let fused: bool = tensors.ba_rows > 0;
    let split: bool = tensors.alpha_rows > 0 && tensors.beta_rows > 0;
    if !fused && !split {
        return Err(RecurrentError::MissingGates(layer));
    }
    if tensors.qkv_rows < conv_dim {
        return Err(
            RecurrentError::QkvRows { layer, rows: tensors.qkv_rows, needed: conv_dim },
        );
    }
    if tensors.gate_rows < shape.d_inner {
        return Err(
            RecurrentError::GateRows { layer, rows: tensors.gate_rows, needed: shape.d_inner },
        );
    }
    if fused && tensors.ba_rows < 2 * shape.n_v_heads {
        return Err(
            RecurrentError::FusedRows {
                layer,
                rows: tensors.ba_rows,
                needed: 2 * shape.n_v_heads,
            },
        );
    }
    if split && (tensors.alpha_rows < shape.n_v_heads || tensors.beta_rows < shape.n_v_heads) {
        return Err(
            RecurrentError::SplitRows {
                layer,
                alpha: tensors.alpha_rows,
                beta: tensors.beta_rows,
                needed: shape.n_v_heads,
            },
        );
    }
    Ok(fused)
}

/// Where the history of a layer starts, once the convolution weights and the history buffer are
/// large enough.
pub fn check_convolution(
    shape: &SsmShape,
    layer: usize,
    weights_len: usize,
    history_len: usize,
) -> (result: Result<usize, RecurrentError>)
    requires
        shape.convolution_fits(layer + 1),
        shape.conv_kernel > 0,
    ensures
        result == if weights_len < shape.conv_kernel * shape.channels() {
            Err::<usize, RecurrentError>(
                RecurrentError::ConvolutionLen {
                    layer,
                    len: weights_len,
                    needed: (shape.conv_kernel * shape.channels()) as usize,
                },
            )
        } else if (layer + 1) * shape.history_stride() > history_len {
            Err(RecurrentError::HistoryTooSmall)
        } else {
            Ok((layer * shape.history_stride()) as usize)
        },
{
    let conv_dim: usize = shape.conv_dim();
    let steps: usize = shape.hist_steps();
    proof {
        assert(shape.conv_kernel * shape.channels() >= 0) by (nonlinear_arith)
            requires
                shape.conv_kernel >= 0,
                shape.channels() >= 0,
        ;
        assert(steps * conv_dim >= 0) by (nonlinear_arith);
        lemma_rows_fit(layer as int, layer + 1, shape.history_stride());
        assert((layer + 1) * shape.history_stride() == layer * shape.history_stride()
            + shape.history_stride()) by (nonlinear_arith);
    }
    let needed: usize = shape.conv_kernel * conv_dim;
    if weights_len < needed {
        return Err(RecurrentError::ConvolutionLen { layer, len: weights_len, needed });
    }
    let stride: usize = steps * conv_dim;
    let off: usize = layer * stride;
    if off + stride > history_len {
        return Err(RecurrentError::HistoryTooSmall);
    }
    Ok(off)
}

/// Where the state of a layer starts, once the state buffer is large enough.
pub fn check_state(shape: &SsmShape, layer: usize, state_len: usize) -> (result: Result<
    usize,
    RecurrentError,
>)
    requires
        shape.state_fits(layer + 1),
    ensures
        result == if (layer + 1) * shape.state_stride() > state_len {
            Err::<usize, RecurrentError>(RecurrentError::StateTooSmall)
        } else {
            Ok((layer * shape.state_stride()) as usize)
        },
{
    proof {
        assert(shape.n_v_heads * shape.head_dim >= 0) by (nonlinear_arith);
        assert(shape.n_v_heads * shape.head_dim * shape.head_dim >= 0) by (nonlinear_arith);
        lemma_rows_fit(layer as int, layer + 1, shape.state_stride());
        assert((layer + 1) * shape.state_stride() == layer * shape.state_stride()
            + shape.state_stride()) by (nonlinear_arith);
    }
    let per_head: usize = shape.n_v_heads * shape.head_dim;
    let stride: usize = per_head * shape.head_dim;
    let off: usize = layer * stride;
    if off + stride > state_len {
        return Err(RecurrentError::StateTooSmall);
    }
    Ok(off)
}

/// One term of the convolution of a channel: a value and the place of its weight.
#[derive(Clone, Copy, Debug, PartialEq, Eq, Structural)]
pub struct ConvTap {
    /// The place of the value in the history, or none for the newest row.
    pub history: Option<usize>,
    pub weight: usize,
}

/// Term `t` of the convolution of channel `c`: the newest row first, then the history from its
/// oldest step on. The weights of a channel lie together, the newest last.
pub open spec fn tap(shape: SsmShape, history_off: int, c: int, t: int) -> ConvTap {
    if t == 0 {
        ConvTap {
            history: None,
            weight: (c * shape.conv_kernel + shape.history()) as usize,
        }
    } else {
        ConvTap {
            history: Some((history_off + (t - 1) * shape.channels() + c) as usize),
            weight: (c * shape.conv_kernel + t - 1) as usize,
        }
    }
}

/// The terms of the convolution of a channel.
pub fn convolution_taps(shape: &SsmShape, history_off: usize, c: usize) -> (taps: Vec<ConvTap>)
    requires
        shape.convolution_fits(0),
        shape.conv_kernel > 0,
        c < shape.channels(),
        history_off + shape.history_stride() <= usize::MAX,
    ensures
        taps@.len() == shape.conv_kernel,
        forall|t: int|
            0 <= t < taps@.len() ==> #[trigger] taps@[t] == tap(
                *shape,
                history_off as int,
                c as int,
                t,
            ) && taps@[t].weight < shape.conv_kernel * shape.channels() && (
            taps@[t].history matches Some(at) ==> history_off <= at < history_off
                + shape.history_stride()),
{
    let channels: usize = shape.conv_dim();
    let steps: usize = shape.hist_steps();
    let kernel: usize = shape.conv_kernel;
    proof {
        lemma_rows_fit(c as int, channels as int, kernel as int);
        assert(kernel * channels == channels * kernel) by (nonlinear_arith);
    }
    let base: usize = c * kernel;
    let mut taps: Vec<ConvTap> = Vec::new();
    taps.push(ConvTap { history: None, weight: base + steps });
    let mut t: usize = 0;
    while t < steps
        invariant
            shape.conv_kernel > 0,
            kernel == shape.conv_kernel,
            channels == shape.channels(),
            steps == shape.history(),
            c < channels,
            base == c * kernel,
            base + kernel <= kernel * channels <= usize::MAX,
            history_off + shape.history_stride() <= usize::MAX,
            t <= steps,
            taps@.len() == t + 1,
            forall|i: int|
                0 <= i < taps@.len() ==> #[trigger] taps@[i] == tap(
                    *shape,
                    history_off as int,
                    c as int,
                    i,
                ) && taps@[i].weight < kernel * channels && (taps@[i].history matches Some(at)
                    ==> history_off <= at < history_off + shape.history_stride()),
        decreases steps - t,
    {
        proof {
            lemma_rows_fit(t as int, steps as int, channels as int);
        }
        taps.push(ConvTap { history: Some(history_off + t * channels + c), weight: base + t });
        t = t + 1;
    }
    taps
}

/// No two terms of a convolution share a weight.
pub proof fn taps_have_their_own_weights(shape: SsmShape, off: int, c: int, t: int, d: int, u: int)
    requires
        shape.convolution_fits(0),
        0 <= c < shape.channels(),
        0 <= d < shape.channels(),
        0 <= t < shape.conv_kernel,
        0 <= u < shape.conv_kernel,
        tap(shape, off, c, t).weight == tap(shape, off, d, u).weight,
    ensures
        c == d,
        t == u,
{
    let k = shape.conv_kernel as int;
    let n = shape.channels();
    let a = if t == 0 {
        k - 1
    } else {
        t - 1
    };
    let b = if u == 0 {
        k - 1
    } else {
        u - 1
    };
    lemma_rows_fit(c, n, k);
    lemma_rows_fit(d, n, k);
    assert(k * n == n * k) by (nonlinear_arith);
    assert(c * k + a == d * k + b);
    assert(c == d && a == b) by (nonlinear_arith)
        requires
            c * k + a == d * k + b,
            0 <= a < k,
            0 <= b < k,
    ;
}

/// Moving the history on drops the oldest row, moves every other row one step back and puts the new
/// row last; nothing outside the history changes.
pub proof fn history_moves_row_by_row<T>(
    state: Seq<T>,
    off: int,
    channels: int,
    steps: int,
    row: Seq<T>,
    step: int,
    channel: int,
    outside: int,
)
    requires
        0 <= off,
        off + steps * channels <= state.len(),
        row.len() == channels,
        0 <= step < steps,
        0 <= channel < channels,
        0 <= outside < state.len(),
        outside < off || off + steps * channels <= outside,
    ensures
        ({
            let after = shifted_history(state, off, channels, steps, row);
            &&& after.len() == state.len()
            &&& step + 1 < steps ==> after[off + step * channels + channel] == state[off + (step
                + 1) * channels + channel]
            &&& step + 1 == steps ==> after[off + step * channels + channel] == row[channel]
            &&& after[outside] == state[outside]
        }),
{
    lemma_rows_fit(step, steps, channels);
    lemma_rows_fit(steps - 1, steps, channels);
    assert((step + 1) * channels == step * channels + channels) by (nonlinear_arith);
    if step + 1 < steps {
        lemma_rows_fit(step, steps - 1, channels);
    }
}

/// The fused projection holds, for each key head, the betas of its value heads and then their
/// alphas.
pub proof fn fused_gates_lie_by_key_head(shape: SsmShape, key_head: int, member: int)
    requires
        shape.valid(),
        0 <= key_head < shape.n_k_heads,
        0 <= member < shape.n_v_heads as int / shape.n_k_heads as int,
    ensures
        ({
            let members = shape.n_v_heads as int / shape.n_k_heads as int;
            let head = key_head * members + member;
            &&& 0 <= head < shape.n_v_heads
            &&& fused_beta(shape, head) == 2 * members * key_head + member
            &&& fused_alpha(shape, head) == 2 * members * key_head + members + member
        }),
{
    let members = shape.n_v_heads as int / shape.n_k_heads as int;
    let k = shape.n_k_heads as int;
    lemma_group_count(shape.n_v_heads as int, k);
    crate::tables::lemma_row_place(k, members, key_head, member);
    assert(k * members == members * k) by (nonlinear_arith);
    assert(key_head * (2 * members) == 2 * members * key_head) by (nonlinear_arith);
}

/// The terms of a channel pair each of the past rows of the channel with the weight of its step,
/// oldest first, and the newest row with the last weight.
pub proof fn taps_pair_rows_with_their_weights(shape: SsmShape, off: usize, c: int, step: int)
    requires
        shape.convolution_fits(0),
        0 <= c < shape.channels(),
        0 <= step < shape.conv_kernel - 1,
        off + (shape.conv_kernel - 1) * shape.channels() <= usize::MAX,
    ensures
        tap(shape, off as int, c, 0).history is None,
        tap(shape, off as int, c, 0).weight == c * shape.conv_kernel + shape.conv_kernel - 1,
        tap(shape, off as int, c, step + 1).history is Some,
        tap(shape, off as int, c, step + 1).history->0 == off + step * shape.channels() + c,
        tap(shape, off as int, c, step + 1).weight == c * shape.conv_kernel + step,
{
    let k = shape.conv_kernel as int;
    let n = shape.channels();
    lemma_rows_fit(c, n, k);
    assert(k * n == n * k) by (nonlinear_arith);
    lemma_rows_fit(step, k - 1, n);
}

/// The projections of a layer can be computed exactly where the sizes describe a layer, the model
/// has recurrent tensors for it and the rows of every projection suffice.
pub proof fn projections_are_accepted_where_they_suffice(
    shape: SsmShape,
    t: RecurrentTensors,
    layer: usize,
)
    ensures
        projection_rejection(shape, t, layer) is None <==> {
            &&& shape.d_inner > 0 && shape.n_k_heads > 0 && shape.n_v_heads > 0 && shape.head_dim
                > 0 && shape.conv_kernel > 0
            &&& shape.n_v_heads % shape.n_k_heads == 0
            &&& shape.head_dim * shape.n_v_heads == shape.d_inner
            &&& layer < t.conv1d_layers && t.a_len > 0 && t.dt_bias_len > 0 && t.norm_len > 0
            &&& t.qkv_rows >= shape.d_inner + 2 * shape.n_k_heads * shape.head_dim
            &&& t.gate_rows >= shape.d_inner
            &&& t.ba_rows > 0 || (t.alpha_rows > 0 && t.beta_rows > 0)
            &&& t.ba_rows > 0 ==> t.ba_rows >= 2 * shape.n_v_heads
            &&& t.alpha_rows > 0 && t.beta_rows > 0 ==> t.alpha_rows >= shape.n_v_heads
                && t.beta_rows >= shape.n_v_heads
        },
{
}

} // verus!
